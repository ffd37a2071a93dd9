use gaokao_apply::extract::{first_extraction_action, next_extraction_action, ExtractAction, Extractor};

const FAILED: &str = "PDF文本提取失败：所有方法均无法解码该PDF（CID字体）。\n建议：pip install pdfplumber 后重试。";

#[test]
fn extractors_are_tried_in_order() {
    assert!(matches!(first_extraction_action(), ExtractAction::Run(Extractor::PdfExtract)));
    assert!(matches!(
        next_extraction_action(Extractor::PdfExtract, None),
        ExtractAction::Run(Extractor::Lopdf)
    ));
    assert!(matches!(
        next_extraction_action(Extractor::Lopdf, None),
        ExtractAction::Run(Extractor::UvPython)
    ));
    assert!(matches!(
        next_extraction_action(Extractor::UvPython, None),
        ExtractAction::Run(Extractor::Python)
    ));
    assert!(matches!(
        next_extraction_action(Extractor::Python, None),
        ExtractAction::Run(Extractor::Python3)
    ));
    match next_extraction_action(Extractor::Python3, None) {
        ExtractAction::Finish(Err(e)) => assert_eq!(e, FAILED),
        other => panic!("unexpected {:?}", other),
    }
}

#[test]
fn good_text_is_accepted() {
    match next_extraction_action(Extractor::Lopdf, Some("上海市 投档线".to_string())) {
        ExtractAction::Finish(Ok(t)) => assert_eq!(t, "上海市 投档线"),
        other => panic!("unexpected {:?}", other),
    }
}

#[test]
fn poor_text_is_rejected() {
    let latin = "x".repeat(80);
    assert!(matches!(
        next_extraction_action(Extractor::PdfExtract, Some(latin.clone())),
        ExtractAction::Run(Extractor::Lopdf)
    ));
    assert!(matches!(
        next_extraction_action(Extractor::Python3, Some(latin)),
        ExtractAction::Finish(Err(_))
    ));
    assert!(matches!(
        next_extraction_action(Extractor::UvPython, Some("   ".to_string())),
        ExtractAction::Run(Extractor::Python)
    ));
}
