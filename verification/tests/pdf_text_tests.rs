use gaokao_apply::pdf_text::{
    decode_content, extract_text_from_contents, extract_text_from_pages, op_kind_of,
    push_pdf_string, OpKind, PageFont, PageSource, PdfOp, PdfOperand, PdfPage,
};

fn op(operator: &str, operand: Option<PdfOperand>) -> PdfOp {
    PdfOp { operator: operator.to_string(), operand }
}

fn text_of(bytes: &[u8]) -> String {
    let mut out = String::from(">");
    push_pdf_string(&mut out, bytes);
    out[1..].to_string()
}

#[test]
fn gbk_bytes_are_decoded() {
    assert_eq!(text_of(&[0xD6, 0xD0, 0xCE, 0xC4]), "中文");
}

#[test]
fn ascii_bytes_are_kept() {
    assert_eq!(text_of(b"Hello 123"), "Hello 123");
}

#[test]
fn undecodable_bytes_fall_back_to_lossy_utf8() {
    assert_eq!(text_of(&[0xFF]), "\u{FFFD}");
    assert_eq!(text_of("é".as_bytes()), "茅");
    assert_eq!(text_of(&[0xEF, 0xBB, 0xBF, b'a']), "a");
}

#[test]
fn operator_kinds() {
    assert!(matches!(op_kind_of("BT"), OpKind::BeginText));
    assert!(matches!(op_kind_of("ET"), OpKind::EndText));
    assert!(matches!(op_kind_of("T*"), OpKind::NextLine));
    assert!(matches!(op_kind_of("TD"), OpKind::NextLine));
    assert!(matches!(op_kind_of("Tf"), OpKind::SetFont));
    assert!(matches!(op_kind_of("'"), OpKind::ShowText));
    assert!(matches!(op_kind_of("TJ"), OpKind::ShowArray));
    assert!(matches!(op_kind_of("Tc"), OpKind::Ignored));
}

fn cmap_font(name: &str) -> PageFont {
    PageFont {
        name: name.as_bytes().to_vec(),
        to_unicode: Some(b"beginbfchar\n<0001> <4E2D>\n<0002> <6587>\nendbfchar\n".to_vec()),
    }
}

#[test]
fn text_with_tounicode_font() {
    let page = PdfPage {
        fonts: vec![cmap_font("F1")],
        ops: Some(vec![
            op("BT", None),
            op("Tf", Some(PdfOperand::Name(b"F1".to_vec()))),
            op("Tj", Some(PdfOperand::Str(vec![0, 1, 0, 2]))),
            op("Td", None),
            op(
                "TJ",
                Some(PdfOperand::Array(vec![Some(vec![0, 2]), None, Some(vec![0, 1])])),
            ),
            op("ET", None),
        ]),
    };
    assert_eq!(extract_text_from_pages(&vec![page]), Some(Ok("中文\n文中\n".to_string())));
}

#[test]
fn strings_outside_text_objects_are_ignored() {
    let page = PdfPage {
        fonts: vec![],
        ops: Some(vec![
            op("Tj", Some(PdfOperand::Str(b"skip".to_vec()))),
            op("BT", None),
            op("Tj", Some(PdfOperand::Str(b"keep".to_vec()))),
            op("ET", None),
        ]),
    };
    assert_eq!(extract_text_from_pages(&vec![page]), Some(Ok("keep\n".to_string())));
}

#[test]
fn unknown_font_uses_raw_bytes_and_pages_concatenate() {
    let p1 = PdfPage {
        fonts: vec![cmap_font("F1")],
        ops: Some(vec![
            op("BT", None),
            op("Tf", Some(PdfOperand::Name(b"F2".to_vec()))),
            op("'", Some(PdfOperand::Str(vec![0xD6, 0xD0]))),
            op("ET", None),
        ]),
    };
    let p2 = PdfPage { fonts: vec![], ops: None };
    let p3 = PdfPage {
        fonts: vec![],
        ops: Some(vec![op("BT", None), op("Tj", Some(PdfOperand::Str(b"x".to_vec())))]),
    };
    assert_eq!(extract_text_from_pages(&vec![p1, p2, p3]), Some(Ok("中\nx".to_string())));
}

#[test]
fn whitespace_only_text_is_an_error() {
    let page = PdfPage { fonts: vec![], ops: Some(vec![op("BT", None), op("ET", None)]) };
    assert_eq!(
        extract_text_from_pages(&vec![page]),
        Some(Err("PDF中未能提取到文本（可能为扫描件或加密PDF）".to_string()))
    );
    assert_eq!(
        extract_text_from_pages(&vec![]),
        Some(Err("PDF中未能提取到文本（可能为扫描件或加密PDF）".to_string()))
    );
}

#[test]
fn a_cmap_that_panics_stops_extraction() {
    let page = PdfPage {
        fonts: vec![PageFont {
            name: b"F1".to_vec(),
            to_unicode: Some("beginbfchar\n<aéa> <41>\n".as_bytes().to_vec()),
        }],
        ops: None,
    };
    assert_eq!(extract_text_from_pages(&vec![page]), None);
}

#[test]
fn content_bytes_decode_into_operations() {
    let ops = decode_content(b"BT /F1 12 Tf <00010002> Tj [(ab) 5 <0001>] TJ ET").unwrap();
    let ops: Vec<(String, bool)> = ops.iter().map(|o| (o.operator.clone(), o.operand.is_some())).collect();
    assert_eq!(
        ops,
        vec![
            ("BT".to_string(), false),
            ("Tf".to_string(), true),
            ("Tj".to_string(), true),
            ("TJ".to_string(), true),
            ("ET".to_string(), false),
        ]
    );
}

#[test]
fn text_from_page_content_bytes() {
    let page = PageSource {
        fonts: vec![cmap_font("F1")],
        content: b"BT /F1 12 Tf <00010002> Tj T* [<0002> -120 <0001>] TJ ET".to_vec(),
    };
    assert_eq!(extract_text_from_contents(&vec![page]), Some(Ok("中文\n文中\n".to_string())));
    let page = PageSource { fonts: vec![], content: b"BT (Hello) Tj ET".to_vec() };
    assert_eq!(extract_text_from_contents(&vec![page]), Some(Ok("Hello\n".to_string())));
    let page = PageSource { fonts: vec![], content: b"q Q".to_vec() };
    assert_eq!(
        extract_text_from_contents(&vec![page]),
        Some(Err("PDF中未能提取到文本（可能为扫描件或加密PDF）".to_string()))
    );
}
