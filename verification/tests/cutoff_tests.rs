use gaokao_apply::cutoff::{cutoff_data_from_text, parse_cutoff_lines, CutoffValue};

#[test]
fn plain_line_gives_entry() {
    let e = parse_cutoff_lines("10001 北京大学 650\n", 2025, "上海");
    assert_eq!(e.len(), 1);
    assert_eq!(e[0].code, "10001");
    assert_eq!(e[0].name, "北京大学");
    assert_eq!(e[0].cutoff, CutoffValue::Score(650));
}

#[test]
fn watermark_before_code_and_in_name() {
    let e = parse_cutoff_lines("印10002 复旦大学 A组 600", 2025, "上海");
    assert_eq!(e.len(), 1);
    assert_eq!(e[0].code, "10002");
    assert_eq!(e[0].name, "复旦大学 A");
    assert_eq!(e[0].cutoff, CutoffValue::Score(600));
}

#[test]
fn and_above_line_gives_text_cutoff() {
    let e = parse_cutoff_lines("10003 清华大学 580 分及以上", 2025, "上海");
    assert_eq!(e.len(), 1);
    assert_eq!(e[0].cutoff, CutoffValue::Text("580分及以上".to_string()));
}

#[test]
fn numbers_out_of_range_join_the_name() {
    let e = parse_cutoff_lines("10004 中国人民大学 2025 620 100", 2025, "上海");
    assert_eq!(e.len(), 1);
    assert_eq!(e[0].name, "中国人民大学 2025");
    assert_eq!(e[0].cutoff, CutoffValue::Score(620));
    let e = parse_cutoff_lines("10004 某大学 +300", 2025, "上海");
    assert_eq!(e[0].cutoff, CutoffValue::Score(300));
}

#[test]
fn lines_without_entry_are_skipped() {
    let text = "1234567\n北京大学 650 123456\n10005 650\n10006 某大学 250 299\n1234 大学 650\n";
    assert!(parse_cutoff_lines(text, 2025, "上海").is_empty());
}

#[test]
fn several_lines_in_order_with_crlf() {
    let text = "标题\r\n  10007 上海交通大学 640  \r\n10008 同济大学 610\r\n";
    let e = parse_cutoff_lines(text, 2025, "上海");
    assert_eq!(e.len(), 2);
    assert_eq!(e[0].code, "10007");
    assert_eq!(e[0].name, "上海交通大学");
    assert_eq!(e[1].code, "10008");
    assert_eq!(e[1].cutoff, CutoffValue::Score(610));
}

#[test]
fn long_codes_are_kept_whole() {
    let e = parse_cutoff_lines("1234567890 华东师范大学 630", 2025, "上海");
    assert_eq!(e[0].code, "1234567890");
}

#[test]
fn table_with_defaults() {
    let d = cutoff_data_from_text("10001 北京大学 650", None, None);
    assert_eq!(d.year, 2025);
    assert_eq!(d.province, "上海");
    assert_eq!(d.title, "2025年上海普通高校招生本科普通批次平行志愿院校专业组投档分数线");
    assert_eq!(
        d.note.as_deref(),
        Some("580分及以上考生投档信息另行告知；部分院校Q组、中外合作办学院校专业组投档结果另行公布")
    );
    assert_eq!(d.data.len(), 1);
    assert_eq!(d.raw_text_sample.as_deref(), Some("10001 北京大学 650"));
    assert_eq!(d.parse_warning, None);
}

#[test]
fn table_without_entries_warns() {
    let d = cutoff_data_from_text("a\nb\nc\n", Some(2024), Some("北京".to_string()));
    assert_eq!(d.title, "2024年北京普通高校招生本科普通批次平行志愿院校专业组投档分数线");
    assert_eq!(
        d.parse_warning.as_deref(),
        Some("提取到 3 行文本，但未匹配到任何分数线记录。请检查原始文本是否包含院校代码列。")
    );
}

#[test]
fn long_text_sample_is_cut_at_3000_bytes() {
    let text = "a".repeat(3005);
    let d = cutoff_data_from_text(&text, None, None);
    let expected = format!("{}…（共3005字符）", "a".repeat(3000));
    assert_eq!(d.raw_text_sample.as_deref(), Some(expected.as_str()));
    let text = "中".repeat(1001);
    assert!(text.is_char_boundary(3000));
    let d = cutoff_data_from_text(&text, None, None);
    let expected = format!("{}…（共3003字符）", "中".repeat(1000));
    assert_eq!(d.raw_text_sample.as_deref(), Some(expected.as_str()));
}

#[test]
fn long_text_sample_is_cut_back_to_a_char_boundary() {
    // Byte 3000 falls inside the 1001st "中": the sample keeps 1000 of them.
    let text = format!("a{}", "中".repeat(1001));
    assert!(!text.is_char_boundary(3000));
    let d = cutoff_data_from_text(&text, None, None);
    let expected = format!("a{}…（共3004字符）", "中".repeat(999));
    assert_eq!(d.raw_text_sample.as_deref(), Some(expected.as_str()));
    let text = format!("ab{}", "中".repeat(1001));
    let d = cutoff_data_from_text(&text, None, None);
    let expected = format!("ab{}…（共3005字符）", "中".repeat(999));
    assert_eq!(d.raw_text_sample.as_deref(), Some(expected.as_str()));
}
