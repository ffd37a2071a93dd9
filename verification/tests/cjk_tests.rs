use gaokao_apply::cjk::{is_cjk, remove_isolated_cjk, remove_isolated_cjk_chars, text_quality_ok};

#[test]
fn cjk_block_bounds() {
    assert!(is_cjk('中'));
    assert!(is_cjk('\u{4e00}'));
    assert!(is_cjk('\u{9fff}'));
    assert!(!is_cjk('\u{4dff}'));
    assert!(!is_cjk('\u{a000}'));
    assert!(!is_cjk('a'));
    assert!(!is_cjk('，'));
}

#[test]
fn isolated_watermark_is_removed() {
    assert_eq!(remove_isolated_cjk("中 文字"), "文字");
    assert_eq!(remove_isolated_cjk("清华大学"), "清华大学");
    assert_eq!(remove_isolated_cjk("印 复旦大学"), "复旦大学");
}

#[test]
fn blanks_collapse_and_trim() {
    assert_eq!(remove_isolated_cjk("清华大学  A"), "清华大学 A");
    assert_eq!(remove_isolated_cjk("北\t京 大学"), "大学");
    assert_eq!(remove_isolated_cjk("  a \t\t b  "), "a b");
    assert_eq!(remove_isolated_cjk(""), "");
}

#[test]
fn isolated_cjk_between_latin_letters_is_removed() {
    assert_eq!(remove_isolated_cjk("A组"), "A");
    assert_eq!(remove_isolated_cjk("x中y"), "xy");
    let chars: Vec<char> = "中国 人".chars().collect();
    let kept: String = remove_isolated_cjk_chars(&chars).into_iter().collect();
    assert_eq!(kept, "中国");
}

#[test]
fn result_has_no_tab_or_double_space() {
    for s in ["a\t\tb", "中文  \t 字符", " x  y ", "印\t甲乙  丙"] {
        let r = remove_isolated_cjk(s);
        assert!(!r.contains('\t'));
        assert!(!r.contains("  "));
        assert_eq!(r.trim(), r);
    }
}

#[test]
fn watermark_removal_is_idempotent() {
    for s in ["印 复旦大学 A组", "x中y  中国\t人", "  甲 乙丙 丁  ", "北\t京 大学", "中 文字 和"] {
        let once = remove_isolated_cjk(s);
        assert_eq!(remove_isolated_cjk(&once), once);
    }
    // A pair whose partner was a watermark stays: "中国 人" keeps "中国".
    let once = remove_isolated_cjk("人 中国 字");
    assert_eq!(once, "中国");
    assert_eq!(remove_isolated_cjk(&once), "中国");
}

#[test]
fn quality_of_empty_and_blank_text() {
    assert!(!text_quality_ok(""));
    assert!(!text_quality_ok(" \n\t \u{3000}"));
}

#[test]
fn quality_of_short_text_is_accepted() {
    assert!(text_quality_ok("abc"));
    assert!(text_quality_ok(&"x".repeat(49)));
}

#[test]
fn quality_threshold_is_eight_percent() {
    let base = "x".repeat(45);
    let five = format!("{}{}", base, "中文字符串");
    assert!(text_quality_ok(&five));
    let four = format!("{}{}", "x".repeat(46), "中文字符");
    assert!(!text_quality_ok(&four));
    assert!(!text_quality_ok(&"x".repeat(50)));
    let spaced = format!("{} {}", "中".repeat(10), "y ".repeat(60));
    assert!(text_quality_ok(&spaced));
}
