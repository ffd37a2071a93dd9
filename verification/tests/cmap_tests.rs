use gaokao_apply::cmap::{bytes_to_u32, decode_with_cmap, parse_cmap, parse_hex_bytes, CMap};

#[test]
fn hex_tokens() {
    assert_eq!(parse_hex_bytes("<0041>"), Some(vec![0x00, 0x41]));
    assert_eq!(parse_hex_bytes("<4E2d>"), Some(vec![0x4e, 0x2d]));
    assert_eq!(parse_hex_bytes("<>"), Some(vec![]));
    assert_eq!(parse_hex_bytes("<+f>"), Some(vec![15]));
    assert_eq!(parse_hex_bytes("<zz>"), None);
    assert_eq!(parse_hex_bytes("<abc>"), None);
    assert_eq!(parse_hex_bytes("<é>"), None);
    assert_eq!(parse_hex_bytes("<"), None);
    assert_eq!(parse_hex_bytes("0041"), None);
    assert_eq!(parse_hex_bytes("<0041"), None);
}

#[test]
fn big_endian_low_32_bits() {
    assert_eq!(bytes_to_u32(&[]), 0);
    assert_eq!(bytes_to_u32(&[0x4e, 0x2d]), 0x4e2d);
    assert_eq!(bytes_to_u32(&[1, 2, 3, 4, 5]), 0x02030405);
}

#[test]
fn bfchar_and_decode() {
    let data = b"/CIDInit begincmap\nbeginbfchar\n<01> <4E2D>\n<0203> <6587>\nendbfchar\nendcmap\n";
    let cmap = parse_cmap(data).unwrap();
    assert!(!cmap.is_empty());
    assert_eq!(cmap.get(&[1]).map(|s| s.as_str()), Some("中"));
    assert_eq!(cmap.get(&[2, 3]).map(|s| s.as_str()), Some("文"));
    assert_eq!(decode_with_cmap(&[1, 2, 3, 0xff], &cmap), "中文");
}

#[test]
fn a_section_opens_only_on_an_exact_line() {
    let data = b"1 beginbfchar\n<01> <4E2D>\nendbfchar\n  beginbfchar  \n<02> <6587>\nendbfchar\n";
    let cmap = parse_cmap(data).unwrap();
    assert_eq!(cmap.get(&[1]), None);
    assert_eq!(cmap.get(&[2]).map(|s| s.as_str()), Some("文"));
}

#[test]
fn two_byte_code_wins_over_one_byte_code() {
    let data = b"beginbfchar\n<01> <0041>\n<0102> <0042>\n<02> <0043>\nendbfchar\n";
    let cmap = parse_cmap(data).unwrap();
    assert_eq!(decode_with_cmap(&[1, 2], &cmap), "B");
    assert_eq!(decode_with_cmap(&[2, 1], &cmap), "CA");
}

#[test]
fn bfrange_maps_consecutive_codes() {
    let data = b"beginbfrange\n<0001> <0003> <0041>\nendbfrange\n";
    let cmap = parse_cmap(data).unwrap();
    assert_eq!(decode_with_cmap(&[0, 1, 0, 2, 0, 3, 0, 4], &cmap), "ABC");
    let data = b"beginbfrange\n<10> <11> <4E2D>\nendbfrange\n";
    let cmap = parse_cmap(data).unwrap();
    assert_eq!(decode_with_cmap(&[0x10, 0x11], &cmap), "中丮");
}

#[test]
fn lines_outside_sections_and_later_mappings() {
    let data = b"<01> <0041>\nbeginbfchar\n<01> <0042>\n<01> <0043>\nendbfchar\n<01> <0044>\n";
    let cmap = parse_cmap(data).unwrap();
    assert_eq!(decode_with_cmap(&[1], &cmap), "C");
    let empty = parse_cmap(b"nothing here").unwrap();
    assert!(empty.is_empty());
    assert_eq!(decode_with_cmap(&[1, 2], &empty), "");
}

#[test]
fn surrogates_are_not_mapped() {
    let data = b"beginbfchar\n<01> <D800>\nendbfchar\n";
    let cmap = parse_cmap(data).unwrap();
    assert!(cmap.is_empty());
}

#[test]
fn inputs_on_which_reading_panics() {
    assert!(parse_cmap("beginbfchar\n<aéa> <41>\nendbfchar\n".as_bytes()).is_none());
    assert!(parse_cmap(b"beginbfrange\n<00> <05> <FFFFFFFF>\nendbfrange\n").is_none());
    assert!(parse_cmap(b"beginbfrange\n<00> <00> <FFFFFFFF>\nendbfrange\n").is_some());
}

#[test]
fn map_insert_replaces() {
    let mut m = CMap::new();
    assert!(m.is_empty());
    m.insert(vec![1, 2, 3], "x".to_string());
    m.insert(vec![1, 2, 3], "y".to_string());
    assert_eq!(m.get(&[1, 2, 3]).map(|s| s.as_str()), Some("y"));
    assert_eq!(m.get(&[1, 2]), None);
    assert!(!m.is_empty());
}

#[test]
fn invalid_utf8_in_cmap_stream() {
    let mut data = b"beginbfchar\n<01> <0041>\n".to_vec();
    data.extend_from_slice(&[0xff, 0xfe, b'\n']);
    data.extend_from_slice(b"endbfchar\n");
    let cmap = parse_cmap(&data).unwrap();
    assert_eq!(decode_with_cmap(&[1], &cmap), "A");
}
