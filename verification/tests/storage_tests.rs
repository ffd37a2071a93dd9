use gaokao_apply::storage::{file_name_with_extension, gaokao_summary, skill_description, split_file_name};

#[test]
fn stored_file_names() {
    assert_eq!(file_name_with_extension("zhangxuefeng", "md"), "zhangxuefeng.md");
    assert_eq!(file_name_with_extension("shanghai-2025", "json"), "shanghai-2025.json");
}

#[test]
fn stems_and_extensions() {
    assert_eq!(split_file_name("skill.md"), ("skill".to_string(), Some("md".to_string())));
    assert_eq!(split_file_name("a.b.json"), ("a.b".to_string(), Some("json".to_string())));
    assert_eq!(split_file_name("README"), ("README".to_string(), None));
    assert_eq!(split_file_name(".md"), (".md".to_string(), None));
    assert_eq!(split_file_name("x."), ("x".to_string(), Some("".to_string())));
    assert_eq!(split_file_name(".."), ("..".to_string(), None));
    assert_eq!(split_file_name("..md"), (".".to_string(), Some("md".to_string())));
}

#[test]
fn std_path_agrees_on_stems_and_extensions() {
    for name in ["skill.md", "a.b.json", "README", ".md", "x.", "..md", "中文.md"] {
        let p = std::path::Path::new(name);
        let (stem, ext) = split_file_name(name);
        assert_eq!(Some(stem.as_str()), p.file_stem().and_then(|s| s.to_str()));
        assert_eq!(ext.as_deref(), p.extension().and_then(|s| s.to_str()));
    }
}

#[test]
fn skill_descriptions() {
    assert_eq!(skill_description("intro\n## 张雪峰风格  \nbody", "zxf"), "张雪峰风格");
    assert_eq!(skill_description("no heading", "zxf"), "zxf");
    assert_eq!(skill_description("", "zxf"), "zxf");
    assert_eq!(skill_description(" # not first\n#", "zxf"), "");
}

#[test]
fn gaokao_listing_defaults() {
    let s = gaokao_summary("k", None, None, None, None);
    assert_eq!(s.key, "k");
    assert_eq!(s.title, "k");
    assert_eq!(s.year, 0);
    assert_eq!(s.province, "");
    assert_eq!(s.count, 0);
    let s = gaokao_summary("k", Some("表".to_string()), Some(2025), Some("上海".to_string()), Some(7));
    assert_eq!((s.title.as_str(), s.year, s.province.as_str(), s.count), ("表", 2025, "上海", 7));
}
