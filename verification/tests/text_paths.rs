use mise_plugins::paths::{path_components_of, path_ends_with, path_eq, path_join, path_starts_with};
use mise_plugins::sorted_map::SortedMap;
use mise_plugins::text::{first_segment_of, split_once, str_order, strip_prefix, trim};

#[test]
fn trim_removes_unicode_white_space() {
    assert_eq!(trim("  a b \n"), "a b");
    assert_eq!(trim("\u{3000}x\u{85}"), "x");
    assert_eq!(trim(" \t\r\n"), "");
    assert_eq!(trim("x"), "x");
}

#[test]
fn string_helpers() {
    assert_eq!(first_segment_of("a:b:c", ':'), "a");
    assert_eq!(first_segment_of("abc", ':'), "abc");
    assert_eq!(split_once("a:b:c", ':'), Some(("a", "b:c")));
    assert_eq!(split_once("abc", ':'), None);
    assert_eq!(strip_prefix("vfox:node", "vfox:"), Some("node"));
    assert_eq!(strip_prefix("vfo", "vfox:"), None);
    assert_eq!(str_order("a", "b"), -1);
    assert_eq!(str_order("b", "ab"), 1);
    assert_eq!(str_order("ab", "ab"), 0);
    assert_eq!(str_order("a", "ab"), -1);
    assert_eq!(str_order("é", "z"), 1);
}

#[test]
fn path_components_and_joins() {
    assert_eq!(path_components_of("/a//b/./c/"), vec!["/", "a", "b", "c"]);
    assert_eq!(path_components_of("./a/."), vec![".", "a"]);
    assert_eq!(path_components_of("a/../b"), vec!["a", "..", "b"]);
    assert!(path_components_of("").is_empty());
    assert!(path_eq("/a/b", "/a//b/"));
    assert!(!path_eq("/a/b", "a/b"));
    assert!(path_starts_with("/data/plugins/x", "/data/plugins"));
    assert!(!path_starts_with("/data/pluginsx", "/data/plugins"));
    assert!(path_ends_with("/a/gradle", "gradle"));
    assert!(!path_ends_with("/a/my-gradle", "gradle"));
    assert_eq!(path_join("/a", "b"), "/a/b");
    assert_eq!(path_join("/a/", "b"), "/a/b");
    assert_eq!(path_join("", "b"), "b");
    assert_eq!(path_join("/a", "/b"), "/b");
    assert_eq!(path_join("/a", ""), "/a/");
}

#[test]
fn sorted_map_keeps_keys_ordered() {
    let mut m: SortedMap<u32> = SortedMap::new();
    m.insert("b".to_string(), 2);
    m.insert("a".to_string(), 1);
    m.insert("c".to_string(), 3);
    m.insert("b".to_string(), 20);
    assert_eq!(m.len(), 3);
    assert_eq!(m.key_at(0), "a");
    assert_eq!(m.key_at(1), "b");
    assert_eq!(*m.value_at(1), 20);
    assert_eq!(m.get("c"), Some(&3));
    assert_eq!(m.get("d"), None);
    assert!(m.contains_key("a"));
    assert!(!m.is_empty());
}
