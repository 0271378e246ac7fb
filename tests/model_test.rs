use epx::epub::{EpubBook, EpubVersion};
use epx::strmap::StrMap;
use epx::util::{build_nav_tree, find_resource_key};
use epx::epub::NavPoint;

#[test]
fn detect_opf_dir_from_opf_path() {
    let mut book = EpubBook::default();
    book.resources.insert("OEBPS/content.opf".to_string(), vec![]);
    assert_eq!(book.detect_opf_dir(), "OEBPS/");
}

#[test]
fn detect_opf_dir_fallback_prefix() {
    let mut book = EpubBook::default();
    book.resources.insert("OPS/chapter1.xhtml".to_string(), vec![]);
    assert_eq!(book.detect_opf_dir(), "OPS/");
}

#[test]
fn detect_opf_dir_root_level() {
    let mut book = EpubBook::default();
    book.resources.insert("chapter1.xhtml".to_string(), vec![]);
    assert_eq!(book.detect_opf_dir(), "");
}

#[test]
fn detect_opf_dir_root_level_opf() {
    let mut book = EpubBook::default();
    book.resources.insert("OEBPS/ch1.xhtml".to_string(), vec![]);
    book.resources.insert("content.opf".to_string(), vec![]);
    assert_eq!(book.detect_opf_dir(), "");
}

#[test]
fn detect_opf_dir_nested_opf() {
    let mut book = EpubBook::default();
    book.resources.insert("a/b/package.opf".to_string(), vec![]);
    assert_eq!(book.detect_opf_dir(), "a/b/");
}

#[test]
fn epub_version_strings() {
    assert_eq!(EpubVersion::V2.to_string(), "2.0");
    assert_eq!(EpubVersion::V3.to_string(), "3.0");
    assert_eq!(EpubVersion::default(), EpubVersion::V3);
}

#[test]
fn test_find_resource_key_exact_match() {
    let mut resources = StrMap::new();
    resources.insert("ch1.xhtml".to_string(), vec![]);
    assert_eq!(find_resource_key(&resources, "ch1.xhtml"), Some("ch1.xhtml".to_string()));
}

#[test]
fn test_find_resource_key_suffix_match() {
    let mut resources = StrMap::new();
    resources.insert("OEBPS/ch1.xhtml".to_string(), vec![]);
    assert_eq!(find_resource_key(&resources, "ch1.xhtml"), Some("OEBPS/ch1.xhtml".to_string()));
}

#[test]
fn test_find_resource_key_not_found() {
    let resources: StrMap<Vec<u8>> = StrMap::new();
    assert_eq!(find_resource_key(&resources, "missing.xhtml"), None);
}

#[test]
fn strmap_insert_replace_remove() {
    let mut m: StrMap<String> = StrMap::new();
    m.insert("a".to_string(), "1".to_string());
    m.insert("b".to_string(), "2".to_string());
    m.insert("a".to_string(), "3".to_string());
    assert_eq!(m.len(), 2);
    assert_eq!(m.get("a"), Some(&"3".to_string()));
    assert_eq!(m.entries[0].0, "a");
    assert_eq!(m.remove("a"), Some("3".to_string()));
    assert!(!m.contains_key("a"));
    assert!(m.contains_key("b"));
    assert_eq!(m.remove("zzz"), None);
}

fn count_nav_points(points: &[NavPoint]) -> usize {
    points.iter().map(|p| 1 + count_nav_points(&p.children)).sum()
}

#[test]
fn test_build_nav_tree_flat() {
    let links = vec![
        ("Chapter 1".to_string(), "ch1.xhtml".to_string(), 0),
        ("Chapter 2".to_string(), "ch2.xhtml".to_string(), 0),
    ];
    let tree = build_nav_tree(&links);
    assert_eq!(tree.len(), 2);
    assert_eq!(tree[0].label, "Chapter 1");
    assert_eq!(tree[1].label, "Chapter 2");
    assert!(tree[0].children.is_empty());
}

#[test]
fn test_build_nav_tree_nested() {
    let links = vec![
        ("Part 1".to_string(), "p1.xhtml".to_string(), 0),
        ("Chapter 1".to_string(), "ch1.xhtml".to_string(), 1),
        ("Chapter 2".to_string(), "ch2.xhtml".to_string(), 1),
    ];
    let tree = build_nav_tree(&links);
    assert_eq!(tree.len(), 1);
    assert_eq!(tree[0].children.len(), 2);
    assert_eq!(tree[0].children[1].label, "Chapter 2");
}

#[test]
fn test_build_nav_tree_multi_depth() {
    let links = vec![
        ("Part 1".to_string(), "p1.xhtml".to_string(), 0),
        ("Chapter 1".to_string(), "ch1.xhtml".to_string(), 1),
        ("Part 2".to_string(), "p2.xhtml".to_string(), 0),
    ];
    let tree = build_nav_tree(&links);
    let count = count_nav_points(&tree);
    assert_eq!(count, 3, "expected all 3 entries in tree");
    assert_eq!(tree.len(), 2);
    assert_eq!(tree[0].children[0].label, "Chapter 1");
}

#[test]
fn test_build_nav_tree_empty() {
    let links: Vec<(String, String, usize)> = vec![];
    let tree = build_nav_tree(&links);
    assert!(tree.is_empty());
}
