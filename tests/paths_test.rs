use epx::epub::{EpubBook, ManifestItem, SpineItem};
use epx::paths::{build_path_map, relative_path};

fn book_with_manifest(items: Vec<ManifestItem>) -> EpubBook {
    EpubBook { manifest: items, ..Default::default() }
}

#[test]
fn test_build_path_map_images() {
    let book = book_with_manifest(vec![ManifestItem {
        id: "img1".to_string(),
        href: "images/cover.png".to_string(),
        media_type: "image/png".to_string(),
        properties: None,
    }]);
    let map = build_path_map(&book, "", &[]);
    assert_eq!(map.get("images/cover.png"), Some(&"../assets/images/cover.png".to_string()));
}

#[test]
fn test_build_path_map_css() {
    let book = book_with_manifest(vec![ManifestItem {
        id: "css1".to_string(),
        href: "styles/main.css".to_string(),
        media_type: "text/css".to_string(),
        properties: None,
    }]);
    let map = build_path_map(&book, "", &[]);
    assert_eq!(map.get("styles/main.css"), Some(&"../styles/main.css".to_string()));
}

#[test]
fn test_build_path_map_with_opf_dir() {
    let book = book_with_manifest(vec![ManifestItem {
        id: "img1".to_string(),
        href: "images/pic.jpg".to_string(),
        media_type: "image/jpeg".to_string(),
        properties: None,
    }]);
    let map = build_path_map(&book, "OEBPS/", &[]);
    assert!(map.contains_key("images/pic.jpg"));
    assert!(map.contains_key("OEBPS/images/pic.jpg"));
}

#[test]
fn build_path_map_relative_variants_and_chapters() {
    let book = EpubBook {
        manifest: vec![
            ManifestItem {
                id: "c1".to_string(),
                href: "text/ch1.xhtml".to_string(),
                media_type: "application/xhtml+xml".to_string(),
                properties: None,
            },
            ManifestItem {
                id: "img".to_string(),
                href: "images/a.png".to_string(),
                media_type: "image/png".to_string(),
                properties: None,
            },
        ],
        spine: vec![SpineItem { idref: "c1".to_string(), linear: true, properties: None }],
        ..Default::default()
    };
    let files = vec![("text/ch1.xhtml".to_string(), "00-one.md".to_string())];
    let map = build_path_map(&book, "OEBPS/", &files);
    assert_eq!(map.get("../images/a.png"), Some(&"../assets/images/a.png".to_string()));
    assert_eq!(map.get("OEBPS/images/a.png"), Some(&"../assets/images/a.png".to_string()));
    assert_eq!(map.get("ch1.xhtml"), Some(&"00-one.md".to_string()));
    assert_eq!(map.get("text/ch1.xhtml"), Some(&"00-one.md".to_string()));
    assert!(!map.contains_key("text/ch2.xhtml"));
}

#[test]
fn relative_path_round_trip() {
    assert_eq!(relative_path("OEBPS/text/", "OEBPS/text/images/a.png"), Some("images/a.png".to_string()));
    assert_eq!(relative_path("a/", "a/b/c"), Some("b/c".to_string()));
}

#[test]
fn relative_path_up_and_down() {
    assert_eq!(relative_path("OEBPS/text/", "OEBPS/images/a.png"), Some("../images/a.png".to_string()));
    assert_eq!(relative_path("x/y/", "z/w"), Some("../../z/w".to_string()));
}

#[test]
fn relative_path_empty_dir() {
    assert_eq!(relative_path("", "a/b"), Some("a/b".to_string()));
}
