use epx::chapter_manage::{remove_chapter, reorder_chapter};
use epx::epub::{EpubBook, EpubMetadata, ManifestItem, NavPoint, Navigation, SpineItem};
use epx::meta_edit::{remove_field, set_field};
use epx::strmap::StrMap;
use epx::text::parse_index;
use epx::toc_edit::{reorder_spine, set_spine_order};

fn meta_book() -> EpubBook {
    EpubBook {
        metadata: EpubMetadata {
            titles: vec!["Original".to_string()],
            creators: vec!["Author".to_string()],
            identifiers: vec!["urn:uuid:test".to_string()],
            languages: vec!["en".to_string()],
            publishers: vec!["Publisher".to_string()],
            description: Some("A description".to_string()),
            ..Default::default()
        },
        ..Default::default()
    }
}

fn chapter_book() -> EpubBook {
    let xhtml = b"<html><body><h1>Ch1</h1><p>Hello</p></body></html>";
    let xhtml2 = b"<html><body><h1>Ch2</h1><p>Goodbye</p></body></html>";
    let mut resources = StrMap::new();
    resources.insert("OEBPS/ch1.xhtml".to_string(), xhtml.to_vec());
    resources.insert("OEBPS/ch2.xhtml".to_string(), xhtml2.to_vec());
    EpubBook {
        metadata: EpubMetadata {
            titles: vec!["Test".to_string()],
            identifiers: vec!["urn:uuid:test".to_string()],
            languages: vec!["en".to_string()],
            ..Default::default()
        },
        manifest: vec![
            ManifestItem { id: "ch1".to_string(), href: "ch1.xhtml".to_string(), media_type: "application/xhtml+xml".to_string(), properties: None },
            ManifestItem { id: "ch2".to_string(), href: "ch2.xhtml".to_string(), media_type: "application/xhtml+xml".to_string(), properties: None },
        ],
        spine: vec![
            SpineItem { idref: "ch1".to_string(), linear: true, properties: None },
            SpineItem { idref: "ch2".to_string(), linear: true, properties: None },
        ],
        navigation: Navigation {
            toc: vec![
                NavPoint { label: "Chapter 1".to_string(), href: "ch1.xhtml".to_string(), children: vec![] },
                NavPoint { label: "Chapter 2".to_string(), href: "ch2.xhtml".to_string(), children: vec![] },
            ],
            ..Default::default()
        },
        resources,
    }
}

#[test]
fn test_set_field_title() {
    let mut book = meta_book();
    set_field(&mut book, "title", "New Title").unwrap();
    assert_eq!(book.metadata.titles[0], "New Title");
}

#[test]
fn test_set_field_creator() {
    let mut book = meta_book();
    set_field(&mut book, "creator", "New Author").unwrap();
    assert_eq!(book.metadata.creators, vec!["New Author"]);
}

#[test]
fn test_set_field_language() {
    let mut book = meta_book();
    set_field(&mut book, "language", "fr").unwrap();
    assert_eq!(book.metadata.languages, vec!["fr"]);
}

#[test]
fn test_set_field_description() {
    let mut book = meta_book();
    set_field(&mut book, "description", "New desc").unwrap();
    assert_eq!(book.metadata.description, Some("New desc".to_string()));
}

#[test]
fn test_set_field_custom() {
    let mut book = meta_book();
    set_field(&mut book, "my-custom", "value").unwrap();
    assert_eq!(book.metadata.custom.get("my-custom"), Some(&"value".to_string()));
}

#[test]
fn test_remove_field_title() {
    let mut book = meta_book();
    remove_field(&mut book, "title").unwrap();
    assert!(book.metadata.titles.is_empty());
}

#[test]
fn test_remove_field_description() {
    let mut book = meta_book();
    remove_field(&mut book, "description").unwrap();
    assert!(book.metadata.description.is_none());
}

#[test]
fn set_field_subject_appends_and_custom_removes() {
    let mut book = meta_book();
    set_field(&mut book, "subject", "A").unwrap();
    set_field(&mut book, "subject", "B").unwrap();
    assert_eq!(book.metadata.subjects, vec!["A", "B"]);
    set_field(&mut book, "author", "X").unwrap();
    assert_eq!(book.metadata.creators, vec!["X"]);
    set_field(&mut book, "rendition:layout", "pre-paginated").unwrap();
    assert_eq!(book.metadata.custom.get("rendition:layout"), Some(&"pre-paginated".to_string()));
    remove_field(&mut book, "rendition:layout").unwrap();
    assert_eq!(book.metadata.custom.get("rendition:layout"), None);
    assert_eq!(book.metadata.titles, vec!["Original"]);
}

#[test]
fn set_field_title_on_empty_list() {
    let mut book = EpubBook::default();
    set_field(&mut book, "identifier", "urn:x").unwrap();
    set_field(&mut book, "title", "T").unwrap();
    assert_eq!(book.metadata.identifiers, vec!["urn:x"]);
    assert_eq!(book.metadata.titles, vec!["T"]);
}

#[test]
fn test_remove_chapter_by_index() {
    let mut book = chapter_book();
    let removed = remove_chapter(&mut book, "0").unwrap();
    assert_eq!(removed, "ch1");
    assert_eq!(book.spine.len(), 1);
}

#[test]
fn test_remove_chapter_by_id() {
    let mut book = chapter_book();
    let removed = remove_chapter(&mut book, "ch1").unwrap();
    assert_eq!(removed, "ch1");
    assert!(!book.manifest.iter().any(|m| m.id == "ch1"));
}

#[test]
fn test_remove_chapter_not_found() {
    let mut book = chapter_book();
    assert!(remove_chapter(&mut book, "nonexistent").is_err());
}

#[test]
fn remove_chapter_drops_resource_and_nav() {
    let mut book = chapter_book();
    remove_chapter(&mut book, "ch2").unwrap();
    assert!(!book.resources.contains_key("OEBPS/ch2.xhtml"));
    assert!(book.resources.contains_key("OEBPS/ch1.xhtml"));
    assert_eq!(book.navigation.toc.len(), 1);
    assert_eq!(book.navigation.toc[0].href, "ch1.xhtml");
}

#[test]
fn test_reorder_chapter_out_of_bounds() {
    let mut book = chapter_book();
    assert!(reorder_chapter(&mut book, 99, 0).is_err());
}

#[test]
fn test_reorder_spine_valid() {
    let mut book = chapter_book();
    reorder_spine(&mut book, 0, 1).unwrap();
    assert_eq!(book.spine[0].idref, "ch2");
    assert_eq!(book.spine[1].idref, "ch1");
}

#[test]
fn test_reorder_spine_out_of_bounds() {
    let mut book = chapter_book();
    assert!(reorder_spine(&mut book, 10, 0).is_err());
}

#[test]
fn test_set_spine_order_valid() {
    let mut book = chapter_book();
    set_spine_order(&mut book, &["ch2".to_string(), "ch1".to_string()]).unwrap();
    assert_eq!(book.spine[0].idref, "ch2");
    assert_eq!(book.spine[1].idref, "ch1");
}

#[test]
fn test_set_spine_order_missing_idref() {
    let mut book = chapter_book();
    assert!(set_spine_order(&mut book, &["nonexistent".to_string()]).is_err());
    assert_eq!(book.spine.len(), 2);
}

#[test]
fn parse_index_values() {
    assert_eq!(parse_index("0"), Some(0));
    assert_eq!(parse_index("+12"), Some(12));
    assert_eq!(parse_index("18446744073709551615"), Some(usize::MAX));
    assert_eq!(parse_index("18446744073709551616"), None);
    assert_eq!(parse_index(""), None);
    assert_eq!(parse_index("1a"), None);
}
