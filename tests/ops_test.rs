use epx::link_check::{slugify_heading, validate_links};
use epx::asset_manage::{add_asset, remove_asset};
use epx::chapter_manage::add_chapter;
use epx::content_edit::{list_headings, parse_heading_map, replace, replace_in_text_nodes, restructure_headings, search};
use epx::epub::{EpubBook, EpubMetadata, ManifestItem, NavPoint, Navigation, SpineItem};
use epx::profile::{analyze_book, BookGenre};
use epx::strmap::StrMap;
use epx::toc_edit::{generate_toc, set_toc_from_markdown};

fn content_book() -> EpubBook {
    let xhtml = b"<?xml version=\"1.0\"?><html xmlns=\"http://www.w3.org/1999/xhtml\"><head><title>Ch1</title></head><body><h1>Chapter 1</h1><p>Hello world.</p></body></html>";
    let xhtml2 = b"<?xml version=\"1.0\"?><html xmlns=\"http://www.w3.org/1999/xhtml\"><head><title>Ch2</title></head><body><h1>Chapter 2</h1><p>Goodbye world.</p></body></html>";
    let mut resources = StrMap::new();
    resources.insert("OEBPS/ch1.xhtml".to_string(), xhtml.to_vec());
    resources.insert("OEBPS/ch2.xhtml".to_string(), xhtml2.to_vec());
    EpubBook {
        manifest: vec![
            ManifestItem { id: "ch1".to_string(), href: "ch1.xhtml".to_string(), media_type: "application/xhtml+xml".to_string(), properties: None },
            ManifestItem { id: "ch2".to_string(), href: "ch2.xhtml".to_string(), media_type: "application/xhtml+xml".to_string(), properties: None },
        ],
        spine: vec![
            SpineItem { idref: "ch1".to_string(), linear: true, properties: None },
            SpineItem { idref: "ch2".to_string(), linear: true, properties: None },
        ],
        resources,
        ..Default::default()
    }
}

#[test]
fn test_search_literal() {
    let book = content_book();
    let matches = search(&book, "Hello", None, false).unwrap();
    assert!(!matches.is_empty());
    assert_eq!(matches[0].chapter_id, "ch1");
}

#[test]
fn test_search_regex() {
    let book = content_book();
    let matches = search(&book, r"Hello \w+", None, true).unwrap();
    assert!(!matches.is_empty());
}

#[test]
fn test_search_with_chapter_filter() {
    let book = content_book();
    let matches = search(&book, "world", Some("ch1"), false).unwrap();
    assert!(!matches.is_empty());
    for m in &matches {
        assert_eq!(m.chapter_id, "ch1");
    }
}

#[test]
fn test_search_no_matches() {
    let book = content_book();
    let matches = search(&book, "nonexistent_string_xyz", None, false).unwrap();
    assert!(matches.is_empty());
}

#[test]
fn search_by_index_and_bad_regex() {
    let book = content_book();
    let m = search(&book, "world", Some("1"), false).unwrap();
    assert_eq!(m.len(), 1);
    assert_eq!(m[0].chapter_id, "ch2");
    assert_eq!(m[0].line_number, 1);
    assert!(search(&book, "(", None, true).is_err());
    assert!(search(&book, "(", None, false).is_ok());
}

#[test]
fn test_replace_literal() {
    let mut book = content_book();
    let count = replace(&mut book, "Hello", "Hi", None, false).unwrap();
    assert!(count >= 1);
    let text = String::from_utf8(book.resources.get("OEBPS/ch1.xhtml").unwrap().clone()).unwrap();
    assert!(text.contains("Hi world."));
}

#[test]
fn test_replace_preserves_tags() {
    let result = replace_in_text_nodes("<p title=\"Hello\">Hello world</p>", "Hello", "Hi");
    assert!(result.contains("title=\"Hello\""), "tag attr modified: {result}");
    assert!(result.contains("Hi world"));
}

#[test]
fn test_list_headings() {
    let book = content_book();
    let headings = list_headings(&book).unwrap();
    assert!(!headings.is_empty());
    let (_href, level, text) = &headings[0];
    assert_eq!(*level, 1);
    assert_eq!(text, "Chapter 1");
}

#[test]
fn test_restructure_headings_valid() {
    let mut book = content_book();
    let count = restructure_headings(&mut book, "h1->h2").unwrap();
    assert!(count >= 1);
    let key = book.resources.entries.iter().find(|(k, _)| k.contains("ch1")).unwrap().0.clone();
    let content = String::from_utf8(book.resources.get(&key).unwrap().clone()).unwrap();
    assert!(content.contains("<h2>"), "no h2 found: {content}");
    assert!(!content.contains("<h1>"), "h1 still present: {content}");
}

#[test]
fn test_restructure_headings_invalid_mapping() {
    let mut book = content_book();
    assert!(restructure_headings(&mut book, "h1").is_err());
}

#[test]
fn heading_map_parsing() {
    assert_eq!(parse_heading_map("h2->h1, h3 -> h2").unwrap(), vec![(2, 1), (3, 2)]);
    assert_eq!(parse_heading_map("h2->h1,h2->h3").unwrap(), vec![(2, 3)]);
    assert!(parse_heading_map("h7->h1").is_err());
    assert!(parse_heading_map("h1->h2->h3").is_err());
    assert!(parse_heading_map("").is_err());
}

#[test]
fn test_set_toc_from_markdown() {
    let mut book = content_book();
    set_toc_from_markdown(&mut book, "- [New Ch 1](ch1.xhtml)\n- [New Ch 2](ch2.xhtml)\n").unwrap();
    assert_eq!(book.navigation.toc.len(), 2);
    assert_eq!(book.navigation.toc[0].label, "New Ch 1");
}

#[test]
fn test_generate_toc_from_headings() {
    let mut book = content_book();
    generate_toc(&mut book, None).unwrap();
    assert!(!book.navigation.toc.is_empty());
    assert_eq!(book.navigation.toc[0].label, "Chapter 1");
}

#[test]
fn test_generate_toc_max_depth() {
    let mut book = content_book();
    book.resources.insert(
        "OEBPS/ch2.xhtml".to_string(),
        b"<html><body><h2>Section A</h2><p>Goodbye.</p></body></html>".to_vec(),
    );
    generate_toc(&mut book, Some(1)).unwrap();
    for entry in &book.navigation.toc {
        assert_ne!(entry.label, "Section A");
    }
}

fn asset_book() -> EpubBook {
    let xhtml = b"<html><body><p>Content with <img src=\"test.png\"/> image</p></body></html>";
    let mut resources = StrMap::new();
    resources.insert("OEBPS/ch1.xhtml".to_string(), xhtml.to_vec());
    EpubBook {
        manifest: vec![ManifestItem { id: "ch1".to_string(), href: "ch1.xhtml".to_string(), media_type: "application/xhtml+xml".to_string(), properties: None }],
        spine: vec![SpineItem { idref: "ch1".to_string(), linear: true, properties: None }],
        resources,
        ..Default::default()
    }
}

#[test]
fn test_add_asset_inferred_type() {
    let mut book = asset_book();
    let id = add_asset(&mut book, "cover.png", None, b"fake png data".to_vec()).unwrap();
    let item = book.manifest.iter().find(|m| m.id == id).unwrap();
    assert_eq!(item.media_type, "image/png");
    assert!(book.resources.contains_key("OEBPS/cover.png"));
}

#[test]
fn test_add_asset_explicit_type() {
    let mut book = asset_book();
    let id = add_asset(&mut book, "data.bin", Some("application/x-custom"), b"binary data".to_vec()).unwrap();
    let item = book.manifest.iter().find(|m| m.id == id).unwrap();
    assert_eq!(item.media_type, "application/x-custom");
}

#[test]
fn test_remove_asset_existing() {
    let mut book = asset_book();
    let id = add_asset(&mut book, "test.css", None, b"body {}".to_vec()).unwrap();
    let manifest_len = book.manifest.len();
    let href = book.manifest.iter().find(|m| m.id == id).unwrap().href.clone();
    remove_asset(&mut book, &href).unwrap();
    assert_eq!(book.manifest.len(), manifest_len - 1);
    assert!(!book.resources.contains_key("OEBPS/test.css"));
}

#[test]
fn test_remove_asset_not_found() {
    let mut book = asset_book();
    assert!(remove_asset(&mut book, "nonexistent.png").is_err());
}

#[test]
fn test_remove_asset_still_referenced() {
    let mut book = asset_book();
    add_asset(&mut book, "test.png", None, b"png data".to_vec()).unwrap();
    let result = remove_asset(&mut book, "test.png");
    assert!(result.is_ok());
    assert!(result.unwrap());
}

fn chapter_book() -> EpubBook {
    let mut resources = StrMap::new();
    resources.insert("OEBPS/ch1.xhtml".to_string(), b"<html><body><h1>Ch1</h1></body></html>".to_vec());
    resources.insert("OEBPS/ch2.xhtml".to_string(), b"<html><body><h1>Ch2</h1></body></html>".to_vec());
    EpubBook {
        metadata: EpubMetadata { titles: vec!["Test".to_string()], ..Default::default() },
        manifest: vec![
            ManifestItem { id: "ch1".to_string(), href: "ch1.xhtml".to_string(), media_type: "application/xhtml+xml".to_string(), properties: None },
            ManifestItem { id: "ch2".to_string(), href: "ch2.xhtml".to_string(), media_type: "application/xhtml+xml".to_string(), properties: None },
        ],
        spine: vec![
            SpineItem { idref: "ch1".to_string(), linear: true, properties: None },
            SpineItem { idref: "ch2".to_string(), linear: true, properties: None },
        ],
        navigation: Navigation {
            toc: vec![
                NavPoint { label: "Chapter 1".to_string(), href: "ch1.xhtml".to_string(), children: vec![] },
                NavPoint { label: "Chapter 2".to_string(), href: "ch2.xhtml".to_string(), children: vec![] },
            ],
            ..Default::default()
        },
        resources,
    }
}

#[test]
fn test_add_chapter_at_end() {
    let mut book = chapter_book();
    let id = add_chapter(&mut book, "# New Chapter\n\nContent here.", "new", None, None).unwrap();
    assert_eq!(book.spine.len(), 3);
    assert_eq!(book.spine[2].idref, id);
}

#[test]
fn test_add_chapter_with_title() {
    let mut book = chapter_book();
    let id = add_chapter(&mut book, "Some content without heading.", "new", None, Some("Custom Title")).unwrap();
    assert!(id.contains("custom-title"));
}

#[test]
fn add_chapter_after_position() {
    let mut book = chapter_book();
    let id = add_chapter(&mut book, "No heading", "my-file", Some("ch1"), None).unwrap();
    assert_eq!(id, "chapter-added-my-file");
    assert_eq!(book.spine[1].idref, id);
    assert_eq!(book.navigation.toc[1].href, "my-file.xhtml");
    assert!(book.resources.contains_key("OEBPS/my-file.xhtml"));
}

fn profile_book(spine_count: usize, xhtml_content: &str) -> EpubBook {
    let mut book = EpubBook::default();
    for i in 0..spine_count {
        let href = format!("ch{i}.xhtml");
        let full_path = format!("OEBPS/{href}");
        book.manifest.push(ManifestItem { id: format!("ch{i}"), href, media_type: "application/xhtml+xml".to_string(), properties: None });
        book.spine.push(SpineItem { idref: format!("ch{i}"), linear: true, properties: None });
        book.resources.insert(full_path, xhtml_content.as_bytes().to_vec());
    }
    book.resources.insert("OEBPS/content.opf".to_string(), vec![]);
    book
}

#[test]
fn analyze_minimal_book() {
    let book = profile_book(3, "<html><body><p>Hello</p></body></html>");
    let profile = analyze_book(&book);
    assert_eq!(profile.genre, BookGenre::Minimal);
    assert_eq!(profile.spine_count, 3);
    assert_eq!(profile.image_count, 0);
    assert!(!profile.has_svg_cover);
}

#[test]
fn analyze_detects_svg_cover() {
    let xhtml = r#"<html><body><svg xmlns="http://www.w3.org/2000/svg"><image xlink:href="cover.jpg"/></svg></body></html>"#;
    let book = profile_book(1, xhtml);
    let profile = analyze_book(&book);
    assert!(profile.has_svg_cover);
}

#[test]
fn analyze_counts_empty_alts() {
    let xhtml = r#"<html><body><img src="a.png" alt=""/><img src="b.png"/><img src="c.png" alt="good"/></body></html>"#;
    let book = profile_book(1, xhtml);
    let profile = analyze_book(&book);
    assert_eq!(profile.empty_alt_count, 2);
    assert_eq!(profile.image_count, 3);
}

#[test]
fn link_validation_counts() {
    assert_eq!(slugify_heading("Hello, World!"), "hello-world");
    assert_eq!(slugify_heading("  A  b "), "a-b");
    let files = vec![
        ("00-a.md".to_string(), "# Intro {#top}\n\nSee [x](01-b.md#sec) and [y](01-b.md#nope) and [z](02-c.md#q) and [w](#top).\n".to_string()),
        ("01-b.md".to_string(), "## Section {#sec}\n\n[]{#other}\n".to_string()),
    ];
    let r = validate_links(&files);
    assert_eq!(r.total_links, 4);
    assert_eq!(r.valid_links, 2);
    assert_eq!(r.dangling_fragments, 1);
    assert_eq!(r.missing_files, 1);
    assert_eq!(r.warnings.len(), 2);
}

#[test]
fn profile_recorded_in_metadata() {
    let book = profile_book(2, "<html><body><img src=\"a.png\" alt=\"x\"/></body></html>");
    let mut yaml = epx::frontmatter::BookMetadataYaml::from_epub_metadata(&book.metadata, "3.0");
    yaml.add_profile(&analyze_book(&book));
    assert_eq!(yaml.epx.get("genre"), Some(&"Minimal".to_string()));
    assert_eq!(yaml.epx.get("image_count"), Some(&"2".to_string()));
    assert_eq!(yaml.epx.get("spine_count"), Some(&"2".to_string()));
}

#[test]
fn add_chapter_unknown_anchor_fails() {
    let mut book = chapter_book();
    assert!(add_chapter(&mut book, "# X", "x", Some("nope"), None).is_err());
    assert_eq!(book.spine.len(), 2);
    assert_eq!(book.manifest.len(), 2);
}
