use epx::asset_embed::infer_media_type;
use epx::dates::{components_of, date_string, format_iso8601, format_iso8601_date, timestamp_string};
use epx::epub::{EpubMetadata, NavPoint};
use epx::frontmatter::BookMetadataYaml;
use epx::profile::{classify_genre, BookGenre};
use epx::summary::generate_summary;
use epx::writer::{generate_container_xml, generate_toc_ncx, generate_toc_xhtml, xml_escape};

#[test]
fn test_infer_known_types() {
    assert_eq!(infer_media_type("img.jpg"), "image/jpeg");
    assert_eq!(infer_media_type("img.jpeg"), "image/jpeg");
    assert_eq!(infer_media_type("img.png"), "image/png");
    assert_eq!(infer_media_type("img.gif"), "image/gif");
    assert_eq!(infer_media_type("img.svg"), "image/svg+xml");
    assert_eq!(infer_media_type("style.css"), "text/css");
    assert_eq!(infer_media_type("font.woff2"), "font/woff2");
    assert_eq!(infer_media_type("font.ttf"), "font/ttf");
    assert_eq!(infer_media_type("chapter.xhtml"), "application/xhtml+xml");
}

#[test]
fn test_infer_unknown_type() {
    assert_eq!(infer_media_type("file.xyz"), "application/octet-stream");
    assert_eq!(infer_media_type("no_ext"), "application/octet-stream");
}

#[test]
fn infer_media_type_edge_paths() {
    assert_eq!(infer_media_type("a.b/c"), "application/octet-stream");
    assert_eq!(infer_media_type(".png"), "application/octet-stream");
    assert_eq!(infer_media_type("dir/x.tar.mp3"), "audio/mpeg");
}

#[test]
fn classify_technical() {
    assert_eq!(classify_genre(50, 200, 1000), BookGenre::Technical);
}

#[test]
fn classify_reference() {
    assert_eq!(classify_genre(150, 5, 20), BookGenre::Reference);
}

#[test]
fn classify_illustrated() {
    assert_eq!(classify_genre(20, 50, 5), BookGenre::Illustrated);
}

#[test]
fn classify_minimal() {
    assert_eq!(classify_genre(10, 2, 3), BookGenre::Minimal);
}

#[test]
fn classify_fiction() {
    assert_eq!(classify_genre(30, 5, 20), BookGenre::Fiction);
}

#[test]
fn genre_display() {
    assert_eq!(BookGenre::Technical.to_string(), "Technical");
    assert_eq!(BookGenre::Fiction.to_string(), "Fiction");
}

#[test]
fn test_flat_summary() {
    let toc = vec![
        NavPoint { label: "Chapter 1".to_string(), href: "ch1.xhtml".to_string(), children: vec![] },
        NavPoint { label: "Chapter 2".to_string(), href: "ch2.xhtml".to_string(), children: vec![] },
    ];
    let files = vec![
        ("ch1.xhtml".to_string(), "01-chapter-1.md".to_string()),
        ("ch2.xhtml".to_string(), "02-chapter-2.md".to_string()),
    ];
    let summary = generate_summary(&toc, &files);
    assert!(summary.starts_with("# Summary"));
    assert!(summary.contains("[Chapter 1](chapters/01-chapter-1.md)"));
    assert!(summary.contains("[Chapter 2](chapters/02-chapter-2.md)"));
}

#[test]
fn test_nested_summary() {
    let toc = vec![NavPoint {
        label: "Part 1".to_string(),
        href: "p1.xhtml".to_string(),
        children: vec![NavPoint { label: "Ch 1".to_string(), href: "ch1.xhtml".to_string(), children: vec![] }],
    }];
    let files = vec![
        ("p1.xhtml".to_string(), "00-part-1.md".to_string()),
        ("ch1.xhtml".to_string(), "01-ch-1.md".to_string()),
    ];
    let summary = generate_summary(&toc, &files);
    assert!(summary.contains("  - [Ch 1]"), "no indented entry: {summary}");
}

#[test]
fn test_missing_chapter_file() {
    let toc = vec![NavPoint { label: "Missing Chapter".to_string(), href: "missing.xhtml".to_string(), children: vec![] }];
    let files = vec![];
    let summary = generate_summary(&toc, &files);
    assert!(summary.contains("- Missing Chapter"));
    assert!(!summary.contains("]("));
}

#[test]
fn summary_exact_with_fragment() {
    let toc = vec![NavPoint { label: "A".to_string(), href: "text/a.xhtml#s1".to_string(), children: vec![] }];
    let files = vec![("OEBPS/text/a.xhtml".to_string(), "00-a.md".to_string())];
    assert_eq!(generate_summary(&toc, &files), "# Summary\n\n- [A](chapters/00-a.md)\n");
}

#[test]
fn test_xml_escape() {
    assert_eq!(xml_escape("<>&\""), "&lt;&gt;&amp;&quot;");
    assert_eq!(xml_escape("plain text"), "plain text");
}

#[test]
fn container_points_at_opf() {
    assert!(generate_container_xml().contains("full-path=\"OEBPS/content.opf\""));
}

#[test]
fn toc_documents_nested() {
    let toc = vec![NavPoint {
        label: "P & Q".to_string(),
        href: "p.xhtml".to_string(),
        children: vec![NavPoint { label: "C".to_string(), href: "c.xhtml".to_string(), children: vec![] }],
    }];
    let titles = vec!["Book".to_string()];
    let html = generate_toc_xhtml(&toc, &titles);
    assert!(html.contains("<title>Book</title>"));
    assert!(html.contains("<li><a href=\"p.xhtml\">P &amp; Q</a>\n<ol>\n<li><a href=\"c.xhtml\">C</a></li>\n</ol>\n</li>\n"));
    let ncx = generate_toc_ncx(&toc, &titles, &vec!["urn:x".to_string()]);
    assert!(ncx.contains("<navPoint id=\"navpoint-1\" playOrder=\"1\">"));
    assert!(ncx.contains("<navPoint id=\"navpoint-2\" playOrder=\"2\">"));
    assert!(ncx.contains("content=\"urn:x\""));
    assert!(generate_toc_xhtml(&vec![], &vec![]).contains("<title>Table of Contents</title>"));
}

#[test]
fn calendar_components() {
    assert_eq!(components_of(0), (1970, 1, 1, 0, 0, 0));
    assert_eq!(components_of(951782400), (2000, 2, 29, 0, 0, 0));
    assert_eq!(components_of(1704067199), (2023, 12, 31, 23, 59, 59));
    assert_eq!(timestamp_string((2024, 1, 5, 7, 8, 9)), "2024-01-05T07:08:09Z");
    assert_eq!(date_string((2024, 11, 25, 0, 0, 0)), "2024-11-25");
}

#[test]
fn now_formats() {
    let ts = format_iso8601();
    assert_eq!(ts.len(), 20);
    assert!(ts.ends_with('Z'));
    let d = format_iso8601_date();
    assert_eq!(d.len(), 10);
    assert_eq!(&d[4..5], "-");
}

#[test]
fn test_from_epub_metadata_full() {
    let meta = EpubMetadata {
        titles: vec!["My Book".to_string()],
        creators: vec!["Author".to_string()],
        identifiers: vec!["urn:uuid:test".to_string()],
        languages: vec!["en".to_string()],
        publishers: vec!["Publisher".to_string()],
        description: Some("A description".to_string()),
        subjects: vec!["Fiction".to_string()],
        rights: Some("CC-BY".to_string()),
        ..Default::default()
    };
    let yaml = BookMetadataYaml::from_epub_metadata(&meta, "3.0");
    assert_eq!(yaml.title, Some("My Book".to_string()));
    assert_eq!(yaml.creators, vec!["Author"]);
    assert!(yaml.epx.contains_key("epub_version"));
}

#[test]
fn test_from_epub_metadata_minimal() {
    let meta = EpubMetadata::default();
    let yaml = BookMetadataYaml::from_epub_metadata(&meta, "3.0");
    assert_eq!(yaml.title, None);
    assert!(yaml.creators.is_empty());
}
