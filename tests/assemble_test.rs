use epx::assemble::{assemble_parts, extract_title, markdown_to_xhtml, parse_summary, preprocess_pandoc_spans, strip_frontmatter};
use epx::chapter_org::{chapter_filename, collect_referenced_ids, extract_single_chapter, find_chapter};
use epx::epub::{EpubBook, EpubMetadata, ManifestItem, NavPoint, Navigation, SpineItem};
use epx::epub_writer::write_epub;
use epx::frontmatter::{import_metadata, BookMetadataYaml};
use epx::reader::read_epub;
use epx::strmap::StrMap;
use epx::validate::validation_issues;

#[test]
fn test_basic_markdown_to_xhtml() {
    let xhtml = markdown_to_xhtml("# Hello\n\nWorld", "Test", None);
    assert!(xhtml.contains("<h1>Hello</h1>"));
    assert!(xhtml.contains("<p>World</p>"));
}

#[test]
fn test_with_stylesheet() {
    let xhtml = markdown_to_xhtml("text", "Title", Some("styles.css"));
    assert!(xhtml.contains(r#"<link rel="stylesheet" type="text/css" href="styles.css"/>"#));
}

#[test]
fn test_without_stylesheet() {
    let xhtml = markdown_to_xhtml("text", "Title", None);
    assert!(!xhtml.contains("stylesheet"));
}

#[test]
fn test_title_escaping() {
    let xhtml = markdown_to_xhtml("text", "A<B>&C", None);
    assert!(xhtml.contains("<title>A&lt;B&gt;&amp;C</title>"));
}

#[test]
fn test_heading_attributes() {
    let xhtml = markdown_to_xhtml("## Section {#sec1}\n\nText", "Test", None);
    assert!(xhtml.contains(r#"id="sec1""#), "heading attribute not preserved: {xhtml}");
}

#[test]
fn test_pandoc_span_conversion() {
    let xhtml = markdown_to_xhtml("[]{#anchor1}\n\nText", "Test", None);
    assert!(xhtml.contains(r#"id="anchor1""#), "pandoc span not converted to anchor: {xhtml}");
}

#[test]
fn test_preprocess_pandoc_spans() {
    assert_eq!(preprocess_pandoc_spans("[]{#foo}"), r#"<a id="foo"></a>"#);
    assert_eq!(preprocess_pandoc_spans("text []{#bar} more"), r#"text <a id="bar"></a> more"#);
    assert_eq!(preprocess_pandoc_spans("## Heading {#id}"), "## Heading {#id}");
}

#[test]
fn test_parse_summary_flat() {
    let (order, _nav) = parse_summary("# Summary\n\n- [Chapter 1](chapters/01-intro.md)\n- [Chapter 2](chapters/02-main.md)\n");
    assert_eq!(order, vec!["01-intro.md", "02-main.md"]);
}

#[test]
fn test_parse_summary_nested() {
    let (order, nav) = parse_summary(
        "# Summary\n\n- [Part 1](chapters/part1.md)\n  - [Chapter 1](chapters/ch1.md)\n  - [Chapter 2](chapters/ch2.md)\n",
    );
    assert_eq!(order.len(), 3);
    assert!(!nav.toc.is_empty());
    assert_eq!(nav.toc.len(), 1);
    assert_eq!(nav.toc[0].children.len(), 2);
}

#[test]
fn frontmatter_and_title() {
    let content = "---\noriginal_file: a.xhtml\nspine_index: 0\n---\n\n# My Title\n\nBody\n";
    let body = strip_frontmatter(content);
    assert_eq!(body, "# My Title\n\nBody\n");
    assert_eq!(extract_title(&body, "01-x.md"), "My Title");
    assert_eq!(extract_title("no heading", "02-some-name.md"), "02 some name");
    assert_eq!(strip_frontmatter("plain"), "plain");
    assert_eq!(strip_frontmatter("---\nunterminated"), "---\nunterminated");
}

#[test]
fn assemble_parts_builds_spine_and_manifest() {
    let meta = EpubMetadata { titles: vec!["T".to_string()], languages: vec!["en".to_string()], identifiers: vec!["id".to_string()], ..Default::default() };
    let styles = vec![("main.css".to_string(), b"p{}".to_vec())];
    let chapters = vec![
        ("00-intro.md".to_string(), "# Intro\n\nHi".to_string()),
        ("01-next.md".to_string(), "Text".to_string()),
    ];
    let assets = vec![("assets/images/pic.png".to_string(), vec![1, 2, 3])];
    let book = assemble_parts(meta, Navigation::default(), &styles, &chapters, &assets);
    assert_eq!(book.spine.len(), 2);
    assert_eq!(book.spine[1].idref, "chapter-01");
    assert_eq!(book.manifest[0].href, "styles/main.css");
    assert_eq!(book.manifest[1].href, "00-intro.xhtml");
    assert_eq!(book.manifest[3].media_type, "image/png");
    let xhtml = String::from_utf8(book.resources.get("00-intro.xhtml").unwrap().clone()).unwrap();
    assert!(xhtml.contains("<title>Intro</title>"));
    assert!(xhtml.contains("styles/main.css"));
    assert!(validation_issues(&book).is_empty());
    let again = read_epub(&write_epub(&book).unwrap()).unwrap();
    assert!(validation_issues(&again).is_empty());
    assert_eq!(again.spine.len(), 2);
}

fn book_with_toc(toc: Vec<NavPoint>) -> EpubBook {
    EpubBook { navigation: Navigation { toc, ..Default::default() }, ..Default::default() }
}

#[test]
fn test_filename_from_toc_label() {
    let book = book_with_toc(vec![NavPoint { label: "Introduction".to_string(), href: "ch1.xhtml".to_string(), children: vec![] }]);
    assert_eq!(chapter_filename(0, &book, "ch1.xhtml"), "00-introduction.md");
}

#[test]
fn test_filename_from_original_file() {
    let book = book_with_toc(vec![]);
    assert_eq!(chapter_filename(1, &book, "my-chapter.xhtml"), "01-my-chapter.md");
}

#[test]
fn test_filename_empty_slug() {
    let book = book_with_toc(vec![NavPoint { label: "".to_string(), href: "_.xhtml".to_string(), children: vec![] }]);
    let name = chapter_filename(2, &book, "_.xhtml");
    assert!(name.starts_with("02-"));
}

#[test]
fn test_index_padding() {
    let book = book_with_toc(vec![]);
    let name = chapter_filename(5, &book, "ch.xhtml");
    assert!(name.starts_with("05-"), "got: {name}");
}

fn two_chapter_book() -> EpubBook {
    let mut resources = StrMap::new();
    resources.insert("OEBPS/content.opf".to_string(), vec![]);
    resources.insert("OEBPS/ch1.xhtml".to_string(), br##"<html><body><h1>One</h1><p><a href="ch2.xhtml#s2">to two</a></p></body></html>"##.to_vec());
    resources.insert("OEBPS/ch2.xhtml".to_string(), br##"<html><body><h2 id="s2">Two</h2><p id="unused">x</p></body></html>"##.to_vec());
    EpubBook {
        manifest: vec![
            ManifestItem { id: "c1".to_string(), href: "ch1.xhtml".to_string(), media_type: "application/xhtml+xml".to_string(), properties: None },
            ManifestItem { id: "c2".to_string(), href: "ch2.xhtml".to_string(), media_type: "application/xhtml+xml".to_string(), properties: None },
        ],
        spine: vec![
            SpineItem { idref: "c1".to_string(), linear: true, properties: None },
            SpineItem { idref: "c2".to_string(), linear: true, properties: None },
        ],
        resources,
        ..Default::default()
    }
}

#[test]
fn referenced_ids_and_single_chapter() {
    let book = two_chapter_book();
    assert_eq!(collect_referenced_ids(&book, "OEBPS/"), vec!["s2".to_string()]);
    let (item, idx) = find_chapter(&book, "c2").unwrap();
    assert_eq!((item.id.as_str(), idx), ("c2", 1));
    assert!(find_chapter(&book, "nope").is_err());
    let md = extract_single_chapter(&book, "1").unwrap();
    assert!(md.contains("Two"), "got: {md}");
    assert!(!md.contains("{#s2}"), "got: {md}");
    assert!(extract_single_chapter(&book, "zzz").is_err());
}

#[test]
fn import_metadata_drops_custom() {
    let mut book = EpubBook::default();
    book.metadata.custom.insert("k".to_string(), "v".to_string());
    let mut custom = StrMap::new();
    custom.insert("x".to_string(), "y".to_string());
    let yaml = BookMetadataYaml {
        title: Some("T".to_string()),
        creators: vec!["A".to_string()],
        identifiers: vec![],
        languages: vec!["en".to_string()],
        publishers: vec![],
        dates: vec![],
        description: None,
        subjects: vec![],
        rights: None,
        custom,
        epx: StrMap::new(),
    };
    assert_eq!(yaml.to_epub_metadata().custom.get("x"), Some(&"y".to_string()));
    import_metadata(&mut book, &yaml);
    assert_eq!(book.metadata.titles, vec!["T"]);
    assert_eq!(book.metadata.creators, vec!["A"]);
    assert!(book.metadata.custom.get("k").is_none());
}

#[test]
fn validation_reports_missing_parts() {
    let book = EpubBook {
        spine: vec![SpineItem { idref: "ghost".to_string(), linear: true, properties: None }],
        ..Default::default()
    };
    let issues = validation_issues(&book);
    assert_eq!(issues.len(), 4);
    assert!(issues[3].contains("ghost"));
}

#[test]
fn custom_metadata_survives_extract_and_assemble() {
    let mut book = EpubBook::default();
    book.metadata.titles.push("T".to_string());
    book.metadata.languages.push("en".to_string());
    book.metadata.identifiers.push("urn:x".to_string());
    epx::meta_edit::set_field(&mut book, "rendition:layout", "pre-paginated").unwrap();
    let version = book.navigation.epub_version.to_string();
    let yaml = BookMetadataYaml::from_epub_metadata(&book.metadata, &version);
    let meta = yaml.to_epub_metadata();
    let chapters = vec![("00-a.md".to_string(), "# A\n\nText".to_string())];
    let assembled = assemble_parts(meta, Navigation::default(), &vec![], &chapters, &vec![]);
    let again = read_epub(&write_epub(&assembled).unwrap()).unwrap();
    assert_eq!(again.metadata.custom.get("rendition:layout"), Some(&"pre-paginated".to_string()));
}

#[test]
fn extraction_plan_lists_chapters_summary_and_assets() {
    let mut book = two_chapter_book();
    book.manifest.push(ManifestItem { id: "img".to_string(), href: "pic.png".to_string(), media_type: "image/png".to_string(), properties: None });
    book.resources.insert("OEBPS/pic.png".to_string(), vec![1, 2]);
    book.navigation.toc.push(NavPoint { label: "One".to_string(), href: "ch1.xhtml".to_string(), children: vec![] });
    let plan = epx::extract::extraction_plan(&book);
    assert_eq!(plan.chapters.len(), 2);
    assert_eq!(plan.chapters[0].filename, "00-one.md");
    assert_eq!(plan.chapters[1].frontmatter.spine_index, 1);
    assert_eq!(plan.chapters[1].frontmatter.original_id, Some("c2".to_string()));
    assert!(plan.chapters[1].markdown.contains("{#s2}"), "got: {}", plan.chapters[1].markdown);
    assert!(plan.chapters[0].markdown.contains("01-ch2.md#s2"), "got: {}", plan.chapters[0].markdown);
    assert_eq!(plan.summary, "# Summary\n\n- [One](chapters/00-one.md)\n");
    assert_eq!(plan.assets, vec![("assets/images/pic.png".to_string(), vec![1, 2])]);
}
