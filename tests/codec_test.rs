use epx::epub::{EpubBook, EpubMetadata, EpubVersion, ManifestItem, NavPoint, Navigation, SpineItem};
use epx::epub_writer::{epub_entries, write_epub};
use epx::meta_edit::set_field;
use epx::navigation::parse_navigation;
use epx::opf::parse_opf;
use epx::opf_writer::generate_opf;
use epx::reader::{parse_container, read_epub};
use epx::strmap::StrMap;
use epx::zip_utils::zip_write;
use std::io::Read;

fn minimal_opf(version: &str, metadata_extra: &str, manifest_extra: &str, spine_extra: &str) -> String {
    format!(
        r#"<?xml version="1.0" encoding="UTF-8"?>
<package xmlns="http://www.idpf.org/2007/opf" version="{version}" unique-identifier="uid">
  <metadata xmlns:dc="http://purl.org/dc/elements/1.1/">
    <dc:identifier id="uid">urn:uuid:test</dc:identifier>
    <dc:title>Test Book</dc:title>
    <dc:language>en</dc:language>
    {metadata_extra}
  </metadata>
  <manifest>
    <item id="ch1" href="ch1.xhtml" media-type="application/xhtml+xml"/>
    {manifest_extra}
  </manifest>
  <spine>
    <itemref idref="ch1"/>
    {spine_extra}
  </spine>
</package>"#
    )
}

#[test]
fn parse_container_epub3() {
    let xml = r#"<?xml version="1.0" encoding="UTF-8"?>
<container version="1.0" xmlns="urn:oasis:names:tc:opendocument:xmlns:container">
  <rootfiles>
    <rootfile full-path="OEBPS/content.opf" media-type="application/oebps-package+xml"/>
  </rootfiles>
</container>"#;
    assert_eq!(parse_container(xml).unwrap(), "OEBPS/content.opf");
}

#[test]
fn parse_container_epub2() {
    let xml = r#"<?xml version="1.0"?>
<container version="1.0" xmlns="urn:oasis:names:tc:opendocument:xmlns:container">
  <rootfiles>
    <rootfile full-path="content.opf" media-type="application/oebps-package+xml"/>
  </rootfiles>
</container>"#;
    assert_eq!(parse_container(xml).unwrap(), "content.opf");
}

#[test]
fn parse_container_missing_rootfile() {
    let xml = r#"<?xml version="1.0"?>
<container version="1.0" xmlns="urn:oasis:names:tc:opendocument:xmlns:container">
  <rootfiles>
  </rootfiles>
</container>"#;
    assert!(parse_container(xml).is_err());
}

#[test]
fn parse_container_malformed_xml() {
    let xml = "<container><not-closed>";
    assert!(parse_container(xml).is_err());
}

#[test]
fn parse_opf_epub3_version() {
    let data = parse_opf(&minimal_opf("3.0", "", "", "")).unwrap();
    assert!(matches!(data.version, EpubVersion::V3));
}

#[test]
fn parse_opf_epub2_version() {
    let data = parse_opf(&minimal_opf("2.0", "", "", "")).unwrap();
    assert!(matches!(data.version, EpubVersion::V2));
}

#[test]
fn parse_opf_metadata_titles() {
    let data = parse_opf(&minimal_opf("3.0", "", "", "")).unwrap();
    assert_eq!(data.metadata.titles, vec!["Test Book"]);
}

#[test]
fn parse_opf_metadata_creators() {
    let data = parse_opf(&minimal_opf("3.0", "<dc:creator>Jane Doe</dc:creator>", "", "")).unwrap();
    assert_eq!(data.metadata.creators, vec!["Jane Doe"]);
}

#[test]
fn parse_opf_metadata_identifiers() {
    let data = parse_opf(&minimal_opf("3.0", "", "", "")).unwrap();
    assert_eq!(data.metadata.identifiers, vec!["urn:uuid:test"]);
}

#[test]
fn parse_opf_metadata_languages() {
    let data = parse_opf(&minimal_opf("3.0", "", "", "")).unwrap();
    assert_eq!(data.metadata.languages, vec!["en"]);
}

#[test]
fn parse_opf_spine_linear() {
    let data = parse_opf(&minimal_opf("3.0", "", "", r#"<itemref idref="ch1" linear="no"/>"#)).unwrap();
    assert!(!data.spine[1].linear);
}

#[test]
fn parse_opf_cover_image_meta() {
    let data = parse_opf(&minimal_opf("2.0", r#"<meta name="cover" content="cover-image"/>"#, "", "")).unwrap();
    assert_eq!(data.metadata.cover_id, Some("cover-image".to_string()));
}

#[test]
fn parse_opf_manifest_properties() {
    let opf = minimal_opf(
        "3.0",
        "",
        r#"<item id="nav" href="toc.xhtml" media-type="application/xhtml+xml" properties="nav"/>"#,
        "",
    );
    let data = parse_opf(&opf).unwrap();
    let nav_item = data.manifest.iter().find(|m| m.id == "nav").unwrap();
    assert_eq!(nav_item.properties, Some("nav".to_string()));
}

#[test]
fn parse_opf_modified_timestamp() {
    let opf = minimal_opf("3.0", r#"<meta property="dcterms:modified">2024-06-15T10:30:00Z</meta>"#, "", "");
    let data = parse_opf(&opf).unwrap();
    assert_eq!(data.metadata.modified, Some("2024-06-15T10:30:00Z".to_string()));
}

#[test]
fn parse_opf_custom_meta_property() {
    let opf = minimal_opf("3.0", r#"<meta property="rendition:layout">pre-paginated</meta>"#, "", "");
    let data = parse_opf(&opf).unwrap();
    assert_eq!(data.metadata.custom.get("rendition:layout"), Some(&"pre-paginated".to_string()));
}

#[test]
fn parse_opf_empty_metadata() {
    let xml = r#"<?xml version="1.0"?>
<package xmlns="http://www.idpf.org/2007/opf" version="3.0" unique-identifier="uid">
  <metadata xmlns:dc="http://purl.org/dc/elements/1.1/">
  </metadata>
  <manifest/>
  <spine/>
</package>"#;
    let data = parse_opf(xml).unwrap();
    assert!(data.metadata.titles.is_empty());
    assert!(data.manifest.is_empty());
    assert!(data.spine.is_empty());
}

#[test]
fn parse_nav_xhtml_basic() {
    let nav_html = r#"<?xml version="1.0" encoding="UTF-8"?>
<html xmlns="http://www.w3.org/1999/xhtml" xmlns:epub="http://www.idpf.org/2007/ops">
<head><title>Nav</title></head>
<body>
<nav epub:type="toc">
<ol>
<li><a href="ch1.xhtml">Chapter 1</a></li>
<li><a href="ch2.xhtml">Chapter 2</a></li>
</ol>
</nav>
</body>
</html>"#;
    let manifest = vec![ManifestItem {
        id: "nav".to_string(),
        href: "toc.xhtml".to_string(),
        media_type: "application/xhtml+xml".to_string(),
        properties: Some("nav".to_string()),
    }];
    let nav = parse_navigation(&manifest, &|href: &str| if href == "toc.xhtml" { Some(nav_html.to_string()) } else { None }).unwrap();
    assert_eq!(nav.toc.len(), 2);
    assert_eq!(nav.toc[0].label, "Chapter 1");
    assert_eq!(nav.toc[0].href, "ch1.xhtml");
    assert_eq!(nav.toc[1].label, "Chapter 2");
}

#[test]
fn parse_ncx_basic() {
    let ncx_xml = r#"<?xml version="1.0" encoding="UTF-8"?>
<ncx xmlns="http://www.daisy.org/z3986/2005/ncx/" version="2005-1">
<navMap>
<navPoint id="np1" playOrder="1">
  <navLabel><text>Chapter 1</text></navLabel>
  <content src="ch1.xhtml"/>
</navPoint>
<navPoint id="np2" playOrder="2">
  <navLabel><text>Chapter 2</text></navLabel>
  <content src="ch2.xhtml"/>
</navPoint>
</navMap>
</ncx>"#;
    let manifest = vec![ManifestItem {
        id: "ncx".to_string(),
        href: "toc.ncx".to_string(),
        media_type: "application/x-dtbncx+xml".to_string(),
        properties: None,
    }];
    let nav = parse_navigation(&manifest, &|href: &str| if href == "toc.ncx" { Some(ncx_xml.to_string()) } else { None }).unwrap();
    assert_eq!(nav.toc.len(), 2);
    assert_eq!(nav.toc[0].label, "Chapter 1");
    assert!(matches!(nav.epub_version, EpubVersion::V2));
}

#[test]
fn parse_nav_both_missing() {
    let manifest = vec![ManifestItem {
        id: "ch1".to_string(),
        href: "ch1.xhtml".to_string(),
        media_type: "application/xhtml+xml".to_string(),
        properties: None,
    }];
    let nav = parse_navigation(&manifest, &|_: &str| None).unwrap();
    assert!(nav.toc.is_empty());
}

#[test]
fn parse_nav_nested() {
    let nav_html = r#"<?xml version="1.0" encoding="UTF-8"?>
<html xmlns="http://www.w3.org/1999/xhtml" xmlns:epub="http://www.idpf.org/2007/ops">
<body>
<nav epub:type="toc">
<ol>
<li><a href="part1.xhtml">Part 1</a>
<ol>
<li><a href="ch1.xhtml">Chapter 1</a></li>
<li><a href="ch2.xhtml">Chapter 2</a></li>
</ol>
</li>
</ol>
</nav>
</body>
</html>"#;
    let manifest = vec![ManifestItem {
        id: "nav".to_string(),
        href: "nav.xhtml".to_string(),
        media_type: "application/xhtml+xml".to_string(),
        properties: Some("nav".to_string()),
    }];
    let nav = parse_navigation(&manifest, &|href: &str| if href == "nav.xhtml" { Some(nav_html.to_string()) } else { None }).unwrap();
    assert_eq!(nav.toc.len(), 1);
    assert_eq!(nav.toc[0].label, "Part 1");
    assert_eq!(nav.toc[0].children.len(), 2);
    assert_eq!(nav.toc[0].children[0].label, "Chapter 1");
}

#[test]
fn parse_nav_fallback_to_ncx() {
    let ncx_xml = r#"<?xml version="1.0" encoding="UTF-8"?>
<ncx xmlns="http://www.daisy.org/z3986/2005/ncx/" version="2005-1">
<navMap>
<navPoint id="np1" playOrder="1">
  <navLabel><text>From NCX</text></navLabel>
  <content src="ch1.xhtml"/>
</navPoint>
</navMap>
</ncx>"#;
    let manifest = vec![
        ManifestItem {
            id: "nav".to_string(),
            href: "nav.xhtml".to_string(),
            media_type: "application/xhtml+xml".to_string(),
            properties: Some("nav".to_string()),
        },
        ManifestItem {
            id: "ncx".to_string(),
            href: "toc.ncx".to_string(),
            media_type: "application/x-dtbncx+xml".to_string(),
            properties: None,
        },
    ];
    let nav = parse_navigation(&manifest, &|href: &str| if href == "toc.ncx" { Some(ncx_xml.to_string()) } else { None }).unwrap();
    assert_eq!(nav.toc[0].label, "From NCX");
}

fn test_book() -> EpubBook {
    let mut resources = StrMap::new();
    resources.insert("OEBPS/ch1.xhtml".to_string(), b"<html><body><h1>Hello</h1></body></html>".to_vec());
    let mut custom = StrMap::new();
    custom.insert("rendition:layout".to_string(), "reflowable".to_string());
    EpubBook {
        metadata: EpubMetadata {
            titles: vec!["Test Title".to_string()],
            creators: vec!["Test Author".to_string()],
            identifiers: vec!["urn:uuid:12345".to_string()],
            languages: vec!["en".to_string()],
            publishers: vec!["Test Publisher".to_string()],
            description: Some("A test description".to_string()),
            subjects: vec!["Fiction".to_string()],
            rights: Some("CC-BY".to_string()),
            dates: vec!["2024-01-01".to_string()],
            modified: Some("2024-01-01T00:00:00Z".to_string()),
            custom,
            ..Default::default()
        },
        manifest: vec![ManifestItem {
            id: "ch1".to_string(),
            href: "ch1.xhtml".to_string(),
            media_type: "application/xhtml+xml".to_string(),
            properties: None,
        }],
        spine: vec![SpineItem { idref: "ch1".to_string(), linear: true, properties: None }],
        navigation: Navigation {
            toc: vec![NavPoint { label: "Chapter 1".to_string(), href: "ch1.xhtml".to_string(), children: Vec::new() }],
            ..Default::default()
        },
        resources,
    }
}

#[test]
fn test_generate_opf_minimal() {
    let book = EpubBook {
        metadata: EpubMetadata { modified: Some("2024-01-01T00:00:00Z".to_string()), ..Default::default() },
        ..Default::default()
    };
    let opf = generate_opf(&book);
    assert!(opf.contains("dc:language>en</dc:language"));
    assert!(opf.contains("urn:uuid:"));
}

#[test]
fn test_generate_opf_dates_and_custom() {
    let book = test_book();
    let opf = generate_opf(&book);
    assert!(opf.contains("<dc:date>2024-01-01</dc:date>"), "missing dc:date");
    assert!(opf.contains("<meta property=\"rendition:layout\">reflowable</meta>"), "missing custom meta");
}

#[test]
fn generate_opf_custom_sorted() {
    let mut book = test_book();
    book.metadata.custom.insert("b:z".to_string(), "2".to_string());
    book.metadata.custom.insert("a:y".to_string(), "1".to_string());
    let opf = generate_opf(&book);
    let a = opf.find("a:y").unwrap();
    let b = opf.find("b:z").unwrap();
    let r = opf.find("rendition:layout").unwrap();
    assert!(a < b && b < r, "{opf}");
}

#[test]
fn writer_test_format_iso8601_format() {
    let ts = epx::dates::format_iso8601();
    let re = regex::Regex::new(r"^\d{4}-\d{2}-\d{2}T\d{2}:\d{2}:\d{2}Z$").unwrap();
    assert!(re.is_match(&ts), "bad timestamp format: {ts}");
}

#[test]
fn util_test_format_iso8601_format() {
    let ts = epx::dates::format_iso8601();
    let re = regex::Regex::new(r"^\d{4}-\d{2}-\d{2}T\d{2}:\d{2}:\d{2}Z$").unwrap();
    assert!(re.is_match(&ts), "bad timestamp format: {ts}");
}

#[test]
fn test_format_iso8601_date_format() {
    let d = epx::dates::format_iso8601_date();
    let re = regex::Regex::new(r"^\d{4}-\d{2}-\d{2}$").unwrap();
    assert!(re.is_match(&d), "bad date format: {d}");
}

#[test]
fn test_write_epub_roundtrip() {
    let book = test_book();
    let bytes = write_epub(&book).unwrap();
    let book2 = read_epub(&bytes).unwrap();
    assert_eq!(book2.metadata.titles, vec!["Test Title"]);
    assert_eq!(book2.metadata.creators, vec!["Test Author"]);
    assert_eq!(book2.spine.len(), 1);
}

#[test]
fn round_trip_keeps_core_metadata() {
    let book = test_book();
    let book2 = read_epub(&write_epub(&book).unwrap()).unwrap();
    assert_eq!(book2.metadata.titles[0], book.metadata.titles[0]);
    assert_eq!(book2.metadata.languages, book.metadata.languages);
    assert_eq!(book2.metadata.identifiers[0], book.metadata.identifiers[0]);
    assert_eq!(book2.spine.len(), book.spine.len());
    assert_eq!(book2.metadata.subjects, book.metadata.subjects);
    assert_eq!(book2.metadata.custom.get("rendition:layout"), Some(&"reflowable".to_string()));
    assert_eq!(book2.navigation.toc[0].label, "Chapter 1");
    assert!(book2.resources.contains_key("OEBPS/ch1.xhtml"));
}

#[test]
fn mimetype_is_first_and_stored() {
    let bytes = write_epub(&test_book()).unwrap();
    let mut archive = zip::ZipArchive::new(std::io::Cursor::new(bytes)).unwrap();
    let mut first = archive.by_index(0).unwrap();
    assert_eq!(first.name(), "mimetype");
    assert_eq!(first.compression(), zip::CompressionMethod::Stored);
    let mut payload = Vec::new();
    first.read_to_end(&mut payload).unwrap();
    assert_eq!(payload, b"application/epub+zip");
    let entries = epub_entries(&test_book());
    assert_eq!(entries[0].0, "mimetype");
    assert!(entries[0].1);
}

#[test]
fn custom_metadata_round_trip() {
    let mut book = test_book();
    set_field(&mut book, "rendition:layout", "pre-paginated").unwrap();
    let again = read_epub(&write_epub(&book).unwrap()).unwrap();
    assert_eq!(again.metadata.custom.get("rendition:layout"), Some(&"pre-paginated".to_string()));
}

fn epub_of(opf: &str) -> Vec<u8> {
    let container = r#"<?xml version="1.0"?><container version="1.0" xmlns="urn:oasis:names:tc:opendocument:xmlns:container"><rootfiles><rootfile full-path="OEBPS/content.opf" media-type="application/oebps-package+xml"/></rootfiles></container>"#;
    let entries = vec![
        ("mimetype".to_string(), true, b"application/epub+zip".to_vec()),
        ("META-INF/container.xml".to_string(), false, container.as_bytes().to_vec()),
        ("OEBPS/content.opf".to_string(), false, opf.as_bytes().to_vec()),
        ("OEBPS/ch1.xhtml".to_string(), false, b"<html><body><p>x</p></body></html>".to_vec()),
    ];
    zip_write(&entries).unwrap()
}

#[test]
fn minimal_v3_read() {
    let opf = r#"<?xml version="1.0"?><package xmlns="http://www.idpf.org/2007/opf" version="3.0"><metadata xmlns:dc="http://purl.org/dc/elements/1.1/"><dc:title>Test</dc:title><dc:language>en</dc:language><dc:identifier>urn:uuid:x</dc:identifier></metadata><manifest><item id="c1" href="ch1.xhtml" media-type="application/xhtml+xml"/></manifest><spine><itemref idref="c1"/></spine></package>"#;
    let book = read_epub(&epub_of(opf)).unwrap();
    assert_eq!(book.metadata.titles[0], "Test");
    assert_eq!(book.navigation.epub_version, EpubVersion::V3);
    assert_eq!(book.spine.len(), 1);
    assert_eq!(book.detect_opf_dir(), "OEBPS/");
}

#[test]
fn read_rejects_bad_mimetype() {
    let entries = vec![("mimetype".to_string(), true, b"text/plain".to_vec())];
    assert!(matches!(read_epub(&zip_write(&entries).unwrap()), Err(epx::error::EpxError::InvalidEpub(_))));
    let entries = vec![("other".to_string(), true, b"application/epub+zip".to_vec())];
    assert!(read_epub(&zip_write(&entries).unwrap()).is_err());
    assert!(read_epub(&b"not a zip".to_vec()).is_err());
}

#[test]
fn mimetype_payload_must_be_exact() {
    let entries = vec![("mimetype".to_string(), true, b"application/epub+zip\n".to_vec())];
    assert!(matches!(read_epub(&zip_write(&entries).unwrap()), Err(epx::error::EpxError::InvalidEpub(_))));
}
