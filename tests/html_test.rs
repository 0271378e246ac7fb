use epx::html_to_md::{derive_alt_from_tag, postprocess_markdown, strip_html_tags, xhtml_to_markdown};
use epx::strmap::StrMap;

fn empty_refs() -> Vec<String> {
    Vec::new()
}

fn refs_containing(ids: &[&str]) -> Vec<String> {
    ids.iter().map(|s| s.to_string()).collect()
}

#[test]
fn test_basic_xhtml_to_markdown() {
    let xhtml = r#"<html><body><h1>Title</h1><p>Text paragraph.</p></body></html>"#;
    let md = xhtml_to_markdown(xhtml, &StrMap::new(), &empty_refs());
    assert!(md.contains("# Title") || md.contains("Title\n="), "expected heading in: {md}");
    assert!(md.contains("Text paragraph."));
}

#[test]
fn test_path_rewriting() {
    let xhtml = r#"<html><body><img src="images/foo.png"/></body></html>"#;
    let mut path_map = StrMap::new();
    path_map.insert("images/foo.png".to_string(), "../assets/images/foo.png".to_string());
    let md = xhtml_to_markdown(xhtml, &path_map, &empty_refs());
    assert!(md.contains("../assets/images/foo.png"), "path not rewritten: {md}");
}

#[test]
fn test_xml_declaration_stripping() {
    let xhtml = r#"<?xml version="1.0" encoding="UTF-8"?><html><body><p>Hello</p></body></html>"#;
    let md = xhtml_to_markdown(xhtml, &StrMap::new(), &empty_refs());
    assert!(!md.contains("<?xml"));
    assert!(md.contains("Hello"));
}

#[test]
fn test_footnote_conversion() {
    let xhtml = r##"<html><body><p>Text<a epub:type="noteref" href="#fn1">1</a></p><aside epub:type="footnote" id="fn1"><p>A footnote</p></aside></body></html>"##;
    let md = xhtml_to_markdown(xhtml, &StrMap::new(), &empty_refs());
    assert!(md.contains("[^fn1]"), "footnote ref not found: {md}");
}

#[test]
fn test_excessive_blank_line_cleanup() {
    let input = "Line 1\n\n\n\n\nLine 2";
    let result = postprocess_markdown(input);
    assert!(!result.contains("\n\n\n"), "too many blank lines: {result:?}");
}

#[test]
fn test_empty_input() {
    let md = xhtml_to_markdown("", &StrMap::new(), &empty_refs());
    assert_eq!(md, "\n");
}

#[test]
fn test_strip_html_tags() {
    assert_eq!(strip_html_tags("<p>Hello <b>world</b></p>"), "Hello world");
}

#[test]
fn test_strip_html_tags_basic() {
    assert_eq!(strip_html_tags("<p>Hello <b>world</b></p>"), "Hello world");
}

#[test]
fn test_strip_html_tags_empty() {
    assert_eq!(strip_html_tags(""), "");
}

#[test]
fn test_strip_html_tags_no_tags() {
    assert_eq!(strip_html_tags("plain text"), "plain text");
}

#[test]
fn test_strip_html_tags_nested() {
    assert_eq!(strip_html_tags("<div><p>Hello</p><p>World</p></div>"), "HelloWorld");
}

#[test]
fn test_anchor_id_preservation_pandoc() {
    let xhtml = r#"<html><body><a id="41401"></a><h2>Section Title</h2><p>Content</p></body></html>"#;
    let refs = refs_containing(&["41401"]);
    let md = xhtml_to_markdown(xhtml, &StrMap::new(), &refs);
    assert!(md.contains("{#41401}"), "anchor ID not preserved as pandoc attribute: {md}");
    assert!(!md.contains("<a id="), "should not contain raw HTML anchors: {md}");
    assert!(md.contains("Section Title"));
}

#[test]
fn test_multiple_anchor_ids_pandoc() {
    let xhtml = r#"<html><body><a id="100"></a><h2>First</h2><a id="200"></a><h2>Second</h2></body></html>"#;
    let refs = refs_containing(&["100", "200"]);
    let md = xhtml_to_markdown(xhtml, &StrMap::new(), &refs);
    assert!(md.contains("{#100}"), "first anchor missing: {md}");
    assert!(md.contains("{#200}"), "second anchor missing: {md}");
    assert!(!md.contains("<a id="), "should not contain raw HTML anchors: {md}");
}

#[test]
fn test_element_id_preservation_pandoc() {
    let xhtml = r#"<html><body><p id="abc123" class="toc">Chapter 1</p></body></html>"#;
    let refs = refs_containing(&["abc123"]);
    let md = xhtml_to_markdown(xhtml, &StrMap::new(), &refs);
    assert!(md.contains("{#abc123}"), "element ID not preserved as pandoc syntax: {md}");
}

#[test]
fn test_adjacent_anchor_ids_pandoc() {
    let xhtml = r#"<html><body><a id="111"></a><a id="222"></a><h2>Title</h2></body></html>"#;
    let refs = refs_containing(&["111", "222"]);
    let md = xhtml_to_markdown(xhtml, &StrMap::new(), &refs);
    assert!(md.contains("{#111}"), "first adjacent anchor missing: {md}");
    assert!(md.contains("{#222}"), "second adjacent anchor missing: {md}");
    assert!(!md.contains("<a id="), "should not contain raw HTML anchors: {md}");
}

#[test]
fn test_unreferenced_anchors_stripped() {
    let xhtml = r#"<html><body><a id="orphan1"></a><a id="keep"></a><h2>Title</h2></body></html>"#;
    let refs = refs_containing(&["keep"]);
    let md = xhtml_to_markdown(xhtml, &StrMap::new(), &refs);
    assert!(md.contains("{#keep}"), "referenced anchor missing: {md}");
    assert!(!md.contains("orphan1"), "orphaned anchor should be stripped: {md}");
}

#[test]
fn test_unreferenced_element_ids_stripped() {
    let xhtml = r#"<html><body><p id="calibre_pb_1">Content</p></body></html>"#;
    let md = xhtml_to_markdown(xhtml, &StrMap::new(), &empty_refs());
    assert!(!md.contains("calibre_pb_1"), "unreferenced element ID should be stripped: {md}");
    assert!(md.contains("Content"));
}

#[test]
fn test_empty_refs_preserves_nothing() {
    let xhtml = r#"<html><body><a id="100"></a><p id="200">Text</p></body></html>"#;
    let md = xhtml_to_markdown(xhtml, &StrMap::new(), &empty_refs());
    assert!(!md.contains("{#100}") && !md.contains("{#200}"), "no anchors should be preserved with empty refs: {md}");
    assert!(md.contains("Text"));
}

#[test]
fn test_svg_single_image_unwrapped() {
    let xhtml = r#"<html><body><svg xmlns="http://www.w3.org/2000/svg" viewBox="0 0 100 100"><image xlink:href="cover.jpeg"/></svg></body></html>"#;
    let md = xhtml_to_markdown(xhtml, &StrMap::new(), &empty_refs());
    assert!(md.contains("Cover image"), "SVG should be unwrapped to img: {md}");
    assert!(!md.contains("<svg"), "SVG tag should be removed: {md}");
}

#[test]
fn test_svg_with_drawing_elements_preserved() {
    let xhtml = r#"<html><body><svg xmlns="http://www.w3.org/2000/svg"><rect x="0" y="0"/><image xlink:href="diagram.png"/></svg></body></html>"#;
    let md = xhtml_to_markdown(xhtml, &StrMap::new(), &empty_refs());
    assert!(!md.contains("Cover image"), "SVG with drawings should not be unwrapped: {md}");
}

#[test]
fn test_div_id_preserved() {
    let xhtml = r#"<html><body><div id="myref">Content</div></body></html>"#;
    let refs = refs_containing(&["myref"]);
    let md = xhtml_to_markdown(xhtml, &StrMap::new(), &refs);
    assert!(md.contains("{#myref}"), "div ID not preserved as pandoc syntax: {md}");
}

#[test]
fn test_span_id_preserved() {
    let xhtml = r#"<html><body><p><span id="target1">text</span></p></body></html>"#;
    let refs = refs_containing(&["target1"]);
    let md = xhtml_to_markdown(xhtml, &StrMap::new(), &refs);
    assert!(md.contains("{#target1}"), "span ID not preserved as pandoc syntax: {md}");
}

#[test]
fn test_blockquote_id_preserved() {
    let xhtml = r#"<html><body><blockquote id="bq1">Quote text</blockquote></body></html>"#;
    let refs = refs_containing(&["bq1"]);
    let md = xhtml_to_markdown(xhtml, &StrMap::new(), &refs);
    assert!(md.contains("{#bq1}"), "blockquote ID not preserved as pandoc syntax: {md}");
}

#[test]
fn test_empty_alt_gets_derived() {
    let xhtml = r#"<html><body><img src="images/fig_3-2.png" alt=""/></body></html>"#;
    let md = xhtml_to_markdown(xhtml, &StrMap::new(), &empty_refs());
    assert!(!md.contains("![]"), "empty alt should be replaced: {md}");
    assert!(md.contains("fig 3-2"), "alt should be derived from filename: {md}");
}

#[test]
fn test_missing_alt_gets_injected() {
    let xhtml = r#"<html><body><img src="images/diagram.png"/></body></html>"#;
    let md = xhtml_to_markdown(xhtml, &StrMap::new(), &empty_refs());
    assert!(!md.contains("![]"), "missing alt should be injected: {md}");
    assert!(md.contains("diagram"), "alt should be derived from filename: {md}");
}

#[test]
fn test_numeric_filename_becomes_image() {
    let xhtml = r#"<html><body><img src="images/338838561.jpg" alt=""/></body></html>"#;
    let md = xhtml_to_markdown(xhtml, &StrMap::new(), &empty_refs());
    assert!(md.contains("Image"), "numeric filename should become 'Image': {md}");
}

#[test]
fn test_existing_alt_preserved() {
    let xhtml = r#"<html><body><img src="foo.png" alt="My photo"/></body></html>"#;
    let md = xhtml_to_markdown(xhtml, &StrMap::new(), &empty_refs());
    assert!(md.contains("My photo"), "existing alt should be preserved: {md}");
}

#[test]
fn test_derive_alt_from_tag_helper() {
    assert_eq!(derive_alt_from_tag(r#"<img src="images/fig_3-2.png""#), "fig 3-2");
    assert_eq!(derive_alt_from_tag(r#"<img src="338838561.jpg""#), "Image");
    assert_eq!(derive_alt_from_tag(r#"<img src="cover.jpeg""#), "cover");
    assert_eq!(derive_alt_from_tag(r#"<img"#), "Image");
}

#[test]
fn anchor_before_heading_becomes_attribute() {
    let xhtml = r#"<a id="41401"></a><h2>Section</h2><p>Content</p>"#;
    let md = xhtml_to_markdown(xhtml, &StrMap::new(), &refs_containing(&["41401"]));
    assert!(md.contains("## Section {#41401}"), "got: {md}");
    assert!(!md.contains("<a"), "got: {md}");
}

#[test]
fn unreferenced_paragraph_id_dropped() {
    let md = xhtml_to_markdown(r#"<p id="calibre_pb_1">Content</p>"#, &StrMap::new(), &empty_refs());
    assert!(md.contains("Content"));
    assert!(!md.contains("calibre_pb_1"));
}

#[test]
fn svg_wrapping_one_image_unwrapped() {
    let md = xhtml_to_markdown(r#"<svg><image xlink:href="cover.jpeg"/></svg>"#, &StrMap::new(), &empty_refs());
    assert!(md.contains("Cover image"), "got: {md}");
    assert!(!md.contains("<svg"));
    let kept = xhtml_to_markdown(r#"<svg><rect/><image xlink:href="cover.jpeg"/></svg>"#, &StrMap::new(), &empty_refs());
    assert!(!kept.contains("Cover image"), "got: {kept}");
}

#[test]
fn path_map_never_rewrites_twice() {
    let mut map = StrMap::new();
    map.insert("cover.jpeg".to_string(), "../assets/images/cover.jpeg".to_string());
    let md = xhtml_to_markdown(r#"<img src="cover.jpeg"/>"#, &map, &empty_refs());
    assert!(md.contains("../assets/images/cover.jpeg"), "got: {md}");
    assert!(!md.contains("../assets/images/../assets/images/cover.jpeg"), "got: {md}");
}

#[test]
fn no_tokens_leak_on_sample_inputs() {
    let inputs = [
        r#"<a id="x"></a><h1>T</h1><p><b><a id="y"></a>bold</b></p><p id="z">z</p>"#,
        r##"<p>a<a id="q" href="#q">link</a> b</p><a id="r"></a>"##,
    ];
    let refs = refs_containing(&["x", "y", "z", "q", "r"]);
    for x in inputs {
        let md = xhtml_to_markdown(x, &StrMap::new(), &refs);
        assert!(!md.contains("EPXANCHOR"), "got: {md}");
        assert!(!md.contains("{{EPX_ID:"), "got: {md}");
    }
}

#[test]
fn unreferenced_ids_never_become_anchors() {
    let x = r#"<a id="keep"></a><h2>A</h2><p id="drop">t</p><div id="other">d</div>"#;
    let md = xhtml_to_markdown(x, &StrMap::new(), &refs_containing(&["keep"]));
    assert!(md.contains("{#keep}"), "got: {md}");
    assert!(!md.contains("{#drop}") && !md.contains("[]{#drop}"), "got: {md}");
    assert!(!md.contains("{#other}"), "got: {md}");
}

#[test]
fn postprocess_heading_and_span_forms() {
    assert_eq!(postprocess_markdown("text EPXANCHOR__b__ENDEPX more  \n"), "text []{#b} more\n");
    assert_eq!(postprocess_markdown("## Head EPXANCHOR__c__ENDEPX"), "## Head {#c}\n");
}
