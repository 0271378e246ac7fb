//! From the Markdown source tree back to the book: frontmatter, titles,
//! chapter XHTML and the outline of `SUMMARY.md`.

use vstd::prelude::*;
use crate::epub::{EpubBook, EpubMetadata, EpubVersion, ManifestItem, Navigation, SpineItem};
use crate::strmap::StrMap;
use crate::chapter_org::{slug_of, slugify};
use crate::asset_embed::{extension, infer_media_type, media_type_for};
use crate::numfmt::{push_padded, zero_padded};

use vstd::string::StrSliceExecFns;
use crate::html_to_md::{apply, apply_spec, text_lines, Rule};
use crate::paths::str_views;
use crate::patterns::{cmark_html_of, md_events, md_events_of, render_markdown, MdEvent};
use crate::text::{append_chars, chars_of, find_from, is_prefix, occurs_at, push_str, slice, starts_with, string_of, trim, trimmed};
use crate::util::{build_nav_tree, link_forest, link_views};
use crate::writer::{escaped, push_escaped};

verus! {

/// `s` without leading line feeds.
pub open spec fn skip_newlines(s: Seq<char>) -> Seq<char>
    decreases s.len(),
{
    if s.len() > 0 && s[0] == '\n' {
        skip_newlines(s.drop_first())
    } else {
        s
    }
}

/// `i` is the first index at or after `from` where `p` occurs in `s`.
pub open spec fn is_first_at(s: Seq<char>, p: Seq<char>, from: int, i: int) -> bool {
    from <= i && occurs_at(s, p, i) && forall|j: int| from <= j < i ==> !occurs_at(s, p, j)
}

/// The Markdown body of a chapter file: what follows a leading `---`
/// block up to the next line that begins with `---`, line feeds after it
/// dropped; the whole text when there is no such block or nothing follows.
pub open spec fn without_frontmatter(c: Seq<char>) -> Seq<char> {
    if is_prefix("---"@, c) && exists|i: int| is_first_at(c, "\n---"@, 3, i) {
        let i = choose|i: int| is_first_at(c, "\n---"@, 3, i);
        if i + 4 < c.len() {
            skip_newlines(c.skip(i + 4))
        } else {
            c
        }
    } else {
        c
    }
}

/// The Markdown body of a chapter file, without its YAML frontmatter.
pub fn strip_frontmatter(content: &str) -> (r: String)
    ensures
        r@ == without_frontmatter(content@),
{
    let c = chars_of(content);
    let dashes = chars_of("---");
    let close = chars_of("\n---");
    proof {
        reveal_strlit("---");
        reveal_strlit("\n---");
    }
    if !starts_with(&c, &dashes) {
        return String::from_str(content);
    }
    match find_from(&c, &close, 3) {
        Some(i) => {
            proof {
                assert(is_first_at(c@, "\n---"@, 3, i as int));
                let k = choose|k: int| is_first_at(c@, "\n---"@, 3, k);
                if k < i {
                } else if k > i {
                }
                assert(k == i);
            }
            let n = c.len();
            if i + 4 < n {
                let mut start: usize = i + 4;
                proof {
                    assert(c@.skip(i + 4) =~= c@.subrange(start as int, n as int));
                }
                while start < n && c[start] == '\n'
                    invariant
                        i + 4 <= start <= n,
                        n == c@.len(),
                        skip_newlines(c@.skip(i + 4)) == skip_newlines(c@.subrange(start as int, n as int)),
                    decreases n - start,
                {
                    proof {
                        assert(c@.subrange(start as int, n as int).drop_first() =~= c@.subrange(start + 1, n as int));
                    }
                    start = start + 1;
                }
                let r = slice(&c, start, n);
                return string_of(&r);
            }
            String::from_str(content)
        },
        None => String::from_str(content),
    }
}

/// A line without a final carriage return.
pub open spec fn line_body(l: Seq<char>) -> Seq<char> {
    if l.len() > 0 && l.last() == '\r' {
        l.drop_last()
    } else {
        l
    }
}

/// The text of the first `# ` heading among the lines `ls`.
pub open spec fn first_heading(ls: Seq<Seq<char>>) -> Option<Seq<char>>
    decreases ls.len(),
{
    if ls.len() == 0 {
        None
    } else {
        let t = trimmed(line_body(ls[0]));
        if is_prefix("# "@, t) {
            Some(trimmed(t.skip(2)))
        } else {
            first_heading(ls.drop_first())
        }
    }
}

/// `s` with `-` replaced by a space.
pub open spec fn dashes_to_spaces(s: Seq<char>) -> Seq<char> {
    s.map_values(|c: char| if c == '-' { ' ' } else { c })
}

/// The title of a chapter: its first `# ` heading, else its file name
/// without `.md`, `-` read as spaces, trimmed.
pub open spec fn chapter_title(md: Seq<char>, filename: Seq<char>) -> Seq<char> {
    match first_heading(text_lines(md)) {
        Some(h) => h,
        None => {
            let stem = if crate::text::is_suffix(".md"@, filename) {
                filename.take(filename.len() - 3)
            } else {
                filename
            };
            trimmed(dashes_to_spaces(stem))
        },
    }
}

/// The title of a chapter from its Markdown, or from its file name.
pub fn extract_title(md: &str, filename: &str) -> (r: String)
    ensures
        r@ == chapter_title(md@, filename@),
{
    let m = chars_of(md);
    let lines = crate::html_to_md::lines_of(&m);
    let ghost ls = text_lines(md@);
    let hash = chars_of("# ");
    proof {
        reveal_strlit("# ");
    }
    let mut k: usize = 0;
    proof {
        assert(ls.skip(0) =~= ls);
    }
    while k < lines.len()
        invariant
            k <= lines@.len(),
            crate::paths::views(lines@) == ls,
            ls == text_lines(md@),
            hash@ == "# "@,
            first_heading(ls) == first_heading(ls.skip(k as int)),
        decreases lines.len() - k,
    {
        let line = &lines[k];
        let body = if line.len() > 0 && line[line.len() - 1] == '\r' {
            slice(line, 0, line.len() - 1)
        } else {
            line.clone()
        };
        let t = trim(&body);
        proof {
            reveal_strlit("# ");
            assert(ls.skip(k as int)[0] == line@);
            assert(ls.skip(k as int).drop_first() =~= ls.skip(k + 1));
            if line@.len() > 0 && line@.last() == '\r' {
                assert(body@ =~= line@.drop_last());
            }
        }
        if starts_with(&t, &hash) {
            let rest = slice(&t, 2, t.len());
            let h = trim(&rest);
            proof {
                assert(rest@ =~= t@.skip(2));
            }
            return string_of(&h);
        }
        k = k + 1;
    }
    proof {
        assert(ls.skip(k as int) =~= Seq::<Seq<char>>::empty());
    }
    let f = chars_of(filename);
    let md_ext = chars_of(".md");
    let stem = if crate::text::ends_with(&f, &md_ext) {
        proof {
            reveal_strlit(".md");
        }
        slice(&f, 0, f.len() - 3)
    } else {
        f.clone()
    };
    proof {
        reveal_strlit(".md");
        if crate::text::is_suffix(".md"@, f@) {
            assert(stem@ =~= f@.take(f@.len() - 3));
        }
    }
    let mut d: Vec<char> = Vec::new();
    let mut i: usize = 0;
    while i < stem.len()
        invariant
            i <= stem@.len(),
            d@ == dashes_to_spaces(stem@.take(i as int)),
        decreases stem.len() - i,
    {
        d.push(if stem[i] == '-' { ' ' } else { stem[i] });
        i = i + 1;
        proof {
            assert(d@ =~= dashes_to_spaces(stem@.take(i as int)));
        }
    }
    proof {
        assert(stem@.take(i as int) =~= stem@);
    }
    let t = trim(&d);
    string_of(&t)
}

/// Pandoc inline spans.
pub const SPAN_PATTERN: &'static str = "\\[\\]\\{#([^}]+)\\}";

/// The stylesheet link of a chapter, if it has a stylesheet.
pub open spec fn css_link(stylesheet: Option<Seq<char>>) -> Seq<char> {
    match stylesheet {
        Some(h) => "<link rel=\"stylesheet\" type=\"text/css\" href=\""@ + h + "\"/>"@,
        None => Seq::<char>::empty(),
    }
}

/// The XHTML document of a chapter with Markdown `md`: the rendering of
/// `md` (Pandoc spans turned into anchors first) in the fixed skeleton with
/// the escaped title and the stylesheet link.
pub open spec fn chapter_xhtml(md: Seq<char>, title: Seq<char>, stylesheet: Option<Seq<char>>) -> Seq<char> {
    let body = cmark_html_of(apply_spec(SPAN_PATTERN@, md, Rule::SpanToAnchor, Seq::empty()), true, true, true, true);
    "<?xml version=\"1.0\" encoding=\"UTF-8\"?>\n"@ + "<!DOCTYPE html>\n"@
        + "<html xmlns=\"http://www.w3.org/1999/xhtml\" xmlns:epub=\"http://www.idpf.org/2007/ops\">\n"@
        + "<head>\n"@ + "  <meta charset=\"UTF-8\"/>\n"@ + "  <title>"@ + escaped(title) + "</title>\n"@ + "  "@
        + css_link(stylesheet) + "\n"@ + "</head>\n"@ + "<body>\n"@ + body + "</body>\n"@ + "</html>\n"@
}

/// The characters of an optional string.
pub open spec fn opt_str(o: Option<&str>) -> Option<Seq<char>> {
    match o {
        Some(s) => Some(s@),
        None => None,
    }
}

/// Pandoc inline spans `[]{#id}` turned into empty HTML anchors.
pub fn preprocess_pandoc_spans(md: &str) -> (r: String)
    ensures
        r@ == apply_spec(SPAN_PATTERN@, md@, Rule::SpanToAnchor, Seq::empty()),
{
    let none: Vec<String> = Vec::new();
    proof {
        assert(str_views(none@) =~= Seq::<Seq<char>>::empty());
    }
    apply(SPAN_PATTERN, md, Rule::SpanToAnchor, &none)
}

/// Converts a chapter's Markdown to an XHTML document.
pub fn markdown_to_xhtml(md: &str, title: &str, stylesheet: Option<&str>) -> (r: String)
    ensures
        r@ == chapter_xhtml(md@, title@, opt_str(stylesheet)),
{
    let pre = preprocess_pandoc_spans(md);
    let body = render_markdown(pre.as_str(), true, true, true, true);
    let mut out: Vec<char> = Vec::new();
    push_str(&mut out, "<?xml version=\"1.0\" encoding=\"UTF-8\"?>\n");
    push_str(&mut out, "<!DOCTYPE html>\n");
    push_str(&mut out, "<html xmlns=\"http://www.w3.org/1999/xhtml\" xmlns:epub=\"http://www.idpf.org/2007/ops\">\n");
    push_str(&mut out, "<head>\n");
    push_str(&mut out, "  <meta charset=\"UTF-8\"/>\n");
    push_str(&mut out, "  <title>");
    push_escaped(&mut out, title);
    push_str(&mut out, "</title>\n");
    push_str(&mut out, "  ");
    let ghost before_css = out@;
    match stylesheet {
        Some(h) => {
            push_str(&mut out, "<link rel=\"stylesheet\" type=\"text/css\" href=\"");
            push_str(&mut out, h);
            push_str(&mut out, "\"/>");
        },
        None => {},
    }
    proof {
        assert(out@ =~= before_css + css_link(opt_str(stylesheet)));
    }
    push_str(&mut out, "\n");
    push_str(&mut out, "</head>\n");
    push_str(&mut out, "<body>\n");
    push_str(&mut out, body.as_str());
    push_str(&mut out, "</body>\n");
    push_str(&mut out, "</html>\n");
    proof {
        assert(out@ =~= chapter_xhtml(md@, title@, opt_str(stylesheet)));
    }
    string_of(&out)
}

/// Outline reader state: list depth, inside a link, its href, its label,
/// and the `(label, href, depth)` links so far.
pub type OutlineState = (nat, bool, Seq<char>, Seq<char>, Seq<(Seq<char>, Seq<char>, nat)>);

/// One step of the outline reader.
pub open spec fn outline_step(st: OutlineState, e: MdEvent) -> OutlineState {
    let (depth, in_link, href, label, links) = st;
    match e {
        MdEvent::ListStart => ((depth + 1) as nat, in_link, href, label, links),
        MdEvent::ListEnd => (if depth > 0 { (depth - 1) as nat } else { 0 }, in_link, href, label, links),
        MdEvent::LinkStart(d) => (depth, true, d@, Seq::<char>::empty(), links),
        MdEvent::LinkEnd => (depth, false, href, label, links.push((trimmed(label), href, if depth > 0 { (depth - 1) as nat } else { 0 }))),
        MdEvent::Text(t) => if in_link { (depth, in_link, href, label + t@, links) } else { st },
        MdEvent::Other => st,
    }
}

/// The outline reader's state after the events `es`.
pub open spec fn outline_run(es: Seq<MdEvent>) -> OutlineState
    decreases es.len(),
{
    if es.len() == 0 {
        (0, false, Seq::<char>::empty(), Seq::<char>::empty(), Seq::empty())
    } else {
        outline_step(outline_run(es.drop_last()), es.last())
    }
}

/// The `(label, href, depth)` links of an outline, from its events.
pub fn outline_links(events: &Vec<MdEvent>) -> (r: Vec<(String, String, usize)>)
    ensures
        link_views(r@) == outline_run(events@).4,
{
    let mut depth: usize = 0;
    let mut in_link = false;
    let mut href = String::new();
    let mut label: Vec<char> = Vec::new();
    let mut links: Vec<(String, String, usize)> = Vec::new();
    let mut i: usize = 0;
    proof {
        assert(events@.take(0) =~= Seq::<MdEvent>::empty());
        assert(link_views(links@) =~= Seq::<(Seq<char>, Seq<char>, nat)>::empty());
    }
    while i < events.len()
        invariant
            i <= events@.len(),
            depth <= i,
            outline_run(events@.take(i as int)) == (depth as nat, in_link, href@, label@, link_views(links@)),
        decreases events.len() - i,
    {
        proof {
            assert(events@.take(i + 1).drop_last() =~= events@.take(i as int));
        }
        match &events[i] {
            MdEvent::ListStart => {
                depth = depth + 1;
            },
            MdEvent::ListEnd => {
                if depth > 0 {
                    depth = depth - 1;
                }
            },
            MdEvent::LinkStart(d) => {
                in_link = true;
                href = d.clone();
                label = Vec::new();
            },
            MdEvent::LinkEnd => {
                in_link = false;
                let t = trim(&label);
                let d = if depth > 0 { depth - 1 } else { 0 };
                let ghost pre = links@;
                links.push((string_of(&t), href.clone(), d));
                proof {
                    assert(link_views(links@) =~= link_views(pre).push((trimmed(label@), href@, d as nat)));
                }
            },
            MdEvent::Text(t) => {
                if in_link {
                    append_chars(&mut label, &chars_of(t.as_str()));
                }
            },
            MdEvent::Other => {},
        }
        i = i + 1;
    }
    proof {
        assert(events@.take(i as int) =~= events@);
    }
    links
}

/// An outline href without its `chapters/` prefix.
pub open spec fn chapter_file_of(href: Seq<char>) -> Seq<char> {
    if is_prefix("chapters/"@, href) {
        href.skip(9)
    } else {
        href
    }
}

/// Reads `SUMMARY.md`: the chapter files in outline order and the table
/// of contents, nested by list depth.
pub fn parse_summary(content: &str) -> (r: (Vec<String>, Navigation))
    ensures
        r.0@.len() == outline_run(md_events_of(content@)).4.len(),
        forall|i: int| 0 <= i < r.0@.len() ==> #[trigger] r.0@[i]@ == chapter_file_of(outline_run(md_events_of(content@)).4[i].1),
        crate::epub::nav_nodes(r.1.toc@) == link_forest(
            outline_run(md_events_of(content@)).4,
            0,
            outline_run(md_events_of(content@)).4.len() as int,
        ),
        r.1.epub_version == EpubVersion::V3,
{
    let events = md_events(content);
    let links = outline_links(&events);
    let ghost lv = link_views(links@);
    let prefix = chars_of("chapters/");
    proof {
        reveal_strlit("chapters/");
    }
    let mut order: Vec<String> = Vec::new();
    let mut i: usize = 0;
    while i < links.len()
        invariant
            i <= links@.len(),
            lv == link_views(links@),
            prefix@ == "chapters/"@,
            order@.len() == i,
            forall|j: int| 0 <= j < i ==> #[trigger] order@[j]@ == chapter_file_of(lv[j].1),
        decreases links.len() - i,
    {
        proof {
            reveal_strlit("chapters/");
        }
        let h = chars_of(links[i].1.as_str());
        let f = if starts_with(&h, &prefix) { slice(&h, 9, h.len()) } else { h };
        proof {
            assert(lv[i as int].1 == links@[i as int].1@);
            if is_prefix("chapters/"@, links@[i as int].1@) {
                assert(f@ =~= links@[i as int].1@.skip(9));
            }
        }
        order.push(string_of(&f));
        i = i + 1;
    }
    let sl = links.as_slice();
    let toc = build_nav_tree(sl);
    proof {
        assert(sl@ == links@);
    }
    (order, Navigation { toc, landmarks: Vec::new(), page_list: Vec::new(), epub_version: EpubVersion::V3 })
}

/// The manifest id of chapter `i`.
pub open spec fn chapter_id(i: nat) -> Seq<char> {
    "chapter-"@ + zero_padded(i, 2)
}

/// The XHTML href of the chapter file `file`: its name without `.md`, then
/// `.xhtml`.
pub open spec fn chapter_href(file: Seq<char>) -> Seq<char> {
    (if crate::text::is_suffix(".md"@, file) { file.take(file.len() - 3) } else { file }) + ".xhtml"@
}

/// The book that a source tree gives: `styles` (file name, bytes) become
/// stylesheets, the first of them linked from every chapter; `chapters`
/// (file name, Markdown) become XHTML documents in spine order; `assets`
/// (path, bytes) are added with the media type of their extension.
pub fn assemble_parts(
    metadata: EpubMetadata,
    navigation: Navigation,
    styles: &Vec<(String, Vec<u8>)>,
    chapters: &Vec<(String, String)>,
    assets: &Vec<(String, Vec<u8>)>,
) -> (r: EpubBook)
    requires
        metadata.custom.wf(),
    ensures
        r.wf(),
        r.metadata == metadata,
        r.navigation == navigation,
        r.manifest@.len() == styles@.len() + chapters@.len() + assets@.len(),
        forall|i: int| 0 <= i < styles@.len() ==> {
            &&& #[trigger] r.manifest@[i].href@ == "styles/"@ + styles@[i].0@
            &&& r.manifest@[i].id@ == "style-"@ + slug_of(styles@[i].0@)
            &&& r.manifest@[i].media_type@ == "text/css"@
        },
        r.spine@.len() == chapters@.len(),
        forall|i: int| #![trigger r.spine@[i]] 0 <= i < chapters@.len() ==> {
            &&& r.spine@[i].idref@ == chapter_id(i as nat)
            &&& r.spine@[i].linear
            &&& r.manifest@[styles@.len() + i].id@ == chapter_id(i as nat)
            &&& r.manifest@[styles@.len() + i].href@ == chapter_href(chapters@[i].0@)
            &&& r.manifest@[styles@.len() + i].media_type@ == "application/xhtml+xml"@
        },
        metadata.titles@.len() > 0 && metadata.languages@.len() > 0 && metadata.identifiers@.len() > 0
            && chapters@.len() > 0 ==> crate::validate::is_structurally_valid(r),
        forall|i: int| #![trigger assets@[i]] 0 <= i < assets@.len() ==> {
            &&& r.manifest@[styles@.len() + chapters@.len() + i].href@ == assets@[i].0@
            &&& r.manifest@[styles@.len() + chapters@.len() + i].id@ == "asset-"@ + slug_of(assets@[i].0@)
            &&& r.manifest@[styles@.len() + chapters@.len() + i].media_type@ == media_type_for(extension(assets@[i].0@))
        },
{
    let mut manifest: Vec<ManifestItem> = Vec::new();
    let mut spine: Vec<SpineItem> = Vec::new();
    let mut resources: StrMap<Vec<u8>> = StrMap::new();
    let mut stylesheet: Option<String> = None;
    let mut i: usize = 0;
    while i < styles.len()
        invariant
            i <= styles@.len(),
            resources.wf(),
            manifest@.len() == i,
            forall|j: int| 0 <= j < i ==> {
                &&& #[trigger] manifest@[j].href@ == "styles/"@ + styles@[j].0@
                &&& manifest@[j].id@ == "style-"@ + slug_of(styles@[j].0@)
                &&& manifest@[j].media_type@ == "text/css"@
            },
            i == 0 ==> stylesheet is None,
            i > 0 ==> stylesheet is Some && stylesheet->Some_0@ == "styles/"@ + styles@[0].0@,
        decreases styles.len() - i,
    {
        let name = &styles[i].0;
        let mut h = chars_of("styles/");
        push_str(&mut h, name.as_str());
        let href = string_of(&h);
        let mut idv = chars_of("style-");
        let sl = slugify(name.as_str());
        push_str(&mut idv, sl.as_str());
        resources.insert_bytes(href.clone(), styles[i].1.clone());
        manifest.push(ManifestItem {
            id: string_of(&idv),
            href: href.clone(),
            media_type: String::from_str("text/css"),
            properties: None,
        });
        if i == 0 {
            stylesheet = Some(href);
        }
        i = i + 1;
    }
    let ns = styles.len();
    let mut k: usize = 0;
    while k < chapters.len()
        invariant
            k <= chapters@.len(),
            ns == styles@.len(),
            resources.wf(),
            manifest@.len() == ns + k,
            spine@.len() == k,
            forall|j: int| 0 <= j < ns ==> {
                &&& #[trigger] manifest@[j].href@ == "styles/"@ + styles@[j].0@
                &&& manifest@[j].id@ == "style-"@ + slug_of(styles@[j].0@)
                &&& manifest@[j].media_type@ == "text/css"@
            },
            forall|j: int| #![trigger spine@[j]] 0 <= j < k ==> {
                &&& spine@[j].idref@ == chapter_id(j as nat)
                &&& spine@[j].linear
                &&& manifest@[ns + j].id@ == chapter_id(j as nat)
                &&& manifest@[ns + j].href@ == chapter_href(chapters@[j].0@)
                &&& manifest@[ns + j].media_type@ == "application/xhtml+xml"@
            },
        decreases chapters.len() - k,
    {
        let file = &chapters[k].0;
        let body = strip_frontmatter(chapters[k].1.as_str());
        let title = extract_title(body.as_str(), file.as_str());
        let xhtml = match &stylesheet {
            Some(css) => markdown_to_xhtml(body.as_str(), title.as_str(), Some(css.as_str())),
            None => markdown_to_xhtml(body.as_str(), title.as_str(), None),
        };
        let f = chars_of(file.as_str());
        let ext = chars_of(".md");
        proof {
            reveal_strlit(".md");
        }
        let mut hv = if crate::text::ends_with(&f, &ext) { slice(&f, 0, f.len() - 3) } else { f.clone() };
        proof {
            if crate::text::is_suffix(".md"@, f@) {
                assert(hv@ =~= f@.take(f@.len() - 3));
            }
        }
        push_str(&mut hv, ".xhtml");
        let href = string_of(&hv);
        let mut idv = chars_of("chapter-");
        push_padded(&mut idv, k as u64, 2);
        let id = string_of(&idv);
        resources.insert_bytes(href.clone(), xhtml.as_str().as_bytes_vec());
        manifest.push(ManifestItem {
            id: id.clone(),
            href,
            media_type: String::from_str("application/xhtml+xml"),
            properties: None,
        });
        spine.push(SpineItem { idref: id, linear: true, properties: None });
        k = k + 1;
    }
    let nc = chapters.len();
    let mut a: usize = 0;
    while a < assets.len()
        invariant
            a <= assets@.len(),
            ns == styles@.len(),
            nc == chapters@.len(),
            resources.wf(),
            manifest@.len() == ns + nc + a,
            spine@.len() == nc,
            forall|j: int| 0 <= j < ns ==> {
                &&& #[trigger] manifest@[j].href@ == "styles/"@ + styles@[j].0@
                &&& manifest@[j].id@ == "style-"@ + slug_of(styles@[j].0@)
                &&& manifest@[j].media_type@ == "text/css"@
            },
            forall|j: int| #![trigger spine@[j]] 0 <= j < nc ==> {
                &&& spine@[j].idref@ == chapter_id(j as nat)
                &&& spine@[j].linear
                &&& manifest@[ns + j].id@ == chapter_id(j as nat)
                &&& manifest@[ns + j].href@ == chapter_href(chapters@[j].0@)
                &&& manifest@[ns + j].media_type@ == "application/xhtml+xml"@
            },
            forall|j: int| #![trigger assets@[j]] 0 <= j < a ==> {
                &&& manifest@[ns + nc + j].href@ == assets@[j].0@
                &&& manifest@[ns + nc + j].id@ == "asset-"@ + slug_of(assets@[j].0@)
                &&& manifest@[ns + nc + j].media_type@ == media_type_for(extension(assets@[j].0@))
            },
        decreases assets.len() - a,
    {
        let href = &assets[a].0;
        let media = infer_media_type(href.as_str());
        let mut idv = chars_of("asset-");
        let sl = slugify(href.as_str());
        push_str(&mut idv, sl.as_str());
        resources.insert_bytes(href.clone(), assets[a].1.clone());
        manifest.push(ManifestItem {
            id: string_of(&idv),
            href: href.clone(),
            media_type: String::from_str(media),
            properties: None,
        });
        a = a + 1;
    }
    let book = EpubBook { metadata, manifest, spine, navigation, resources };
    proof {
        assert forall|i: int| 0 <= i < book.spine@.len() implies #[trigger] crate::paths::find_item(book.manifest@, book.spine@[i].idref@) is Some by {
            crate::paths::lemma_find_item(book.manifest@, book.spine@[i].idref@);
            assert(book.manifest@[ns + i].id@ == book.spine@[i].idref@);
        }
    }
    book
}

} // verus!
