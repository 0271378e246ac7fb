//! Serialization of the navigation documents and of the container entry.

use vstd::prelude::*;
use crate::epub::NavPoint;
use crate::numfmt::{decimal, push_decimal};
use crate::text::{chars_of, push_str, string_of};

verus! {

/// The XML escape of one character.
pub open spec fn escape_char(c: char) -> Seq<char> {
    if c == '&' {
        "&amp;"@
    } else if c == '<' {
        "&lt;"@
    } else if c == '>' {
        "&gt;"@
    } else if c == '"' {
        "&quot;"@
    } else {
        seq![c]
    }
}

/// `s` with `&`, `<`, `>` and `"` escaped as XML entities.
pub open spec fn escaped(s: Seq<char>) -> Seq<char>
    decreases s.len(),
{
    if s.len() == 0 {
        Seq::<char>::empty()
    } else {
        escaped(s.drop_last()) + escape_char(s.last())
    }
}

/// Appends the XML escape of `s`.
pub fn push_escaped(out: &mut Vec<char>, s: &str)
    ensures
        final(out)@ == old(out)@ + escaped(s@),
{
    let v = chars_of(s);
    let mut i: usize = 0;
    proof {
        assert(v@.take(0) =~= Seq::<char>::empty());
        assert(old(out)@ + escaped(Seq::<char>::empty()) =~= old(out)@);
    }
    while i < v.len()
        invariant
            i <= v@.len(),
            v@ == s@,
            out@ == old(out)@ + escaped(v@.take(i as int)),
        decreases v.len() - i,
    {
        let c = v[i];
        let ghost pre = out@;
        if c == '&' {
            push_str(out, "&amp;");
        } else if c == '<' {
            push_str(out, "&lt;");
        } else if c == '>' {
            push_str(out, "&gt;");
        } else if c == '"' {
            push_str(out, "&quot;");
        } else {
            out.push(c);
        }
        i = i + 1;
        proof {
            assert(v@.take(i as int).drop_last() =~= v@.take(i - 1));
            assert(out@ =~= old(out)@ + escaped(v@.take(i as int)));
        }
    }
    proof {
        assert(v@.take(i as int) =~= v@);
    }
}

/// `s` with `&`, `<`, `>` and `"` escaped as XML entities.
pub fn xml_escape(s: &str) -> (r: String)
    ensures
        r@ == escaped(s@),
{
    let mut out: Vec<char> = Vec::new();
    push_escaped(&mut out, s);
    string_of(&out)
}

/// The fixed `META-INF/container.xml`, pointing at `OEBPS/content.opf`.
pub open spec fn container_xml() -> Seq<char> {
    "<?xml version=\"1.0\" encoding=\"UTF-8\"?>\n<container version=\"1.0\" xmlns=\"urn:oasis:names:tc:opendocument:xmlns:container\">\n  <rootfiles>\n    <rootfile full-path=\"OEBPS/content.opf\" media-type=\"application/oebps-package+xml\"/>\n  </rootfiles>\n</container>"@
}

/// The container document.
pub fn generate_container_xml() -> (r: String)
    ensures
        r@ == container_xml(),
{
    String::from_str(
        "<?xml version=\"1.0\" encoding=\"UTF-8\"?>\n<container version=\"1.0\" xmlns=\"urn:oasis:names:tc:opendocument:xmlns:container\">\n  <rootfiles>\n    <rootfile full-path=\"OEBPS/content.opf\" media-type=\"application/oebps-package+xml\"/>\n  </rootfiles>\n</container>",
    )
}

/// The link that opens the list item of point `p`.
pub open spec fn li_head(p: NavPoint) -> Seq<char> {
    "<li><a href=\""@ + escaped(p.href@) + "\">"@ + escaped(p.label@) + "</a>"@
}

/// Appends the link that opens the list item of `point`.
fn write_li_head(html: &mut Vec<char>, point: &NavPoint)
    ensures
        final(html)@ == old(html)@ + li_head(*point),
{
    push_str(html, "<li><a href=\"");
    push_escaped(html, point.href.as_str());
    push_str(html, "\">");
    push_escaped(html, point.label.as_str());
    push_str(html, "</a>");
    proof {
        assert(final(html)@ =~= old(html)@ + li_head(*point));
    }
}

/// The `<li>` items of a nav list for the forest `ps`, nested lists
/// included.
pub open spec fn nav_items(ps: Seq<NavPoint>) -> Seq<char>
    decreases ps,
{
    if ps.len() == 0 {
        Seq::<char>::empty()
    } else {
        let p = ps.last();
        nav_items(ps.drop_last()) + li_head(p) + (if p.children@.len() > 0 {
            "\n"@ + "<ol>\n"@ + nav_items(p.children@) + "</ol>\n"@
        } else {
            Seq::<char>::empty()
        }) + "</li>\n"@
    }
}

/// The nav list for the forest `ps`: nothing when it is empty.
pub open spec fn nav_ol(ps: Seq<NavPoint>) -> Seq<char> {
    if ps.len() == 0 {
        Seq::<char>::empty()
    } else {
        "<ol>\n"@ + nav_items(ps) + "</ol>\n"@
    }
}

/// Appends the `<li>` items for `points`.
fn write_nav_items(html: &mut Vec<char>, points: &Vec<NavPoint>)
    ensures
        final(html)@ == old(html)@ + nav_items(points@),
    decreases points@,
{
    let mut i: usize = 0;
    proof {
        assert(points@.take(0) =~= Seq::<NavPoint>::empty());
        assert(old(html)@ + nav_items(Seq::<NavPoint>::empty()) =~= old(html)@);
    }
    while i < points.len()
        invariant
            i <= points@.len(),
            html@ == old(html)@ + nav_items(points@.take(i as int)),
        decreases points.len() - i,
    {
        let point = &points[i];
        let ghost pre = html@;
        write_li_head(html, point);
        let ghost mid = html@;
        if point.children.len() > 0 {
            push_str(html, "\n");
            push_str(html, "<ol>\n");
            assert(decreases_to!(points@ => points@[i as int].children@));
            write_nav_items(html, &point.children);
            push_str(html, "</ol>\n");
        }
        push_str(html, "</li>\n");
        i = i + 1;
        proof {
            let t = points@.take(i as int);
            assert(t.drop_last() =~= points@.take(i - 1));
            assert(t.last() == *point);
            assert(html@ =~= old(html)@ + nav_items(t));
        }
    }
    proof {
        assert(points@.take(i as int) =~= points@);
    }
}

/// Appends the nav list for `points`; nothing when there are none.
pub fn write_nav_ol(html: &mut Vec<char>, points: &Vec<NavPoint>)
    ensures
        final(html)@ == old(html)@ + nav_ol(points@),
{
    if points.len() == 0 {
        proof {
            assert(html@ =~= old(html)@ + nav_ol(points@));
        }
        return;
    }
    push_str(html, "<ol>\n");
    write_nav_items(html, points);
    push_str(html, "</ol>\n");
    proof {
        assert(html@ =~= old(html)@ + nav_ol(points@));
    }
}

/// The title of the navigation document: the first title, else a default.
pub open spec fn nav_title(titles: Seq<String>) -> Seq<char> {
    if titles.len() > 0 {
        titles[0]@
    } else {
        "Table of Contents"@
    }
}

/// The EPUB 3 navigation document.
pub open spec fn toc_xhtml(toc: Seq<NavPoint>, titles: Seq<String>) -> Seq<char> {
    "<?xml version=\"1.0\" encoding=\"UTF-8\"?>\n"@ + "<!DOCTYPE html>\n"@
        + "<html xmlns=\"http://www.w3.org/1999/xhtml\" xmlns:epub=\"http://www.idpf.org/2007/ops\">\n"@
        + "<head><title>"@ + escaped(nav_title(titles)) + "</title></head>\n"@ + "<body>\n"@
        + "<nav epub:type=\"toc\">\n"@ + "<h1>Table of Contents</h1>\n"@ + nav_ol(toc) + "</nav>\n"@
        + "</body>\n</html>\n"@
}

/// Serializes the table of contents as an EPUB 3 nav document.
pub fn generate_toc_xhtml(toc: &Vec<NavPoint>, titles: &Vec<String>) -> (r: String)
    ensures
        r@ == toc_xhtml(toc@, titles@),
{
    let mut html: Vec<char> = Vec::new();
    push_str(&mut html, "<?xml version=\"1.0\" encoding=\"UTF-8\"?>\n");
    push_str(&mut html, "<!DOCTYPE html>\n");
    push_str(&mut html, "<html xmlns=\"http://www.w3.org/1999/xhtml\" xmlns:epub=\"http://www.idpf.org/2007/ops\">\n");
    push_str(&mut html, "<head><title>");
    if titles.len() > 0 {
        push_escaped(&mut html, titles[0].as_str());
    } else {
        push_escaped(&mut html, "Table of Contents");
    }
    push_str(&mut html, "</title></head>\n");
    push_str(&mut html, "<body>\n");
    push_str(&mut html, "<nav epub:type=\"toc\">\n");
    push_str(&mut html, "<h1>Table of Contents</h1>\n");
    write_nav_ol(&mut html, toc);
    push_str(&mut html, "</nav>\n");
    push_str(&mut html, "</body>\n</html>\n");
    proof {
        assert(html@ =~= toc_xhtml(toc@, titles@));
    }
    string_of(&html)
}

/// The number of points in the forest `ps`.
pub open spec fn tree_size(ps: Seq<NavPoint>) -> nat
    decreases ps,
{
    if ps.len() == 0 {
        0
    } else {
        tree_size(ps.drop_last()) + 1 + tree_size(ps.last().children@)
    }
}

/// The opening of the `navPoint` element for point `p` numbered `id`, up
/// to its children.
pub open spec fn ncx_head(p: NavPoint, id: nat) -> Seq<char> {
    "<navPoint id=\"navpoint-"@ + decimal(id) + "\" playOrder=\""@ + decimal(id) + "\">\n"@
        + "  <navLabel><text>"@ + escaped(p.label@) + "</text></navLabel>\n"@ + "  <content src=\""@
        + escaped(p.href@) + "\"/>\n"@
}

/// Appends the opening of the `navPoint` element for `point`.
fn write_ncx_head(ncx: &mut Vec<char>, point: &NavPoint, id: usize)
    ensures
        final(ncx)@ == old(ncx)@ + ncx_head(*point, id as nat),
{
    push_str(ncx, "<navPoint id=\"navpoint-");
    push_decimal(ncx, id as u64);
    push_str(ncx, "\" playOrder=\"");
    push_decimal(ncx, id as u64);
    push_str(ncx, "\">\n");
    push_str(ncx, "  <navLabel><text>");
    push_escaped(ncx, point.label.as_str());
    push_str(ncx, "</text></navLabel>\n");
    push_str(ncx, "  <content src=\"");
    push_escaped(ncx, point.href.as_str());
    push_str(ncx, "\"/>\n");
    proof {
        assert(final(ncx)@ =~= old(ncx)@ + ncx_head(*point, id as nat));
    }
}

/// The `navPoint` elements for the forest `ps`, numbered in depth-first
/// order from `start`.
pub open spec fn ncx_points(ps: Seq<NavPoint>, start: nat) -> Seq<char>
    decreases ps,
{
    if ps.len() == 0 {
        Seq::<char>::empty()
    } else {
        let p = ps.last();
        let id = start + tree_size(ps.drop_last());
        ncx_points(ps.drop_last(), start) + ncx_head(p, id) + ncx_points(p.children@, id + 1) + "</navPoint>\n"@
    }
}

/// Appends the `navPoint` elements for `points`, numbering them from
/// `counter` in depth-first order; the counter ends past the last number.
fn write_ncx_points(ncx: &mut Vec<char>, points: &Vec<NavPoint>, counter: &mut usize)
    requires
        *old(counter) + tree_size(points@) <= usize::MAX,
    ensures
        final(ncx)@ == old(ncx)@ + ncx_points(points@, *old(counter) as nat),
        *final(counter) == *old(counter) + tree_size(points@),
    decreases points@,
{
    let ghost start = *counter as nat;
    let mut i: usize = 0;
    proof {
        assert(points@.take(0) =~= Seq::<NavPoint>::empty());
        assert(old(ncx)@ + ncx_points(Seq::<NavPoint>::empty(), start) =~= old(ncx)@);
        lemma_tree_size_prefix(points@, 0);
    }
    while i < points.len()
        invariant
            i <= points@.len(),
            start == *old(counter),
            start + tree_size(points@) <= usize::MAX,
            *counter == start + tree_size(points@.take(i as int)),
            tree_size(points@.take(i as int)) <= tree_size(points@),
            ncx@ == old(ncx)@ + ncx_points(points@.take(i as int), start),
        decreases points.len() - i,
    {
        let point = &points[i];
        proof {
            let t = points@.take(i + 1);
            assert(t.drop_last() =~= points@.take(i as int));
            assert(t.last() == *point);
            lemma_tree_size_prefix(points@, i + 1);
        }
        let id = *counter;
        *counter = *counter + 1;
        write_ncx_head(ncx, point, id);
        assert(decreases_to!(points@ => points@[i as int].children@));
        write_ncx_points(ncx, &point.children, counter);
        push_str(ncx, "</navPoint>\n");
        i = i + 1;
        proof {
            let t = points@.take(i as int);
            assert(ncx@ =~= old(ncx)@ + ncx_points(t, start));
        }
    }
    proof {
        assert(points@.take(i as int) =~= points@);
    }
}

/// A prefix of a forest has no more points than the forest.
pub proof fn lemma_tree_size_prefix(ps: Seq<NavPoint>, n: int)
    requires
        0 <= n <= ps.len(),
    ensures
        tree_size(ps.take(n)) <= tree_size(ps),
    decreases ps.len() - n,
{
    if n < ps.len() {
        lemma_tree_size_prefix(ps, n + 1);
        assert(ps.take(n + 1).drop_last() =~= ps.take(n));
    } else {
        assert(ps.take(n) =~= ps);
    }
}

/// The first element, or empty.
pub open spec fn first_or_empty(v: Seq<String>) -> Seq<char> {
    if v.len() > 0 {
        v[0]@
    } else {
        Seq::<char>::empty()
    }
}

/// The EPUB 2 NCX document.
pub open spec fn toc_ncx(toc: Seq<NavPoint>, titles: Seq<String>, identifiers: Seq<String>) -> Seq<char> {
    "<?xml version=\"1.0\" encoding=\"UTF-8\"?>\n"@
        + "<ncx xmlns=\"http://www.daisy.org/z3986/2005/ncx/\" version=\"2005-1\">\n"@ + "<head>\n"@
        + "  <meta name=\"dtb:uid\" content=\""@ + escaped(first_or_empty(identifiers)) + "\"/>\n"@
        + "</head>\n"@ + "<docTitle><text>"@ + escaped(first_or_empty(titles)) + "</text></docTitle>\n"@
        + "<navMap>\n"@ + ncx_points(toc, 1) + "</navMap>\n"@ + "</ncx>\n"@
}

/// Serializes the table of contents as an EPUB 2 NCX document, numbering
/// the points from 1.
pub fn generate_toc_ncx(toc: &Vec<NavPoint>, titles: &Vec<String>, identifiers: &Vec<String>) -> (r: String)
    requires
        tree_size(toc@) < usize::MAX,
    ensures
        r@ == toc_ncx(toc@, titles@, identifiers@),
{
    let mut ncx: Vec<char> = Vec::new();
    push_str(&mut ncx, "<?xml version=\"1.0\" encoding=\"UTF-8\"?>\n");
    push_str(&mut ncx, "<ncx xmlns=\"http://www.daisy.org/z3986/2005/ncx/\" version=\"2005-1\">\n");
    push_str(&mut ncx, "<head>\n");
    push_str(&mut ncx, "  <meta name=\"dtb:uid\" content=\"");
    if identifiers.len() > 0 {
        push_escaped(&mut ncx, identifiers[0].as_str());
    } else {
        push_escaped(&mut ncx, "");
    }
    push_str(&mut ncx, "\"/>\n");
    push_str(&mut ncx, "</head>\n");
    push_str(&mut ncx, "<docTitle><text>");
    if titles.len() > 0 {
        push_escaped(&mut ncx, titles[0].as_str());
    } else {
        push_escaped(&mut ncx, "");
    }
    push_str(&mut ncx, "</text></docTitle>\n");
    push_str(&mut ncx, "<navMap>\n");
    let mut counter: usize = 1;
    write_ncx_points(&mut ncx, toc, &mut counter);
    push_str(&mut ncx, "</navMap>\n");
    push_str(&mut ncx, "</ncx>\n");
    proof {
        assert(""@ =~= Seq::<char>::empty()) by {
            reveal_strlit("");
        }
        assert(ncx@ =~= toc_ncx(toc@, titles@, identifiers@));
    }
    string_of(&ncx)
}

} // verus!
