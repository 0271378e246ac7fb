//! Writing the package document and the archive of a book.

use vstd::prelude::*;
use crate::dates::{format_iso8601, iso_timestamp, is_time_of};
use crate::epub::{EpubBook, EpubMetadata, ManifestItem, SpineItem};

use crate::strmap::StrMap;
use crate::text::{push_str, string_of};
use crate::writer::{escaped, push_escaped};

verus! {

/// One line per element of `v`: `open`, the escaped text, `close`.
pub open spec fn element_lines(open: Seq<char>, close: Seq<char>, v: Seq<String>) -> Seq<char>
    decreases v.len(),
{
    if v.len() == 0 {
        Seq::<char>::empty()
    } else {
        element_lines(open, close, v.drop_last()) + "    "@ + open + escaped(v.last()@) + close + "\n"@
    }
}

/// One line for an optional element.
pub open spec fn optional_line(open: Seq<char>, close: Seq<char>, v: Option<String>) -> Seq<char> {
    match v {
        Some(s) => "    "@ + open + escaped(s@) + close + "\n"@,
        None => Seq::<char>::empty(),
    }
}

/// The identifier lines: the first carries `id="uid"`; with none, a
/// `urn:uuid:` identifier made from `uid`.
pub open spec fn identifier_lines(ids: Seq<String>, uid: Seq<char>) -> Seq<char> {
    if ids.len() == 0 {
        "    <dc:identifier id=\"uid\">urn:uuid:"@ + uid + "</dc:identifier>\n"@
    } else {
        "    <dc:identifier id=\"uid\">"@ + escaped(ids[0]@) + "</dc:identifier>\n"@
            + element_lines("<dc:identifier>"@, "</dc:identifier>"@, ids.drop_first())
    }
}

/// The custom `meta` lines, in the order `order` of entry indices.
pub open spec fn custom_lines(custom: Seq<(String, String)>, order: Seq<usize>) -> Seq<char>
    decreases order.len(),
{
    if order.len() == 0 {
        Seq::<char>::empty()
    } else {
        let e = custom[order.last() as int];
        custom_lines(custom, order.drop_last()) + "    <meta property=\""@ + escaped(e.0@) + "\">"@
            + escaped(e.1@) + "</meta>\n"@
    }
}

/// The language lines (`en` when there are none).
pub open spec fn language_lines(langs: Seq<String>) -> Seq<char> {
    if langs.len() == 0 {
        "    <dc:language>en</dc:language>\n"@
    } else {
        element_lines("<dc:language>"@, "</dc:language>"@, langs)
    }
}

/// The modification time line: the recorded time, else `now`.
pub open spec fn modified_line(modified: Option<String>, now: Seq<char>) -> Seq<char> {
    "    <meta property=\"dcterms:modified\">"@ + escaped(
        match modified {
            Some(s) => s@,
            None => now,
        },
    ) + "</meta>\n"@
}

/// The `<metadata>` element.
pub open spec fn metadata_xml(m: EpubMetadata, uid: Seq<char>, now: Seq<char>, order: Seq<usize>) -> Seq<char> {
    "  <metadata xmlns:dc=\"http://purl.org/dc/elements/1.1/\">\n"@ + identifier_lines(m.identifiers@, uid)
        + element_lines("<dc:title>"@, "</dc:title>"@, m.titles@) + language_lines(m.languages@)
        + element_lines("<dc:creator>"@, "</dc:creator>"@, m.creators@)
        + element_lines("<dc:publisher>"@, "</dc:publisher>"@, m.publishers@)
        + optional_line("<dc:description>"@, "</dc:description>"@, m.description)
        + element_lines("<dc:subject>"@, "</dc:subject>"@, m.subjects@)
        + optional_line("<dc:rights>"@, "</dc:rights>"@, m.rights)
        + element_lines("<dc:date>"@, "</dc:date>"@, m.dates@) + modified_line(m.modified, now)
        + custom_lines(m.custom.entries@, order) + "  </metadata>\n"@
}

/// The manifest line of one item.
pub open spec fn item_line(it: ManifestItem) -> Seq<char> {
    "    <item id=\""@ + escaped(it.id@) + "\" href=\""@ + escaped(it.href@) + "\" media-type=\""@
        + escaped(it.media_type@) + "\""@ + match it.properties {
        Some(p) => " properties=\""@ + escaped(p@) + "\""@,
        None => Seq::<char>::empty(),
    } + "/>\n"@
}

/// The spine line of one item.
pub open spec fn itemref_line(it: SpineItem) -> Seq<char> {
    "    <itemref idref=\""@ + escaped(it.idref@) + "\""@ + (if it.linear {
        Seq::<char>::empty()
    } else {
        " linear=\"no\""@
    }) + "/>\n"@
}

/// The manifest lines of `items`.
pub open spec fn item_lines(items: Seq<ManifestItem>) -> Seq<char>
    decreases items.len(),
{
    if items.len() == 0 {
        Seq::<char>::empty()
    } else {
        item_lines(items.drop_last()) + item_line(items.last())
    }
}

/// The spine lines of `items`.
pub open spec fn itemref_lines(items: Seq<SpineItem>) -> Seq<char>
    decreases items.len(),
{
    if items.len() == 0 {
        Seq::<char>::empty()
    } else {
        itemref_lines(items.drop_last()) + itemref_line(items.last())
    }
}

/// The package document of `book`: metadata in fixed element order
/// (custom properties in the order `order`), a manifest that begins with
/// the nav document and the NCX, and the spine.
pub open spec fn opf_document(book: EpubBook, uid: Seq<char>, now: Seq<char>, order: Seq<usize>) -> Seq<char> {
    "<?xml version=\"1.0\" encoding=\"UTF-8\"?>\n"@
        + "<package xmlns=\"http://www.idpf.org/2007/opf\" version=\"3.0\" unique-identifier=\"uid\">\n"@
        + metadata_xml(book.metadata, uid, now, order) + "  <manifest>\n"@
        + "    <item id=\"toc\" href=\"toc.xhtml\" media-type=\"application/xhtml+xml\" properties=\"nav\"/>\n"@
        + "    <item id=\"ncx\" href=\"toc.ncx\" media-type=\"application/x-dtbncx+xml\"/>\n"@
        + item_lines(book.manifest@) + "  </manifest>\n"@ + "  <spine toc=\"ncx\">\n"@ + itemref_lines(book.spine@)
        + "  </spine>\n"@ + "</package>\n"@
}

/// Appends the manifest line of one item.
fn write_item_line(out: &mut Vec<char>, it: &ManifestItem)
    ensures
        final(out)@ == old(out)@ + item_line(*it),
{
    push_str(out, "    <item id=\"");
    push_escaped(out, it.id.as_str());
    push_str(out, "\" href=\"");
    push_escaped(out, it.href.as_str());
    push_str(out, "\" media-type=\"");
    push_escaped(out, it.media_type.as_str());
    push_str(out, "\"");
    let ghost mid = out@;
    match &it.properties {
        Some(p) => {
            push_str(out, " properties=\"");
            push_escaped(out, p.as_str());
            push_str(out, "\"");
        },
        None => {},
    }
    push_str(out, "/>\n");
    proof {
        assert(final(out)@ =~= old(out)@ + item_line(*it));
    }
}

/// Appends the spine line of one item.
fn write_itemref_line(out: &mut Vec<char>, it: &SpineItem)
    ensures
        final(out)@ == old(out)@ + itemref_line(*it),
{
    push_str(out, "    <itemref idref=\"");
    push_escaped(out, it.idref.as_str());
    push_str(out, "\"");
    if !it.linear {
        push_str(out, " linear=\"no\"");
    }
    push_str(out, "/>\n");
    proof {
        assert(final(out)@ =~= old(out)@ + itemref_line(*it));
    }
}

/// Appends one line per element of `v`.
fn write_lines(out: &mut Vec<char>, open: &str, close: &str, v: &Vec<String>, from: usize)
    requires
        from <= v@.len(),
    ensures
        final(out)@ == old(out)@ + element_lines(open@, close@, v@.subrange(from as int, v@.len() as int)),
{
    let ghost sub = v@.subrange(from as int, v@.len() as int);
    let mut i: usize = from;
    proof {
        assert(v@.subrange(from as int, from as int) =~= Seq::<String>::empty());
        assert(old(out)@ + element_lines(open@, close@, Seq::<String>::empty()) =~= old(out)@);
    }
    while i < v.len()
        invariant
            from <= i <= v@.len(),
            out@ == old(out)@ + element_lines(open@, close@, v@.subrange(from as int, i as int)),
        decreases v.len() - i,
    {
        push_str(out, "    ");
        push_str(out, open);
        push_escaped(out, v[i].as_str());
        push_str(out, close);
        push_str(out, "\n");
        i = i + 1;
        proof {
            let t = v@.subrange(from as int, i as int);
            assert(t.drop_last() =~= v@.subrange(from as int, i - 1));
            assert(out@ =~= old(out)@ + element_lines(open@, close@, t));
        }
    }
    proof {
        assert(v@.subrange(from as int, i as int) =~= sub);
    }
}

/// Appends one line for an optional element.
fn write_optional(out: &mut Vec<char>, open: &str, close: &str, v: &Option<String>)
    ensures
        final(out)@ == old(out)@ + optional_line(open@, close@, *v),
{
    match v {
        Some(s) => {
            push_str(out, "    ");
            push_str(out, open);
            push_escaped(out, s.as_str());
            push_str(out, close);
            push_str(out, "\n");
            proof {
                assert(final(out)@ =~= old(out)@ + optional_line(open@, close@, *v));
            }
        },
        None => {
            proof {
                assert(out@ =~= old(out)@ + optional_line(open@, close@, *v));
            }
        },
    }
}

/// Appends one line per element of the whole of `v`.
fn write_all_lines(out: &mut Vec<char>, open: &str, close: &str, v: &Vec<String>)
    ensures
        final(out)@ == old(out)@ + element_lines(open@, close@, v@),
{
    write_lines(out, open, close, v, 0);
    proof {
        assert(v@.subrange(0, v@.len() as int) =~= v@);
    }
}

/// Appends the identifier lines.
fn write_identifiers(out: &mut Vec<char>, ids: &Vec<String>, uid: &str)
    ensures
        final(out)@ == old(out)@ + identifier_lines(ids@, uid@),
{
    if ids.len() == 0 {
        push_str(out, "    <dc:identifier id=\"uid\">urn:uuid:");
        push_str(out, uid);
        push_str(out, "</dc:identifier>\n");
    } else {
        push_str(out, "    <dc:identifier id=\"uid\">");
        push_escaped(out, ids[0].as_str());
        push_str(out, "</dc:identifier>\n");
        write_lines(out, "<dc:identifier>", "</dc:identifier>", ids, 1);
        proof {
            assert(ids@.subrange(1, ids@.len() as int) =~= ids@.drop_first());
        }
    }
    proof {
        assert(final(out)@ =~= old(out)@ + identifier_lines(ids@, uid@));
    }
}

/// Appends the language lines.
fn write_languages(out: &mut Vec<char>, langs: &Vec<String>)
    ensures
        final(out)@ == old(out)@ + language_lines(langs@),
{
    if langs.len() == 0 {
        push_str(out, "    <dc:language>en</dc:language>\n");
    } else {
        write_all_lines(out, "<dc:language>", "</dc:language>", langs);
    }
}

/// Appends the modification time line.
fn write_modified(out: &mut Vec<char>, modified: &Option<String>, now: &str)
    ensures
        final(out)@ == old(out)@ + modified_line(*modified, now@),
{
    push_str(out, "    <meta property=\"dcterms:modified\">");
    match modified {
        Some(s) => push_escaped(out, s.as_str()),
        None => push_escaped(out, now),
    }
    push_str(out, "</meta>\n");
    proof {
        assert(final(out)@ =~= old(out)@ + modified_line(*modified, now@));
    }
}

/// Appends the custom `meta` lines in ascending key order.
fn write_custom(out: &mut Vec<char>, custom: &StrMap<String>) -> (order: Ghost<Seq<usize>>)
    ensures
        custom.is_key_order(order@),
        final(out)@ == old(out)@ + custom_lines(custom.entries@, order@),
{
    let order = custom.sorted_order();
    let mut k: usize = 0;
    proof {
        assert(order@.take(0) =~= Seq::<usize>::empty());
        assert(old(out)@ + custom_lines(custom.entries@, Seq::<usize>::empty()) =~= old(out)@);
    }
    while k < order.len()
        invariant
            k <= order@.len(),
            custom.is_key_order(order@),
            out@ == old(out)@ + custom_lines(custom.entries@, order@.take(k as int)),
        decreases order.len() - k,
    {
        let e = &custom.entries[order[k]];
        push_str(out, "    <meta property=\"");
        push_escaped(out, e.0.as_str());
        push_str(out, "\">");
        push_escaped(out, e.1.as_str());
        push_str(out, "</meta>\n");
        k = k + 1;
        proof {
            let t = order@.take(k as int);
            assert(t.drop_last() =~= order@.take(k - 1));
            assert(out@ =~= old(out)@ + custom_lines(custom.entries@, t));
        }
    }
    proof {
        assert(order@.take(k as int) =~= order@);
    }
    Ghost(order@)
}

/// Appends the `<metadata>` element.
#[verifier::rlimit(60)]
fn write_metadata(out: &mut Vec<char>, m: &EpubMetadata, uid: &str, now: &str) -> (order: Ghost<Seq<usize>>)
    ensures
        m.custom.is_key_order(order@),
        final(out)@ == old(out)@ + metadata_xml(*m, uid@, now@, order@),
{
    let ghost o = out@;
    push_str(out, "  <metadata xmlns:dc=\"http://purl.org/dc/elements/1.1/\">\n");
    let ghost mut acc = "  <metadata xmlns:dc=\"http://purl.org/dc/elements/1.1/\">\n"@;
    write_identifiers(out, &m.identifiers, uid);
    proof { acc = acc + identifier_lines(m.identifiers@, uid@); assert(out@ =~= o + acc); }
    write_all_lines(out, "<dc:title>", "</dc:title>", &m.titles);
    proof { acc = acc + element_lines("<dc:title>"@, "</dc:title>"@, m.titles@); assert(out@ =~= o + acc); }
    write_languages(out, &m.languages);
    proof { acc = acc + language_lines(m.languages@); assert(out@ =~= o + acc); }
    write_all_lines(out, "<dc:creator>", "</dc:creator>", &m.creators);
    proof { acc = acc + element_lines("<dc:creator>"@, "</dc:creator>"@, m.creators@); assert(out@ =~= o + acc); }
    write_all_lines(out, "<dc:publisher>", "</dc:publisher>", &m.publishers);
    proof { acc = acc + element_lines("<dc:publisher>"@, "</dc:publisher>"@, m.publishers@); assert(out@ =~= o + acc); }
    write_optional(out, "<dc:description>", "</dc:description>", &m.description);
    proof { acc = acc + optional_line("<dc:description>"@, "</dc:description>"@, m.description); assert(out@ =~= o + acc); }
    write_all_lines(out, "<dc:subject>", "</dc:subject>", &m.subjects);
    proof { acc = acc + element_lines("<dc:subject>"@, "</dc:subject>"@, m.subjects@); assert(out@ =~= o + acc); }
    write_optional(out, "<dc:rights>", "</dc:rights>", &m.rights);
    proof { acc = acc + optional_line("<dc:rights>"@, "</dc:rights>"@, m.rights); assert(out@ =~= o + acc); }
    write_all_lines(out, "<dc:date>", "</dc:date>", &m.dates);
    proof { acc = acc + element_lines("<dc:date>"@, "</dc:date>"@, m.dates@); assert(out@ =~= o + acc); }
    write_modified(out, &m.modified, now);
    proof { acc = acc + modified_line(m.modified, now@); assert(out@ =~= o + acc); }
    let order = write_custom(out, &m.custom);
    proof { acc = acc + custom_lines(m.custom.entries@, order@); assert(out@ =~= o + acc); }
    push_str(out, "  </metadata>\n");
    proof { acc = acc + "  </metadata>\n"@; assert(out@ =~= o + acc); }
    order
}

/// The package document of `book`, with `uid` for a missing identifier and
/// `now` for a missing modification time.
pub fn opf_text(book: &EpubBook, uid: &str, now: &str) -> (r: String)
    ensures
        exists|order: Seq<usize>| book.metadata.custom.is_key_order(order) && r@ == opf_document(*book, uid@, now@, order),
{
    let mut out: Vec<char> = Vec::new();
    push_str(&mut out, "<?xml version=\"1.0\" encoding=\"UTF-8\"?>\n");
    push_str(&mut out, "<package xmlns=\"http://www.idpf.org/2007/opf\" version=\"3.0\" unique-identifier=\"uid\">\n");
    let order = write_metadata(&mut out, &book.metadata, uid, now);
    push_str(&mut out, "  <manifest>\n");
    push_str(&mut out, "    <item id=\"toc\" href=\"toc.xhtml\" media-type=\"application/xhtml+xml\" properties=\"nav\"/>\n");
    push_str(&mut out, "    <item id=\"ncx\" href=\"toc.ncx\" media-type=\"application/x-dtbncx+xml\"/>\n");
    let ghost d = out@;
    let mut i: usize = 0;
    proof {
        assert(book.manifest@.take(0) =~= Seq::<ManifestItem>::empty());
    }
    while i < book.manifest.len()
        invariant
            i <= book.manifest@.len(),
            out@ == d + item_lines(book.manifest@.take(i as int)),
        decreases book.manifest.len() - i,
    {
        write_item_line(&mut out, &book.manifest[i]);
        i = i + 1;
        proof {
            let t = book.manifest@.take(i as int);
            assert(t.drop_last() =~= book.manifest@.take(i - 1));
            assert(out@ =~= d + item_lines(t));
        }
    }
    push_str(&mut out, "  </manifest>\n");
    push_str(&mut out, "  <spine toc=\"ncx\">\n");
    let ghost e = out@;
    let mut j: usize = 0;
    proof {
        assert(book.manifest@.take(i as int) =~= book.manifest@);
        assert(book.spine@.take(0) =~= Seq::<SpineItem>::empty());
    }
    while j < book.spine.len()
        invariant
            j <= book.spine@.len(),
            out@ == e + itemref_lines(book.spine@.take(j as int)),
        decreases book.spine.len() - j,
    {
        write_itemref_line(&mut out, &book.spine[j]);
        j = j + 1;
        proof {
            let t = book.spine@.take(j as int);
            assert(t.drop_last() =~= book.spine@.take(j - 1));
            assert(out@ =~= e + itemref_lines(t));
        }
    }
    push_str(&mut out, "  </spine>\n");
    push_str(&mut out, "</package>\n");
    proof {
        assert(book.spine@.take(j as int) =~= book.spine@);
        assert(out@ =~= opf_document(*book, uid@, now@, order@));
    }
    string_of(&out)
}

/// Relies on `uuid::Uuid::new_v4` and its `Display`: a random UUID in
/// hyphenated form, 36 characters.
#[verifier::external_body]
fn new_uuid() -> (r: String)
    ensures
        r@.len() == 36,
{
    uuid::Uuid::new_v4().to_string()
}

/// What stands in for a missing identifier (a random UUID) and a missing
/// modification time (the current time).
pub fn opf_inputs(book: &EpubBook) -> (r: (String, String))
    ensures
        r.0@.len() == 36,
        book.metadata.modified is None ==> exists|c: (u64, u64, u64, u64, u64, u64)|
            (exists|secs: int| 0 <= secs <= u64::MAX && is_time_of(secs, c)) && r.1@ == iso_timestamp(c),
{
    let uid = if book.metadata.identifiers.len() == 0 {
        new_uuid()
    } else {
        String::from_str("00000000-0000-0000-0000-000000000000")
    };
    let now = match &book.metadata.modified {
        Some(_) => String::new(),
        None => format_iso8601(),
    };
    proof {
        reveal_strlit("00000000-0000-0000-0000-000000000000");
    }
    (uid, now)
}

/// The package document of `book`; a random UUID stands in for a missing
/// identifier and the current time for a missing modification time.
pub fn generate_opf(book: &EpubBook) -> (r: String)
    ensures
        exists|uid: Seq<char>, now: Seq<char>, order: Seq<usize>|
            uid.len() == 36 && book.metadata.custom.is_key_order(order) && r@ == opf_document(*book, uid, now, order)
            && (book.metadata.modified is None ==> exists|c: (u64, u64, u64, u64, u64, u64)|
                (exists|secs: int| 0 <= secs <= u64::MAX && is_time_of(secs, c)) && now == iso_timestamp(c)),
{
    let (uid, now) = opf_inputs(book);
    opf_text(book, uid.as_str(), now.as_str())
}

} // verus!
