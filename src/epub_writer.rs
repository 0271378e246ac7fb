//! The archive of a book: which entries it holds, in which order.

use vstd::prelude::*;
use vstd::string::StrSliceExecFns;
use vstd::utf8::{decode_utf8, encode_utf8, encode_utf8_decode_utf8, encode_utf8_valid_utf8, valid_utf8};
use crate::epub::EpubBook;
use crate::dates::{is_time_of, iso_timestamp};
use crate::error::EpxError;
use crate::opf_writer::{opf_inputs, opf_document, opf_text};
use crate::text::{chars_of, is_prefix, is_suffix, push_str, str_ends_with, str_starts_with, string_of};
use crate::writer::{container_xml, generate_container_xml, generate_toc_ncx, generate_toc_xhtml, toc_ncx, toc_xhtml, tree_size};
use crate::zip_utils::{entry_views, zip_of, zip_write};

verus! {

/// The payload of the `mimetype` entry.
pub open spec fn mimetype_payload() -> Seq<u8> {
    encode_utf8("application/epub+zip"@)
}

/// Resources that the writer produces itself and so leaves out.
pub open spec fn regenerated(k: Seq<char>) -> bool {
    is_suffix(".opf"@, k) || is_suffix("toc.xhtml"@, k) || is_suffix("toc.ncx"@, k)
}

/// Where a resource goes: under `OEBPS/` unless it is there or under
/// `META-INF/` already.
pub open spec fn zip_path_of(k: Seq<char>) -> Seq<char> {
    if is_prefix("OEBPS/"@, k) || is_prefix("META-INF/"@, k) {
        k
    } else {
        "OEBPS/"@ + k
    }
}

/// The archive entries for the resources `es`, in order.
pub open spec fn resource_entries(es: Seq<(String, Vec<u8>)>) -> Seq<(Seq<char>, bool, Seq<u8>)>
    decreases es.len(),
{
    if es.len() == 0 {
        Seq::empty()
    } else {
        let rest = resource_entries(es.drop_last());
        let k = es.last().0@;
        if regenerated(k) {
            rest
        } else {
            rest.push((zip_path_of(k), false, es.last().1@))
        }
    }
}

/// The entries of the archive of `book`: `mimetype` first and stored, the
/// container, the package document `opf`, both navigation documents, then
/// the resources; all but the first deflated.
pub open spec fn book_entries(book: EpubBook, opf: Seq<char>) -> Seq<(Seq<char>, bool, Seq<u8>)> {
    head_entries(book, opf) + resource_entries(book.resources.entries@)
}

/// The bytes of a string.
fn bytes_of(s: &String) -> (r: Vec<u8>)
    ensures
        r@ == encode_utf8(s@),
{
    s.as_str().as_bytes_vec()
}

/// The five entries that come before the resources.
pub open spec fn head_entries(book: EpubBook, opf: Seq<char>) -> Seq<(Seq<char>, bool, Seq<u8>)> {
    seq![
        ("mimetype"@, true, mimetype_payload()),
        ("META-INF/container.xml"@, false, encode_utf8(container_xml())),
        ("OEBPS/content.opf"@, false, encode_utf8(opf)),
        ("OEBPS/toc.xhtml"@, false, encode_utf8(toc_xhtml(book.navigation.toc@, book.metadata.titles@))),
        ("OEBPS/toc.ncx"@, false, encode_utf8(toc_ncx(book.navigation.toc@, book.metadata.titles@, book.metadata.identifiers@))),
    ]
}

/// The entries that come before the resources, for package document `opf`.
fn make_head_entries(book: &EpubBook, opf: &String) -> (r: Vec<(String, bool, Vec<u8>)>)
    requires
        tree_size(book.navigation.toc@) < usize::MAX,
    ensures
        entry_views(r@) == head_entries(*book, opf@),
{
    let mut entries: Vec<(String, bool, Vec<u8>)> = Vec::new();
    let mime = String::from_str("application/epub+zip");
    entries.push((String::from_str("mimetype"), true, bytes_of(&mime)));
    let container = generate_container_xml();
    entries.push((String::from_str("META-INF/container.xml"), false, bytes_of(&container)));
    entries.push((String::from_str("OEBPS/content.opf"), false, bytes_of(opf)));
    let nav = generate_toc_xhtml(&book.navigation.toc, &book.metadata.titles);
    entries.push((String::from_str("OEBPS/toc.xhtml"), false, bytes_of(&nav)));
    let ncx = generate_toc_ncx(&book.navigation.toc, &book.metadata.titles, &book.metadata.identifiers);
    entries.push((String::from_str("OEBPS/toc.ncx"), false, bytes_of(&ncx)));
    proof {
        assert(entry_views(entries@) =~= head_entries(*book, opf@));
    }
    entries
}

/// Appends the entries of the resources `res`.
fn push_resource_entries(entries: &mut Vec<(String, bool, Vec<u8>)>, res: &Vec<(String, Vec<u8>)>)
    ensures
        entry_views(final(entries)@) == entry_views(old(entries)@) + resource_entries(res@),
{
    let ghost fixed = entry_views(entries@);
    let mut i: usize = 0;
    proof {
        assert(res@.take(0) =~= Seq::<(String, Vec<u8>)>::empty());
        assert(entry_views(entries@) =~= fixed + resource_entries(res@.take(0)));
    }
    while i < res.len()
        invariant
            i <= res@.len(),
            fixed == entry_views(old(entries)@),
            entry_views(entries@) == fixed + resource_entries(res@.take(i as int)),
        decreases res.len() - i,
    {
        proof {
            assert(res@.take(i + 1).drop_last() =~= res@.take(i as int));
        }
        let key = &res[i].0;
        if !(str_ends_with(key.as_str(), ".opf") || str_ends_with(key.as_str(), "toc.xhtml")
            || str_ends_with(key.as_str(), "toc.ncx")) {
            let path = if str_starts_with(key.as_str(), "OEBPS/") || str_starts_with(key.as_str(), "META-INF/") {
                key.clone()
            } else {
                let mut p = chars_of("OEBPS/");
                push_str(&mut p, key.as_str());
                string_of(&p)
            };
            let ghost pre = entries@;
            entries.push((path, false, res[i].1.clone()));
            proof {
                assert(entry_views(entries@) =~= entry_views(pre).push((zip_path_of(key@), false, res@[i as int].1@)));
            }
        }
        i = i + 1;
    }
    proof {
        assert(res@.take(i as int) =~= res@);
    }
}

/// The entries of the archive of `book`.
pub fn epub_entries(book: &EpubBook) -> (r: Vec<(String, bool, Vec<u8>)>)
    requires
        tree_size(book.navigation.toc@) < usize::MAX,
    ensures
        exists|uid: Seq<char>, now: Seq<char>, order: Seq<usize>|
            uid.len() == 36 && book.metadata.custom.is_key_order(order)
            && (book.metadata.modified is None ==> exists|c: (u64, u64, u64, u64, u64, u64)|
                (exists|secs: int| 0 <= secs <= u64::MAX && is_time_of(secs, c)) && now == iso_timestamp(c))
            && entry_views(r@) == book_entries(*book, opf_document(*book, uid, now, order)),
{
    let (uid, now) = opf_inputs(book);
    let opf = opf_text(book, uid.as_str(), now.as_str());
    let ghost order = choose|order: Seq<usize>|
        book.metadata.custom.is_key_order(order) && opf@ == #[trigger] opf_document(*book, uid@, now@, order);
    let mut entries = make_head_entries(book, &opf);
    push_resource_entries(&mut entries, &book.resources.entries);
    proof {
        assert(entry_views(entries@) =~= book_entries(*book, opf_document(*book, uid@, now@, order)));
    }
    entries
}

/// The archive of `book`, in memory.
pub fn write_epub(book: &EpubBook) -> (r: Result<Vec<u8>, EpxError>)
    requires
        tree_size(book.navigation.toc@) < usize::MAX,
    ensures
        exists|uid: Seq<char>, now: Seq<char>, order: Seq<usize>| #![trigger opf_document(*book, uid, now, order)] {
            let entries = book_entries(*book, opf_document(*book, uid, now, order));
            &&& uid.len() == 36
            &&& book.metadata.custom.is_key_order(order)
            &&& (book.metadata.modified is None ==> exists|c: (u64, u64, u64, u64, u64, u64)|
                (exists|secs: int| 0 <= secs <= u64::MAX && is_time_of(secs, c)) && now == iso_timestamp(c))
            &&& match r {
                Ok(b) => zip_of(entries) == Some(b@),
                Err(e) => e is InvalidEpub && zip_of(entries) is None,
            }
        },
{
    let entries = epub_entries(book);
    match zip_write(&entries) {
        Some(b) => Ok(b),
        None => Err(EpxError::InvalidEpub(String::from_str("archive could not be written (repeated entry name)"))),
    }
}

/// Every archive the writer produces has `mimetype` as its first entry,
/// stored uncompressed, with a payload that is valid UTF-8 and reads
/// exactly `application/epub+zip` (20 bytes).
pub proof fn lemma_mimetype_entry_first(book: EpubBook, opf: Seq<char>)
    ensures
        book_entries(book, opf)[0] == ("mimetype"@, true, mimetype_payload()),
        valid_utf8(mimetype_payload()),
        decode_utf8(mimetype_payload()) == "application/epub+zip"@,
        mimetype_payload().len() == 20,
{
    let s = "application/epub+zip"@;
    encode_utf8_valid_utf8(s);
    encode_utf8_decode_utf8(s);
    reveal_strlit("application/epub+zip");
    assert(vstd::utf8::is_ascii_chars(s));
    vstd::utf8::is_ascii_chars_encode_utf8(s);
}

} // verus!
