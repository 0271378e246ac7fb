//! Adding and removing assets of a book.

use vstd::prelude::*;
use vstd::utf8::{decode_utf8, valid_utf8};
use crate::asset_embed::{extension, infer_media_type, media_type_for};
use crate::chapter_manage::{without_id};
use crate::chapter_org::{slug_of, slugify};
use crate::epub::{opf_dir_of, EpubBook, ManifestItem};
use crate::error::EpxError;
use crate::text::{chars_of, contains, is_suffix, push_str, str_contains, str_ends_with, str_eq, string_of, utf8_decode};

verus! {

/// Adds the file `filename` with bytes `data` as an asset under the OPF
/// directory, with the given media type or the one its extension gives;
/// returns its manifest id, `asset-<slug>`.
pub fn add_asset(book: &mut EpubBook, filename: &str, media_type_override: Option<&str>, data: Vec<u8>) -> (r: Result<String, EpxError>)
    requires
        old(book).wf(),
    ensures
        final(book).wf(),
        r is Ok,
        r matches Ok(id) ==> id@ == "asset-"@ + slug_of(filename@),
        final(book).manifest@.len() == old(book).manifest@.len() + 1,
        final(book).manifest@.drop_last() == old(book).manifest@,
        final(book).manifest@.last().href@ == filename@,
        final(book).manifest@.last().media_type@ == match media_type_override {
            Some(m) => m@,
            None => media_type_for(extension(filename@)),
        },
        final(book).resources.bytes_view() == old(book).resources.bytes_view().insert(
            opf_dir_of(old(book).resources.key_seq()) + filename@,
            data@,
        ),
        final(book).spine == old(book).spine,
        final(book).metadata == old(book).metadata,
{
    let media = match media_type_override {
        Some(m) => String::from_str(m),
        None => String::from_str(infer_media_type(filename)),
    };
    let mut idv = chars_of("asset-");
    let sl = slugify(filename);
    push_str(&mut idv, sl.as_str());
    let id = string_of(&idv);
    let opf_dir = book.detect_opf_dir();
    let mut k = chars_of(opf_dir.as_str());
    push_str(&mut k, filename);
    book.resources.insert_bytes(string_of(&k), data);
    let ghost pre = book.manifest@;
    book.manifest.push(ManifestItem { id: id.clone(), href: String::from_str(filename), media_type: media, properties: None });
    proof {
        assert(book.manifest@.drop_last() =~= pre);
    }
    Ok(id)
}

/// Some XHTML resource (by key) mentions `href` in its text.
pub open spec fn is_referenced_asset(book: EpubBook, href: Seq<char>) -> bool {
    exists|i: int| 0 <= i < book.resources.entries@.len() && {
        let e = #[trigger] book.resources.entries@[i];
        &&& (is_suffix(".xhtml"@, e.0@) || is_suffix(".html"@, e.0@))
        &&& valid_utf8(e.1@)
        &&& contains(decode_utf8(e.1@), href)
    }
}

/// The first manifest item whose href or id is `p`.
pub open spec fn is_first_asset(m: Seq<ManifestItem>, p: Seq<char>, i: int) -> bool {
    &&& 0 <= i < m.len()
    &&& (m[i].href@ == p || m[i].id@ == p)
    &&& forall|j: int| 0 <= j < i ==> !(#[trigger] m[j].href@ == p || m[j].id@ == p)
}

/// Removes the asset named by `asset_path` (its href or its id): every
/// manifest item with its id, and its resource under the OPF directory and
/// under its bare href. Returns whether some XHTML resource still mentions
/// it; an error when no manifest item has that href or id.
pub fn remove_asset(book: &mut EpubBook, asset_path: &str) -> (r: Result<bool, EpxError>)
    requires
        old(book).wf(),
    ensures
        final(book).wf(),
        match r {
            Ok(referenced) => exists|i: int| is_first_asset(old(book).manifest@, asset_path@, i) && {
                let item = old(book).manifest@[i];
                &&& final(book).manifest@ == without_id(old(book).manifest@, item.id@)
                &&& final(book).resources@ == old(book).resources@.remove(
                    opf_dir_of(old(book).resources.key_seq()) + item.href@,
                ).remove(item.href@)
                &&& referenced == is_referenced_asset(*old(book), item.href@)
            },
            Err(e) => e is NotFound && *final(book) == *old(book) && forall|i: int|
                0 <= i < old(book).manifest@.len() ==> !(#[trigger] old(book).manifest@[i].href@ == asset_path@
                || old(book).manifest@[i].id@ == asset_path@),
        },
        final(book).spine == old(book).spine,
        final(book).metadata == old(book).metadata,
{
    let mut found: Option<usize> = None;
    let mut i: usize = 0;
    while i < book.manifest.len()
        invariant_except_break
            found is None,
        invariant
            i <= book.manifest@.len(),
            forall|j: int| #![trigger book.manifest@[j]] 0 <= j < i ==> !(book.manifest@[j].href@ == asset_path@ || book.manifest@[j].id@ == asset_path@),
        ensures
            match found {
                Some(k) => is_first_asset(book.manifest@, asset_path@, k as int),
                None => forall|j: int| 0 <= j < book.manifest@.len() ==> !(#[trigger] book.manifest@[j].href@ == asset_path@ || book.manifest@[j].id@ == asset_path@),
            },
        decreases book.manifest.len() - i,
    {
        if str_eq(book.manifest[i].href.as_str(), asset_path) || str_eq(book.manifest[i].id.as_str(), asset_path) {
            found = Some(i);
            break;
        }
        i = i + 1;
    }
    let k = match found {
        Some(k) => k,
        None => {
            let mut m = chars_of("asset not found: ");
            push_str(&mut m, asset_path);
            return Err(EpxError::NotFound(string_of(&m)));
        },
    };
    let id = book.manifest[k].id.clone();
    let href = book.manifest[k].href.clone();
    let mut referenced = false;
    let mut q: usize = 0;
    while q < book.resources.entries.len()
        invariant
            q <= book.resources.entries@.len(),
            referenced == exists|t: int| 0 <= t < q && {
                let e = #[trigger] book.resources.entries@[t];
                &&& (is_suffix(".xhtml"@, e.0@) || is_suffix(".html"@, e.0@))
                &&& valid_utf8(e.1@)
                &&& contains(decode_utf8(e.1@), href@)
            },
        decreases book.resources.entries.len() - q,
    {
        let key = &book.resources.entries[q].0;
        if str_ends_with(key.as_str(), ".xhtml") || str_ends_with(key.as_str(), ".html") {
            match utf8_decode(book.resources.entries[q].1.clone()) {
                Some(content) => {
                    if str_contains(content.as_str(), href.as_str()) {
                        referenced = true;
                    }
                },
                None => {},
            }
        }
        q = q + 1;
    }
    let ghost pre = *book;
    crate::chapter_manage::retain_other_ids(&mut book.manifest, id.as_str());
    let opf_dir = book.detect_opf_dir();
    let mut kv = chars_of(opf_dir.as_str());
    push_str(&mut kv, href.as_str());
    let key = string_of(&kv);
    book.resources.remove(key.as_str());
    book.resources.remove(href.as_str());
    Ok(referenced)
}

} // verus!
