//! Setting and removing metadata fields of a book.

use vstd::prelude::*;
use crate::epub::{EpubBook, EpubMetadata};
use crate::error::EpxError;
use crate::paths::str_views;
use crate::text::str_eq;

verus! {

/// Which slot of the metadata a field name addresses: the named Dublin
/// Core fields have their own, anything else is a custom property.
pub open spec fn field_slot(f: Seq<char>) -> int {
    if f == "title"@ {
        0
    } else if f == "creator"@ || f == "author"@ {
        1
    } else if f == "language"@ {
        2
    } else if f == "publisher"@ {
        3
    } else if f == "description"@ {
        4
    } else if f == "rights"@ {
        5
    } else if f == "identifier"@ {
        6
    } else if f == "date"@ {
        7
    } else if f == "subject"@ {
        8
    } else {
        9
    }
}

/// `b` equals `a` in every slot but `slot`.
pub open spec fn unchanged_except(a: EpubMetadata, b: EpubMetadata, slot: int) -> bool {
    &&& (slot != 0 ==> b.titles == a.titles)
    &&& (slot != 1 ==> b.creators == a.creators)
    &&& (slot != 2 ==> b.languages == a.languages)
    &&& (slot != 3 ==> b.publishers == a.publishers)
    &&& (slot != 4 ==> b.description == a.description)
    &&& (slot != 5 ==> b.rights == a.rights)
    &&& (slot != 6 ==> b.identifiers == a.identifiers)
    &&& (slot != 7 ==> b.dates == a.dates)
    &&& (slot != 8 ==> b.subjects == a.subjects)
    &&& (slot != 9 ==> b.custom == a.custom)
    &&& b.modified == a.modified
    &&& b.cover_id == a.cover_id
}

/// `v` with its first element set to `x` (or `[x]` when empty).
pub open spec fn set_first(v: Seq<Seq<char>>, x: Seq<char>) -> Seq<Seq<char>> {
    if v.len() == 0 {
        seq![x]
    } else {
        v.update(0, x)
    }
}

/// What setting `field` to `value` makes of metadata `a`, in the slot that
/// `field` addresses.
pub open spec fn field_set(a: EpubMetadata, b: EpubMetadata, field: Seq<char>, value: Seq<char>) -> bool {
    let slot = field_slot(field);
    &&& unchanged_except(a, b, slot)
    &&& (slot == 0 ==> str_views(b.titles@) == set_first(str_views(a.titles@), value))
    &&& (slot == 1 ==> str_views(b.creators@) == seq![value])
    &&& (slot == 2 ==> str_views(b.languages@) == seq![value])
    &&& (slot == 3 ==> str_views(b.publishers@) == seq![value])
    &&& (slot == 4 ==> b.description is Some && b.description->Some_0@ == value)
    &&& (slot == 5 ==> b.rights is Some && b.rights->Some_0@ == value)
    &&& (slot == 6 ==> str_views(b.identifiers@) == set_first(str_views(a.identifiers@), value))
    &&& (slot == 7 ==> str_views(b.dates@) == seq![value])
    &&& (slot == 8 ==> str_views(b.subjects@) == str_views(a.subjects@).push(value))
    &&& (slot == 9 ==> b.custom.wf() && b.custom.text_view() == a.custom.text_view().insert(field, value))
}

/// What removing `field` makes of metadata `a`.
pub open spec fn field_removed(a: EpubMetadata, b: EpubMetadata, field: Seq<char>) -> bool {
    let slot = field_slot(field);
    &&& unchanged_except(a, b, slot)
    &&& (slot == 0 ==> b.titles@.len() == 0)
    &&& (slot == 1 ==> b.creators@.len() == 0)
    &&& (slot == 2 ==> b.languages@.len() == 0)
    &&& (slot == 3 ==> b.publishers@.len() == 0)
    &&& (slot == 4 ==> b.description is None)
    &&& (slot == 5 ==> b.rights is None)
    &&& (slot == 6 ==> b.identifiers@.len() == 0)
    &&& (slot == 7 ==> b.dates@.len() == 0)
    &&& (slot == 8 ==> b.subjects@.len() == 0)
    &&& (slot == 9 ==> b.custom.wf() && b.custom@ == a.custom@.remove(field))
}

/// A one-element list holding `value`.
fn single(value: &str) -> (r: Vec<String>)
    ensures
        str_views(r@) == seq![value@],
{
    let mut v: Vec<String> = Vec::new();
    v.push(String::from_str(value));
    proof {
        assert(str_views(v@) =~= seq![value@]);
    }
    v
}

/// Sets the first element of `v` to `value`, or adds it when `v` is empty.
fn set_first_of(v: &mut Vec<String>, value: &str)
    ensures
        str_views(final(v)@) == set_first(str_views(old(v)@), value@),
{
    let ghost pre = str_views(v@);
    if v.len() == 0 {
        v.push(String::from_str(value));
    } else {
        v.set(0, String::from_str(value));
    }
    proof {
        assert(str_views(v@) =~= set_first(pre, value@));
    }
}

/// Sets a metadata field. `title` and `identifier` replace the primary
/// value; `creator` (or `author`), `language`, `publisher` and `date`
/// replace the whole list; `subject` adds one; `description` and `rights`
/// are set; any other name sets the custom property of that name.
pub fn set_field(book: &mut EpubBook, field: &str, value: &str) -> (r: Result<(), EpxError>)
    requires
        old(book).wf(),
    ensures
        r is Ok,
        final(book).wf(),
        field_set(old(book).metadata, final(book).metadata, field@, value@),
        final(book).manifest == old(book).manifest,
        final(book).spine == old(book).spine,
        final(book).navigation == old(book).navigation,
        final(book).resources == old(book).resources,
{
    proof {
        reveal_strlit("title");
        reveal_strlit("creator");
        reveal_strlit("author");
        reveal_strlit("language");
        reveal_strlit("publisher");
        reveal_strlit("description");
        reveal_strlit("rights");
        reveal_strlit("identifier");
        reveal_strlit("date");
        reveal_strlit("subject");
    }
    let ghost pre = str_views(book.metadata.subjects@);
    if str_eq(field, "title") {
        set_first_of(&mut book.metadata.titles, value);
    } else if str_eq(field, "creator") || str_eq(field, "author") {
        book.metadata.creators = single(value);
    } else if str_eq(field, "language") {
        book.metadata.languages = single(value);
    } else if str_eq(field, "publisher") {
        book.metadata.publishers = single(value);
    } else if str_eq(field, "description") {
        book.metadata.description = Some(String::from_str(value));
    } else if str_eq(field, "rights") {
        book.metadata.rights = Some(String::from_str(value));
    } else if str_eq(field, "identifier") {
        set_first_of(&mut book.metadata.identifiers, value);
    } else if str_eq(field, "date") {
        book.metadata.dates = single(value);
    } else if str_eq(field, "subject") {
        book.metadata.subjects.push(String::from_str(value));
        proof {
            assert(str_views(book.metadata.subjects@) =~= pre.push(value@));
        }
    } else {
        book.metadata.custom.insert_str(field, value);
    }
    Ok(())
}

/// Removes a metadata field: clears the list or unsets the value of a named
/// field, or removes the custom property of that name.
pub fn remove_field(book: &mut EpubBook, field: &str) -> (r: Result<(), EpxError>)
    requires
        old(book).wf(),
    ensures
        r is Ok,
        final(book).wf(),
        field_removed(old(book).metadata, final(book).metadata, field@),
        final(book).manifest == old(book).manifest,
        final(book).spine == old(book).spine,
        final(book).navigation == old(book).navigation,
        final(book).resources == old(book).resources,
{
    proof {
        reveal_strlit("title");
        reveal_strlit("creator");
        reveal_strlit("author");
        reveal_strlit("language");
        reveal_strlit("publisher");
        reveal_strlit("description");
        reveal_strlit("rights");
        reveal_strlit("identifier");
        reveal_strlit("date");
        reveal_strlit("subject");
    }
    if str_eq(field, "title") {
        book.metadata.titles.clear();
    } else if str_eq(field, "creator") || str_eq(field, "author") {
        book.metadata.creators.clear();
    } else if str_eq(field, "language") {
        book.metadata.languages.clear();
    } else if str_eq(field, "publisher") {
        book.metadata.publishers.clear();
    } else if str_eq(field, "description") {
        book.metadata.description = None;
    } else if str_eq(field, "rights") {
        book.metadata.rights = None;
    } else if str_eq(field, "identifier") {
        book.metadata.identifiers.clear();
    } else if str_eq(field, "date") {
        book.metadata.dates.clear();
    } else if str_eq(field, "subject") {
        book.metadata.subjects.clear();
    } else {
        book.metadata.custom.remove(field);
    }
    Ok(())
}

} // verus!
