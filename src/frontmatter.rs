//! The YAML-facing mirrors of book metadata and chapter frontmatter.
//!
//! These are the plain records; their YAML text is produced where the
//! serializer lives.

use vstd::prelude::*;
use crate::dates::{format_iso8601_date, iso_date, is_time_of};
use crate::epub::{EpubBook, EpubMetadata};
use crate::paths::str_views;
use crate::strmap::StrMap;
use crate::profile::BookProfile;
use crate::numfmt::{decimal, push_decimal};
use crate::text::string_of;

verus! {

/// Metadata of an extracted book, as written to `metadata.yml`.
pub struct BookMetadataYaml {
    pub title: Option<String>,
    pub creators: Vec<String>,
    pub identifiers: Vec<String>,
    pub languages: Vec<String>,
    pub publishers: Vec<String>,
    pub dates: Vec<String>,
    pub description: Option<String>,
    pub subjects: Vec<String>,
    pub rights: Option<String>,
    pub custom: StrMap<String>,
    /// Facts about the extraction itself.
    pub epx: StrMap<String>,
}

/// Frontmatter of one extracted chapter.
pub struct ChapterFrontmatter {
    pub original_file: String,
    pub original_id: Option<String>,
    pub spine_index: usize,
}

/// Both optional strings hold the same characters, or both are absent.
pub open spec fn same_opt(a: Option<String>, b: Option<String>) -> bool {
    match (a, b) {
        (Some(x), Some(y)) => x@ == y@,
        (None, None) => true,
        _ => false,
    }
}

/// A copy of a list of strings.
pub fn copy_strings(v: &Vec<String>) -> (r: Vec<String>)
    ensures
        str_views(r@) == str_views(v@),
{
    let mut r: Vec<String> = Vec::new();
    let mut i: usize = 0;
    while i < v.len()
        invariant
            i <= v@.len(),
            r@ == v@.take(i as int),
        decreases v.len() - i,
    {
        r.push(v[i].clone());
        i = i + 1;
        proof {
            assert(r@ =~= v@.take(i as int));
        }
    }
    proof {
        assert(v@.take(i as int) =~= v@);
    }
    r
}

/// A copy of an optional string.
pub fn copy_opt(v: &Option<String>) -> (r: Option<String>)
    ensures
        same_opt(*v, r),
{
    match v {
        Some(s) => Some(s.clone()),
        None => None,
    }
}

impl BookMetadataYaml {
    /// The YAML mirror of `meta`: the primary title, copies of the lists,
    /// the optional fields and the custom properties, and an `epx` map with
    /// `source_format: epub`, the EPUB version and today's date.
    pub fn from_epub_metadata(meta: &EpubMetadata, epub_version: &str) -> (r: Self)
        requires
            meta.custom.wf(),
        ensures
            (meta.titles@.len() == 0 ==> r.title is None),
            (meta.titles@.len() > 0 ==> r.title is Some && r.title->Some_0@ == meta.titles@[0]@),
            str_views(r.creators@) == str_views(meta.creators@),
            str_views(r.identifiers@) == str_views(meta.identifiers@),
            str_views(r.languages@) == str_views(meta.languages@),
            str_views(r.publishers@) == str_views(meta.publishers@),
            str_views(r.dates@) == str_views(meta.dates@),
            str_views(r.subjects@) == str_views(meta.subjects@),
            same_opt(meta.description, r.description),
            same_opt(meta.rights, r.rights),
            r.custom.wf(),
            r.custom@ == meta.custom@,
            r.epx.wf(),
            r.epx.text_view().dom() == set!["source_format"@, "epub_version"@, "extracted_date"@],
            r.epx.text_view()["source_format"@] == "epub"@,
            r.epx.text_view()["epub_version"@] == epub_version@,
            exists|c: (u64, u64, u64, u64, u64, u64)|
                (exists|secs: int| 0 <= secs <= u64::MAX && is_time_of(secs, c))
                && r.epx.text_view()["extracted_date"@] == iso_date(c),
    {
        let date = format_iso8601_date();
        let mut epx: StrMap<String> = StrMap::new();
        proof {
            assert(epx.text_view() =~= Map::<Seq<char>, Seq<char>>::empty());
        }
        epx.insert_str("source_format", "epub");
        epx.insert_str("epub_version", epub_version);
        epx.insert_str("extracted_date", date.as_str());
        proof {
            reveal_strlit("source_format");
            reveal_strlit("epub_version");
            reveal_strlit("extracted_date");
            assert("source_format"@.len() != "epub_version"@.len());
            assert("source_format"@.len() != "extracted_date"@.len());
            assert("epub_version"@.len() != "extracted_date"@.len());
            assert(epx.text_view().dom() =~= set!["source_format"@, "epub_version"@, "extracted_date"@]);
        }
        let title = if meta.titles.len() > 0 {
            Some(meta.titles[0].clone())
        } else {
            None
        };
        BookMetadataYaml {
            title,
            creators: copy_strings(&meta.creators),
            identifiers: copy_strings(&meta.identifiers),
            languages: copy_strings(&meta.languages),
            publishers: copy_strings(&meta.publishers),
            dates: copy_strings(&meta.dates),
            description: copy_opt(&meta.description),
            subjects: copy_strings(&meta.subjects),
            rights: copy_opt(&meta.rights),
            custom: meta.custom.duplicate(),
            epx,
        }
    }
}

impl BookMetadataYaml {
    /// The metadata that `metadata.yml` describes: the title as the only
    /// title, the lists and optional fields as they are, the custom
    /// properties kept, no modification time and no cover.
    pub fn to_epub_metadata(&self) -> (r: EpubMetadata)
        requires
            self.custom.wf(),
        ensures
            (self.title is None ==> r.titles@.len() == 0),
            (self.title is Some ==> str_views(r.titles@) == seq![self.title->Some_0@]),
            str_views(r.creators@) == str_views(self.creators@),
            str_views(r.identifiers@) == str_views(self.identifiers@),
            str_views(r.languages@) == str_views(self.languages@),
            str_views(r.publishers@) == str_views(self.publishers@),
            str_views(r.dates@) == str_views(self.dates@),
            str_views(r.subjects@) == str_views(self.subjects@),
            same_opt(self.description, r.description),
            same_opt(self.rights, r.rights),
            r.modified is None,
            r.cover_id is None,
            r.custom.wf(),
            r.custom@ == self.custom@,
    {
        let mut titles: Vec<String> = Vec::new();
        match &self.title {
            Some(t) => titles.push(t.clone()),
            None => {},
        }
        proof {
            if self.title is Some {
                assert(str_views(titles@) =~= seq![self.title->Some_0@]);
            }
        }
        EpubMetadata {
            identifiers: copy_strings(&self.identifiers),
            titles,
            languages: copy_strings(&self.languages),
            creators: copy_strings(&self.creators),
            publishers: copy_strings(&self.publishers),
            dates: copy_strings(&self.dates),
            description: copy_opt(&self.description),
            subjects: copy_strings(&self.subjects),
            rights: copy_opt(&self.rights),
            modified: None,
            cover_id: None,
            custom: self.custom.duplicate(),
        }
    }
}

impl BookMetadataYaml {
    /// Records the book's profile in the `epx` map: its genre and its
    /// spine, image and cross-reference counts.
    pub fn add_profile(&mut self, profile: &BookProfile)
        requires
            old(self).epx.wf(),
        ensures
            final(self).epx.wf(),
            final(self).epx.text_view() == old(self).epx.text_view()
                .insert("genre"@, profile.genre.name())
                .insert("spine_count"@, decimal(profile.spine_count as nat))
                .insert("image_count"@, decimal(profile.image_count as nat))
                .insert("cross_reference_count"@, decimal(profile.cross_reference_count as nat)),
    {
        let g = profile.genre.to_string();
        self.epx.insert_str("genre", g.as_str());
        let mut v = Vec::new();
        push_decimal(&mut v, profile.spine_count as u64);
        self.epx.insert_str("spine_count", string_of(&v).as_str());
        let mut v = Vec::new();
        push_decimal(&mut v, profile.image_count as u64);
        self.epx.insert_str("image_count", string_of(&v).as_str());
        let mut v = Vec::new();
        push_decimal(&mut v, profile.cross_reference_count as u64);
        self.epx.insert_str("cross_reference_count", string_of(&v).as_str());
    }
}

/// Replaces the book's metadata by what a `metadata.yml` holds, without
/// its custom properties.
pub fn import_metadata(book: &mut EpubBook, yaml: &BookMetadataYaml)
    requires
        old(book).wf(),
        yaml.custom.wf(),
    ensures
        final(book).wf(),
        str_views(final(book).metadata.creators@) == str_views(yaml.creators@),
        (yaml.title is Some ==> str_views(final(book).metadata.titles@) == seq![yaml.title->Some_0@]),
        (yaml.title is None ==> final(book).metadata.titles@.len() == 0),
        str_views(final(book).metadata.identifiers@) == str_views(yaml.identifiers@),
        str_views(final(book).metadata.languages@) == str_views(yaml.languages@),
        final(book).metadata.custom@ == Map::<Seq<char>, String>::empty(),
        final(book).manifest == old(book).manifest,
        final(book).spine == old(book).spine,
        final(book).resources == old(book).resources,
{
    let mut m = yaml.to_epub_metadata();
    m.custom = StrMap::new();
    book.metadata = m;
}

} // verus!
