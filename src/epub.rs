//! The in-memory book model: metadata, manifest, spine, navigation and the
//! raw resources of the archive, keyed by their ZIP path.

use vstd::prelude::*;
use crate::strmap::StrMap;
use crate::text::{chars_of, ends_with, is_last_index, is_prefix, is_suffix, rfind_char, slice, starts_with, string_of};

verus! {

/// A parsed EPUB book.
pub struct EpubBook {
    pub metadata: EpubMetadata,
    pub manifest: Vec<ManifestItem>,
    pub spine: Vec<SpineItem>,
    pub navigation: Navigation,
    /// Raw entries of the archive, keyed by ZIP path.
    pub resources: StrMap<Vec<u8>>,
}

/// Dublin Core metadata and `meta` properties.
pub struct EpubMetadata {
    pub identifiers: Vec<String>,
    pub titles: Vec<String>,
    pub languages: Vec<String>,
    pub creators: Vec<String>,
    pub publishers: Vec<String>,
    pub dates: Vec<String>,
    pub description: Option<String>,
    pub subjects: Vec<String>,
    pub rights: Option<String>,
    pub modified: Option<String>,
    pub cover_id: Option<String>,
    /// Other `meta` properties, by property name.
    pub custom: StrMap<String>,
}

/// An item of the manifest; `href` is relative to the OPF directory.
#[derive(Clone, Debug)]
pub struct ManifestItem {
    pub id: String,
    pub href: String,
    pub media_type: String,
    pub properties: Option<String>,
}

/// A reference from the spine to a manifest item.
#[derive(Clone, Debug)]
pub struct SpineItem {
    pub idref: String,
    pub linear: bool,
    pub properties: Option<String>,
}

/// The navigation trees of the book.
pub struct Navigation {
    pub toc: Vec<NavPoint>,
    pub landmarks: Vec<NavPoint>,
    pub page_list: Vec<NavPoint>,
    pub epub_version: EpubVersion,
}

/// A node of a navigation tree.
#[derive(Debug)]
pub struct NavPoint {
    pub label: String,
    pub href: String,
    pub children: Vec<NavPoint>,
}

/// The values that a navigation point holds.
pub struct NavNode {
    pub label: Seq<char>,
    pub href: Seq<char>,
    pub children: Seq<NavNode>,
}

/// The values of the forest `ps`.
pub open spec fn nav_nodes(ps: Seq<NavPoint>) -> Seq<NavNode>
    decreases ps,
{
    if ps.len() == 0 {
        Seq::<NavNode>::empty()
    } else {
        nav_nodes(ps.drop_last()).push(
            NavNode { label: ps.last().label@, href: ps.last().href@, children: nav_nodes(ps.last().children@) },
        )
    }
}

/// `nav_nodes` goes element by element.
pub proof fn lemma_nav_nodes(ps: Seq<NavPoint>)
    ensures
        nav_nodes(ps).len() == ps.len(),
        forall|i: int| 0 <= i < ps.len() ==> #[trigger] nav_nodes(ps)[i] == (NavNode {
            label: ps[i].label@,
            href: ps[i].href@,
            children: nav_nodes(ps[i].children@),
        }),
    decreases ps.len(),
{
    if ps.len() > 0 {
        lemma_nav_nodes(ps.drop_last());
        assert forall|i: int| 0 <= i < ps.len() - 1 implies ps.drop_last()[i] == ps[i] by {}
    }
}

/// The EPUB major version.
#[derive(Clone, Copy, Debug, PartialEq, Eq, Structural)]
pub enum EpubVersion {
    V2,
    V3,
}

impl EpubVersion {
    /// The version as written in a package document.
    pub fn to_string(&self) -> (r: String)
        ensures
            r@ == (match self {
                EpubVersion::V2 => "2.0"@,
                EpubVersion::V3 => "3.0"@,
            }),
    {
        match self {
            EpubVersion::V2 => String::from_str("2.0"),
            EpubVersion::V3 => String::from_str("3.0"),
        }
    }
}

impl Default for EpubVersion {
    fn default() -> (r: Self)
        ensures
            r == EpubVersion::V3,
    {
        EpubVersion::V3
    }
}

impl Default for Navigation {
    fn default() -> (r: Self)
        ensures
            r.toc@.len() == 0,
            r.landmarks@.len() == 0,
            r.page_list@.len() == 0,
            r.epub_version == EpubVersion::V3,
    {
        Navigation {
            toc: Vec::new(),
            landmarks: Vec::new(),
            page_list: Vec::new(),
            epub_version: EpubVersion::V3,
        }
    }
}

/// The values that the metadata holds.
#[verifier::ext_equal]
pub struct MetaView {
    pub identifiers: Seq<Seq<char>>,
    pub titles: Seq<Seq<char>>,
    pub languages: Seq<Seq<char>>,
    pub creators: Seq<Seq<char>>,
    pub publishers: Seq<Seq<char>>,
    pub dates: Seq<Seq<char>>,
    pub description: Option<Seq<char>>,
    pub subjects: Seq<Seq<char>>,
    pub rights: Option<Seq<char>>,
    pub modified: Option<Seq<char>>,
    pub cover_id: Option<Seq<char>>,
    pub custom: Map<Seq<char>, Seq<char>>,
}

/// The characters of each string.
pub open spec fn texts(v: Seq<String>) -> Seq<Seq<char>> {
    v.map_values(|s: String| s@)
}

/// The characters of an optional string.
pub open spec fn opt_text(o: Option<String>) -> Option<Seq<char>> {
    match o {
        Some(s) => Some(s@),
        None => None,
    }
}

impl View for EpubMetadata {
    type V = MetaView;

    open spec fn view(&self) -> MetaView {
        MetaView {
            identifiers: texts(self.identifiers@),
            titles: texts(self.titles@),
            languages: texts(self.languages@),
            creators: texts(self.creators@),
            publishers: texts(self.publishers@),
            dates: texts(self.dates@),
            description: opt_text(self.description),
            subjects: texts(self.subjects@),
            rights: opt_text(self.rights),
            modified: opt_text(self.modified),
            cover_id: opt_text(self.cover_id),
            custom: self.custom.text_view(),
        }
    }
}

impl EpubMetadata {
    /// Every list is empty, every optional field absent.
    pub open spec fn is_empty(&self) -> bool {
        &&& self.identifiers@.len() == 0
        &&& self.titles@.len() == 0
        &&& self.languages@.len() == 0
        &&& self.creators@.len() == 0
        &&& self.publishers@.len() == 0
        &&& self.dates@.len() == 0
        &&& self.description is None
        &&& self.subjects@.len() == 0
        &&& self.rights is None
        &&& self.modified is None
        &&& self.cover_id is None
        &&& self.custom.wf()
        &&& self.custom@ == Map::<Seq<char>, String>::empty()
    }
}

impl Default for EpubMetadata {
    fn default() -> (r: Self)
        ensures
            r.is_empty(),
    {
        EpubMetadata {
            identifiers: Vec::new(),
            titles: Vec::new(),
            languages: Vec::new(),
            creators: Vec::new(),
            publishers: Vec::new(),
            dates: Vec::new(),
            description: None,
            subjects: Vec::new(),
            rights: None,
            modified: None,
            cover_id: None,
            custom: StrMap::new(),
        }
    }
}

impl Default for EpubBook {
    fn default() -> (r: Self)
        ensures
            r.metadata.is_empty(),
            r.manifest@.len() == 0,
            r.spine@.len() == 0,
            r.navigation.toc@.len() == 0,
            r.resources.wf(),
            r.resources.entries@.len() == 0,
    {
        EpubBook {
            metadata: EpubMetadata::default(),
            manifest: Vec::new(),
            spine: Vec::new(),
            navigation: Navigation::default(),
            resources: StrMap::new(),
        }
    }
}

/// Some point of the forest `ps`, at any depth, has href `h`.
pub open spec fn nav_has_href(ps: Seq<NavPoint>, h: Seq<char>) -> bool
    decreases ps,
{
    if ps.len() == 0 {
        false
    } else {
        ps.last().href@ == h || nav_has_href(ps.last().children@, h) || nav_has_href(ps.drop_last(), h)
    }
}

/// The longest prefix of `p` that ends with `/` (empty when there is none).
pub open spec fn dir_prefix(p: Seq<char>) -> Seq<char>
    decreases p.len(),
{
    if p.len() == 0 {
        p
    } else if p.last() == '/' {
        p
    } else {
        dir_prefix(p.drop_last())
    }
}

/// `dir_prefix` ends at the last `/`.
pub proof fn lemma_dir_prefix(p: Seq<char>)
    ensures
        forall|i: int| is_last_index(p, '/', i) ==> dir_prefix(p) == p.take(i + 1),
        (forall|j: int| 0 <= j < p.len() ==> p[j] != '/') ==> dir_prefix(p) == Seq::<char>::empty(),
    decreases p.len(),
{
    if p.len() > 0 {
        lemma_dir_prefix(p.drop_last());
        assert forall|i: int| is_last_index(p, '/', i) implies dir_prefix(p) == p.take(i + 1) by {
            if p.last() == '/' {
                assert(i == p.len() - 1);
                assert(p.take(i + 1) =~= p);
            } else {
                assert(is_last_index(p.drop_last(), '/', i));
                assert(p.drop_last().take(i + 1) =~= p.take(i + 1));
            }
        }
        if forall|j: int| 0 <= j < p.len() ==> p[j] != '/' {
            assert(p.last() != '/');
            assert forall|j: int| 0 <= j < p.drop_last().len() implies p.drop_last()[j] != '/' by {
                assert(p.drop_last()[j] == p[j]);
            }
        }
    }
}

/// The directory part of `path`, up to and including its last `/`.
pub fn dir_of(path: &Vec<char>) -> (r: Vec<char>)
    ensures
        r@ == dir_prefix(path@),
        r@.len() <= path@.len(),
{
    proof {
        lemma_dir_prefix(path@);
    }
    match rfind_char(path, '/') {
        Some(i) => {
            let n = path.len();
            assert(i < n);
            slice(path, 0, i + 1)
        },
        None => Vec::new(),
    }
}

/// The OPF directory that the archive layout of `keys` gives when it holds
/// no `.opf` entry.
pub open spec fn fallback_opf_dir(keys: Seq<Seq<char>>) -> Seq<char> {
    if exists|i: int| 0 <= i < keys.len() && is_prefix("OEBPS/"@, #[trigger] keys[i]) {
        "OEBPS/"@
    } else if exists|i: int| 0 <= i < keys.len() && is_prefix("OPS/"@, #[trigger] keys[i]) {
        "OPS/"@
    } else if exists|i: int| 0 <= i < keys.len() && is_prefix("EPUB/"@, #[trigger] keys[i]) {
        "EPUB/"@
    } else if exists|i: int| 0 <= i < keys.len() && is_prefix("content/"@, #[trigger] keys[i]) {
        "content/"@
    } else {
        Seq::<char>::empty()
    }
}

/// `i` is the first key that names an OPF file.
pub open spec fn is_first_opf(keys: Seq<Seq<char>>, i: int) -> bool {
    &&& 0 <= i < keys.len()
    &&& is_suffix(".opf"@, keys[i])
    &&& forall|j: int| 0 <= j < i ==> !is_suffix(".opf"@, #[trigger] keys[j])
}

/// The OPF directory of an archive whose entries are `keys`: the directory
/// of the first `.opf` entry, else the fallback.
pub open spec fn opf_dir_of(keys: Seq<Seq<char>>) -> Seq<char> {
    if exists|i: int| is_first_opf(keys, i) {
        dir_prefix(keys[choose|i: int| is_first_opf(keys, i)])
    } else {
        fallback_opf_dir(keys)
    }
}

impl EpubBook {
    /// Resource keys and custom property names are unique.
    pub open spec fn wf(&self) -> bool {
        self.resources.wf() && self.metadata.custom.wf()
    }

    /// Whether some resource key begins with `prefix`.
    fn any_key_starts_with(&self, prefix: &str) -> (r: bool)
        ensures
            r == exists|i: int|
                0 <= i < self.resources.key_seq().len() && is_prefix(
                    prefix@,
                    #[trigger] self.resources.key_seq()[i],
                ),
    {
        let p = chars_of(prefix);
        let mut i: usize = 0;
        while i < self.resources.entries.len()
            invariant
                i <= self.resources.entries@.len(),
                p@ == prefix@,
                forall|j: int| 0 <= j < i ==> !is_prefix(prefix@, #[trigger] self.resources.key_seq()[j]),
            decreases self.resources.entries.len() - i,
        {
            let k = chars_of(self.resources.entries[i].0.as_str());
            if starts_with(&k, &p) {
                assert(self.resources.key_seq()[i as int] == k@);
                return true;
            }
            i = i + 1;
        }
        false
    }

    /// The directory of the OPF file within the archive: that of the first
    /// `.opf` resource, else the first of the usual content directories that
    /// some resource lies in, else empty.
    pub fn detect_opf_dir(&self) -> (r: String)
        ensures
            r@ == opf_dir_of(self.resources.key_seq()),
    {
        let ghost keys = self.resources.key_seq();
        let ext = chars_of(".opf");
        let mut i: usize = 0;
        while i < self.resources.entries.len()
            invariant
                i <= self.resources.entries@.len(),
                keys == self.resources.key_seq(),
                ext@ == ".opf"@,
                forall|j: int| 0 <= j < i ==> !is_suffix(".opf"@, #[trigger] keys[j]),
            decreases self.resources.entries.len() - i,
        {
            let k = chars_of(self.resources.entries[i].0.as_str());
            assert(keys[i as int] == k@);
            if ends_with(&k, &ext) {
                let d = dir_of(&k);
                proof {
                    assert forall|j: int| is_first_opf(keys, j) implies j == i by {
                        if j < i {
                        } else if j > i {
                            assert(!is_suffix(".opf"@, keys[i as int]));
                        }
                    }
                    assert(is_first_opf(keys, i as int));
                }
                return string_of(&d);
            }
            i = i + 1;
        }
        proof {
            assert(!exists|j: int| is_first_opf(keys, j));
        }
        if self.any_key_starts_with("OEBPS/") {
            String::from_str("OEBPS/")
        } else if self.any_key_starts_with("OPS/") {
            String::from_str("OPS/")
        } else if self.any_key_starts_with("EPUB/") {
            String::from_str("EPUB/")
        } else if self.any_key_starts_with("content/") {
            String::from_str("content/")
        } else {
            String::new()
        }
    }
}

} // verus!
