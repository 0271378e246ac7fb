//! The extraction of a book into its source tree, as values: chapter files
//! with their frontmatter and Markdown, the outline, and the assets.

use vstd::prelude::*;

use crate::chapter_org::{chapter_file_name, chapter_filename, collect_referenced_ids, all_fragment_ids, dedup};
use crate::epub::{opf_dir_of, EpubBook};
use crate::frontmatter::ChapterFrontmatter;
use crate::html_to_md::{is_length_order, postprocessed, preprocessed, xhtml_to_markdown};
use crate::paths::{asset_destination, asset_destination_of, build_path_map, find_item, find_manifest_item, is_text_doc, path_map, str_views};
use crate::patterns::markdown_of;
use crate::reader::text_of_resource;
use crate::strmap::StrMap;
use crate::summary::{generate_summary, summary_entries};
use crate::text::{chars_of, push_str, str_contains, string_of, utf8_decode};
use crate::writer::tree_size;

verus! {

/// One chapter file of the source tree.
pub struct ExtractedChapter {
    pub filename: String,
    pub frontmatter: ChapterFrontmatter,
    pub markdown: String,
}

/// The source tree of a book, as values.
pub struct ExtractPlan {
    pub chapters: Vec<ExtractedChapter>,
    /// The text of `SUMMARY.md`.
    pub summary: String,
    /// Assets: path in the tree and bytes.
    pub assets: Vec<(String, Vec<u8>)>,
    /// The map used to rewrite references.
    pub path_map: StrMap<String>,
    /// The fragment ids that something links to.
    pub referenced_ids: Vec<String>,
}

/// The manifest index of spine position `i` when it is an (X)HTML or XML
/// document.
pub open spec fn text_item(book: EpubBook, i: int) -> Option<int> {
    match find_item(book.manifest@, book.spine@[i].idref@) {
        Some(j) => if is_text_doc(book.manifest@[j].media_type@) { Some(j) } else { None },
        None => None,
    }
}

/// The `(href, file name)` of every text document among the first `n`
/// spine positions.
pub open spec fn chapter_names(book: EpubBook, n: int) -> Seq<(Seq<char>, Seq<char>)>
    decreases n,
{
    if n <= 0 {
        Seq::empty()
    } else {
        let rest = chapter_names(book, n - 1);
        match text_item(book, n - 1) {
            Some(j) => {
                let href = book.manifest@[j].href@;
                rest.push((href, chapter_file_name((n - 1) as nat, book.navigation.toc@, href)))
            },
            None => rest,
        }
    }
}

/// The text of spine position `i` when it is a text document with
/// non-empty UTF-8 content under the OPF directory.
pub open spec fn chapter_text_at(book: EpubBook, i: int) -> Option<Seq<char>> {
    match text_item(book, i) {
        Some(j) => match text_of_resource(book.resources.bytes_view(), opf_dir_of(book.resources.key_seq()) + book.manifest@[j].href@) {
            Some(t) => if t.len() > 0 { Some(t) } else { None },
            None => None,
        },
        None => None,
    }
}

/// The spine positions extracted as chapters among the first `n`.
pub open spec fn extracted_positions(book: EpubBook, n: int) -> Seq<int>
    decreases n,
{
    if n <= 0 {
        Seq::empty()
    } else {
        let rest = extracted_positions(book, n - 1);
        if chapter_text_at(book, n - 1) is Some { rest.push(n - 1) } else { rest }
    }
}

/// Chapter `c` is what spine position `i` extracts to, with the given path
/// map and referenced ids.
pub open spec fn is_extracted(book: EpubBook, i: int, c: ExtractedChapter, pm: StrMap<String>, refs: Seq<Seq<char>>) -> bool {
    let j = text_item(book, i)->Some_0;
    let href = book.manifest@[j].href@;
    &&& c.filename@ == chapter_file_name(i as nat, book.navigation.toc@, href)
    &&& c.frontmatter.original_file@ == href
    &&& c.frontmatter.original_id matches Some(id) && id@ == book.manifest@[j].id@
    &&& c.frontmatter.spine_index == i
    &&& exists|order: Seq<usize>| is_length_order(pm.entries@, order)
        && c.markdown@ == postprocessed(markdown_of(preprocessed(chapter_text_at(book, i)->Some_0, pm.entries@, order, refs)))
}

/// The assets of the first `n` manifest items: destination and bytes.
pub open spec fn asset_files(book: EpubBook, n: int) -> Seq<(Seq<char>, Seq<u8>)>
    decreases n,
{
    if n <= 0 {
        Seq::empty()
    } else {
        let rest = asset_files(book, n - 1);
        let item = book.manifest@[n - 1];
        let key = opf_dir_of(book.resources.key_seq()) + item.href@;
        match asset_destination_of(item) {
            Some(d) => if book.resources.bytes_view().contains_key(key) {
                rest.push((d, book.resources.bytes_view()[key]))
            } else {
                rest
            },
            None => rest,
        }
    }
}

/// The values of `(String, String)` pairs.
pub open spec fn pair_views(v: Seq<(String, String)>) -> Seq<(Seq<char>, Seq<char>)> {
    v.map_values(|p: (String, String)| (p.0@, p.1@))
}

/// The index of the text document at spine position `i`.
fn text_item_of(book: &EpubBook, i: usize) -> (r: Option<usize>)
    requires
        i < book.spine@.len(),
    ensures
        match r {
            Some(j) => text_item(*book, i as int) == Some(j as int) && j < book.manifest@.len(),
            None => text_item(*book, i as int) is None,
        },
{
    match find_manifest_item(&book.manifest, book.spine[i].idref.as_str()) {
        Some(j) => {
            let m = &book.manifest[j];
            if str_contains(m.media_type.as_str(), "html") || str_contains(m.media_type.as_str(), "xml") {
                Some(j)
            } else {
                None
            }
        },
        None => None,
    }
}

/// The chapter that spine position `i` extracts to, if any.
fn extract_at(book: &EpubBook, opf_dir: &String, i: usize, pm: &StrMap<String>, refs: &Vec<String>) -> (r: Option<ExtractedChapter>)
    requires
        book.wf(),
        i < book.spine@.len(),
        opf_dir@ == opf_dir_of(book.resources.key_seq()),
    ensures
        match r {
            Some(c) => chapter_text_at(*book, i as int) is Some && is_extracted(*book, i as int, c, *pm, str_views(refs@)),
            None => chapter_text_at(*book, i as int) is None,
        },
{
    let j = match text_item_of(book, i) {
        Some(j) => j,
        None => return None,
    };
    let item = &book.manifest[j];
    let mut k = chars_of(opf_dir.as_str());
    push_str(&mut k, item.href.as_str());
    let key = string_of(&k);
    let text = match book.resources.get(key.as_str()) {
        Some(b) => {
            proof {
                book.resources.lemma_bytes_view(key@);
            }
            utf8_decode(b.clone())
        },
        None => None,
    };
    let x = match text {
        Some(x) => x,
        None => return None,
    };
    if chars_of(x.as_str()).len() == 0 {
        return None;
    }
    let md = xhtml_to_markdown(x.as_str(), pm, refs);
    let filename = chapter_filename(i, book, item.href.as_str());
    let fm = ChapterFrontmatter { original_file: item.href.clone(), original_id: Some(item.id.clone()), spine_index: i };
    let c = ExtractedChapter { filename, frontmatter: fm, markdown: md };
    proof {
        assert(chapter_text_at(*book, i as int) == Some(x@));
    }
    Some(c)
}

/// The source tree of a book: chapter files for the spine's text documents
/// with content (numbered by spine position, named from the table of
/// contents, converted with the path map and the referenced ids), the
/// outline linking to them, and the images, stylesheets and fonts.
#[verifier::rlimit(80)]
pub fn extraction_plan(book: &EpubBook) -> (r: ExtractPlan)
    requires
        book.wf(),
        tree_size(book.navigation.toc@) <= usize::MAX,
    ensures
        exists|files: Seq<(String, String)>| pair_views(files) == chapter_names(*book, book.spine@.len() as int)
            && r.path_map.text_view() == path_map(book.manifest@, book.spine@, opf_dir_of(book.resources.key_seq()), files),
        str_views(r.referenced_ids@) == dedup(all_fragment_ids(*book, opf_dir_of(book.resources.key_seq()), book.spine@.len() as int)),
        r.chapters@.len() == extracted_positions(*book, book.spine@.len() as int).len(),
        forall|k: int| 0 <= k < r.chapters@.len() ==> is_extracted(
            *book,
            extracted_positions(*book, book.spine@.len() as int)[k],
            #[trigger] r.chapters@[k],
            r.path_map,
            str_views(r.referenced_ids@),
        ),
        r.summary@ == "# Summary\n\n"@ + summary_entries(book.navigation.toc@, r.chapters@.map_values(
            |c: ExtractedChapter| (c.frontmatter.original_file, c.filename)), 0),
        r.assets@.map_values(|a: (String, Vec<u8>)| (a.0@, a.1@)) == asset_files(*book, book.manifest@.len() as int),
{
    let opf_dir = book.detect_opf_dir();
    let mut files: Vec<(String, String)> = Vec::new();
    let mut i: usize = 0;
    while i < book.spine.len()
        invariant
            i <= book.spine@.len(),
            pair_views(files@) == chapter_names(*book, i as int),
        decreases book.spine.len() - i,
    {
        match text_item_of(book, i) {
            Some(j) => {
                let href = book.manifest[j].href.clone();
                let name = chapter_filename(i, book, href.as_str());
                let ghost pre = files@;
                files.push((href, name));
                proof {
                    assert(pair_views(files@) =~= pair_views(pre).push((book.manifest@[j as int].href@, name@)));
                }
            },
            None => {},
        }
        i = i + 1;
    }
    let refs = collect_referenced_ids(book, opf_dir.as_str());
    let pm = build_path_map(book, opf_dir.as_str(), files.as_slice());
    let mut chapters: Vec<ExtractedChapter> = Vec::new();
    let mut written: Vec<(String, String)> = Vec::new();
    let mut i: usize = 0;
    while i < book.spine.len()
        invariant
            book.wf(),
            i <= book.spine@.len(),
            opf_dir@ == opf_dir_of(book.resources.key_seq()),
            chapters@.len() == extracted_positions(*book, i as int).len(),
            forall|k: int| 0 <= k < chapters@.len() ==> is_extracted(
                *book,
                extracted_positions(*book, i as int)[k],
                #[trigger] chapters@[k],
                pm,
                str_views(refs@),
            ),
            written@ == chapters@.map_values(|c: ExtractedChapter| (c.frontmatter.original_file, c.filename)),
        decreases book.spine.len() - i,
    {
        match extract_at(book, &opf_dir, i, &pm, &refs) {
            Some(c) => {
                let ghost pre = chapters@;
                written.push((c.frontmatter.original_file.clone(), c.filename.clone()));
                chapters.push(c);
                proof {
                    assert(extracted_positions(*book, i + 1) == extracted_positions(*book, i as int).push(i as int));
                    assert forall|k2: int| 0 <= k2 < chapters@.len() implies is_extracted(
                        *book,
                        extracted_positions(*book, i + 1)[k2],
                        #[trigger] chapters@[k2],
                        pm,
                        str_views(refs@),
                    ) by {
                        if k2 < pre.len() {
                            assert(chapters@[k2] == pre[k2]);
                        }
                    }
                    assert(written@ =~= chapters@.map_values(|c: ExtractedChapter| (c.frontmatter.original_file, c.filename)));
                }
            },
            None => {
                proof {
                    assert(extracted_positions(*book, i + 1) == extracted_positions(*book, i as int));
                }
            },
        }
        i = i + 1;
    }
    let summary = generate_summary(&book.navigation.toc, written.as_slice());
    let mut assets: Vec<(String, Vec<u8>)> = Vec::new();
    let mut a: usize = 0;
    while a < book.manifest.len()
        invariant
            book.wf(),
            a <= book.manifest@.len(),
            opf_dir@ == opf_dir_of(book.resources.key_seq()),
            assets@.map_values(|x: (String, Vec<u8>)| (x.0@, x.1@)) == asset_files(*book, a as int),
        decreases book.manifest.len() - a,
    {
        let item = &book.manifest[a];
        match asset_destination(item) {
            Some(dest) => {
                let mut k = chars_of(opf_dir.as_str());
                push_str(&mut k, item.href.as_str());
                let key = string_of(&k);
                match book.resources.get(key.as_str()) {
                    Some(b) => {
                        proof {
                            book.resources.lemma_bytes_view(key@);
                        }
                        let ghost pre = assets@;
                        assets.push((dest, b.clone()));
                        proof {
                            assert(assets@.map_values(|x: (String, Vec<u8>)| (x.0@, x.1@)) =~= pre.map_values(|x: (String, Vec<u8>)| (x.0@, x.1@)).push((dest@, b@)));
                        }
                    },
                    None => {},
                }
            },
            None => {},
        }
        a = a + 1;
    }
    ExtractPlan { chapters, summary, assets, path_map: pm, referenced_ids: refs }
}

} // verus!
