//! Relative paths between entries of the archive, and the map from
//! archive references to the paths of the extracted tree.

use vstd::prelude::*;
use crate::epub::{dir_prefix, dir_of, EpubBook, ManifestItem, SpineItem};
use crate::strmap::StrMap;
use crate::text::{append_chars, chars_of, contains, is_prefix, push_str, seq_eq, slice, starts_with, str_contains, string_of};

verus! {

/// The views of a sequence of character vectors.
pub open spec fn views(parts: Seq<Vec<char>>) -> Seq<Seq<char>> {
    parts.map_values(|v: Vec<char>| v@)
}

/// The `/`-separated components of `s` (one empty component for `""`).
pub open spec fn split_path(s: Seq<char>) -> Seq<Seq<char>>
    decreases s.len(),
{
    if s.len() == 0 {
        seq![Seq::<char>::empty()]
    } else {
        let rest = split_path(s.drop_last());
        if s.last() == '/' {
            rest.push(Seq::<char>::empty())
        } else {
            rest.update(rest.len() - 1, rest.last().push(s.last()))
        }
    }
}

/// `split_path` yields at least one component.
pub proof fn lemma_split_nonempty(s: Seq<char>)
    ensures
        split_path(s).len() >= 1,
    decreases s.len(),
{
    if s.len() > 0 {
        lemma_split_nonempty(s.drop_last());
    }
}

/// The components joined with `/`.
pub open spec fn join_path(parts: Seq<Seq<char>>) -> Seq<char>
    decreases parts.len(),
{
    if parts.len() == 0 {
        Seq::<char>::empty()
    } else if parts.len() == 1 {
        parts[0]
    } else {
        join_path(parts.drop_last()) + seq!['/'] + parts.last()
    }
}

/// `s` without its trailing `/` characters.
pub open spec fn trim_slashes(s: Seq<char>) -> Seq<char>
    decreases s.len(),
{
    if s.len() > 0 && s.last() == '/' {
        trim_slashes(s.drop_last())
    } else {
        s
    }
}

/// `n` times `../`.
pub open spec fn ups(n: nat) -> Seq<char>
    decreases n,
{
    if n == 0 {
        Seq::<char>::empty()
    } else {
        ups((n - 1) as nat) + "../"@
    }
}

/// `c` is the length of the common prefix of `a` and `b`.
pub open spec fn is_common_len(a: Seq<Seq<char>>, b: Seq<Seq<char>>, c: int) -> bool {
    &&& 0 <= c <= a.len()
    &&& c <= b.len()
    &&& forall|j: int| 0 <= j < c ==> a[j] == b[j]
    &&& (c == a.len() || c == b.len() || a[c] != b[c])
}

/// The length of the common prefix of `a` and `b`.
pub open spec fn common_len(a: Seq<Seq<char>>, b: Seq<Seq<char>>) -> int {
    choose|c: int| is_common_len(a, b, c)
}

/// The common prefix length is unique.
pub proof fn lemma_common_len(a: Seq<Seq<char>>, b: Seq<Seq<char>>, c: int)
    requires
        is_common_len(a, b, c),
    ensures
        common_len(a, b) == c,
{
    let d = common_len(a, b);
    assert(is_common_len(a, b, d));
    if d < c {
        assert(a[d] == b[d]);
    } else if c < d {
        assert(a[c] == b[c]);
    }
}

/// The components of a directory path (none for the empty directory).
pub open spec fn dir_parts(from_dir: Seq<char>) -> Seq<Seq<char>> {
    if from_dir.len() == 0 {
        Seq::<Seq<char>>::empty()
    } else {
        split_path(trim_slashes(from_dir))
    }
}

/// The path that leads from directory `from_dir` to `to_path`: the rest of
/// `to_path` when it lies under `from_dir` (all of it for the empty
/// directory); otherwise one `../` for each component of `from_dir` past the
/// common ones, then the components of `to_path` past them. None when no
/// component is shared and none must be climbed.
pub open spec fn rel_path(from_dir: Seq<char>, to_path: Seq<char>) -> Option<Seq<char>> {
    if is_prefix(from_dir, to_path) {
        Some(to_path.subrange(from_dir.len() as int, to_path.len() as int))
    } else {
        let fp = dir_parts(from_dir);
        let tp = split_path(to_path);
        let c = common_len(fp, tp);
        if fp.len() - c == 0 && c == 0 {
            None
        } else {
            Some(ups((fp.len() - c) as nat) + join_path(tp.subrange(c, tp.len() as int)))
        }
    }
}

/// The components of `s`.
fn split_slash(s: &Vec<char>) -> (r: Vec<Vec<char>>)
    ensures
        views(r@) == split_path(s@),
{
    let mut parts: Vec<Vec<char>> = Vec::new();
    let mut cur: Vec<char> = Vec::new();
    let mut i: usize = 0;
    proof {
        assert(s@.take(0) =~= Seq::<char>::empty());
        assert(views(parts@).push(cur@) =~= seq![Seq::<char>::empty()]);
    }
    while i < s.len()
        invariant
            i <= s.len(),
            views(parts@).push(cur@) == split_path(s@.take(i as int)),
        decreases s.len() - i,
    {
        let c = s[i];
        let ghost old_parts = parts@;
        let ghost old_cur = cur@;
        if c == '/' {
            parts.push(cur);
            cur = Vec::new();
            proof {
                assert(views(parts@) =~= views(old_parts).push(old_cur));
            }
        } else {
            cur.push(c);
        }
        i = i + 1;
        proof {
            let t = s@.take(i as int);
            assert(t.drop_last() =~= s@.take(i - 1));
            assert(t.last() == c);
            if c == '/' {
                assert(views(parts@).push(cur@) =~= split_path(t));
            } else {
                assert(views(parts@) =~= views(old_parts));
                assert(views(parts@).push(cur@) =~= views(old_parts).push(old_cur).update(
                    views(old_parts).push(old_cur).len() - 1,
                    old_cur.push(c),
                ));
            }
        }
    }
    let ghost pre = parts@;
    parts.push(cur);
    proof {
        assert(s@.take(i as int) =~= s@);
        assert(views(parts@) =~= views(pre).push(cur@));
    }
    parts
}

/// `s` without its trailing `/` characters.
fn trim_end_slashes(s: &Vec<char>) -> (r: Vec<char>)
    ensures
        r@ == trim_slashes(s@),
{
    let mut n: usize = s.len();
    proof {
        assert(s@.take(n as int) =~= s@);
    }
    while n > 0 && s[n - 1] == '/'
        invariant
            n <= s.len(),
            trim_slashes(s@.take(n as int)) == trim_slashes(s@),
        decreases n,
    {
        proof {
            assert(s@.take(n as int).drop_last() =~= s@.take(n - 1));
        }
        n = n - 1;
    }
    slice(s, 0, n)
}

/// Appends `join_path` of the components `parts[lo..]` to `out`.
fn append_joined(out: &mut Vec<char>, parts: &Vec<Vec<char>>, lo: usize)
    requires
        lo <= parts.len(),
    ensures
        final(out)@ == old(out)@ + join_path(views(parts@).subrange(lo as int, parts.len() as int)),
{
    let ghost ps = views(parts@);
    let mut k: usize = lo;
    proof {
        assert(ps.subrange(lo as int, lo as int) =~= Seq::<Seq<char>>::empty());
        assert(old(out)@ + join_path(Seq::<Seq<char>>::empty()) =~= old(out)@);
    }
    while k < parts.len()
        invariant
            lo <= k <= parts.len(),
            ps == views(parts@),
            out@ == old(out)@ + join_path(ps.subrange(lo as int, k as int)),
        decreases parts.len() - k,
    {
        let ghost before = out@;
        if k > lo {
            out.push('/');
        }
        append_chars(out, &parts[k]);
        k = k + 1;
        proof {
            let sub = ps.subrange(lo as int, k as int);
            assert(sub.drop_last() =~= ps.subrange(lo as int, k - 1));
            assert(sub.last() == parts@[k - 1]@);
            if k - 1 == lo {
                assert(join_path(sub) == sub[0]);
                assert(join_path(ps.subrange(lo as int, k - 1)) =~= Seq::<char>::empty());
                assert(out@ =~= old(out)@ + join_path(sub));
            } else {
                assert(out@ =~= old(out)@ + join_path(sub));
            }
        }
    }
}

/// The relative path from directory `from_dir` to `to_path`, both with `/`
/// separators.
pub fn relative_path(from_dir: &str, to_path: &str) -> (r: Option<String>)
    ensures
        match r {
            Some(s) => rel_path(from_dir@, to_path@) == Some(s@),
            None => rel_path(from_dir@, to_path@) is None,
        },
{
    let from = chars_of(from_dir);
    let to = chars_of(to_path);
    if starts_with(&to, &from) {
        let rest = slice(&to, from.len(), to.len());
        return Some(string_of(&rest));
    }
    let fp: Vec<Vec<char>> = if from.len() == 0 {
        Vec::new()
    } else {
        let t = trim_end_slashes(&from);
        split_slash(&t)
    };
    proof {
        assert(views(fp@) =~= dir_parts(from_dir@));
    }
    let tp = split_slash(&to);
    let mut c: usize = 0;
    while c < fp.len() && c < tp.len() && seq_eq(&fp[c], &tp[c])
        invariant
            c <= fp.len(),
            c <= tp.len(),
            forall|j: int| 0 <= j < c ==> views(fp@)[j] == views(tp@)[j],
        decreases fp.len() - c,
    {
        c = c + 1;
    }
    proof {
        lemma_common_len(views(fp@), views(tp@), c as int);
    }
    let up = fp.len() - c;
    if up == 0 && c == 0 {
        return None;
    }
    let mut out: Vec<char> = Vec::new();
    let mut k: usize = 0;
    while k < up
        invariant
            k <= up,
            out@ == ups(k as nat),
        decreases up - k,
    {
        push_str(&mut out, "../");
        k = k + 1;
    }
    append_joined(&mut out, &tp, c);
    Some(string_of(&out))
}

/// Joining a directory with a path under it and taking the relative path
/// back gives that path again, for every directory, the empty one included.
pub proof fn lemma_relative_path_round_trip(from_dir: Seq<char>, rel: Seq<char>)
    ensures
        rel_path(from_dir, from_dir + rel) == Some(rel),
{
    let to = from_dir + rel;
    assert(to.subrange(0, from_dir.len() as int) =~= from_dir);
    assert(to.subrange(from_dir.len() as int, to.len() as int) =~= rel);
}

/// The views of a sequence of strings.
pub open spec fn str_views(v: Seq<String>) -> Seq<Seq<char>> {
    v.map_values(|s: String| s@)
}

/// `m` with, for each directory of `dirs` in turn, the relative path from
/// it to `zip` mapped to `ext`.
pub open spec fn with_variants(
    m: Map<Seq<char>, Seq<char>>,
    dirs: Seq<Seq<char>>,
    zip: Seq<char>,
    ext: Seq<char>,
) -> Map<Seq<char>, Seq<char>>
    decreases dirs.len(),
{
    if dirs.len() == 0 {
        m
    } else {
        let m2 = with_variants(m, dirs.drop_last(), zip, ext);
        match rel_path(dirs.last(), zip) {
            Some(r) => m2.insert(r, ext),
            None => m2,
        }
    }
}

/// Maps the manifest href, the ZIP path and each relative form of the ZIP
/// path from the XHTML directories to `extracted`.
fn insert_with_variants(
    map: &mut StrMap<String>,
    xhtml_dirs: &Vec<String>,
    zip_path: &str,
    manifest_href: &str,
    extracted: &str,
)
    requires
        old(map).wf(),
    ensures
        final(map).wf(),
        final(map).text_view() == with_variants(
            old(map).text_view().insert(manifest_href@, extracted@).insert(zip_path@, extracted@),
            str_views(xhtml_dirs@),
            zip_path@,
            extracted@,
        ),
{
    map.insert_str(manifest_href, extracted);
    map.insert_str(zip_path, extracted);
    let ghost base = map.text_view();
    let ghost dirs = str_views(xhtml_dirs@);
    let mut i: usize = 0;
    while i < xhtml_dirs.len()
        invariant
            i <= xhtml_dirs@.len(),
            dirs == str_views(xhtml_dirs@),
            map.wf(),
            map.text_view() == with_variants(base, dirs.take(i as int), zip_path@, extracted@),
        decreases xhtml_dirs.len() - i,
    {
        proof {
            assert(dirs.take(i + 1).drop_last() =~= dirs.take(i as int));
        }
        match relative_path(xhtml_dirs[i].as_str(), zip_path) {
            Some(rel) => {
                map.insert_str(rel.as_str(), extracted);
            },
            None => {},
        }
        i = i + 1;
    }
    proof {
        assert(dirs.take(i as int) =~= dirs);
    }
}

/// The index of the first manifest item with id `id`.
pub open spec fn find_item(m: Seq<ManifestItem>, id: Seq<char>) -> Option<int>
    decreases m.len(),
{
    if m.len() == 0 {
        None
    } else {
        match find_item(m.drop_last(), id) {
            Some(i) => Some(i),
            None => if m.last().id@ == id {
                Some(m.len() - 1)
            } else {
                None
            },
        }
    }
}

/// A found index is in range and has the id.
pub proof fn lemma_find_item(m: Seq<ManifestItem>, id: Seq<char>)
    ensures
        match find_item(m, id) {
            Some(i) => 0 <= i < m.len() && m[i].id@ == id && forall|j: int| 0 <= j < i ==> m[j].id@ != id,
            None => forall|j: int| 0 <= j < m.len() ==> m[j].id@ != id,
        },
    decreases m.len(),
{
    if m.len() > 0 {
        lemma_find_item(m.drop_last(), id);
        assert forall|j: int| 0 <= j < m.len() - 1 implies m.drop_last()[j] == m[j] by {}
    }
}

/// The index of the first manifest item with id `id`.
pub fn find_manifest_item(manifest: &Vec<ManifestItem>, id: &str) -> (r: Option<usize>)
    ensures
        match r {
            Some(i) => find_item(manifest@, id@) == Some(i as int) && i < manifest@.len(),
            None => find_item(manifest@, id@) is None,
        },
{
    let mut i: usize = 0;
    while i < manifest.len()
        invariant
            i <= manifest@.len(),
            find_item(manifest@.take(i as int), id@) is None,
        decreases manifest.len() - i,
    {
        proof {
            assert(manifest@.take(i + 1).drop_last() =~= manifest@.take(i as int));
        }
        if crate::text::str_eq(manifest[i].id.as_str(), id) {
            proof {
                lemma_find_prefix(manifest@, id@, i + 1);
            }
            return Some(i);
        }
        i = i + 1;
    }
    proof {
        assert(manifest@.take(i as int) =~= manifest@);
    }
    None
}

/// A first match in a prefix is the first match of the whole.
proof fn lemma_find_prefix(m: Seq<ManifestItem>, id: Seq<char>, n: int)
    requires
        0 <= n <= m.len(),
        find_item(m.take(n), id) is Some,
    ensures
        find_item(m, id) == find_item(m.take(n), id),
    decreases m.len() - n,
{
    if n < m.len() {
        assert(m.take(n + 1).drop_last() =~= m.take(n));
        lemma_find_prefix(m, id, n + 1);
    } else {
        assert(m.take(n) =~= m);
    }
}

/// The media type names an (X)HTML or XML document.
pub open spec fn is_text_doc(media_type: Seq<char>) -> bool {
    contains(media_type, "html"@) || contains(media_type, "xml"@)
}

/// Where an asset goes in the extracted tree: images under
/// `assets/images/`, stylesheets under `styles/`, fonts under
/// `assets/fonts/`; other items stay behind.
pub open spec fn asset_destination_of(item: ManifestItem) -> Option<Seq<char>> {
    if is_prefix("image/"@, item.media_type@) {
        Some("assets/images/"@ + base_name(item.href@))
    } else if item.media_type@ == "text/css"@ {
        Some("styles/"@ + base_name(item.href@))
    } else if contains(item.media_type@, "font"@) || item.media_type@ == "application/vnd.ms-opentype"@ {
        Some("assets/fonts/"@ + base_name(item.href@))
    } else {
        None
    }
}

/// Where an asset goes in the extracted tree, if it is one.
pub fn asset_destination(item: &ManifestItem) -> (r: Option<String>)
    ensures
        match r {
            Some(p) => asset_destination_of(*item) == Some(p@),
            None => asset_destination_of(*item) is None,
        },
{
    let media = chars_of(item.media_type.as_str());
    let href = chars_of(item.href.as_str());
    let base = base_name_of(&href);
    let dir = if starts_with(&media, &chars_of("image/")) {
        "assets/images/"
    } else if seq_eq(&media, &chars_of("text/css")) {
        "styles/"
    } else if str_contains(item.media_type.as_str(), "font") || seq_eq(&media, &chars_of("application/vnd.ms-opentype")) {
        "assets/fonts/"
    } else {
        return None;
    };
    let mut out = chars_of(dir);
    append_chars(&mut out, &base);
    Some(string_of(&out))
}

/// The directories, within the archive, of the spine's text documents.
pub open spec fn spine_dirs(manifest: Seq<ManifestItem>, spine: Seq<SpineItem>, opf_dir: Seq<char>) -> Seq<Seq<char>>
    decreases spine.len(),
{
    if spine.len() == 0 {
        Seq::<Seq<char>>::empty()
    } else {
        let rest = spine_dirs(manifest, spine.drop_last(), opf_dir);
        match find_item(manifest, spine.last().idref@) {
            Some(i) => if is_text_doc(manifest[i].media_type@) {
                rest.push(dir_prefix(opf_dir + manifest[i].href@))
            } else {
                rest
            },
            None => rest,
        }
    }
}

/// The last component of a path.
pub open spec fn base_name(p: Seq<char>) -> Seq<char> {
    p.subrange(dir_prefix(p).len() as int, p.len() as int)
}

/// Where an image or stylesheet goes in the extracted tree, as seen from
/// the chapters directory.
pub open spec fn asset_target(item: ManifestItem) -> Option<Seq<char>> {
    if is_prefix("image/"@, item.media_type@) {
        Some("../assets/images/"@ + base_name(item.href@))
    } else if item.media_type@ == "text/css"@ {
        Some("../styles/"@ + base_name(item.href@))
    } else {
        None
    }
}

/// `m` with the assets among `items` mapped.
pub open spec fn map_assets(
    m: Map<Seq<char>, Seq<char>>,
    items: Seq<ManifestItem>,
    dirs: Seq<Seq<char>>,
    opf_dir: Seq<char>,
) -> Map<Seq<char>, Seq<char>>
    decreases items.len(),
{
    if items.len() == 0 {
        m
    } else {
        let m2 = map_assets(m, items.drop_last(), dirs, opf_dir);
        let item = items.last();
        match asset_target(item) {
            Some(t) => with_variants(m2.insert(item.href@, t).insert(opf_dir + item.href@, t), dirs, opf_dir + item.href@, t),
            None => m2,
        }
    }
}

/// `m` with each chapter href mapped to its Markdown file name.
pub open spec fn map_chapters(
    m: Map<Seq<char>, Seq<char>>,
    files: Seq<(String, String)>,
    dirs: Seq<Seq<char>>,
    opf_dir: Seq<char>,
) -> Map<Seq<char>, Seq<char>>
    decreases files.len(),
{
    if files.len() == 0 {
        m
    } else {
        let m2 = map_chapters(m, files.drop_last(), dirs, opf_dir);
        let f = files.last();
        with_variants(m2.insert(f.0@, f.1@).insert(opf_dir + f.0@, f.1@), dirs, opf_dir + f.0@, f.1@)
    }
}

/// The whole path map of a book.
pub open spec fn path_map(
    manifest: Seq<ManifestItem>,
    spine: Seq<SpineItem>,
    opf_dir: Seq<char>,
    files: Seq<(String, String)>,
) -> Map<Seq<char>, Seq<char>> {
    let dirs = spine_dirs(manifest, spine, opf_dir);
    map_chapters(map_assets(Map::empty(), manifest, dirs, opf_dir), files, dirs, opf_dir)
}

/// The last component of a path.
fn base_name_of(p: &Vec<char>) -> (r: Vec<char>)
    ensures
        r@ == base_name(p@),
{
    let d = dir_of(p);
    slice(p, d.len(), p.len())
}

/// `opf_dir` followed by `href`.
fn join_opf(opf_dir: &str, href: &str) -> (r: String)
    ensures
        r@ == opf_dir@ + href@,
{
    let mut v = chars_of(opf_dir);
    push_str(&mut v, href);
    string_of(&v)
}

/// Where a manifest item goes in the extracted tree, if it is an asset.
fn asset_target_of(item: &ManifestItem) -> (r: Option<String>)
    ensures
        match r {
            Some(s) => asset_target(*item) == Some(s@),
            None => asset_target(*item) is None,
        },
{
    let media = chars_of(item.media_type.as_str());
    let href = chars_of(item.href.as_str());
    let image = chars_of("image/");
    let css = chars_of("text/css");
    let base = base_name_of(&href);
    if starts_with(&media, &image) {
        let mut out = chars_of("../assets/images/");
        append_chars(&mut out, &base);
        Some(string_of(&out))
    } else if seq_eq(&media, &css) {
        let mut out = chars_of("../styles/");
        append_chars(&mut out, &base);
        Some(string_of(&out))
    } else {
        None
    }
}

/// The directories of the spine's text documents within the archive.
fn collect_spine_dirs(book: &EpubBook, opf_dir: &str) -> (r: Vec<String>)
    ensures
        str_views(r@) == spine_dirs(book.manifest@, book.spine@, opf_dir@),
{
    let mut dirs: Vec<String> = Vec::new();
    let mut i: usize = 0;
    while i < book.spine.len()
        invariant
            i <= book.spine@.len(),
            str_views(dirs@) == spine_dirs(book.manifest@, book.spine@.take(i as int), opf_dir@),
        decreases book.spine.len() - i,
    {
        proof {
            assert(book.spine@.take(i + 1).drop_last() =~= book.spine@.take(i as int));
        }
        let ghost pre = dirs@;
        match find_manifest_item(&book.manifest, book.spine[i].idref.as_str()) {
            Some(j) => {
                let m = &book.manifest[j];
                if str_contains(m.media_type.as_str(), "html") || str_contains(m.media_type.as_str(), "xml") {
                    let full = join_opf(opf_dir, m.href.as_str());
                    let fv = chars_of(full.as_str());
                    let d = dir_of(&fv);
                    dirs.push(string_of(&d));
                    proof {
                        assert(str_views(dirs@) =~= str_views(pre).push(d@));
                    }
                }
            },
            None => {},
        }
        i = i + 1;
    }
    proof {
        assert(book.spine@.take(i as int) =~= book.spine@);
    }
    dirs
}

/// The map from every form in which the XHTML refers to an image, a
/// stylesheet or a chapter (manifest href, ZIP path, path relative to each
/// XHTML directory) to its path in the extracted tree. `chapter_files`
/// pairs each chapter's manifest href with its Markdown file name.
pub fn build_path_map(book: &EpubBook, opf_dir: &str, chapter_files: &[(String, String)]) -> (r: StrMap<String>)
    ensures
        r.wf(),
        r.text_view() == path_map(book.manifest@, book.spine@, opf_dir@, chapter_files@),
{
    let dirs = collect_spine_dirs(book, opf_dir);
    let ghost gd = spine_dirs(book.manifest@, book.spine@, opf_dir@);
    let mut map: StrMap<String> = StrMap::new();
    proof {
        assert(map.text_view() =~= Map::<Seq<char>, Seq<char>>::empty());
    }
    let mut i: usize = 0;
    while i < book.manifest.len()
        invariant
            i <= book.manifest@.len(),
            str_views(dirs@) == gd,
            map.wf(),
            map.text_view() == map_assets(Map::empty(), book.manifest@.take(i as int), gd, opf_dir@),
        decreases book.manifest.len() - i,
    {
        proof {
            assert(book.manifest@.take(i + 1).drop_last() =~= book.manifest@.take(i as int));
        }
        let item = &book.manifest[i];
        match asset_target_of(item) {
            Some(target) => {
                let zip = join_opf(opf_dir, item.href.as_str());
                insert_with_variants(&mut map, &dirs, zip.as_str(), item.href.as_str(), target.as_str());
            },
            None => {},
        }
        i = i + 1;
    }
    proof {
        assert(book.manifest@.take(i as int) =~= book.manifest@);
    }
    let ghost assets = map.text_view();
    let mut k: usize = 0;
    while k < chapter_files.len()
        invariant
            k <= chapter_files@.len(),
            str_views(dirs@) == gd,
            map.wf(),
            map.text_view() == map_chapters(assets, chapter_files@.take(k as int), gd, opf_dir@),
        decreases chapter_files.len() - k,
    {
        proof {
            assert(chapter_files@.take(k + 1).drop_last() =~= chapter_files@.take(k as int));
        }
        let f = &chapter_files[k];
        let zip = join_opf(opf_dir, f.0.as_str());
        insert_with_variants(&mut map, &dirs, zip.as_str(), f.0.as_str(), f.1.as_str());
        k = k + 1;
    }
    proof {
        assert(chapter_files@.take(k as int) =~= chapter_files@);
    }
    map
}

} // verus!
