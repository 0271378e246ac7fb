//! Reading an EPUB archive into the book model.

use vstd::prelude::*;
use vstd::utf8::{decode_utf8, encode_utf8, valid_utf8};
use vstd::string::StrSliceExecFns;
use crate::epub::{dir_of, dir_prefix, EpubBook, ManifestItem};
use crate::error::EpxError;
use crate::navigation::{nav_outcome, parse_navigation};
use crate::opf::{opf_of, parse_opf, OpfData};
use crate::strmap::StrMap;
use crate::text::{chars_of, is_prefix, push_str, str_starts_with, string_of, utf8_decode};
use crate::xml::{find_attr, first_attr, is_str, xml_tokens, XmlToken, attr_views, token_views, xml_parses, xml_tokens_of, TokenView};
use crate::zip_utils::{zip_entry, list_entries, zip_first, zip_first_entry, zip_names, read_entry};

verus! {

/// The `full-path` of a `rootfile` tag.
pub open spec fn rootfile_of(t: XmlToken) -> Option<Seq<char>> {
    match t {
        XmlToken::Open { name, attrs, empty } => if name@ == "rootfile"@ {
            first_attr(attrs@, "full-path"@)
        } else {
            None
        },
        _ => None,
    }
}

/// The `full-path` of the first `rootfile` tag that has one.
pub open spec fn first_rootfile(toks: Seq<XmlToken>) -> Option<Seq<char>>
    decreases toks.len(),
{
    if toks.len() == 0 {
        None
    } else {
        match first_rootfile(toks.drop_last()) {
            Some(p) => Some(p),
            None => rootfile_of(toks.last()),
        }
    }
}

/// A first match in a prefix is the first match of the whole.
proof fn lemma_first_rootfile_prefix(t: Seq<XmlToken>, n: int)
    requires
        0 <= n <= t.len(),
        first_rootfile(t.take(n)) is Some,
    ensures
        first_rootfile(t) == first_rootfile(t.take(n)),
    decreases t.len() - n,
{
    if n < t.len() {
        assert(t.take(n + 1).drop_last() =~= t.take(n));
        lemma_first_rootfile_prefix(t, n + 1);
    } else {
        assert(t.take(n) =~= t);
    }
}

/// The package document's path, from the container's tokens.
pub fn container_from_tokens(toks: &Vec<XmlToken>) -> (r: Option<String>)
    ensures
        match r {
            Some(p) => first_rootfile(toks@) == Some(p@),
            None => first_rootfile(toks@) is None,
        },
{
    let mut i: usize = 0;
    proof {
        assert(toks@.take(0) =~= Seq::<XmlToken>::empty());
    }
    while i < toks.len()
        invariant
            i <= toks@.len(),
            first_rootfile(toks@.take(i as int)) is None,
        decreases toks.len() - i,
    {
        proof {
            assert(toks@.take(i + 1).drop_last() =~= toks@.take(i as int));
        }
        match &toks[i] {
            XmlToken::Open { name, attrs, empty } => {
                if is_str(name, "rootfile") {
                    match find_attr(attrs, "full-path") {
                        Some(p) => {
                            proof {
                                lemma_first_rootfile_prefix(toks@, i + 1);
                            }
                            return Some(p);
                        },
                        None => {},
                    }
                }
            },
            _ => {},
        }
        i = i + 1;
    }
    proof {
        assert(toks@.take(i as int) =~= toks@);
    }
    None
}

/// The rootfile path that the container document `xml` names, when it
/// parses and names one.
pub open spec fn container_path(xml: Seq<char>) -> Option<Seq<char>> {
    if xml_parses(xml) {
        rootfile_in(xml_tokens_of(xml))
    } else {
        None
    }
}

/// The `full-path` of the first `rootfile` tag that has one, over token
/// values.
pub open spec fn rootfile_in(ts: Seq<TokenView>) -> Option<Seq<char>>
    decreases ts.len(),
{
    if ts.len() == 0 {
        None
    } else {
        match rootfile_in(ts.drop_last()) {
            Some(p) => Some(p),
            None => match ts.last() {
                TokenView::Open(name, attrs, _) => if name == "rootfile"@ { first_attr_view(attrs, "full-path"@) } else { None },
                _ => None,
            },
        }
    }
}

/// The value of the first attribute with key `key`, over attribute values.
pub open spec fn first_attr_view(attrs: Seq<(Seq<char>, Seq<char>)>, key: Seq<char>) -> Option<Seq<char>>
    decreases attrs.len(),
{
    if attrs.len() == 0 {
        None
    } else {
        match first_attr_view(attrs.drop_last(), key) {
            Some(v) => Some(v),
            None => if attrs.last().0 == key { Some(attrs.last().1) } else { None },
        }
    }
}

/// `first_attr` depends on the attribute values alone.
proof fn lemma_first_attr_view(attrs: Seq<(String, String)>, key: Seq<char>)
    ensures
        first_attr(attrs, key) == first_attr_view(attr_views(attrs), key),
    decreases attrs.len(),
{
    if attrs.len() > 0 {
        lemma_first_attr_view(attrs.drop_last(), key);
        assert(attr_views(attrs.drop_last()) =~= attr_views(attrs).drop_last());
    }
}

/// `first_rootfile` depends on the token values alone.
proof fn lemma_rootfile_view(toks: Seq<XmlToken>)
    ensures
        first_rootfile(toks) == rootfile_in(token_views(toks)),
    decreases toks.len(),
{
    if toks.len() > 0 {
        lemma_rootfile_view(toks.drop_last());
        assert(token_views(toks.drop_last()) =~= token_views(toks).drop_last());
        match toks.last() {
            XmlToken::Open { name, attrs, empty } => {
                lemma_first_attr_view(attrs@, "full-path"@);
            },
            _ => {},
        }
    }
}

/// The path of the package document that `META-INF/container.xml` names:
/// the `full-path` of its first `rootfile` element that has one.
pub fn parse_container(xml: &str) -> (r: Result<String, EpxError>)
    ensures
        r is Ok <==> container_path(xml@) is Some,
        match r {
            Ok(p) => container_path(xml@) == Some(p@),
            Err(e) => (e is Xml && !xml_parses(xml@)) || (e is InvalidEpub && xml_parses(xml@)),
        },
{
    let toks = match xml_tokens(xml) {
        Ok(t) => t,
        Err(e) => return Err(e),
    };
    proof {
        lemma_rootfile_view(toks@);
    }
    match container_from_tokens(&toks) {
        Some(p) => Ok(p),
        None => Err(EpxError::InvalidEpub(String::from_str("no rootfile found in container.xml"))),
    }
}

/// The archive's first entry is `mimetype`, and its payload is exactly the
/// 20 bytes `application/epub+zip`.
pub open spec fn mimetype_ok(data: Seq<u8>) -> bool {
    match zip_first(data) {
        Some((name, stored, bytes)) => name == "mimetype"@ && bytes == encode_utf8("application/epub+zip"@),
        None => false,
    }
}

/// Whether two byte vectors are equal.
fn bytes_eq(a: &Vec<u8>, b: &Vec<u8>) -> (r: bool)
    ensures
        r == (a@ == b@),
{
    if a.len() != b.len() {
        return false;
    }
    let mut i: usize = 0;
    while i < a.len()
        invariant
            a@.len() == b@.len(),
            i <= a@.len(),
            forall|j: int| 0 <= j < i ==> a@[j] == b@[j],
        decreases a.len() - i,
    {
        if a[i] != b[i] {
            return false;
        }
        i = i + 1;
    }
    proof {
        assert(a@ =~= b@);
    }
    true
}

/// Checks that the archive begins with the `mimetype` entry.
pub fn validate_mimetype(data: &Vec<u8>) -> (r: Result<(), EpxError>)
    ensures
        r is Ok <==> mimetype_ok(data@),
        r matches Err(e) ==> e is InvalidEpub,
{
    let (name, _stored, bytes) = match zip_first_entry(data) {
        Some(e) => e,
        None => return Err(EpxError::InvalidEpub(String::from_str("missing mimetype entry"))),
    };
    if !is_str(&name, "mimetype") {
        return Err(EpxError::InvalidEpub(String::from_str("first entry must be 'mimetype'")));
    }
    let expected = String::from_str("application/epub+zip").as_str().as_bytes_vec();
    if !bytes_eq(&bytes, &expected) {
        return Err(EpxError::InvalidEpub(String::from_str("invalid mimetype payload")));
    }
    Ok(())
}

/// The text of entry `name`; an error when it is missing or not UTF-8.
pub fn read_entry_string(data: &Vec<u8>, name: &str) -> (r: Result<String, EpxError>)
    ensures
        match r {
            Ok(s) => zip_entry(data@, name@) is Some && valid_utf8(zip_entry(data@, name@)->Some_0)
                && s@ == decode_utf8(zip_entry(data@, name@)->Some_0),
            Err(e) => e is InvalidEpub && (zip_entry(data@, name@) is None
                || !valid_utf8(zip_entry(data@, name@)->Some_0)),
        },
{
    let bytes = match read_entry(data, name) {
        Some(b) => b,
        None => {
            let mut m = chars_of("missing entry: ");
            push_str(&mut m, name);
            return Err(EpxError::InvalidEpub(string_of(&m)));
        },
    };
    match utf8_decode(bytes) {
        Some(s) => Ok(s),
        None => {
            let mut m = chars_of("invalid UTF-8 in ");
            push_str(&mut m, name);
            Err(EpxError::InvalidEpub(string_of(&m)))
        },
    }
}

/// Entries that become resources: all but `mimetype` and `META-INF/`.
pub open spec fn kept_entry(name: Seq<char>) -> bool {
    name != "mimetype"@ && !is_prefix("META-INF/"@, name)
}

/// The resources that the entries `names` of archive `data` give.
pub open spec fn archive_resources(data: Seq<u8>, names: Seq<Seq<char>>) -> Map<Seq<char>, Seq<u8>>
    decreases names.len(),
{
    if names.len() == 0 {
        Map::empty()
    } else {
        let m = archive_resources(data, names.drop_last());
        let n = names.last();
        if kept_entry(n) && zip_entry(data, n) is Some {
            m.insert(n, zip_entry(data, n)->Some_0)
        } else {
            m
        }
    }
}

/// Loads every readable entry but `mimetype` and `META-INF/`.
fn load_resources(data: &Vec<u8>, names: &Vec<String>) -> (r: StrMap<Vec<u8>>)
    ensures
        r.wf(),
        r.bytes_view() == archive_resources(data@, crate::zip_utils::name_views(names@)),
{
    let ghost nv = crate::zip_utils::name_views(names@);
    let mut res: StrMap<Vec<u8>> = StrMap::new();
    let mut i: usize = 0;
    proof {
        assert(nv.take(0) =~= Seq::<Seq<char>>::empty());
        assert(res.bytes_view() =~= Map::<Seq<char>, Seq<u8>>::empty());
    }
    while i < names.len()
        invariant
            i <= names@.len(),
            nv == crate::zip_utils::name_views(names@),
            res.wf(),
            res.bytes_view() == archive_resources(data@, nv.take(i as int)),
        decreases names.len() - i,
    {
        proof {
            assert(nv.take(i + 1).drop_last() =~= nv.take(i as int));
        }
        let name = &names[i];
        if !is_str(name, "mimetype") && !str_starts_with(name.as_str(), "META-INF/") {
            match read_entry(data, name.as_str()) {
                Some(b) => res.insert_bytes(name.clone(), b),
                None => {},
            }
        }
        i = i + 1;
    }
    proof {
        assert(nv.take(i as int) =~= nv);
    }
    res
}

/// The text of the resource `key`, when it is there and is UTF-8.
pub open spec fn text_of_resource(res: Map<Seq<char>, Seq<u8>>, key: Seq<char>) -> Option<Seq<char>> {
    if res.contains_key(key) && valid_utf8(res[key]) {
        Some(decode_utf8(res[key]))
    } else {
        None
    }
}

/// The text of resource `opf_dir + href`, if it is there and is UTF-8.
fn resource_text(resources: &StrMap<Vec<u8>>, opf_dir: &str, href: &str) -> (r: Option<String>)
    requires
        resources.wf(),
    ensures
        crate::navigation::opt_view(r) == text_of_resource(resources.bytes_view(), opf_dir@ + href@),
{
    let mut k = chars_of(opf_dir);
    push_str(&mut k, href);
    let key = string_of(&k);
    match resources.get(key.as_str()) {
        Some(b) => {
            proof {
                resources.lemma_bytes_view(key@);
            }
            utf8_decode(b.clone())
        },
        None => None,
    }
}

/// The text of the archive entry `name`, when it is there and is UTF-8.
pub open spec fn entry_text(data: Seq<u8>, name: Seq<char>) -> Option<Seq<char>> {
    match zip_entry(data, name) {
        Some(b) => if valid_utf8(b) { Some(decode_utf8(b)) } else { None },
        None => None,
    }
}

/// The package document path that the archive's container names.
pub open spec fn opf_path_of(data: Seq<u8>) -> Option<Seq<char>> {
    match entry_text(data, "META-INF/container.xml"@) {
        Some(c) => container_path(c),
        None => None,
    }
}

/// The archive has the parts a book needs: the `mimetype` entry, a
/// container naming a package document, that document as UTF-8 text that
/// parses, and a readable entry list.
pub open spec fn epub_readable(data: Seq<u8>) -> bool {
    &&& mimetype_ok(data)
    &&& opf_path_of(data) is Some
    &&& entry_text(data, opf_path_of(data)->Some_0) is Some
    &&& xml_parses(entry_text(data, opf_path_of(data)->Some_0)->Some_0)
    &&& zip_names(data) is Some
}

/// The navigation document text for the first item of `m` that satisfies
/// `first`, read from `res` under `opf_dir`.
pub open spec fn first_nav_text(m: Seq<ManifestItem>, res: Map<Seq<char>, Seq<u8>>, opf_dir: Seq<char>) -> Option<Seq<char>> {
    if exists|i: int| crate::navigation::is_first_nav_item(m, i) {
        text_of_resource(res, opf_dir + m[choose|i: int| crate::navigation::is_first_nav_item(m, i)].href@)
    } else {
        None
    }
}

/// The NCX text for the first NCX item of `m`, read from `res` under
/// `opf_dir`.
pub open spec fn first_ncx_text(m: Seq<ManifestItem>, res: Map<Seq<char>, Seq<u8>>, opf_dir: Seq<char>) -> Option<Seq<char>> {
    if exists|i: int| crate::navigation::is_first_ncx_item(m, i) {
        text_of_resource(res, opf_dir + m[choose|i: int| crate::navigation::is_first_ncx_item(m, i)].href@)
    } else {
        None
    }
}

/// Reads an EPUB archive held in memory: checks the `mimetype` entry,
/// finds the package document through the container, parses it, loads
/// every other entry as a resource and reads the navigation (the nav
/// document, else the NCX, each resolved under the package document's
/// directory).
pub fn read_epub(data: &Vec<u8>) -> (r: Result<EpubBook, EpxError>)
    ensures
        !mimetype_ok(data@) ==> r is Err && r->Err_0 is InvalidEpub,
        mimetype_ok(data@) && opf_path_of(data@) is None ==> r is Err,
        mimetype_ok(data@) && entry_text(data@, "META-INF/container.xml"@) is None ==> r is Err && r->Err_0 is InvalidEpub,
        !epub_readable(data@) ==> r is Err,
        match r {
            Ok(book) => {
                let opf_text = entry_text(data@, opf_path_of(data@)->Some_0)->Some_0;
                let opf_dir = dir_prefix(opf_path_of(data@)->Some_0);
                let res = archive_resources(data@, zip_names(data@)->Some_0);
                &&& epub_readable(data@)
                &&& book.wf()
                &&& book.resources.bytes_view() == res
                &&& exists|d: OpfData, toks: Seq<XmlToken>|
                    token_views(toks) == xml_tokens_of(opf_text) && opf_of(d, toks)
                    && d.metadata == book.metadata && d.manifest == book.manifest && d.spine == book.spine
                &&& nav_outcome(
                    book.manifest@,
                    first_nav_text(book.manifest@, res, opf_dir),
                    first_ncx_text(book.manifest@, res, opf_dir),
                    Ok(book.navigation),
                )
            },
            Err(_) => true,
        },
        epub_readable(data@) && r is Err ==> r->Err_0 is Xml,
{
    match validate_mimetype(data) {
        Ok(()) => {},
        Err(e) => return Err(e),
    }
    let container = match read_entry_string(data, "META-INF/container.xml") {
        Ok(s) => s,
        Err(e) => return Err(e),
    };
    let opf_path = match parse_container(container.as_str()) {
        Ok(p) => p,
        Err(e) => return Err(e),
    };
    let pv = chars_of(opf_path.as_str());
    let opf_dir = string_of(&dir_of(&pv));
    let opf_xml = match read_entry_string(data, opf_path.as_str()) {
        Ok(s) => s,
        Err(e) => return Err(e),
    };
    let opf = match parse_opf(opf_xml.as_str()) {
        Ok(d) => d,
        Err(e) => return Err(e),
    };
    let names = match list_entries(data) {
        Some(n) => n,
        None => return Err(EpxError::InvalidEpub(String::from_str("unreadable archive"))),
    };
    let resources = load_resources(data, &names);
    let ghost rv = resources.bytes_view();
    let navigation = {
        let res = &resources;
        let dir = opf_dir.as_str();
        let get = |href: &str| -> (o: Option<String>)
            requires
                res.wf(),
            ensures
                crate::navigation::opt_view(o) == text_of_resource(res.bytes_view(), dir@ + href@),
        {
            resource_text(res, dir, href)
        };
        let nr = parse_navigation(&opf.manifest, &get);
        proof {
            let m = opf.manifest@;
            let (c1, c2) = choose|c1: Option<String>, c2: Option<String>| {
                &&& forall|i: int| crate::navigation::is_first_nav_item(m, i) ==> exists|h: &str|
                    h@ == m[i].href@ && get.ensures((h,), c1)
                &&& forall|i: int| crate::navigation::is_first_ncx_item(m, i) && !((exists|k: int| crate::navigation::is_first_nav_item(m, k))
                    && c1 is Some && xml_parses(c1->Some_0@)) ==> exists|h: &str|
                    h@ == m[i].href@ && get.ensures((h,), c2)
                &&& nav_outcome(m, crate::navigation::opt_view(c1), crate::navigation::opt_view(c2), nr)
            };
            if exists|i: int| crate::navigation::is_first_nav_item(m, i) {
                let i = choose|i: int| crate::navigation::is_first_nav_item(m, i);
                let h = choose|h: &str| h@ == m[i].href@ && get.ensures((h,), c1);
                assert(crate::navigation::opt_view(c1) == first_nav_text(m, rv, dir@));
            }
            assert(nav_outcome(m, first_nav_text(m, rv, dir@), first_ncx_text(m, rv, dir@), nr)) by {
                if exists|i: int| crate::navigation::is_first_ncx_item(m, i) {
                    let i = choose|i: int| crate::navigation::is_first_ncx_item(m, i);
                    if !((exists|k: int| crate::navigation::is_first_nav_item(m, k)) && c1 is Some && xml_parses(c1->Some_0@)) {
                        let h = choose|h: &str| h@ == m[i].href@ && get.ensures((h,), c2);
                        assert(crate::navigation::opt_view(c2) == first_ncx_text(m, rv, dir@));
                    }
                }
            }
        }
        match nr {
            Ok(n) => n,
            Err(e) => return Err(e),
        }
    };
    let OpfData { metadata, manifest, spine, version: _ } = opf;
    Ok(EpubBook { metadata, manifest, spine, navigation, resources })
}

} // verus!
