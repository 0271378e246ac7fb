//! Reading the package document: metadata, manifest and spine.

use vstd::prelude::*;
use crate::epub::{opt_text, EpubMetadata, EpubVersion, ManifestItem, MetaView, SpineItem};
use crate::error::EpxError;
use crate::text::{append_chars, chars_of, is_prefix, string_of, trim, trimmed};
use crate::xml::{find_last_attr, is_str, last_attr, xml_tokens, XmlToken, token_views, xml_parses, xml_tokens_of};

verus! {

/// What the package document holds.
pub struct OpfData {
    pub metadata: EpubMetadata,
    pub manifest: Vec<ManifestItem>,
    pub spine: Vec<SpineItem>,
    pub version: EpubVersion,
}

/// The value of the last attribute `key`, or empty.
pub open spec fn attr_or_empty(attrs: Seq<(String, String)>, key: Seq<char>) -> Seq<char> {
    match last_attr(attrs, key) {
        Some(v) => v,
        None => Seq::<char>::empty(),
    }
}

/// The value of the last attribute `key`, or empty.
fn attr_or_empty_of(attrs: &Vec<(String, String)>, key: &str) -> (r: String)
    ensures
        r@ == attr_or_empty(attrs@, key@),
{
    match find_last_attr(attrs, key) {
        Some(v) => v,
        None => String::new(),
    }
}

/// The manifest item that an `<item/>` with these attributes declares.
pub open spec fn item_from(m: ManifestItem, attrs: Seq<(String, String)>) -> bool {
    &&& m.id@ == attr_or_empty(attrs, "id"@)
    &&& m.href@ == attr_or_empty(attrs, "href"@)
    &&& m.media_type@ == attr_or_empty(attrs, "media-type"@)
    &&& opt_text(m.properties) == last_attr(attrs, "properties"@)
}

/// The spine item that an `<itemref/>` with these attributes declares;
/// `linear="no"` makes it non-linear.
pub open spec fn itemref_from(s: SpineItem, attrs: Seq<(String, String)>) -> bool {
    &&& s.idref@ == attr_or_empty(attrs, "idref"@)
    &&& s.linear == match last_attr(attrs, "linear"@) {
        Some(v) => v != "no"@,
        None => true,
    }
    &&& opt_text(s.properties) == last_attr(attrs, "properties"@)
}

/// The attributes of the self-closing elements named `tag`, in order.
pub open spec fn empty_tags(toks: Seq<XmlToken>, tag: Seq<char>) -> Seq<Seq<(String, String)>>
    decreases toks.len(),
{
    if toks.len() == 0 {
        Seq::<Seq<(String, String)>>::empty()
    } else {
        let rest = empty_tags(toks.drop_last(), tag);
        match toks.last() {
            XmlToken::Open { name, attrs, empty } => if empty && name@ == tag {
                rest.push(attrs@)
            } else {
                rest
            },
            _ => rest,
        }
    }
}

/// The package version: `V2` when the last `version` attribute of a
/// `package` start tag begins with `2`, `V3` otherwise.
pub open spec fn opf_version(toks: Seq<XmlToken>) -> EpubVersion
    decreases toks.len(),
{
    if toks.len() == 0 {
        EpubVersion::V3
    } else {
        match toks.last() {
            XmlToken::Open { name, attrs, empty } => if !empty && name@ == "package"@ && last_attr(
                attrs@,
                "version"@,
            ) is Some {
                if is_prefix("2"@, last_attr(attrs@, "version"@)->Some_0) {
                    EpubVersion::V2
                } else {
                    EpubVersion::V3
                }
            } else {
                opf_version(toks.drop_last())
            },
            _ => opf_version(toks.drop_last()),
        }
    }
}

/// Metadata parser state: the metadata so far, inside `<metadata>`, the
/// current element, its text, its `property`.
pub type MetaState = (MetaView, bool, Seq<char>, Seq<char>, Seq<char>);

/// The metadata once the element `elem` (with `property` `prop`) has
/// ended with text `t`.
pub open spec fn meta_add(m: MetaView, elem: Seq<char>, prop: Seq<char>, t: Seq<char>) -> MetaView {
    if elem == "identifier"@ {
        MetaView { identifiers: m.identifiers.push(t), ..m }
    } else if elem == "title"@ {
        MetaView { titles: m.titles.push(t), ..m }
    } else if elem == "language"@ {
        MetaView { languages: m.languages.push(t), ..m }
    } else if elem == "creator"@ {
        MetaView { creators: m.creators.push(t), ..m }
    } else if elem == "publisher"@ {
        MetaView { publishers: m.publishers.push(t), ..m }
    } else if elem == "date"@ {
        MetaView { dates: m.dates.push(t), ..m }
    } else if elem == "description"@ {
        MetaView { description: Some(t), ..m }
    } else if elem == "subject"@ {
        MetaView { subjects: m.subjects.push(t), ..m }
    } else if elem == "rights"@ {
        MetaView { rights: Some(t), ..m }
    } else if elem == "meta"@ && prop.len() > 0 {
        if prop == "dcterms:modified"@ {
            MetaView { modified: Some(t), ..m }
        } else {
            MetaView { custom: m.custom.insert(prop, t), ..m }
        }
    } else {
        m
    }
}

/// The `name` of an EPUB 2 `<meta/>`: its last `name` or `property`
/// attribute.
pub open spec fn meta_name(attrs: Seq<(String, String)>) -> Seq<char>
    decreases attrs.len(),
{
    if attrs.len() == 0 {
        Seq::<char>::empty()
    } else if attrs.last().0@ == "name"@ || attrs.last().0@ == "property"@ {
        attrs.last().1@
    } else {
        meta_name(attrs.drop_last())
    }
}

/// One step of the metadata parser.
pub open spec fn meta_step(st: MetaState, t: XmlToken) -> MetaState {
    let (m, in_md, elem, text, prop) = st;
    match t {
        XmlToken::Open { name, attrs, empty } => if !empty {
            if name@ == "package"@ {
                st
            } else if name@ == "metadata"@ {
                (m, true, elem, text, prop)
            } else if in_md {
                let p = if name@ == "meta"@ { attr_or_empty(attrs@, "property"@) } else { Seq::<char>::empty() };
                (m, in_md, name@, Seq::<char>::empty(), p)
            } else {
                st
            }
        } else if name@ == "item"@ || name@ == "itemref"@ {
            st
        } else if in_md && name@ == "meta"@ && meta_name(attrs@) == "cover"@ {
            (MetaView { cover_id: Some(attr_or_empty(attrs@, "content"@)), ..m }, in_md, elem, text, prop)
        } else {
            st
        },
        XmlToken::Close(name) => if name@ == "metadata"@ {
            (m, false, elem, text, prop)
        } else if in_md && text.len() > 0 {
            (meta_add(m, elem, prop, trimmed(text)), in_md, Seq::<char>::empty(), Seq::<char>::empty(), Seq::<char>::empty())
        } else {
            st
        },
        XmlToken::Text(x) => if in_md {
            (m, in_md, elem, text + x@, prop)
        } else {
            st
        },
        _ => st,
    }
}

/// Empty metadata.
pub open spec fn empty_meta() -> MetaView {
    MetaView {
        identifiers: Seq::empty(),
        titles: Seq::empty(),
        languages: Seq::empty(),
        creators: Seq::empty(),
        publishers: Seq::empty(),
        dates: Seq::empty(),
        description: None,
        subjects: Seq::empty(),
        rights: None,
        modified: None,
        cover_id: None,
        custom: Map::empty(),
    }
}

/// The metadata parser's state after the tokens `toks`.
pub open spec fn meta_run(toks: Seq<XmlToken>) -> MetaState
    decreases toks.len(),
{
    if toks.len() == 0 {
        (empty_meta(), false, Seq::<char>::empty(), Seq::<char>::empty(), Seq::<char>::empty())
    } else {
        meta_step(meta_run(toks.drop_last()), toks.last())
    }
}

/// What the tokens of a package document give: metadata, manifest,
/// spine and version.
pub open spec fn opf_of(d: OpfData, toks: Seq<XmlToken>) -> bool {
    let items = empty_tags(toks, "item"@);
    let refs = empty_tags(toks, "itemref"@);
    &&& d.metadata.custom.wf()
    &&& d.metadata@ == meta_run(toks).0
    &&& d.manifest@.len() == items.len()
    &&& forall|i: int| 0 <= i < items.len() ==> item_from(#[trigger] d.manifest@[i], items[i])
    &&& d.spine@.len() == refs.len()
    &&& forall|i: int| 0 <= i < refs.len() ==> itemref_from(#[trigger] d.spine@[i], refs[i])
    &&& d.version == opf_version(toks)
}

/// Adds the metadata of an element that ended with (trimmed) text `t`.
fn add_meta_text(m: &mut EpubMetadata, elem: &String, prop: &String, t: String)
    requires
        old(m).custom.wf(),
    ensures
        final(m).custom.wf(),
        final(m)@ == meta_add(old(m)@, elem@, prop@, t@),
{
    let ghost pre = m@;
    proof {
        reveal_strlit("");
        if prop@.len() == 0 {
            assert(prop@ =~= ""@);
        }
    }
    if is_str(elem, "identifier") {
        m.identifiers.push(t);
    } else if is_str(elem, "title") {
        m.titles.push(t);
    } else if is_str(elem, "language") {
        m.languages.push(t);
    } else if is_str(elem, "creator") {
        m.creators.push(t);
    } else if is_str(elem, "publisher") {
        m.publishers.push(t);
    } else if is_str(elem, "date") {
        m.dates.push(t);
    } else if is_str(elem, "description") {
        m.description = Some(t);
    } else if is_str(elem, "subject") {
        m.subjects.push(t);
    } else if is_str(elem, "rights") {
        m.rights = Some(t);
    } else if is_str(elem, "meta") && !is_str(prop, "") {
        proof {
            reveal_strlit("");
            assert(prop@.len() > 0);
        }
        if is_str(prop, "dcterms:modified") {
            m.modified = Some(t);
        } else {
            m.custom.insert_str(prop.as_str(), t.as_str());
        }
    }
    proof {
        assert(m@ =~= meta_add(pre, elem@, prop@, t@));
    }
}

/// The `name` of an EPUB 2 `<meta/>`.
fn meta_name_of(attrs: &Vec<(String, String)>) -> (r: String)
    ensures
        r@ == meta_name(attrs@),
{
    let mut i: usize = attrs.len();
    proof {
        assert(attrs@.take(i as int) =~= attrs@);
    }
    while i > 0
        invariant
            i <= attrs@.len(),
            meta_name(attrs@) == meta_name(attrs@.take(i as int)),
        decreases i,
    {
        proof {
            assert(attrs@.take(i as int).drop_last() =~= attrs@.take(i - 1));
        }
        if is_str(&attrs[i - 1].0, "name") || is_str(&attrs[i - 1].0, "property") {
            return attrs[i - 1].1.clone();
        }
        i = i - 1;
    }
    String::new()
}

/// The package document's contents, from its tokens.
#[verifier::rlimit(60)]
pub fn opf_from_tokens(toks: &Vec<XmlToken>) -> (r: OpfData)
    ensures
        opf_of(r, toks@),
{
    let mut metadata = EpubMetadata::default();
    let mut manifest: Vec<ManifestItem> = Vec::new();
    let mut spine: Vec<SpineItem> = Vec::new();
    let mut version = EpubVersion::V3;
    let mut in_md = false;
    let mut elem = String::new();
    let mut text: Vec<char> = Vec::new();
    let mut prop = String::new();
    let mut i: usize = 0;
    proof {
        assert(toks@.take(0) =~= Seq::<XmlToken>::empty());
        assert(metadata@ =~= empty_meta());
    }
    while i < toks.len()
        invariant
            i <= toks@.len(),
            metadata.custom.wf(),
            meta_run(toks@.take(i as int)) == (metadata@, in_md, elem@, text@, prop@),
            manifest@.len() == empty_tags(toks@.take(i as int), "item"@).len(),
            forall|j: int| 0 <= j < manifest@.len() ==> item_from(#[trigger] manifest@[j], empty_tags(toks@.take(i as int), "item"@)[j]),
            spine@.len() == empty_tags(toks@.take(i as int), "itemref"@).len(),
            forall|j: int| 0 <= j < spine@.len() ==> itemref_from(#[trigger] spine@[j], empty_tags(toks@.take(i as int), "itemref"@)[j]),
            version == opf_version(toks@.take(i as int)),
        decreases toks.len() - i,
    {
        proof {
            assert(toks@.take(i + 1).drop_last() =~= toks@.take(i as int));
            reveal_strlit("item");
            reveal_strlit("itemref");
            assert("item"@ != "itemref"@) by {
                assert("item"@.len() != "itemref"@.len());
            }
        }
        match &toks[i] {
            XmlToken::Open { name, attrs, empty } => {
                if !*empty {
                    if is_str(name, "package") {
                        match find_last_attr(attrs, "version") {
                            Some(v) => {
                                let vc = chars_of(v.as_str());
                                version = if vc.len() > 0 && vc[0] == '2' {
                                    EpubVersion::V2
                                } else {
                                    EpubVersion::V3
                                };
                                proof {
                                    reveal_strlit("2");
                                    assert("2"@ =~= seq!['2']);
                                    assert(vc@ == v@);
                                    if v@.len() > 0 {
                                        assert(v@.subrange(0, 1) =~= seq![v@[0]]);
                                        if v@[0] == '2' {
                                            assert(is_prefix("2"@, v@));
                                        } else {
                                            assert(v@.subrange(0, 1)[0] != "2"@[0]);
                                            assert(!is_prefix("2"@, v@));
                                        }
                                    }
                                }
                            },
                            None => {},
                        }
                    } else if is_str(name, "metadata") {
                        in_md = true;
                    } else if in_md {
                        elem = name.clone();
                        text = Vec::new();
                        prop = if is_str(name, "meta") {
                            attr_or_empty_of(attrs, "property")
                        } else {
                            String::new()
                        };
                    }
                } else if is_str(name, "item") {
                    let item = ManifestItem {
                        id: attr_or_empty_of(attrs, "id"),
                        href: attr_or_empty_of(attrs, "href"),
                        media_type: attr_or_empty_of(attrs, "media-type"),
                        properties: find_last_attr(attrs, "properties"),
                    };
                    manifest.push(item);
                } else if is_str(name, "itemref") {
                    let linear = match find_last_attr(attrs, "linear") {
                        Some(v) => !is_str(&v, "no"),
                        None => true,
                    };
                    let item = SpineItem {
                        idref: attr_or_empty_of(attrs, "idref"),
                        linear,
                        properties: find_last_attr(attrs, "properties"),
                    };
                    spine.push(item);
                } else if in_md && is_str(name, "meta") {
                    let n = meta_name_of(attrs);
                    if is_str(&n, "cover") {
                        let ghost pre = metadata@;
                        metadata.cover_id = Some(attr_or_empty_of(attrs, "content"));
                        proof {
                            assert(metadata@ =~= MetaView { cover_id: Some(attr_or_empty(attrs@, "content"@)), ..pre });
                        }
                    }
                }
            },
            XmlToken::Close(name) => {
                if is_str(name, "metadata") {
                    in_md = false;
                } else if in_md && text.len() > 0 {
                    let t = trim(&text);
                    add_meta_text(&mut metadata, &elem, &prop, string_of(&t));
                    text = Vec::new();
                    elem = String::new();
                    prop = String::new();
                }
            },
            XmlToken::Text(x) => {
                if in_md {
                    let xv = chars_of(x.as_str());
                    append_chars(&mut text, &xv);
                }
            },
            _ => {},
        }
        i = i + 1;
    }
    proof {
        assert(toks@.take(i as int) =~= toks@);
    }
    OpfData { metadata, manifest, spine, version }
}

/// Reads a package document: the contents that its tokens give (which
/// depend on the tokens' values alone); an error exactly when it does not
/// parse.
pub fn parse_opf(xml: &str) -> (r: Result<OpfData, EpxError>)
    ensures
        match r {
            Ok(d) => xml_parses(xml@) && exists|toks: Seq<XmlToken>|
                token_views(toks) == xml_tokens_of(xml@) && opf_of(d, toks),
            Err(e) => e is Xml && !xml_parses(xml@),
        },
{
    let toks = match xml_tokens(xml) {
        Ok(t) => t,
        Err(e) => return Err(e),
    };
    Ok(opf_from_tokens(&toks))
}

} // verus!
