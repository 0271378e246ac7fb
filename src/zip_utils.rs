//! The ZIP archive codec, over archives held in memory.

use vstd::prelude::*;
use std::io::{Read, Write};

verus! {

/// The names of the entries of the archive `data`, in archive order; None
/// when it is not a readable ZIP.
pub uninterp spec fn zip_names(data: Seq<u8>) -> Option<Seq<Seq<char>>>;

/// The bytes of entry `name` of the archive `data`, when it can be read.
pub uninterp spec fn zip_entry(data: Seq<u8>, name: Seq<char>) -> Option<Seq<u8>>;

/// The first entry of the archive `data`: its name, whether it is stored
/// uncompressed, and its bytes.
pub uninterp spec fn zip_first(data: Seq<u8>) -> Option<(Seq<char>, bool, Seq<u8>)>;

/// The archive that holds `entries` (name, stored uncompressed, bytes), in
/// that order.
pub uninterp spec fn zip_of(entries: Seq<(Seq<char>, bool, Seq<u8>)>) -> Option<Seq<u8>>;

/// The values of a list of archive entries.
pub open spec fn entry_views(entries: Seq<(String, bool, Vec<u8>)>) -> Seq<(Seq<char>, bool, Seq<u8>)> {
    entries.map_values(|e: (String, bool, Vec<u8>)| (e.0@, e.1, e.2@))
}

/// The characters of each string.
pub open spec fn name_views(v: Seq<String>) -> Seq<Seq<char>> {
    v.map_values(|s: String| s@)
}

/// Relies on `zip::ZipArchive::new` and `name_for_index`: the entry names
/// of the archive, in archive order; None when it is not a readable ZIP.
#[verifier::external_body]
pub fn list_entries(data: &Vec<u8>) -> (r: Option<Vec<String>>)
    ensures
        match r {
            Some(v) => zip_names(data@) == Some(name_views(v@)),
            None => zip_names(data@) is None,
        },
{
    let a = zip::ZipArchive::new(std::io::Cursor::new(data.as_slice())).ok()?;
    let mut names = Vec::new();
    for i in 0..a.len() {
        names.push(a.name_for_index(i)?.to_string());
    }
    Some(names)
}

/// Relies on `zip::ZipArchive::by_name`: the decompressed bytes of the
/// entry `name`; None when the archive or the entry cannot be read.
#[verifier::external_body]
pub fn read_entry(data: &Vec<u8>, name: &str) -> (r: Option<Vec<u8>>)
    ensures
        r matches Some(b) ==> zip_entry(data@, name@) == Some(b@),
        r is None ==> zip_entry(data@, name@) is None,
{
    let mut a = zip::ZipArchive::new(std::io::Cursor::new(data.as_slice())).ok()?;
    let mut f = a.by_name(name).ok()?;
    let mut buf = Vec::new();
    f.read_to_end(&mut buf).ok()?;
    Some(buf)
}

/// Relies on `zip::ZipArchive::by_index`: the name, the storage method
/// (`Stored` or not) and the bytes of the first entry; None when there is
/// none or it cannot be read.
#[verifier::external_body]
pub fn zip_first_entry(data: &Vec<u8>) -> (r: Option<(String, bool, Vec<u8>)>)
    ensures
        r matches Some(e) ==> zip_first(data@) == Some((e.0@, e.1, e.2@)),
        r is None ==> zip_first(data@) is None,
{
    let mut a = zip::ZipArchive::new(std::io::Cursor::new(data.as_slice())).ok()?;
    let mut f = a.by_index(0).ok()?;
    let stored = f.compression() == zip::CompressionMethod::Stored;
    let name = f.name().to_string();
    let mut buf = Vec::new();
    f.read_to_end(&mut buf).ok()?;
    Some((name, stored, buf))
}

/// Relies on `zip::ZipWriter`: an archive holding the entries in order,
/// each stored or deflated as flagged, all dated 1980-01-01; None when
/// writing fails (a repeated name).
#[verifier::external_body]
pub fn zip_write(entries: &Vec<(String, bool, Vec<u8>)>) -> (r: Option<Vec<u8>>)
    ensures
        r matches Some(b) ==> zip_of(entry_views(entries@)) == Some(b@),
        r is None ==> zip_of(entry_views(entries@)) is None,
{
    let mut w = zip::ZipWriter::new(std::io::Cursor::new(Vec::new()));
    for (name, stored, data) in entries.iter() {
        let method = if *stored { zip::CompressionMethod::Stored } else { zip::CompressionMethod::Deflated };
        let o = zip::write::SimpleFileOptions::default().compression_method(method).last_modified_time(zip::DateTime::default());
        w.start_file(name.as_str(), o).ok()?;
        w.write_all(data).ok()?;
    }
    Some(w.finish().ok()?.into_inner())
}

} // verus!
