//! The archive reader: an in-memory byte buffer opened as a ZIP
//! container, with entry listing and entry extraction as text or raw
//! bytes.
//!
//! The reader is stateless from the caller's side: every operation
//! re-opens the buffer, so re-reading an entry needs no handle, and a
//! nested archive's bytes can be opened independently.  What the zip
//! crate returns for a given buffer is a pure function of the bytes,
//! named by the specification functions below — including which of the
//! two fault kinds a failed read surfaces as.
use std::io::Read;
use vstd::prelude::*;

verus! {

/// How an archive operation fails: the container is not a well-formed
/// ZIP, or an entry's content cannot be read.
#[derive(Debug)]
pub enum ArchiveFault {
    Zip(String),
    Io(String),
}

/// The ordered entry names of the archive (directory markers included),
/// or `None` where the bytes are not a well-formed ZIP container.
pub uninterp spec fn zip_entry_list(bytes: Seq<u8>) -> Option<Seq<Seq<char>>>;

/// Whether the entry at this index is a directory marker.
pub uninterp spec fn zip_entry_is_dir(bytes: Seq<u8>, i: int) -> bool;

/// Whether the entry at this index can be opened at all.  The central
/// directory can parse while an individual entry still refuses to open
/// — an encrypted entry wanting a password, a local header that does
/// not parse, a compression method the crate cannot read.
pub uninterp spec fn zip_entry_readable(bytes: Seq<u8>, i: int) -> bool;

/// Every entry of the first `n` can be opened.
pub open spec fn all_entries_readable(bytes: Seq<u8>, n: int) -> bool {
    forall|i: int| 0 <= i < n ==> zip_entry_readable(bytes, i)
}

/// The text content of the named entry: `None` where the container is
/// malformed, no entry has the name, or the content is not readable as
/// text.
pub uninterp spec fn zip_entry_text(bytes: Seq<u8>, name: Seq<char>) -> Option<Seq<char>>;

/// The raw content of the named entry: `None` where the container is
/// malformed, no entry has the name, or the content cannot be read.
pub uninterp spec fn zip_entry_data(bytes: Seq<u8>, name: Seq<char>) -> Option<Seq<u8>>;

/// When reading the named entry as text fails, whether it fails while
/// reading the content (an I/O fault) rather than while opening the
/// entry (an archive fault).  Meaningful only where `zip_entry_text`
/// is `None`.
pub uninterp spec fn zip_text_io_fault(bytes: Seq<u8>, name: Seq<char>) -> bool;

/// The same distinction for a raw read; meaningful only where
/// `zip_entry_data` is `None`.
pub uninterp spec fn zip_data_io_fault(bytes: Seq<u8>, name: Seq<char>) -> bool;

/// Relies on zip::ZipArchive::new over an in-memory cursor: parsing the
/// central directory either yields the archive's entry count or fails
/// on a malformed container.
#[verifier::external_body]
pub fn archive_len(bytes: &[u8]) -> (r: Result<usize, ArchiveFault>)
    ensures
        match r {
            Ok(n) => zip_entry_list(bytes@) matches Some(l) && l.len() == n,
            Err(e) => zip_entry_list(bytes@) is None && e is Zip,
        },
{
    match zip::ZipArchive::new(std::io::Cursor::new(bytes)) {
        Ok(a) => Ok(a.len()),
        Err(e) => Err(ArchiveFault::Zip(e.to_string())),
    }
}

/// Relies on zip::ZipArchive::by_index: entries come in central
/// directory order, each with its name and its directory flag.  The
/// call can fail even on an in-range index of an accepted archive —
/// `zip_entry_readable` names exactly when it does not.
#[verifier::external_body]
pub fn archive_entry_name(bytes: &[u8], i: usize) -> (r: Result<(String, bool), ArchiveFault>)
    ensures
        match r {
            Ok(p) => zip_entry_list(bytes@) matches Some(l) && i < l.len()
                && zip_entry_readable(bytes@, i as int) && p.0@ == l[i as int] && p.1
                == zip_entry_is_dir(bytes@, i as int),
            Err(e) => e is Zip && !(zip_entry_list(bytes@) matches Some(l) && i < l.len()
                && zip_entry_readable(bytes@, i as int)),
        },
{
    let mut archive = zip::ZipArchive::new(std::io::Cursor::new(bytes)).map_err(|e|
        ArchiveFault::Zip(e.to_string()))?;
    let f = archive.by_index(i).map_err(|e| ArchiveFault::Zip(e.to_string()))?;
    let name = f.name().to_string();
    let dir = f.is_dir();
    drop(f);
    Ok((name, dir))
}

/// Relies on zip::ZipArchive::by_name and Read::read_to_string: the
/// named entry's content as text, an error where the entry is absent or
/// its data does not read back as text; an absent or unopenable entry
/// is an archive fault, a failed content read an I/O fault.
#[verifier::external_body]
pub fn archive_entry_text(bytes: &[u8], name: &str) -> (r: Result<String, ArchiveFault>)
    ensures
        match r {
            Ok(s) => zip_entry_text(bytes@, name@) == Some(s@),
            Err(e) => zip_entry_text(bytes@, name@) is None && (e is Io
                <==> zip_text_io_fault(bytes@, name@)),
        },
{
    let mut archive = zip::ZipArchive::new(std::io::Cursor::new(bytes)).map_err(|e|
        ArchiveFault::Zip(e.to_string()))?;
    let mut f = archive.by_name(name).map_err(|e|
        ArchiveFault::Zip(format!("Failed to read {}: {}", name, e)))?;
    let mut content = String::new();
    f.read_to_string(&mut content).map_err(|e| ArchiveFault::Io(e.to_string()))?;
    Ok(content)
}

/// Relies on zip::ZipArchive::by_name and Read::read_to_end: the named
/// entry's raw bytes, an error where the entry is absent or unreadable,
/// with the fault kind split the same way.
#[verifier::external_body]
pub fn archive_entry_bytes(bytes: &[u8], name: &str) -> (r: Result<Vec<u8>, ArchiveFault>)
    ensures
        match r {
            Ok(d) => zip_entry_data(bytes@, name@) == Some(d@),
            Err(e) => zip_entry_data(bytes@, name@) is None && (e is Io
                <==> zip_data_io_fault(bytes@, name@)),
        },
{
    let mut archive = zip::ZipArchive::new(std::io::Cursor::new(bytes)).map_err(|e|
        ArchiveFault::Zip(e.to_string()))?;
    let mut f = archive.by_name(name).map_err(|e|
        ArchiveFault::Zip(format!("Failed to read {}: {}", name, e)))?;
    let mut data = Vec::new();
    f.read_to_end(&mut data).map_err(|e| ArchiveFault::Io(e.to_string()))?;
    Ok(data)
}

/// Every entry of the archive, in order, with its directory flag; an
/// error where the container is malformed or any single entry refuses
/// to open.
pub fn archive_entries(bytes: &[u8]) -> (r: Result<Vec<(String, bool)>, ArchiveFault>)
    ensures
        match r {
            Ok(v) => zip_entry_list(bytes@) matches Some(l) && v.len() == l.len()
                && all_entries_readable(bytes@, l.len() as int) && (forall|i: int|
                0 <= i < l.len() ==> (#[trigger] v@[i]).0@ == l[i] && v@[i].1
                    == zip_entry_is_dir(bytes@, i)),
            Err(e) => e is Zip && (zip_entry_list(bytes@) is None || !all_entries_readable(
                bytes@,
                zip_entry_list(bytes@)->Some_0.len() as int,
            )),
        },
{
    let n = (match archive_len(bytes) {
        Ok(n) => n,
        Err(e) => {
            return Err(e);
        },
    });
    let mut v: Vec<(String, bool)> = Vec::new();
    let mut i: usize = 0;
    while i < n
        invariant
            i <= n,
            zip_entry_list(bytes@) matches Some(l) && l.len() == n,
            v@.len() == i,
            all_entries_readable(bytes@, i as int),
            forall|k: int|
                0 <= k < i ==> (match zip_entry_list(bytes@) {
                    Some(l) => (#[trigger] v@[k]).0@ == l[k] && v@[k].1
                        == zip_entry_is_dir(bytes@, k),
                    None => false,
                }),
        decreases n - i,
    {
        match archive_entry_name(bytes, i) {
            Ok(p) => {
                v.push(p);
            },
            Err(e) => {
                proof {
                    assert(!zip_entry_readable(bytes@, i as int));
                }
                return Err(e);
            },
        }
        i += 1;
    }
    Ok(v)
}

} // verus!
