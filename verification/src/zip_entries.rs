//! The archive reading done by the `zip` crate, over the archive's bytes.
use std::io::{Cursor, Read};
use vstd::prelude::*;
use zip::ZipArchive;

verus! {

/// What `ZipArchive::new` finds for these bytes: the offset of the central
/// directory (`central_directory_start`) and the number of entries in its
/// name index (`len`).
pub uninterp spec fn zip_directory(bytes: Seq<u8>) -> Option<(u64, usize)>;

/// The names of the archive's entries in index order, as `by_index_raw`
/// gives them; `None` where opening the archive or reading an entry fails.
pub uninterp spec fn zip_entry_names(bytes: Seq<u8>) -> Option<Seq<Seq<char>>>;

/// The uncompressed size that the archive records for the named entry, as
/// `by_name` and `ZipFile::size` give it.
pub uninterp spec fn zip_entry_size(bytes: Seq<u8>, name: Seq<char>) -> Option<u64>;

/// The first `limit` decompressed bytes of the named entry, as reading
/// `by_name(name).take(limit)` to its end gives them.
pub uninterp spec fn zip_entry_prefix(bytes: Seq<u8>, name: Seq<char>, limit: u64) -> Option<Seq<u8>>;

/// Calls `ZipArchive::new` on the bytes and returns its
/// `central_directory_start` and `len`. The contract only names the result.
#[verifier::external_body]
pub(crate) fn open_archive(bytes: &[u8]) -> (directory: Option<(u64, usize)>)
    ensures
        directory == zip_directory(bytes@),
{
    let archive = ZipArchive::new(Cursor::new(bytes)).ok()?;
    Some((archive.central_directory_start(), archive.len()))
}

/// Calls `ZipArchive::new` and `by_index_raw` for every index below `len`,
/// returning each entry's `name`. The contract only names the result.
#[verifier::external_body]
pub(crate) fn entry_names(bytes: &[u8]) -> (names: Option<Vec<String>>)
    ensures
        names.deep_view() == zip_entry_names(bytes@),
{
    let mut archive = ZipArchive::new(Cursor::new(bytes)).ok()?;
    (0..archive.len()).map(|i| archive.by_index_raw(i).ok().map(|e| e.name().to_string())).collect()
}

/// Calls `ZipArchive::new` and `by_name`, returning the entry's `size`. The
/// contract only names the result.
#[verifier::external_body]
pub(crate) fn entry_size(bytes: &[u8], name: &str) -> (size: Option<u64>)
    ensures
        size == zip_entry_size(bytes@, name@),
{
    let mut archive = ZipArchive::new(Cursor::new(bytes)).ok()?;
    let entry = archive.by_name(name).ok()?;
    Some(entry.size())
}

/// Calls `ZipArchive::new` and `by_name`, then reads the entry through
/// `Read::take(limit)` with `read_to_end`. `take` reads at most `limit`
/// bytes, which the contract states besides naming the result.
#[verifier::external_body]
pub(crate) fn entry_prefix(bytes: &[u8], name: &str, limit: u64) -> (data: Option<Vec<u8>>)
    ensures
        data.deep_view() == zip_entry_prefix(bytes@, name@, limit),
        data matches Some(d) ==> d@.len() <= limit,
{
    let mut archive = ZipArchive::new(Cursor::new(bytes)).ok()?;
    let entry = archive.by_name(name).ok()?;
    let mut data = Vec::new();
    entry.take(limit).read_to_end(&mut data).ok()?;
    Some(data)
}

} // verus!
