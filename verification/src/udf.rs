//! Reading a UDF archive: the exact bytes of `content.xml` are verified
//! against `sign.sgn` before they are turned into text, and archives that
//! carry a protected entry twice are refused, so that the renderer and the
//! verifier cannot be handed different data.
use vstd::prelude::*;
use vstd::utf8::{decode_utf8, valid_utf8};

use crate::directory::{central_entry_count, spec_central_entry_count};
use crate::signature::{
    lemma_unsigned_exactly_without_signature, report_of, spec_verify, verify, Report, ReportView,
    Status, MAX_SIGNATURE_BYTES,
};
use crate::text::{str_eq, string_from_utf8};
use crate::zip_entries::{
    entry_names, entry_prefix, entry_size, open_archive, zip_directory, zip_entry_names,
    zip_entry_prefix, zip_entry_size,
};

verus! {

/// The largest `content.xml` that is read.
pub const MAX_CONTENT_BYTES: usize = 32 * 1024 * 1024;

pub const CONTENT_ENTRY: &'static str = "content.xml";
pub const SIGNATURE_ENTRY: &'static str = "sign.sgn";

/// A readable document: its text and the outcome of its signature check.
pub struct Document {
    pub content: String,
    pub signature: Report,
}

/// Why an archive cannot be read.
#[derive(Clone, Copy, Debug, PartialEq, Eq, Structural)]
pub enum ReadError {
    Unreadable,
    DirectoryUnreadable,
    DuplicateRecords,
    ProtectedEntries,
    ContentUnreadable,
    NotUtf8,
}

/// The message shown for each reason.
pub open spec fn error_message(e: ReadError) -> &'static str {
    match e {
        ReadError::Unreadable => "UDF arşivi okunamadı.",
        ReadError::DirectoryUnreadable => "UDF arşiv dizini okunamadı veya çok fazla kayıt içeriyor.",
        ReadError::DuplicateRecords => "UDF arşivi yinelenmiş dosya kayıtları içeriyor.",
        ReadError::ProtectedEntries => "UDF arşivindeki belge veya imza kayıtları eksik ya da yinelenmiş.",
        ReadError::ContentUnreadable => "Belge okunamadı veya 32 MB sınırını aşıyor.",
        ReadError::NotUtf8 => "Belge geçerli UTF-8 metni içermiyor.",
    }
}

impl ReadError {
    /// The message shown for this reason.
    pub fn message(&self) -> (m: &'static str)
        ensures
            m == error_message(*self),
    {
        match self {
            ReadError::Unreadable => "UDF arşivi okunamadı.",
            ReadError::DirectoryUnreadable => "UDF arşiv dizini okunamadı veya çok fazla kayıt içeriyor.",
            ReadError::DuplicateRecords => "UDF arşivi yinelenmiş dosya kayıtları içeriyor.",
            ReadError::ProtectedEntries => "UDF arşivindeki belge veya imza kayıtları eksik ya da yinelenmiş.",
            ReadError::ContentUnreadable => "Belge okunamadı veya 32 MB sınırını aşıyor.",
            ReadError::NotUtf8 => "Belge geçerli UTF-8 metni içermiyor.",
        }
    }
}

/// How many entries carry the name.
pub open spec fn count_named(names: Seq<Seq<char>>, name: Seq<char>) -> nat {
    names.filter(|n: Seq<char>| n == name).len()
}

/// Whether an entry of the recorded size may be read under the limit:
/// `Invalid` where the entry cannot be found, `Unsupported` where it claims
/// more than the limit.
pub open spec fn spec_entry_fits(size: Option<u64>, limit: usize) -> Result<(), Status> {
    match size {
        None => Err(Status::Invalid),
        Some(size) => if size > limit {
            Err(Status::Unsupported)
        } else {
            Ok(())
        },
    }
}

/// The decompressed bytes read from an entry, up to one more than the
/// limit: `Invalid` where reading failed, `Unsupported` where there are more
/// than the limit, whatever size the entry claimed.
pub open spec fn spec_entry_within(data: Option<Seq<u8>>, limit: usize) -> Result<Seq<u8>, Status> {
    match data {
        None => Err(Status::Invalid),
        Some(data) => if data.len() > limit {
            Err(Status::Unsupported)
        } else {
            Ok(data)
        },
    }
}

/// The decompressed bytes of the named entry, at most `limit` of them:
/// `Invalid` where the entry cannot be found or read, `Unsupported` where it
/// is larger than the limit, whatever size it claims.
pub open spec fn spec_read_entry(bytes: Seq<u8>, name: Seq<char>, limit: usize) -> Result<Seq<u8>, Status> {
    match spec_entry_fits(zip_entry_size(bytes, name), limit) {
        Err(s) => Err(s),
        Ok(()) => spec_entry_within(zip_entry_prefix(bytes, name, (limit + 1) as u64), limit),
    }
}

/// Whether the archive's entry names allow it to be read: exactly one
/// `content.xml` and at most one `sign.sgn`; `Ok` says whether it is signed.
pub open spec fn spec_check_entries(names: Seq<Seq<char>>) -> Result<bool, ReadError> {
    let signatures = count_named(names, SIGNATURE_ENTRY@);
    if count_named(names, CONTENT_ENTRY@) != 1 || signatures > 1 {
        Err(ReadError::ProtectedEntries)
    } else {
        Ok(signatures == 1)
    }
}

/// The document made of the bytes of `content.xml` and what reading
/// `sign.sgn` gave, `None` where there is none: the content and the report
/// on it, or why it cannot be shown.
pub open spec fn spec_document(content: Seq<u8>, signature: Option<Result<Seq<u8>, Status>>) -> Result<
    (Seq<u8>, ReportView),
    ReadError,
> {
    let report = match signature {
        None => report_of(Status::Unsigned),
        Some(Ok(signature)) => spec_verify(content, Some(signature)),
        Some(Err(status)) => report_of(status),
    };
    if valid_utf8(content) {
        Ok((content, report))
    } else {
        Err(ReadError::NotUtf8)
    }
}

/// The outcome of reading an archive: the bytes of `content.xml` and the
/// report on them, or why the archive cannot be read.
pub open spec fn spec_read(bytes: Seq<u8>) -> Result<(Seq<u8>, ReportView), ReadError> {
    match zip_directory(bytes) {
        None => Err(ReadError::Unreadable),
        Some((start, unique)) => match spec_central_entry_count(bytes, start) {
            None => Err(ReadError::DirectoryUnreadable),
            Some(records) => if records != unique {
                Err(ReadError::DuplicateRecords)
            } else {
                match zip_entry_names(bytes) {
                    None => Err(ReadError::Unreadable),
                    Some(names) => match spec_check_entries(names) {
                        Err(e) => Err(e),
                        Ok(signed) => match spec_read_entry(bytes, CONTENT_ENTRY@, MAX_CONTENT_BYTES) {
                            Err(_) => Err(ReadError::ContentUnreadable),
                            Ok(content) => spec_document(
                                content,
                                if signed {
                                    Some(spec_read_entry(bytes, SIGNATURE_ENTRY@, MAX_SIGNATURE_BYTES))
                                } else {
                                    None
                                },
                            ),
                        },
                    },
                }
            },
        },
    }
}

/// Whether an entry of the recorded size may be read under the limit.
pub fn entry_fits(size: Option<u64>, limit: usize) -> (fits: Result<(), Status>)
    ensures
        fits == spec_entry_fits(size, limit),
{
    match size {
        None => Err(Status::Invalid),
        Some(size) => if size > limit as u64 {
            Err(Status::Unsupported)
        } else {
            Ok(())
        },
    }
}

/// The bytes read from an entry, refused where there are more than the
/// limit.
pub fn entry_within(data: Option<Vec<u8>>, limit: usize) -> (bytes: Result<Vec<u8>, Status>)
    ensures
        match bytes {
            Ok(b) => spec_entry_within(data.deep_view(), limit) == Ok::<Seq<u8>, Status>(b@),
            Err(s) => spec_entry_within(data.deep_view(), limit) == Err::<Seq<u8>, Status>(s),
        },
{
    match data {
        None => Err(Status::Invalid),
        Some(data) => {
            assert(data.deep_view() == data@);
            if data.len() > limit {
                Err(Status::Unsupported)
            } else {
                Ok(data)
            }
        },
    }
}

/// Reads the named entry, refusing more than `limit` decompressed bytes.
fn read_entry(bytes: &[u8], name: &str, limit: usize) -> (data: Result<Vec<u8>, Status>)
    requires
        limit < u64::MAX,
    ensures
        match data {
            Ok(d) => spec_read_entry(bytes@, name@, limit) == Ok::<Seq<u8>, Status>(d@),
            Err(s) => spec_read_entry(bytes@, name@, limit) == Err::<Seq<u8>, Status>(s),
        },
{
    entry_fits(entry_size(bytes, name), limit)?;
    entry_within(entry_prefix(bytes, name, limit as u64 + 1), limit)
}

fn count_entries(names: &Vec<String>, name: &str) -> (count: usize)
    ensures
        count == count_named(names.deep_view(), name@),
{
    let ghost all = names.deep_view();
    let ghost pred = |n: Seq<char>| n == name@;
    let mut count: usize = 0;
    let mut i: usize = 0;
    while i < names.len()
        invariant
            i <= names@.len(),
            all == names.deep_view(),
            pred == (|n: Seq<char>| n == name@),
            count == all.take(i as int).filter(pred).len(),
            count <= i,
        decreases names@.len() - i,
    {
        proof {
            assert(all.take(i + 1) =~= all.take(i as int).push(all[i as int]));
            all.take(i as int).lemma_filter_push(all[i as int], pred);
        }
        if str_eq(names[i].as_str(), name) {
            count = count + 1;
        }
        i += 1;
    }
    assert(all.take(names@.len() as int) =~= all);
    count
}

/// Whether the archive's entry names allow it to be read; `Ok` says
/// whether it carries a signature.
pub fn check_entries(names: &Vec<String>) -> (signed: Result<bool, ReadError>)
    ensures
        signed == spec_check_entries(names.deep_view()),
{
    let contents = count_entries(names, CONTENT_ENTRY);
    let signatures = count_entries(names, SIGNATURE_ENTRY);
    if contents != 1 || signatures > 1 {
        Err(ReadError::ProtectedEntries)
    } else {
        Ok(signatures == 1)
    }
}

/// The document made of the bytes of `content.xml` and what reading
/// `sign.sgn` gave, `None` where there is none. The signature is checked
/// over these exact bytes before they become text.
pub fn document_from(content: Vec<u8>, signature: Option<Result<Vec<u8>, Status>>) -> (document: Result<
    Document,
    ReadError,
>)
    ensures
        ({
            let found = match signature {
                None => None,
                Some(Ok(s)) => Some(Ok::<Seq<u8>, Status>(s@)),
                Some(Err(st)) => Some(Err::<Seq<u8>, Status>(st)),
            };
            match document {
                Ok(d) => spec_document(content@, found) matches Ok((c, report)) && d.content@ == decode_utf8(c)
                    && d.signature.deep_view() == report,
                Err(e) => spec_document(content@, found) == Err::<(Seq<u8>, ReportView), ReadError>(e),
            }
        }),
{
    let signature = match signature {
        None => Report::new(Status::Unsigned),
        Some(Ok(sig)) => verify(content.as_slice(), Some(sig.as_slice())),
        Some(Err(status)) => Report::new(status),
    };
    match string_from_utf8(content) {
        Some(text) => Ok(Document { content: text, signature }),
        None => Err(ReadError::NotUtf8),
    }
}

fn read_archive(bytes: &[u8]) -> (document: Result<Document, ReadError>)
    ensures
        match document {
            Ok(d) => spec_read(bytes@) matches Ok((content, report))
                && d.content@ == decode_utf8(content) && d.signature.deep_view() == report,
            Err(e) => spec_read(bytes@) == Err::<(Seq<u8>, ReportView), ReadError>(e),
        },
{
    let (start, unique) = match open_archive(bytes) {
        Some(directory) => directory,
        None => { return Err(ReadError::Unreadable); },
    };
    let records = match central_entry_count(bytes, start) {
        Some(n) => n,
        None => { return Err(ReadError::DirectoryUnreadable); },
    };
    if records != unique {
        return Err(ReadError::DuplicateRecords);
    }
    let names = match entry_names(bytes) {
        Some(names) => names,
        None => { return Err(ReadError::Unreadable); },
    };
    let signed = check_entries(&names)?;
    let content = match read_entry(bytes, CONTENT_ENTRY, MAX_CONTENT_BYTES) {
        Ok(content) => content,
        Err(_) => { return Err(ReadError::ContentUnreadable); },
    };
    let signature = if signed {
        Some(read_entry(bytes, SIGNATURE_ENTRY, MAX_SIGNATURE_BYTES))
    } else {
        None
    };
    document_from(content, signature)
}

/// Reads a UDF archive from its bytes. The signature is checked over the
/// exact bytes of `content.xml` that become the document's text.
pub fn read(bytes: &[u8]) -> (document: Result<Document, &'static str>)
    ensures
        match document {
            Ok(d) => spec_read(bytes@) matches Ok((content, report))
                && d.content@ == decode_utf8(content) && d.signature.deep_view() == report,
            Err(m) => spec_read(bytes@) matches Err(e) && m == error_message(e),
        },
{
    match read_archive(bytes) {
        Ok(document) => Ok(document),
        Err(e) => Err(e.message()),
    }
}


/// A readable archive has exactly one `content.xml`, at most one `sign.sgn`,
/// as many central-directory records as indexed entries (so no name occurs
/// twice), and content of at most `MAX_CONTENT_BYTES` bytes that is UTF-8.
pub proof fn lemma_read_refuses_ambiguous_archives(bytes: Seq<u8>)
    ensures
        spec_read(bytes) matches Ok((content, _)) ==> {
            &&& zip_entry_names(bytes) matches Some(names)
            &&& count_named(names, CONTENT_ENTRY@) == 1
            &&& count_named(names, SIGNATURE_ENTRY@) <= 1
            &&& zip_directory(bytes) matches Some((start, unique))
            &&& spec_central_entry_count(bytes, start) == Some(unique as int)
            &&& content.len() <= MAX_CONTENT_BYTES
            &&& valid_utf8(content)
        },
{
}

/// A readable archive's report is `Unsigned` exactly when it has no
/// `sign.sgn`; a signature that cannot be read or does not verify still
/// leaves the document readable but is never reported as verified, and a
/// verified report is the check of the signature entry over the exact
/// content bytes.
pub proof fn lemma_read_reports_signature_over_content(bytes: Seq<u8>)
    ensures
        spec_read(bytes) matches Ok((content, report)) ==> {
            &&& zip_entry_names(bytes) matches Some(names)
            &&& (report.status == Status::Unsigned <==> count_named(names, SIGNATURE_ENTRY@) == 0)
            &&& report.status == Status::Verified ==> {
                &&& spec_read_entry(bytes, SIGNATURE_ENTRY@, MAX_SIGNATURE_BYTES) matches Ok(signature)
                &&& report == spec_verify(content, Some(signature))
            }
        },
{
    if let Ok((content, report)) = spec_read(bytes) {
        let names = zip_entry_names(bytes)->0;
        if count_named(names, SIGNATURE_ENTRY@) != 0 {
            if let Ok(signature) = spec_read_entry(bytes, SIGNATURE_ENTRY@, MAX_SIGNATURE_BYTES) {
                lemma_unsigned_exactly_without_signature(content, Some(signature));
            }
        }
    }
}

} // verus!
