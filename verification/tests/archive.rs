use verditum::udf::{check_entries, document_from, entry_fits, entry_within, ReadError};
use std::io::{Cursor, Write};
use verditum::signature::{Status, MAX_SIGNATURE_BYTES};
use verditum::udf::{read, MAX_CONTENT_BYTES};
use zip::write::SimpleFileOptions;

const CONTENT: &[u8] = b"<?xml version=\"1.0\" encoding=\"UTF-8\"?>\n<template><content><![CDATA[Merhaba d\xc3\xbcnya]]></content></template>\n";
const SIGNATURE: &[u8] = b"0\x82\x01\x00not a real signature";

fn archive(entries: &[(&str, &[u8])]) -> Vec<u8> {
    let mut archive = zip::ZipWriter::new(Cursor::new(Vec::new()));
    for (name, bytes) in entries {
        archive.start_file(*name, SimpleFileOptions::default()).unwrap();
        archive.write_all(bytes).unwrap();
    }
    archive.finish().unwrap().into_inner()
}

#[test]
fn absent_and_broken_signatures_still_allow_reading_but_never_claim_verification() {
    for (signature, expected) in [(None, Status::Unsigned), (Some(b"broken".as_slice()), Status::Invalid)] {
        let mut entries = vec![("content.xml", CONTENT)];
        if let Some(bytes) = signature {
            entries.push(("sign.sgn", bytes));
        }
        let document = read(&archive(&entries)).unwrap();
        assert_eq!(document.signature.status, expected);
    }
}

#[test]
fn rejects_duplicate_protected_entries() {
    for (name, alternate) in [("content.xml", "contenX.xml"), ("sign.sgn", "sigX.sgn")] {
        let mut entries = vec![("content.xml", CONTENT), ("sign.sgn", SIGNATURE)];
        entries.push((alternate, b"ambiguous"));
        let mut bytes = archive(&entries);
        // ZIP writers forbid duplicates; rename the extra entry in both headers.
        for offset in 0..bytes.len() - alternate.len() {
            if &bytes[offset..offset + alternate.len()] == alternate.as_bytes() {
                bytes[offset..offset + alternate.len()].copy_from_slice(name.as_bytes());
            }
        }
        assert!(read(&bytes).is_err());
    }
}

#[test]
fn rejects_bad_archives_missing_content_and_non_utf8() {
    assert!(read(b"broken").is_err());
    assert!(read(&archive(&[("sign.sgn", SIGNATURE)])).is_err());
    assert!(read(&archive(&[("content.xml", &[0xff])])).is_err());
}

#[test]
fn bounds_decompressed_entry_sizes() {
    let oversized = vec![b' '; MAX_CONTENT_BYTES + 1];
    assert!(read(&archive(&[("content.xml", &oversized)])).is_err());
    let oversized = vec![0; MAX_SIGNATURE_BYTES + 1];
    let bytes = archive(&[("content.xml", CONTENT), ("sign.sgn", &oversized)]);
    assert_eq!(read(&bytes).unwrap().signature.status, Status::Unsupported);
}

#[test]
fn reads_the_exact_content_text() {
    let document = read(&archive(&[("content.xml", CONTENT)])).unwrap();
    assert_eq!(document.content.as_bytes(), CONTENT);
    assert_eq!(document.signature.status, Status::Unsigned);
    assert!(document.signature.signers.is_empty());
}

#[test]
fn names_each_reason_for_refusing_an_archive() {
    assert_eq!(read(b"broken").err(), Some("UDF arşivi okunamadı."));
    assert_eq!(
        read(&archive(&[("sign.sgn", SIGNATURE)])).err(),
        Some("UDF arşivindeki belge veya imza kayıtları eksik ya da yinelenmiş.")
    );
    assert_eq!(
        read(&archive(&[("content.xml", &[0xff])])).err(),
        Some("Belge geçerli UTF-8 metni içermiyor.")
    );
}

#[test]
fn refuses_two_signature_entries_even_with_distinct_records() {
    let mut bytes = archive(&[("content.xml", CONTENT), ("sign.sgn", SIGNATURE), ("sigX.sgn", SIGNATURE)]);
    for offset in 0..bytes.len() - 8 {
        if &bytes[offset..offset + 8] == b"sigX.sgn" {
            bytes[offset..offset + 8].copy_from_slice(b"sign.sgn");
        }
    }
    assert_eq!(read(&bytes).err(), Some("UDF arşivi yinelenmiş dosya kayıtları içeriyor."));
}

#[test]
fn refuses_directories_with_too_many_records() {
    let names: Vec<String> = (0..4096).map(|i| format!("f{i}.txt")).collect();
    let mut entries: Vec<(&str, &[u8])> = names.iter().map(|n| (n.as_str(), b"x".as_slice())).collect();
    entries.push(("content.xml", CONTENT));
    assert_eq!(
        read(&archive(&entries)).err(),
        Some("UDF arşiv dizini okunamadı veya çok fazla kayıt içeriyor.")
    );
    // One record fewer is still read.
    entries.remove(0);
    assert!(read(&archive(&entries)).is_ok());
}

#[test]
fn decides_from_what_the_archive_gave() {
    let names = |v: &[&str]| v.iter().map(|s| s.to_string()).collect::<Vec<_>>();
    assert_eq!(check_entries(&names(&["content.xml"])), Ok(false));
    assert_eq!(check_entries(&names(&["content.xml", "sign.sgn", "other"])), Ok(true));
    assert_eq!(check_entries(&names(&["sign.sgn"])), Err(ReadError::ProtectedEntries));
    assert_eq!(entry_fits(None, 10), Err(Status::Invalid));
    assert_eq!(entry_fits(Some(11), 10), Err(Status::Unsupported));
    assert_eq!(entry_fits(Some(10), 10), Ok(()));
    assert_eq!(entry_within(None, 2), Err(Status::Invalid));
    assert_eq!(entry_within(Some(vec![1, 2, 3]), 2), Err(Status::Unsupported));
    assert_eq!(entry_within(Some(vec![1, 2]), 2), Ok(vec![1, 2]));
    let document = document_from(CONTENT.to_vec(), None).unwrap();
    assert_eq!(document.content.as_bytes(), CONTENT);
    assert_eq!(document.signature.status, Status::Unsigned);
    let document = document_from(CONTENT.to_vec(), Some(Err(Status::Unsupported))).unwrap();
    assert_eq!(document.signature.status, Status::Unsupported);
    let document = document_from(CONTENT.to_vec(), Some(Ok(b"junk".to_vec()))).unwrap();
    assert_eq!(document.signature.status, Status::Invalid);
    assert_eq!(document_from(vec![0xff], None).err(), Some(ReadError::NotUtf8));
}
