use verditum::signature::{verify, Report, Status, MAX_SIGNATURE_BYTES};

const CONTENT: &[u8] = b"<template><content><![CDATA[imzali]]></content></template>";

#[test]
fn absent_malformed_and_oversized_signatures() {
    assert_eq!(verify(CONTENT, None).status, Status::Unsigned);
    for bytes in [b"".as_slice(), b"not a signature", b"0\x82\x01\x00"] {
        assert_eq!(verify(CONTENT, Some(bytes)).status, Status::Invalid);
    }
    assert_eq!(verify(CONTENT, Some(&vec![0; MAX_SIGNATURE_BYTES + 1])).status, Status::Unsupported);
}

#[test]
fn a_report_without_signers_keeps_its_status() {
    for status in [Status::Unsigned, Status::Verified, Status::Invalid, Status::Unsupported] {
        let report = Report::new(status);
        assert_eq!(report.status, status);
        assert!(report.signers.is_empty());
    }
}

#[test]
fn unparseable_signatures_name_no_signer() {
    let report = verify(CONTENT, Some(b"garbage"));
    assert_eq!(report.status, Status::Invalid);
    assert!(report.signers.is_empty());
    let report = verify(CONTENT, None);
    assert!(report.signers.is_empty());
}
