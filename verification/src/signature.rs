//! Offline CMS integrity verification of the exact `content.xml` bytes, not
//! certificate trust validation: certificate chains, validity periods,
//! revocation, timestamps and countersignatures are not checked. Every
//! top-level signer must verify for the document to count as verified.
use vstd::prelude::*;

use crate::cms_der::{
    decode_content_info, decode_object_identifier, decode_octet_string, der_content_info,
    der_object_identifier, der_octet_string, lemma_bytes_deep_view, AlgorithmId,
    AlgorithmIdView, Attribute, AttributeView, SignerId, SignerIdView,
};
use crate::crypto::{
    digest, sha2_digest, signature_valid, verify_signature, DigestAlgorithm, SignatureAlgorithm,
};
use crate::signed_data::{
    decode_signed_content, spec_signed_content, CertificateInfo, CertificateInfoView,
    SignedContent, SignedContentView, SignerInfo, SignerInfoView,
};
use crate::text::{bytes_eq, str_eq};

verus! {

/// Outcome of checking a document signature, for the whole document or for
/// one signer.
#[derive(Clone, Copy, Debug, PartialEq, Eq, Structural)]
pub enum Status {
    Unsigned,
    Verified,
    Invalid,
    Unsupported,
}

/// One top-level signer of the document with the names of its certificate.
#[derive(Clone, Debug)]
pub struct Signer {
    pub subject: String,
    pub issuer: String,
    pub status: Status,
}

/// The aggregate status and the per-signer details.
#[derive(Clone, Debug)]
pub struct Report {
    pub status: Status,
    pub signers: Vec<Signer>,
}

impl Report {
    /// A report with the given status and no signer details.
    pub fn new(status: Status) -> (report: Self)
        ensures
            report.status == status,
            report.signers@.len() == 0,
            report.deep_view() == report_of(status),
    {
        let report = Report { status, signers: Vec::new() };
        assert(report.signers.deep_view() =~= Seq::<SignerView>::empty());
        report
    }
}


/// The largest signature that is decoded.
pub const MAX_SIGNATURE_BYTES: usize = 2 * 1024 * 1024;

/// The most top-level signers that are checked.
pub const MAX_SIGNERS: usize = 16;

pub const DATA: &'static str = "1.2.840.113549.1.7.1";
pub const SIGNED_DATA: &'static str = "1.2.840.113549.1.7.2";
pub const CONTENT_TYPE: &'static str = "1.2.840.113549.1.9.3";
pub const MESSAGE_DIGEST: &'static str = "1.2.840.113549.1.9.4";
pub const SHA256: &'static str = "2.16.840.1.101.3.4.2.1";
pub const SHA384: &'static str = "2.16.840.1.101.3.4.2.2";
pub const SHA512: &'static str = "2.16.840.1.101.3.4.2.3";
pub const RSA: &'static str = "1.2.840.113549.1.1.1";
pub const RSA_SHA256: &'static str = "1.2.840.113549.1.1.11";
pub const RSA_SHA384: &'static str = "1.2.840.113549.1.1.12";
pub const RSA_SHA512: &'static str = "1.2.840.113549.1.1.13";
pub const EC: &'static str = "1.2.840.10045.2.1";
pub const ECDSA_SHA256: &'static str = "1.2.840.10045.4.3.2";
pub const ECDSA_SHA384: &'static str = "1.2.840.10045.4.3.3";
pub const P256: &'static str = "1.2.840.10045.3.1.7";
pub const P384: &'static str = "1.3.132.0.34";

pub struct SignerView {
    pub subject: Seq<char>,
    pub issuer: Seq<char>,
    pub status: Status,
}

pub struct ReportView {
    pub status: Status,
    pub signers: Seq<SignerView>,
}

impl DeepView for Signer {
    type V = SignerView;

    open spec fn deep_view(&self) -> SignerView {
        SignerView { subject: self.subject@, issuer: self.issuer@, status: self.status }
    }
}

impl DeepView for Report {
    type V = ReportView;

    open spec fn deep_view(&self) -> ReportView {
        ReportView { status: self.status, signers: self.signers.deep_view() }
    }
}

pub open spec fn report_of(status: Status) -> ReportView {
    ReportView { status, signers: Seq::empty() }
}

/// DER `NULL`: tag 5, length 0.
pub open spec fn der_null() -> Seq<u8> {
    seq![5u8, 0u8]
}

/// Algorithm parameters that are absent or an explicit `NULL`.
pub open spec fn null_or_absent(parameters: Option<Seq<u8>>) -> bool {
    match parameters {
        None => true,
        Some(p) => p == der_null(),
    }
}

pub open spec fn spec_digest_algorithm(oid: Seq<char>) -> Option<DigestAlgorithm> {
    if oid == SHA256@ {
        Some(DigestAlgorithm::Sha256)
    } else if oid == SHA384@ {
        Some(DigestAlgorithm::Sha384)
    } else if oid == SHA512@ {
        Some(DigestAlgorithm::Sha512)
    } else {
        None
    }
}

/// The attributes of the given type.
pub open spec fn attributes_of(attributes: Seq<AttributeView>, oid: Seq<char>) -> Seq<AttributeView> {
    attributes.filter(|a: AttributeView| a.oid == oid)
}

/// The single value of the attribute of the given type, which must occur
/// exactly once with exactly one value.
pub open spec fn spec_single_value(attributes: Seq<AttributeView>, oid: Seq<char>) -> Result<Seq<u8>, Status> {
    let found = attributes_of(attributes, oid);
    if found.len() != 1 || found[0].values.len() != 1 {
        Err(Status::Invalid)
    } else {
        Ok(found[0].values[0])
    }
}

/// The bytes that the signature covers: the signed attributes, after their
/// content type and message digest are checked against the content, or the
/// content itself.
pub open spec fn spec_message(
    content: Seq<u8>,
    data: SignedContentView,
    signer: SignerInfoView,
    digest: DigestAlgorithm,
) -> Result<Seq<u8>, Status> {
    match signer.signed_attributes {
        None => Ok(content),
        Some(attrs) => match spec_single_value(attrs.attributes, CONTENT_TYPE@) {
            Err(s) => Err(s),
            Ok(value) => match der_object_identifier(value) {
                None => Err(Status::Invalid),
                Some(content_type) => if content_type != data.econtent_type {
                    Err(Status::Invalid)
                } else {
                    match spec_single_value(attrs.attributes, MESSAGE_DIGEST@) {
                        Err(s) => Err(s),
                        Ok(value) => match der_octet_string(value) {
                            None => Err(Status::Invalid),
                            Some(expected) => if expected != sha2_digest(digest, content) {
                                Err(Status::Invalid)
                            } else {
                                Ok(attrs.encoded)
                            },
                        },
                    }
                },
            },
        },
    }
}

/// The signature scheme given by the certificate's key and the signer's
/// algorithms.
pub open spec fn spec_signature_algorithm(
    key: AlgorithmIdView,
    signature: AlgorithmIdView,
    digest: DigestAlgorithm,
) -> Result<SignatureAlgorithm, Status> {
    if key.oid == RSA@ {
        if !null_or_absent(key.parameters) || !null_or_absent(signature.parameters) {
            Err(Status::Unsupported)
        } else if digest == DigestAlgorithm::Sha256 && (signature.oid == RSA@ || signature.oid == RSA_SHA256@) {
            Ok(SignatureAlgorithm::RsaPkcs1Sha256)
        } else if digest == DigestAlgorithm::Sha384 && (signature.oid == RSA@ || signature.oid == RSA_SHA384@) {
            Ok(SignatureAlgorithm::RsaPkcs1Sha384)
        } else if digest == DigestAlgorithm::Sha512 && (signature.oid == RSA@ || signature.oid == RSA_SHA512@) {
            Ok(SignatureAlgorithm::RsaPkcs1Sha512)
        } else {
            Err(Status::Unsupported)
        }
    } else if key.oid == EC@ {
        if signature.parameters is Some {
            Err(Status::Unsupported)
        } else {
            let curve = match key.parameters {
                None => None,
                Some(p) => der_object_identifier(p),
            };
            match curve {
                None => Err(Status::Unsupported),
                Some(curve) => if curve == P256@ && digest == DigestAlgorithm::Sha256 && signature.oid == ECDSA_SHA256@ {
                    Ok(SignatureAlgorithm::EcdsaP256Sha256)
                } else if curve == P256@ && digest == DigestAlgorithm::Sha384 && signature.oid == ECDSA_SHA384@ {
                    Ok(SignatureAlgorithm::EcdsaP256Sha384)
                } else if curve == P384@ && digest == DigestAlgorithm::Sha256 && signature.oid == ECDSA_SHA256@ {
                    Ok(SignatureAlgorithm::EcdsaP384Sha256)
                } else if curve == P384@ && digest == DigestAlgorithm::Sha384 && signature.oid == ECDSA_SHA384@ {
                    Ok(SignatureAlgorithm::EcdsaP384Sha384)
                } else {
                    Err(Status::Unsupported)
                },
            }
        }
    } else {
        Err(Status::Unsupported)
    }
}

/// Whether the signed data lists the signer's digest algorithm with absent or
/// `NULL` parameters.
pub open spec fn digest_algorithm_listed(data: SignedContentView, oid: Seq<char>) -> bool {
    exists|j: int|
        0 <= j < data.digest_algorithms.len() && #[trigger] data.digest_algorithms[j].oid == oid
            && null_or_absent(data.digest_algorithms[j].parameters)
}

/// The outcome of checking one signer against its certificate.
pub open spec fn spec_verify_signer(
    content: Seq<u8>,
    data: SignedContentView,
    signer: SignerInfoView,
    cert: CertificateInfoView,
) -> Result<(), Status> {
    match spec_digest_algorithm(signer.digest_algorithm.oid) {
        None => Err(Status::Unsupported),
        Some(digest) => if !digest_algorithm_listed(data, signer.digest_algorithm.oid) {
            Err(Status::Invalid)
        } else if !null_or_absent(signer.digest_algorithm.parameters) {
            Err(Status::Unsupported)
        } else {
            match spec_message(content, data, signer, digest) {
                Err(s) => Err(s),
                Ok(message) => match spec_signature_algorithm(cert.key_algorithm, signer.signature_algorithm, digest) {
                    Err(s) => Err(s),
                    Ok(algorithm) => match cert.public_key {
                        None => Err(Status::Invalid),
                        Some(key) => if signature_valid(algorithm, key, message, signer.signature) {
                            Ok(())
                        } else {
                            Err(Status::Invalid)
                        },
                    },
                },
            }
        },
    }
}

/// Whether the certificate is the one that the signer identifies.
pub open spec fn spec_matches_signer(cert: CertificateInfoView, sid: SignerIdView) -> bool {
    match sid {
        SignerIdView::IssuerAndSerialNumber { issuer, serial } => cert.issuer == issuer && cert.serial == serial,
        SignerIdView::SubjectKeyIdentifier(id) => cert.key_identifier == Some(id),
    }
}

pub open spec fn matching_certificates(certificates: Seq<CertificateInfoView>, sid: SignerIdView) -> Seq<CertificateInfoView> {
    certificates.filter(|c: CertificateInfoView| spec_matches_signer(c, sid))
}

/// The report entry for one signer: checked against its certificate when
/// exactly one certificate matches, invalid and nameless otherwise.
pub open spec fn spec_signer(content: Seq<u8>, data: SignedContentView, signer: SignerInfoView) -> SignerView {
    let found = matching_certificates(data.certificates, signer.sid);
    if found.len() == 1 {
        SignerView {
            subject: found[0].subject_name,
            issuer: found[0].issuer_name,
            status: match spec_verify_signer(content, data, signer, found[0]) {
                Ok(_) => Status::Verified,
                Err(s) => s,
            },
        }
    } else {
        SignerView { subject: Seq::empty(), issuer: Seq::empty(), status: Status::Invalid }
    }
}

/// Folds one more signer's status into the aggregate.
pub open spec fn combine(acc: Status, s: Status) -> Status {
    if acc == Status::Invalid || s == Status::Invalid {
        Status::Invalid
    } else if acc == Status::Unsupported || s == Status::Unsupported {
        Status::Unsupported
    } else {
        Status::Verified
    }
}

pub open spec fn aggregate(signers: Seq<SignerView>) -> Status
    decreases signers.len(),
{
    if signers.len() == 0 {
        Status::Verified
    } else {
        combine(aggregate(signers.drop_last()), signers.last().status)
    }
}

/// The report for decoded signed data.
pub open spec fn spec_assess(content: Seq<u8>, data: SignedContentView) -> ReportView {
    if data.econtent_type != DATA@ || data.has_econtent || data.signers.len() > MAX_SIGNERS {
        report_of(Status::Unsupported)
    } else if data.signers.len() == 0 {
        report_of(Status::Invalid)
    } else {
        let signers = Seq::new(data.signers.len(), |i: int| spec_signer(content, data, data.signers[i]));
        ReportView { status: aggregate(signers), signers }
    }
}

/// The report for the content and the signature bytes, if any.
pub open spec fn spec_verify(content: Seq<u8>, signature: Option<Seq<u8>>) -> ReportView {
    match signature {
        None => report_of(Status::Unsigned),
        Some(bytes) => if bytes.len() > MAX_SIGNATURE_BYTES {
            report_of(Status::Unsupported)
        } else {
            match der_content_info(bytes) {
                None => report_of(Status::Invalid),
                Some((content_type, inner)) => if content_type != SIGNED_DATA@ {
                    report_of(Status::Unsupported)
                } else {
                    match spec_signed_content(inner) {
                        None => report_of(Status::Invalid),
                        Some(data) => spec_assess(content, data),
                    }
                },
            }
        },
    }
}


broadcast use lemma_bytes_deep_view;

fn null_or_absent_exec(parameters: &Option<Vec<u8>>) -> (absent: bool)
    ensures
        absent == null_or_absent(parameters.deep_view()),
{
    match parameters {
        None => true,
        Some(p) => {
            let null = p.len() == 2 && p[0] == 5 && p[1] == 0;
            assert(null == (p@ == der_null())) by {
                if p@ == der_null() {
                    assert(p@[0] == 5 && p@[1] == 0);
                }
                if null {
                    assert(p@ =~= der_null());
                }
            }
            null
        },
    }
}

fn digest_algorithm_of(oid: &String) -> (algorithm: Option<DigestAlgorithm>)
    ensures
        algorithm == spec_digest_algorithm(oid@),
{
    if str_eq(oid.as_str(), SHA256) {
        Some(DigestAlgorithm::Sha256)
    } else if str_eq(oid.as_str(), SHA384) {
        Some(DigestAlgorithm::Sha384)
    } else if str_eq(oid.as_str(), SHA512) {
        Some(DigestAlgorithm::Sha512)
    } else {
        None
    }
}

/// The index of the only attribute of the given type, if it has exactly one
/// value.
fn single_value(attributes: &Vec<Attribute>, oid: &str) -> (found: Result<usize, Status>)
    ensures
        match found {
            Ok(k) => k < attributes@.len() && attributes@[k as int].values@.len() == 1
                && spec_single_value(attributes.deep_view(), oid@) == Ok::<Seq<u8>, Status>(attributes.deep_view()[k as int].values[0]),
            Err(s) => spec_single_value(attributes.deep_view(), oid@) == Err::<Seq<u8>, Status>(s),
        },
{
    let ghost all = attributes.deep_view();
    let ghost pred = |a: AttributeView| a.oid == oid@;
    let mut count: usize = 0;
    let mut first: usize = 0;
    let mut i: usize = 0;
    while i < attributes.len()
        invariant
            i <= attributes@.len(),
            all == attributes.deep_view(),
            pred == (|a: AttributeView| a.oid == oid@),
            count == all.take(i as int).filter(pred).len(),
            count <= i,
            count > 0 ==> first < i && all.take(i as int).filter(pred)[0] == all[first as int],
        decreases attributes@.len() - i,
    {
        proof {
            assert(all.take(i + 1) =~= all.take(i as int).push(all[i as int]));
            all.take(i as int).lemma_filter_push(all[i as int], pred);
        }
        if str_eq(attributes[i].oid.as_str(), oid) {
            assert(pred(all[i as int]));
            if count == 0 {
                first = i;
            }
            count = count + 1;
        } else {
            assert(!pred(all[i as int]));
        }
        i += 1;
    }
    assert(all.take(attributes@.len() as int) =~= all);
    assert(attributes_of(all, oid@) == all.filter(pred));
    if count != 1 || attributes[first].values.len() != 1 {
        Err(Status::Invalid)
    } else {
        Ok(first)
    }
}

/// The signature scheme for the certificate's key and the signer's
/// algorithms.
fn signature_algorithm_of(
    key: &AlgorithmId,
    signature: &AlgorithmId,
    digest: DigestAlgorithm,
) -> (algorithm: Result<SignatureAlgorithm, Status>)
    ensures
        algorithm == spec_signature_algorithm(key.deep_view(), signature.deep_view(), digest),
{
    let sig = signature.oid.as_str();
    if str_eq(key.oid.as_str(), RSA) {
        if !null_or_absent_exec(&key.parameters) || !null_or_absent_exec(&signature.parameters) {
            Err(Status::Unsupported)
        } else if digest == DigestAlgorithm::Sha256 && (str_eq(sig, RSA) || str_eq(sig, RSA_SHA256)) {
            Ok(SignatureAlgorithm::RsaPkcs1Sha256)
        } else if digest == DigestAlgorithm::Sha384 && (str_eq(sig, RSA) || str_eq(sig, RSA_SHA384)) {
            Ok(SignatureAlgorithm::RsaPkcs1Sha384)
        } else if digest == DigestAlgorithm::Sha512 && (str_eq(sig, RSA) || str_eq(sig, RSA_SHA512)) {
            Ok(SignatureAlgorithm::RsaPkcs1Sha512)
        } else {
            Err(Status::Unsupported)
        }
    } else if str_eq(key.oid.as_str(), EC) {
        if signature.parameters.is_some() {
            return Err(Status::Unsupported);
        }
        let curve = match &key.parameters {
            None => None,
            Some(p) => decode_object_identifier(p.as_slice()),
        };
        match curve {
            None => Err(Status::Unsupported),
            Some(curve) => {
                let c = curve.as_str();
                if str_eq(c, P256) && digest == DigestAlgorithm::Sha256 && str_eq(sig, ECDSA_SHA256) {
                    Ok(SignatureAlgorithm::EcdsaP256Sha256)
                } else if str_eq(c, P256) && digest == DigestAlgorithm::Sha384 && str_eq(sig, ECDSA_SHA384) {
                    Ok(SignatureAlgorithm::EcdsaP256Sha384)
                } else if str_eq(c, P384) && digest == DigestAlgorithm::Sha256 && str_eq(sig, ECDSA_SHA256) {
                    Ok(SignatureAlgorithm::EcdsaP384Sha256)
                } else if str_eq(c, P384) && digest == DigestAlgorithm::Sha384 && str_eq(sig, ECDSA_SHA384) {
                    Ok(SignatureAlgorithm::EcdsaP384Sha384)
                } else {
                    Err(Status::Unsupported)
                }
            },
        }
    } else {
        Err(Status::Unsupported)
    }
}

/// Checks the signed attributes of a signer and returns the bytes that its
/// signature covers.
fn signed_message<'a>(
    content: &'a [u8],
    data: &SignedContent,
    signer: &'a SignerInfo,
    digest_algorithm: DigestAlgorithm,
) -> (message: Result<&'a [u8], Status>)
    ensures
        match message {
            Ok(m) => spec_message(content@, data.deep_view(), signer.deep_view(), digest_algorithm) == Ok::<Seq<u8>, Status>(m@),
            Err(s) => spec_message(content@, data.deep_view(), signer.deep_view(), digest_algorithm) == Err::<Seq<u8>, Status>(s),
        },
{
    match &signer.signed_attributes {
        None => Ok(content),
        Some(attrs) => {
            let k = single_value(&attrs.attributes, CONTENT_TYPE)?;
            assert(attrs.attributes.deep_view()[k as int].values[0] == attrs.attributes@[k as int].values@[0]@);
            let content_type = match decode_object_identifier(attrs.attributes[k].values[0].as_slice()) {
                Some(oid) => oid,
                None => { return Err(Status::Invalid); },
            };
            if !str_eq(content_type.as_str(), data.econtent_type.as_str()) {
                return Err(Status::Invalid);
            }
            let k = single_value(&attrs.attributes, MESSAGE_DIGEST)?;
            assert(attrs.attributes.deep_view()[k as int].values[0] == attrs.attributes@[k as int].values@[0]@);
            let expected = match decode_octet_string(attrs.attributes[k].values[0].as_slice()) {
                Some(bytes) => bytes,
                None => { return Err(Status::Invalid); },
            };
            let actual = digest(digest_algorithm, content);
            if !bytes_eq(expected.as_slice(), actual.as_slice()) {
                return Err(Status::Invalid);
            }
            Ok(attrs.encoded.as_slice())
        },
    }
}

/// Checks one signer against its certificate.
pub fn verify_signer(
    content: &[u8],
    data: &SignedContent,
    signer: &SignerInfo,
    cert: &CertificateInfo,
) -> (outcome: Result<(), Status>)
    ensures
        outcome == spec_verify_signer(content@, data.deep_view(), signer.deep_view(), cert.deep_view()),
{
    let digest_algorithm = match digest_algorithm_of(&signer.digest_algorithm.oid) {
        Some(d) => d,
        None => { return Err(Status::Unsupported); },
    };
    let ghost dv = data.deep_view();
    let mut listed = false;
    let mut i: usize = 0;
    while i < data.digest_algorithms.len()
        invariant
            i <= data.digest_algorithms@.len(),
            dv == data.deep_view(),
            listed == exists|j: int|
                0 <= j < i && #[trigger] dv.digest_algorithms[j].oid == signer.digest_algorithm.oid@
                    && null_or_absent(dv.digest_algorithms[j].parameters),
        decreases data.digest_algorithms@.len() - i,
    {
        let alg = &data.digest_algorithms[i];
        assert(dv.digest_algorithms[i as int] == alg.deep_view());
        let same = str_eq(alg.oid.as_str(), signer.digest_algorithm.oid.as_str());
        let found = same && null_or_absent_exec(&alg.parameters);
        assert(found == (dv.digest_algorithms[i as int].oid == signer.digest_algorithm.oid@
            && null_or_absent(dv.digest_algorithms[i as int].parameters)));
        if found {
            listed = true;
        }
        i += 1;
    }
    if !listed {
        return Err(Status::Invalid);
    }
    if !null_or_absent_exec(&signer.digest_algorithm.parameters) {
        return Err(Status::Unsupported);
    }
    let message = signed_message(content, data, signer, digest_algorithm)?;
    let algorithm = signature_algorithm_of(&cert.key_algorithm, &signer.signature_algorithm, digest_algorithm)?;
    match &cert.public_key {
        None => Err(Status::Invalid),
        Some(key) => if verify_signature(algorithm, key.as_slice(), message, signer.signature.as_slice()) {
            Ok(())
        } else {
            Err(Status::Invalid)
        },
    }
}

/// Whether the certificate is the one the signer identifies.
fn matches_signer(cert: &CertificateInfo, sid: &SignerId) -> (matches: bool)
    ensures
        matches == spec_matches_signer(cert.deep_view(), sid.deep_view()),
{
    match sid {
        SignerId::IssuerAndSerialNumber { issuer, serial } => bytes_eq(cert.issuer.as_slice(), issuer.as_slice())
            && bytes_eq(cert.serial.as_slice(), serial.as_slice()),
        SignerId::SubjectKeyIdentifier(id) => match &cert.key_identifier {
            Some(key_id) => bytes_eq(key_id.as_slice(), id.as_slice()),
            None => false,
        },
    }
}

fn combine_status(acc: Status, s: Status) -> (combined: Status)
    ensures
        combined == combine(acc, s),
{
    if acc == Status::Invalid || s == Status::Invalid {
        Status::Invalid
    } else if acc == Status::Unsupported || s == Status::Unsupported {
        Status::Unsupported
    } else {
        Status::Verified
    }
}

/// The report entry of one signer. A certificate is never picked when the
/// signer's identity is ambiguous.
fn signer_entry(content: &[u8], data: &SignedContent, signer: &SignerInfo) -> (entry: Signer)
    ensures
        entry.deep_view() == spec_signer(content@, data.deep_view(), signer.deep_view()),
{
    let ghost all = data.deep_view().certificates;
    let ghost pred = |c: CertificateInfoView| spec_matches_signer(c, signer.sid.deep_view());
    let mut count: usize = 0;
    let mut first: usize = 0;
    let mut i: usize = 0;
    while i < data.certificates.len()
        invariant
            i <= data.certificates@.len(),
            all == data.deep_view().certificates,
            pred == (|c: CertificateInfoView| spec_matches_signer(c, signer.sid.deep_view())),
            count == all.take(i as int).filter(pred).len(),
            count <= i,
            count > 0 ==> first < i && all.take(i as int).filter(pred)[0] == all[first as int],
        decreases data.certificates@.len() - i,
    {
        proof {
            assert(all.take(i + 1) =~= all.take(i as int).push(all[i as int]));
            all.take(i as int).lemma_filter_push(all[i as int], pred);
        }
        assert(all[i as int] == data.certificates@[i as int].deep_view());
        if matches_signer(&data.certificates[i], &signer.sid) {
            assert(pred(all[i as int]));
            if count == 0 {
                first = i;
            }
            count = count + 1;
        }
        i += 1;
    }
    assert(all.take(data.certificates@.len() as int) =~= all);
    assert(matching_certificates(all, signer.sid.deep_view()) == all.filter(pred));
    if count == 1 {
        let cert = &data.certificates[first];
        assert(all[first as int] == cert.deep_view());
        let status = match verify_signer(content, data, signer, cert) {
            Ok(()) => Status::Verified,
            Err(s) => s,
        };
        Signer { subject: cert.subject_name.clone(), issuer: cert.issuer_name.clone(), status }
    } else {
        Signer { subject: String::new(), issuer: String::new(), status: Status::Invalid }
    }
}

/// The report for decoded signed data: every top-level signer is checked,
/// and the document is verified only when every signer is.
pub fn assess(content: &[u8], data: &SignedContent) -> (report: Report)
    ensures
        report.deep_view() == spec_assess(content@, data.deep_view()),
{
    if !str_eq(data.econtent_type.as_str(), DATA) || data.has_econtent
        || data.signers.len() > MAX_SIGNERS {
        return Report::new(Status::Unsupported);
    }
    if data.signers.len() == 0 {
        return Report::new(Status::Invalid);
    }
    let ghost dv = data.deep_view();
    let ghost expected = Seq::new(dv.signers.len(), |k: int| spec_signer(content@, dv, dv.signers[k]));
    let mut report = Report::new(Status::Verified);
    let mut i: usize = 0;
    while i < data.signers.len()
        invariant
            i <= data.signers@.len(),
            dv == data.deep_view(),
            expected == Seq::new(dv.signers.len(), |k: int| spec_signer(content@, dv, dv.signers[k])),
            report.signers.deep_view() =~= expected.take(i as int),
            report.status == aggregate(expected.take(i as int)),
        decreases data.signers@.len() - i,
    {
        assert(dv.signers[i as int] == data.signers@[i as int].deep_view());
        let entry = signer_entry(content, data, &data.signers[i]);
        let status = entry.status;
        let ghost before = report.signers.deep_view();
        report.signers.push(entry);
        report.status = combine_status(report.status, status);
        assert(report.signers.deep_view() =~= before.push(expected[i as int]));
        assert(expected.take(i + 1).drop_last() =~= expected.take(i as int));
        i += 1;
    }
    assert(expected.take(data.signers@.len() as int) =~= expected);
    report
}

/// Checks a UDF signature over the exact content bytes, offline. `None`
/// means that the document carries no signature.
pub fn verify(content: &[u8], signature: Option<&[u8]>) -> (report: Report)
    ensures
        report.deep_view() == spec_verify(content@, match signature {
            Some(s) => Some(s@),
            None => None,
        }),
{
    let bytes = match signature {
        None => { return Report::new(Status::Unsigned); },
        Some(bytes) => bytes,
    };
    if bytes.len() > MAX_SIGNATURE_BYTES {
        return Report::new(Status::Unsupported);
    }
    let (content_type, inner) = match decode_content_info(bytes) {
        Some(parts) => parts,
        None => { return Report::new(Status::Invalid); },
    };
    if !str_eq(content_type.as_str(), SIGNED_DATA) {
        return Report::new(Status::Unsupported);
    }
    match decode_signed_content(inner.as_slice()) {
        None => Report::new(Status::Invalid),
        Some(data) => assess(content, &data),
    }
}


/// A signer's entry is never `Unsigned`.
pub proof fn lemma_signer_never_unsigned(content: Seq<u8>, data: SignedContentView, signer: SignerInfoView)
    ensures
        spec_signer(content, data, signer).status != Status::Unsigned,
{
    let found = matching_certificates(data.certificates, signer.sid);
    if found.len() == 1 {
        let outcome = spec_verify_signer(content, data, signer, found[0]);
        if let Err(st) = outcome {
            match spec_digest_algorithm(signer.digest_algorithm.oid) {
                None => {},
                Some(d) => {
                    match spec_message(content, data, signer, d) {
                        Err(e) => {
                            if let Some(attrs) = signer.signed_attributes {
                                let a = spec_single_value(attrs.attributes, CONTENT_TYPE@);
                                let b = spec_single_value(attrs.attributes, MESSAGE_DIGEST@);
                                assert(a is Err ==> a->Err_0 == Status::Invalid);
                                assert(b is Err ==> b->Err_0 == Status::Invalid);
                            }
                            assert(e != Status::Unsigned);
                        },
                        Ok(_) => {
                            let r2 = spec_signature_algorithm(found[0].key_algorithm, signer.signature_algorithm, d);
                            assert(r2 is Err ==> r2->Err_0 == Status::Unsupported);
                        },
                    }
                },
            }
            assert(st != Status::Unsigned);
        }
    }
}

/// The aggregate over signers that are never `Unsigned` is `Invalid` exactly
/// when one of them is, and `Verified` exactly when all of them are.
pub proof fn lemma_aggregate(signers: Seq<SignerView>)
    requires
        forall|i: int| 0 <= i < signers.len() ==> #[trigger] signers[i].status != Status::Unsigned,
    ensures
        aggregate(signers) != Status::Unsigned,
        aggregate(signers) == Status::Invalid <==> exists|i: int|
            0 <= i < signers.len() && #[trigger] signers[i].status == Status::Invalid,
        aggregate(signers) == Status::Verified <==> forall|i: int|
            0 <= i < signers.len() ==> #[trigger] signers[i].status == Status::Verified,
    decreases signers.len(),
{
    if signers.len() > 0 {
        let rest = signers.drop_last();
        assert forall|i: int| 0 <= i < rest.len() implies #[trigger] rest[i].status != Status::Unsigned by {
            assert(rest[i] == signers[i]);
        }
        lemma_aggregate(rest);
        let last = signers.last();
        assert(last == signers[signers.len() - 1]);
        if exists|i: int| 0 <= i < rest.len() && #[trigger] rest[i].status == Status::Invalid {
            let i = choose|i: int| 0 <= i < rest.len() && #[trigger] rest[i].status == Status::Invalid;
            assert(signers[i] == rest[i]);
        }
        if exists|i: int| 0 <= i < signers.len() && #[trigger] signers[i].status == Status::Invalid {
            let i = choose|i: int| 0 <= i < signers.len() && #[trigger] signers[i].status == Status::Invalid;
            if i < rest.len() {
                assert(rest[i] == signers[i]);
            }
        }
        if forall|i: int| 0 <= i < signers.len() ==> #[trigger] signers[i].status == Status::Verified {
            assert forall|i: int| 0 <= i < rest.len() implies #[trigger] rest[i].status == Status::Verified by {
                assert(rest[i] == signers[i]);
            }
        }
        if aggregate(signers) == Status::Verified {
            assert forall|i: int| 0 <= i < signers.len() implies #[trigger] signers[i].status == Status::Verified by {
                if i < rest.len() {
                    assert(rest[i] == signers[i]);
                }
            }
        }
    }
}

/// A report is `Unsigned` exactly when the document carries no signature.
pub proof fn lemma_unsigned_exactly_without_signature(content: Seq<u8>, signature: Option<Seq<u8>>)
    ensures
        spec_verify(content, signature).status == Status::Unsigned <==> signature is None,
{
    if let Some(bytes) = signature {
        if let Some((ct, inner)) = der_content_info(bytes) {
            if let Some(data) = spec_signed_content(inner) {
                let n = data.signers.len();
                let signers = Seq::new(n, |i: int| spec_signer(content, data, data.signers[i]));
                assert forall|i: int| 0 <= i < signers.len() implies #[trigger] signers[i].status != Status::Unsigned by {
                    lemma_signer_never_unsigned(content, data, data.signers[i]);
                }
                lemma_aggregate(signers);
            }
        }
    }
}

/// Every report lists at most `MAX_SIGNERS` signers, one per top-level
/// signer, and a report with signers is `Verified` exactly when every signer
/// is, and `Invalid` exactly when some signer is.
pub proof fn lemma_report_follows_every_signer(content: Seq<u8>, signature: Option<Seq<u8>>)
    ensures
        ({
            let report = spec_verify(content, signature);
            &&& report.signers.len() <= MAX_SIGNERS
            &&& report.signers.len() > 0 ==> (report.status == Status::Verified <==> forall|i: int|
                0 <= i < report.signers.len() ==> #[trigger] report.signers[i].status == Status::Verified)
            &&& report.signers.len() > 0 ==> (report.status == Status::Invalid <==> exists|i: int|
                0 <= i < report.signers.len() && #[trigger] report.signers[i].status == Status::Invalid)
        }),
{
    if let Some(bytes) = signature {
        if let Some((ct, inner)) = der_content_info(bytes) {
            if let Some(data) = spec_signed_content(inner) {
                let n = data.signers.len();
                let signers = Seq::new(n, |i: int| spec_signer(content, data, data.signers[i]));
                assert forall|i: int| 0 <= i < signers.len() implies #[trigger] signers[i].status != Status::Unsigned by {
                    lemma_signer_never_unsigned(content, data, data.signers[i]);
                }
                lemma_aggregate(signers);
            }
        }
    }
}

/// A document whose signature verifies has at least one signer, and every
/// signer verifies.
pub proof fn lemma_verified_requires_every_signer(content: Seq<u8>, signature: Option<Seq<u8>>)
    ensures
        spec_verify(content, signature).status == Status::Verified ==> {
            let report = spec_verify(content, signature);
            &&& signature is Some
            &&& report.signers.len() > 0
            &&& forall|i: int| 0 <= i < report.signers.len() ==> #[trigger] report.signers[i].status == Status::Verified
        },
{
    lemma_report_follows_every_signer(content, signature);
    lemma_unsigned_exactly_without_signature(content, signature);
}

/// A signer is verified only against the single certificate it identifies,
/// and only over bytes that cover the content: the content itself, or signed
/// attributes whose message digest is the content's digest and whose
/// content type is the signed data's.
pub proof fn lemma_verified_signer_covers_content(content: Seq<u8>, data: SignedContentView, signer: SignerInfoView)
    ensures
        spec_signer(content, data, signer).status == Status::Verified ==> {
            let found = matching_certificates(data.certificates, signer.sid);
            &&& found.len() == 1
            &&& spec_digest_algorithm(signer.digest_algorithm.oid) is Some
            &&& {
                let d = spec_digest_algorithm(signer.digest_algorithm.oid)->0;
                &&& spec_message(content, data, signer, d) is Ok
                &&& signer.signed_attributes is None ==> spec_message(content, data, signer, d) == Ok::<Seq<u8>, Status>(content)
                &&& signer.signed_attributes matches Some(a) ==> {
                    &&& spec_message(content, data, signer, d) == Ok::<Seq<u8>, Status>(a.encoded)
                    &&& spec_single_value(a.attributes, MESSAGE_DIGEST@) is Ok
                    &&& der_octet_string(spec_single_value(a.attributes, MESSAGE_DIGEST@)->Ok_0) == Some(sha2_digest(d, content))
                    &&& spec_single_value(a.attributes, CONTENT_TYPE@) is Ok
                    &&& der_object_identifier(spec_single_value(a.attributes, CONTENT_TYPE@)->Ok_0) == Some(data.econtent_type)
                }
            }
        },
{
}

/// The signed data with one listed digest algorithm's parameters replaced.
pub open spec fn with_digest_parameters(data: SignedContentView, j: int, parameters: Option<Seq<u8>>) -> SignedContentView {
    SignedContentView {
        econtent_type: data.econtent_type,
        has_econtent: data.has_econtent,
        digest_algorithms: data.digest_algorithms.update(
            j,
            AlgorithmIdView { oid: data.digest_algorithms[j].oid, parameters },
        ),
        certificates: data.certificates,
        signers: data.signers,
    }
}

/// A listed digest algorithm with absent parameters and the same algorithm
/// with DER `NULL` parameters give the same report.
pub proof fn lemma_absent_and_null_digest_parameters_agree(content: Seq<u8>, data: SignedContentView, j: int)
    requires
        0 <= j < data.digest_algorithms.len(),
    ensures
        spec_assess(content, with_digest_parameters(data, j, None)) == spec_assess(
            content,
            with_digest_parameters(data, j, Some(der_null())),
        ),
{
    let d1 = with_digest_parameters(data, j, None);
    let d2 = with_digest_parameters(data, j, Some(der_null()));
    assert forall|i: int| 0 <= i < data.signers.len() implies #[trigger] spec_signer(content, d1, data.signers[i])
        == spec_signer(content, d2, data.signers[i]) by {
        let signer = data.signers[i];
        let found = matching_certificates(data.certificates, signer.sid);
        if found.len() == 1 {
            lemma_signer_digest_parameters(content, data, j, signer, found[0]);
        }
    }
    let s1 = Seq::new(d1.signers.len(), |i: int| spec_signer(content, d1, d1.signers[i]));
    let s2 = Seq::new(d2.signers.len(), |i: int| spec_signer(content, d2, d2.signers[i]));
    assert(s1 =~= s2);
}

/// The check of one signer treats a listed digest algorithm with absent
/// parameters and the same algorithm with DER `NULL` parameters alike. A
/// recognised digest algorithm that the signed data does not list with
/// absent or `NULL` parameters makes the signer invalid, and parameters other
/// than those on the signer's own digest algorithm make it unsupported.
pub proof fn lemma_signer_digest_parameters(
    content: Seq<u8>,
    data: SignedContentView,
    j: int,
    signer: SignerInfoView,
    cert: CertificateInfoView,
)
    requires
        0 <= j < data.digest_algorithms.len(),
    ensures
        spec_verify_signer(content, with_digest_parameters(data, j, None), signer, cert) == spec_verify_signer(
            content,
            with_digest_parameters(data, j, Some(der_null())),
            signer,
            cert,
        ),
        spec_digest_algorithm(signer.digest_algorithm.oid) is Some && !digest_algorithm_listed(
            data,
            signer.digest_algorithm.oid,
        ) ==> spec_verify_signer(content, data, signer, cert) == Err::<(), Status>(Status::Invalid),
        spec_digest_algorithm(signer.digest_algorithm.oid) is Some && digest_algorithm_listed(
            data,
            signer.digest_algorithm.oid,
        ) && !null_or_absent(signer.digest_algorithm.parameters) ==> spec_verify_signer(content, data, signer, cert)
            == Err::<(), Status>(Status::Unsupported),
{
    let d1 = with_digest_parameters(data, j, None);
    let d2 = with_digest_parameters(data, j, Some(der_null()));
    lemma_listed_same(data, j, signer.digest_algorithm.oid);
    match spec_digest_algorithm(signer.digest_algorithm.oid) {
        Some(digest) => {
            assert(spec_message(content, d1, signer, digest) == spec_message(content, d2, signer, digest));
        },
        None => {},
    }
}

/// Absent and `NULL` parameters list a digest algorithm alike.
proof fn lemma_listed_same(data: SignedContentView, j: int, oid: Seq<char>)
    requires
        0 <= j < data.digest_algorithms.len(),
    ensures
        digest_algorithm_listed(with_digest_parameters(data, j, None), oid) == digest_algorithm_listed(
            with_digest_parameters(data, j, Some(der_null())),
            oid,
        ),
{
    let d1 = with_digest_parameters(data, j, None);
    let d2 = with_digest_parameters(data, j, Some(der_null()));
    if digest_algorithm_listed(d1, oid) {
        let k = choose|k: int|
            0 <= k < d1.digest_algorithms.len() && #[trigger] d1.digest_algorithms[k].oid == oid && null_or_absent(
                d1.digest_algorithms[k].parameters,
            );
        assert(d2.digest_algorithms[k].oid == oid);
    }
    if digest_algorithm_listed(d2, oid) {
        let k = choose|k: int|
            0 <= k < d2.digest_algorithms.len() && #[trigger] d2.digest_algorithms[k].oid == oid && null_or_absent(
                d2.digest_algorithms[k].parameters,
            );
        assert(d1.digest_algorithms[k].oid == oid);
    }
}

/// An RSA certificate key with absent or `NULL` parameters signs with
/// PKCS#1 v1.5 over the signer's digest, whether the signer names plain
/// `rsaEncryption` (1.2.840.113549.1.1.1) or the RSA algorithm of that
/// digest (1.2.840.113549.1.1.11 for SHA-256, .12 for SHA-384, .13 for
/// SHA-512), with absent or `NULL` parameters.
pub proof fn lemma_rsa_signature_schemes(key: AlgorithmIdView, signature: AlgorithmIdView)
    requires
        key.oid == "1.2.840.113549.1.1.1"@,
        null_or_absent(key.parameters),
        null_or_absent(signature.parameters),
    ensures
        signature.oid == "1.2.840.113549.1.1.1"@ || signature.oid == "1.2.840.113549.1.1.11"@
            ==> spec_signature_algorithm(key, signature, DigestAlgorithm::Sha256) == Ok::<SignatureAlgorithm, Status>(
            SignatureAlgorithm::RsaPkcs1Sha256,
        ),
        signature.oid == "1.2.840.113549.1.1.1"@ || signature.oid == "1.2.840.113549.1.1.12"@
            ==> spec_signature_algorithm(key, signature, DigestAlgorithm::Sha384) == Ok::<SignatureAlgorithm, Status>(
            SignatureAlgorithm::RsaPkcs1Sha384,
        ),
        signature.oid == "1.2.840.113549.1.1.1"@ || signature.oid == "1.2.840.113549.1.1.13"@
            ==> spec_signature_algorithm(key, signature, DigestAlgorithm::Sha512) == Ok::<SignatureAlgorithm, Status>(
            SignatureAlgorithm::RsaPkcs1Sha512,
        ),
{
}

/// A signer whose certificate has an RSA key, whose SHA-256, SHA-384 or
/// SHA-512 digest algorithm the signed data lists, and whose signature
/// algorithm is `rsaEncryption` or the RSA algorithm of that digest, all
/// with absent or `NULL` parameters, is verified exactly when its signature
/// over the bytes it covers holds under RSA PKCS#1 v1.5 with that digest,
/// and invalid otherwise: never unsupported.
pub proof fn lemma_rsa_signer_verified(
    content: Seq<u8>,
    data: SignedContentView,
    signer: SignerInfoView,
    cert: CertificateInfoView,
    digest: DigestAlgorithm,
    scheme: SignatureAlgorithm,
    message: Seq<u8>,
    key: Seq<u8>,
)
    requires
        ({
            let d = signer.digest_algorithm.oid;
            let s = signer.signature_algorithm.oid;
            ||| digest == DigestAlgorithm::Sha256 && scheme == SignatureAlgorithm::RsaPkcs1Sha256
                && d == "2.16.840.1.101.3.4.2.1"@ && (s == "1.2.840.113549.1.1.1"@ || s == "1.2.840.113549.1.1.11"@)
            ||| digest == DigestAlgorithm::Sha384 && scheme == SignatureAlgorithm::RsaPkcs1Sha384
                && d == "2.16.840.1.101.3.4.2.2"@ && (s == "1.2.840.113549.1.1.1"@ || s == "1.2.840.113549.1.1.12"@)
            ||| digest == DigestAlgorithm::Sha512 && scheme == SignatureAlgorithm::RsaPkcs1Sha512
                && d == "2.16.840.1.101.3.4.2.3"@ && (s == "1.2.840.113549.1.1.1"@ || s == "1.2.840.113549.1.1.13"@)
        }),
        null_or_absent(signer.digest_algorithm.parameters),
        digest_algorithm_listed(data, signer.digest_algorithm.oid),
        null_or_absent(signer.signature_algorithm.parameters),
        cert.key_algorithm.oid == "1.2.840.113549.1.1.1"@,
        null_or_absent(cert.key_algorithm.parameters),
        cert.public_key == Some(key),
        spec_message(content, data, signer, digest) == Ok::<Seq<u8>, Status>(message),
    ensures
        spec_verify_signer(content, data, signer, cert) == if signature_valid(
            scheme,
            key,
            message,
            signer.signature,
        ) {
            Ok::<(), Status>(())
        } else {
            Err::<(), Status>(Status::Invalid)
        },
{
    reveal_strlit("2.16.840.1.101.3.4.2.1");
    reveal_strlit("2.16.840.1.101.3.4.2.2");
    reveal_strlit("2.16.840.1.101.3.4.2.3");
    let a = "2.16.840.1.101.3.4.2.1"@;
    let b = "2.16.840.1.101.3.4.2.2"@;
    let c = "2.16.840.1.101.3.4.2.3"@;
    assert(a[21] != b[21] && a[21] != c[21] && b[21] != c[21]);
    assert(a != b && a != c && b != c);
    assert(spec_digest_algorithm(signer.digest_algorithm.oid) == Some(digest));
    lemma_rsa_signature_schemes(cert.key_algorithm, signer.signature_algorithm);
}

/// An elliptic-curve certificate key on P-256 or P-384 signs with ECDSA
/// over the signer's digest when the signer names ECDSA with SHA-256
/// (1.2.840.10045.4.3.2) or SHA-384 (1.2.840.10045.4.3.3) without
/// parameters and the digest matches; signature parameters of any kind make
/// it unsupported.
pub proof fn lemma_ecdsa_signature_schemes(key: AlgorithmIdView, signature: AlgorithmIdView, curve: Seq<char>)
    requires
        key.oid == "1.2.840.10045.2.1"@,
        key.parameters matches Some(p) && der_object_identifier(p) == Some(curve),
    ensures
        signature.parameters is Some ==> spec_signature_algorithm(key, signature, DigestAlgorithm::Sha256)
            == Err::<SignatureAlgorithm, Status>(Status::Unsupported) && spec_signature_algorithm(
            key,
            signature,
            DigestAlgorithm::Sha384,
        ) == Err::<SignatureAlgorithm, Status>(Status::Unsupported),
        signature.parameters is None && curve == "1.2.840.10045.3.1.7"@ && signature.oid == "1.2.840.10045.4.3.2"@
            ==> spec_signature_algorithm(key, signature, DigestAlgorithm::Sha256) == Ok::<SignatureAlgorithm, Status>(
            SignatureAlgorithm::EcdsaP256Sha256,
        ),
        signature.parameters is None && curve == "1.2.840.10045.3.1.7"@ && signature.oid == "1.2.840.10045.4.3.3"@
            ==> spec_signature_algorithm(key, signature, DigestAlgorithm::Sha384) == Ok::<SignatureAlgorithm, Status>(
            SignatureAlgorithm::EcdsaP256Sha384,
        ),
        signature.parameters is None && curve == "1.3.132.0.34"@ && signature.oid == "1.2.840.10045.4.3.2"@
            ==> spec_signature_algorithm(key, signature, DigestAlgorithm::Sha256) == Ok::<SignatureAlgorithm, Status>(
            SignatureAlgorithm::EcdsaP384Sha256,
        ),
        signature.parameters is None && curve == "1.3.132.0.34"@ && signature.oid == "1.2.840.10045.4.3.3"@
            ==> spec_signature_algorithm(key, signature, DigestAlgorithm::Sha384) == Ok::<SignatureAlgorithm, Status>(
            SignatureAlgorithm::EcdsaP384Sha384,
        ),
{
    reveal_strlit("1.2.840.10045.2.1");
    reveal_strlit("1.2.840.113549.1.1.1");
    let e = "1.2.840.10045.2.1"@;
    let r = "1.2.840.113549.1.1.1"@;
    assert(e[9] != r[9]);
    assert(e != r);
    reveal_strlit("1.3.132.0.34");
    reveal_strlit("1.2.840.10045.3.1.7");
    let p384 = "1.3.132.0.34"@;
    let p256 = "1.2.840.10045.3.1.7"@;
    assert(p384[2] != p256[2]);
    assert(p384 != p256);
}

} // verus!
