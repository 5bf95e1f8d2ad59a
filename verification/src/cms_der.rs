//! The DER decoding of CMS and X.509 structures, done by the `cms`, `der` and
//! `x509-cert` crates. Each decoder takes DER bytes and hands back plain
//! values: strings for object identifiers and names, and the DER bytes of the
//! nested structures, which the next decoder takes in turn.
use vstd::prelude::*;

use cms::cert::CertificateChoices;
use cms::content_info::ContentInfo;
use cms::signed_data::{SignedData, SignerIdentifier, SignerInfo};
use der::asn1::{ObjectIdentifier, OctetString};
use der::{Decode, Encode};
use x509_cert::spki::AlgorithmIdentifierOwned;
use x509_cert::attr::Attributes;
use x509_cert::ext::pkix::SubjectKeyIdentifier;
use x509_cert::Certificate;

verus! {

/// The deep view of a byte vector is its view.
pub broadcast proof fn lemma_bytes_deep_view(v: Vec<u8>)
    ensures
        #[trigger] v.deep_view() == v@,
{
    assert(v.deep_view() =~= v@);
}

/// The fields of a `SignedData` that the signature check reads; the nested
/// structures are kept as their DER encodings. Each choice of the
/// certificate set is a certificate's encoding, or `None` for a choice of
/// another kind.
pub struct SignedDataParts {
    pub econtent_type: String,
    pub has_econtent: bool,
    pub digest_algorithms: Vec<Vec<u8>>,
    pub certificates: Vec<Option<Vec<u8>>>,
    pub signers: Vec<Vec<u8>>,
}

pub struct SignedDataPartsView {
    pub econtent_type: Seq<char>,
    pub has_econtent: bool,
    pub digest_algorithms: Seq<Seq<u8>>,
    pub certificates: Seq<Option<Seq<u8>>>,
    pub signers: Seq<Seq<u8>>,
}

impl DeepView for SignedDataParts {
    type V = SignedDataPartsView;

    open spec fn deep_view(&self) -> SignedDataPartsView {
        SignedDataPartsView {
            econtent_type: self.econtent_type@,
            has_econtent: self.has_econtent,
            digest_algorithms: self.digest_algorithms.deep_view(),
            certificates: self.certificates.deep_view(),
            signers: self.signers.deep_view(),
        }
    }
}

/// The fields of a `SignerInfo`, each nested structure as its DER encoding.
/// `signed_attributes` is the DER `SET OF` that a signature over signed
/// attributes covers.
pub struct SignerInfoParts {
    pub sid: Vec<u8>,
    pub digest_algorithm: Vec<u8>,
    pub signed_attributes: Option<Vec<u8>>,
    pub signature_algorithm: Vec<u8>,
    pub signature: Vec<u8>,
}

pub struct SignerInfoPartsView {
    pub sid: Seq<u8>,
    pub digest_algorithm: Seq<u8>,
    pub signed_attributes: Option<Seq<u8>>,
    pub signature_algorithm: Seq<u8>,
    pub signature: Seq<u8>,
}

impl DeepView for SignerInfoParts {
    type V = SignerInfoPartsView;

    open spec fn deep_view(&self) -> SignerInfoPartsView {
        SignerInfoPartsView {
            sid: self.sid@,
            digest_algorithm: self.digest_algorithm@,
            signed_attributes: self.signed_attributes.deep_view(),
            signature_algorithm: self.signature_algorithm@,
            signature: self.signature@,
        }
    }
}

/// An algorithm identifier: its object identifier in dotted form and the DER
/// encoding of its parameters, if any.
pub struct AlgorithmId {
    pub oid: String,
    pub parameters: Option<Vec<u8>>,
}

pub struct AlgorithmIdView {
    pub oid: Seq<char>,
    pub parameters: Option<Seq<u8>>,
}

impl DeepView for AlgorithmId {
    type V = AlgorithmIdView;

    open spec fn deep_view(&self) -> AlgorithmIdView {
        AlgorithmIdView { oid: self.oid@, parameters: self.parameters.deep_view() }
    }
}

/// How a signer names its certificate: the DER encodings of the issuer name
/// and serial number, or the subject key identifier's bytes.
pub enum SignerId {
    IssuerAndSerialNumber { issuer: Vec<u8>, serial: Vec<u8> },
    SubjectKeyIdentifier(Vec<u8>),
}

pub enum SignerIdView {
    IssuerAndSerialNumber { issuer: Seq<u8>, serial: Seq<u8> },
    SubjectKeyIdentifier(Seq<u8>),
}

impl DeepView for SignerId {
    type V = SignerIdView;

    open spec fn deep_view(&self) -> SignerIdView {
        match self {
            SignerId::IssuerAndSerialNumber { issuer, serial } => SignerIdView::IssuerAndSerialNumber {
                issuer: issuer@,
                serial: serial@,
            },
            SignerId::SubjectKeyIdentifier(id) => SignerIdView::SubjectKeyIdentifier(id@),
        }
    }
}

/// An attribute: its type in dotted form and the DER encoding of each value.
pub struct Attribute {
    pub oid: String,
    pub values: Vec<Vec<u8>>,
}

pub struct AttributeView {
    pub oid: Seq<char>,
    pub values: Seq<Seq<u8>>,
}

impl DeepView for Attribute {
    type V = AttributeView;

    open spec fn deep_view(&self) -> AttributeView {
        AttributeView { oid: self.oid@, values: self.values.deep_view() }
    }
}

/// The fields of an X.509 certificate that the signature check reads.
pub struct CertificateParts {
    pub issuer: Vec<u8>,
    pub serial: Vec<u8>,
    pub subject_name: String,
    pub issuer_name: String,
    pub key_identifier: Option<Vec<u8>>,
    pub key_algorithm: Vec<u8>,
    pub public_key: Option<Vec<u8>>,
}

pub struct CertificatePartsView {
    pub issuer: Seq<u8>,
    pub serial: Seq<u8>,
    pub subject_name: Seq<char>,
    pub issuer_name: Seq<char>,
    pub key_identifier: Option<Seq<u8>>,
    pub key_algorithm: Seq<u8>,
    pub public_key: Option<Seq<u8>>,
}

impl DeepView for CertificateParts {
    type V = CertificatePartsView;

    open spec fn deep_view(&self) -> CertificatePartsView {
        CertificatePartsView {
            issuer: self.issuer@,
            serial: self.serial@,
            subject_name: self.subject_name@,
            issuer_name: self.issuer_name@,
            key_identifier: self.key_identifier.deep_view(),
            key_algorithm: self.key_algorithm@,
            public_key: self.public_key.deep_view(),
        }
    }
}

/// What `ContentInfo::from_der` gives for these bytes: the content type in
/// dotted form and the DER encoding of the content.
pub uninterp spec fn der_content_info(bytes: Seq<u8>) -> Option<(Seq<char>, Seq<u8>)>;

/// What `SignedData::from_der` gives for these bytes.
pub uninterp spec fn der_signed_data(der: Seq<u8>) -> Option<SignedDataPartsView>;

/// What `SignerInfo::from_der` gives for these bytes.
pub uninterp spec fn der_signer_info(der: Seq<u8>) -> Option<SignerInfoPartsView>;

/// What `AlgorithmIdentifierOwned::from_der` gives for these bytes.
pub uninterp spec fn der_algorithm_identifier(der: Seq<u8>) -> Option<AlgorithmIdView>;

/// What `SignerIdentifier::from_der` gives for these bytes.
pub uninterp spec fn der_signer_identifier(der: Seq<u8>) -> Option<SignerIdView>;

/// What `Attributes::from_der` gives for these bytes, in the set's order.
pub uninterp spec fn der_attributes(der: Seq<u8>) -> Option<Seq<AttributeView>>;

/// What `Certificate::from_der` gives for these bytes.
pub uninterp spec fn der_certificate(der: Seq<u8>) -> Option<CertificatePartsView>;

/// What `ObjectIdentifier::from_der` gives for these bytes, in dotted form.
pub uninterp spec fn der_object_identifier(der: Seq<u8>) -> Option<Seq<char>>;

/// What `OctetString::from_der` gives for these bytes.
pub uninterp spec fn der_octet_string(der: Seq<u8>) -> Option<Seq<u8>>;

/// Calls `cms::content_info::ContentInfo::from_der` and returns the content
/// type (`ObjectIdentifier`'s `Display`) and the content re-encoded with
/// `Any::to_der`. The contract only names the result: it is a function of the
/// bytes alone.
#[verifier::external_body]
pub(crate) fn decode_content_info(bytes: &[u8]) -> (parts: Option<(String, Vec<u8>)>)
    ensures
        parts.deep_view() == der_content_info(bytes@),
{
    let info = ContentInfo::from_der(bytes).ok()?;
    Some((info.content_type.to_string(), info.content.to_der().ok()?))
}

/// Calls `cms::signed_data::SignedData::from_der`; each nested structure is
/// re-encoded with `to_der`, and each certificate choice that is not a
/// `Certificate` is handed back as `None`. The contract only names the
/// result.
#[verifier::external_body]
pub(crate) fn decode_signed_data(der: &[u8]) -> (parts: Option<SignedDataParts>)
    ensures
        parts.deep_view() == der_signed_data(der@),
{
    let data = SignedData::from_der(der).ok()?;
    Some(SignedDataParts {
        econtent_type: data.encap_content_info.econtent_type.to_string(),
        has_econtent: data.encap_content_info.econtent.is_some(),
        digest_algorithms: data.digest_algorithms.iter().map(Encode::to_der).collect::<Result<_, _>>().ok()?,
        certificates: data.certificates.iter().flat_map(|set| set.0.iter()).map(|c| match c {
            CertificateChoices::Certificate(cert) => cert.to_der().ok().map(Some),
            CertificateChoices::Other(_) => Some(None),
        }).collect::<Option<_>>()?,
        signers: data.signer_infos.0.iter().map(Encode::to_der).collect::<Result<_, _>>().ok()?,
    })
}

/// Calls `cms::signed_data::SignerInfo::from_der` and re-encodes its fields
/// with `to_der`; the signed attributes are encoded as a DER `SET OF`. The
/// contract only names the result.
#[verifier::external_body]
pub(crate) fn decode_signer_info(der: &[u8]) -> (parts: Option<SignerInfoParts>)
    ensures
        parts.deep_view() == der_signer_info(der@),
{
    let s = SignerInfo::from_der(der).ok()?;
    Some(SignerInfoParts {
        sid: s.sid.to_der().ok()?,
        digest_algorithm: s.digest_alg.to_der().ok()?,
        signed_attributes: s.signed_attrs.map(|a| a.to_der()).transpose().ok()?,
        signature_algorithm: s.signature_algorithm.to_der().ok()?,
        signature: s.signature.as_bytes().to_vec(),
    })
}

/// Calls `spki::AlgorithmIdentifierOwned::from_der`; the parameters are
/// re-encoded with `Any::to_der`. The contract only names the result.
#[verifier::external_body]
pub(crate) fn decode_algorithm_identifier(der: &[u8]) -> (id: Option<AlgorithmId>)
    ensures
        id.deep_view() == der_algorithm_identifier(der@),
{
    let a = AlgorithmIdentifierOwned::from_der(der).ok()?;
    let parameters = a.parameters.map(|p| p.to_der()).transpose().ok()?;
    Some(AlgorithmId { oid: a.oid.to_string(), parameters })
}

/// Calls `cms::signed_data::SignerIdentifier::from_der`, telling its two
/// variants apart. The contract only names the result.
#[verifier::external_body]
pub(crate) fn decode_signer_identifier(der: &[u8]) -> (id: Option<SignerId>)
    ensures
        id.deep_view() == der_signer_identifier(der@),
{
    match SignerIdentifier::from_der(der).ok()? {
        SignerIdentifier::IssuerAndSerialNumber(id) => Some(SignerId::IssuerAndSerialNumber {
            issuer: id.issuer.to_der().ok()?,
            serial: id.serial_number.to_der().ok()?,
        }),
        SignerIdentifier::SubjectKeyIdentifier(id) => Some(
            SignerId::SubjectKeyIdentifier(id.0.as_bytes().to_vec()),
        ),
    }
}

/// Calls `x509_cert::attr::Attributes::from_der`; each value is re-encoded
/// with `Any::to_der`. The contract only names the result.
#[verifier::external_body]
pub(crate) fn decode_attributes(der: &[u8]) -> (attributes: Option<Vec<Attribute>>)
    ensures
        attributes.deep_view() == der_attributes(der@),
{
    let attributes = Attributes::from_der(der).ok()?;
    attributes.iter().map(|a| Some(Attribute {
        oid: a.oid.to_string(),
        values: a.values.iter().map(|v| v.to_der().ok()).collect::<Option<_>>()?,
    })).collect()
}

/// Calls `x509_cert::Certificate::from_der`, re-encodes the issuer, serial
/// number and key algorithm with `to_der`, formats the names with `Display`,
/// and reads the subject key identifier extension with `TbsCertificate::get`
/// (none where that fails). The contract only names the result.
#[verifier::external_body]
pub(crate) fn decode_certificate(der: &[u8]) -> (parts: Option<CertificateParts>)
    ensures
        parts.deep_view() == der_certificate(der@),
{
    let cert = Certificate::from_der(der).ok()?;
    let tbs = &cert.tbs_certificate;
    let key = &tbs.subject_public_key_info;
    Some(CertificateParts {
        issuer: tbs.issuer.to_der().ok()?,
        serial: tbs.serial_number.to_der().ok()?,
        subject_name: tbs.subject.to_string(),
        issuer_name: tbs.issuer.to_string(),
        key_identifier: tbs.get::<SubjectKeyIdentifier>().ok().flatten().map(|(_, k)| k.0.as_bytes().to_vec()),
        key_algorithm: key.algorithm.to_der().ok()?,
        public_key: key.subject_public_key.as_bytes().map(|b| b.to_vec()),
    })
}

/// Calls `der::asn1::ObjectIdentifier::from_der` and formats the result in
/// dotted form. The contract only names the result.
#[verifier::external_body]
pub(crate) fn decode_object_identifier(der: &[u8]) -> (oid: Option<String>)
    ensures
        oid.deep_view() == der_object_identifier(der@),
{
    ObjectIdentifier::from_der(der).ok().map(|oid| oid.to_string())
}

/// Calls `der::asn1::OctetString::from_der` and returns its bytes. The
/// contract only names the result.
#[verifier::external_body]
pub(crate) fn decode_octet_string(der: &[u8]) -> (bytes: Option<Vec<u8>>)
    ensures
        bytes.deep_view() == der_octet_string(der@),
{
    OctetString::from_der(der).ok().map(|o| o.as_bytes().to_vec())
}

} // verus!
