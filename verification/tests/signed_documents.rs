//! Signatures made here with fresh ECDSA keys and self-signed certificates,
//! in the CMS form that UYAP documents carry.

use cms::cert::{CertificateChoices, IssuerAndSerialNumber};
use cms::content_info::{CmsVersion, ContentInfo};
use cms::signed_data::{
    CertificateSet, EncapsulatedContentInfo, SignedData, SignerIdentifier, SignerInfo, SignerInfos,
};
use der::asn1::{Any, BitString, ObjectIdentifier, OctetString, SetOfVec, UtcTime};
use der::{Decode, Encode};
use ring::rand::SystemRandom;
use ring::signature::{
    EcdsaKeyPair, EcdsaSigningAlgorithm, KeyPair, ECDSA_P256_SHA256_ASN1_SIGNING, ECDSA_P384_SHA384_ASN1_SIGNING,
};
use std::io::{Cursor, Write};
use std::str::FromStr;
use std::time::Duration;
use verditum::signature::{verify, Status, MAX_SIGNATURE_BYTES};
use verditum::udf::read;
use x509_cert::attr::Attribute;
use x509_cert::certificate::{Certificate, TbsCertificate, Version};
use x509_cert::ext::pkix::SubjectKeyIdentifier;
use x509_cert::ext::Extension;
use x509_cert::name::Name;
use x509_cert::serial_number::SerialNumber;
use x509_cert::spki::{AlgorithmIdentifierOwned, SubjectPublicKeyInfoOwned};
use x509_cert::time::{Time, Validity};
use zip::write::SimpleFileOptions;

const CONTENT: &[u8] = b"<?xml version=\"1.0\" encoding=\"UTF-8\"?>\n<template><content><![CDATA[Say\xc4\xb1n mahkeme]]></content></template>\n";
const DATA: &str = "1.2.840.113549.1.7.1";
const SIGNED_DATA: &str = "1.2.840.113549.1.7.2";
const CONTENT_TYPE: &str = "1.2.840.113549.1.9.3";
const MESSAGE_DIGEST: &str = "1.2.840.113549.1.9.4";
const EC: &str = "1.2.840.10045.2.1";
const SHA1: &str = "1.3.14.3.2.26";
const RSA_PSS: &str = "1.2.840.113549.1.1.10";

struct Signing {
    pair: EcdsaKeyPair,
    curve: &'static str,
    digest: &'static str,
    signature: &'static str,
    hash: &'static ring::digest::Algorithm,
}

fn oid(s: &str) -> ObjectIdentifier {
    ObjectIdentifier::new_unwrap(s)
}

fn algorithm(s: &str) -> AlgorithmIdentifierOwned {
    AlgorithmIdentifierOwned { oid: oid(s), parameters: None }
}

fn key(algorithm: &'static EcdsaSigningAlgorithm) -> EcdsaKeyPair {
    let rng = SystemRandom::new();
    let pkcs8 = EcdsaKeyPair::generate_pkcs8(algorithm, &rng).unwrap();
    EcdsaKeyPair::from_pkcs8(algorithm, pkcs8.as_ref(), &rng).unwrap()
}

fn p256() -> Signing {
    Signing {
        pair: key(&ECDSA_P256_SHA256_ASN1_SIGNING),
        curve: "1.2.840.10045.3.1.7",
        digest: "2.16.840.1.101.3.4.2.1",
        signature: "1.2.840.10045.4.3.2",
        hash: &ring::digest::SHA256,
    }
}

fn p384() -> Signing {
    Signing {
        pair: key(&ECDSA_P384_SHA384_ASN1_SIGNING),
        curve: "1.3.132.0.34",
        digest: "2.16.840.1.101.3.4.2.2",
        signature: "1.2.840.10045.4.3.3",
        hash: &ring::digest::SHA384,
    }
}

fn sign(key: &Signing, message: &[u8]) -> Vec<u8> {
    key.pair.sign(&SystemRandom::new(), message).unwrap().as_ref().to_vec()
}

fn time(seconds: u64) -> Time {
    Time::UtcTime(UtcTime::from_unix_duration(Duration::from_secs(seconds)).unwrap())
}

fn certificate(key: &Signing, serial: u32, key_id: Option<&[u8]>) -> Certificate {
    let name = Name::from_str("CN=Verditum Test,O=Verditum").unwrap();
    let extensions = key_id.map(|id| {
        vec![Extension {
            extn_id: oid("2.5.29.14"),
            critical: false,
            extn_value: OctetString::new(SubjectKeyIdentifier(OctetString::new(id).unwrap()).to_der().unwrap())
                .unwrap(),
        }]
    });
    let tbs = TbsCertificate {
        version: Version::V3,
        serial_number: SerialNumber::from(serial),
        signature: algorithm(key.signature),
        issuer: name.clone(),
        validity: Validity { not_before: time(1_700_000_000), not_after: time(1_900_000_000) },
        subject: name,
        subject_public_key_info: SubjectPublicKeyInfoOwned {
            algorithm: AlgorithmIdentifierOwned {
                oid: oid(EC),
                parameters: Some(Any::encode_from(&oid(key.curve)).unwrap()),
            },
            subject_public_key: BitString::from_bytes(key.pair.public_key().as_ref()).unwrap(),
        },
        issuer_unique_id: None,
        subject_unique_id: None,
        extensions,
    };
    let signature = sign(key, &tbs.to_der().unwrap());
    Certificate {
        tbs_certificate: tbs,
        signature_algorithm: algorithm(key.signature),
        signature: BitString::from_bytes(&signature).unwrap(),
    }
}

fn attribute(kind: &str, value: Any) -> Attribute {
    Attribute { oid: oid(kind), values: SetOfVec::try_from(vec![value]).unwrap() }
}

fn signed_attributes(key: &Signing, content: &[u8]) -> SetOfVec<Attribute> {
    let digest = ring::digest::digest(key.hash, content);
    SetOfVec::try_from(vec![
        attribute(CONTENT_TYPE, Any::encode_from(&oid(DATA)).unwrap()),
        attribute(MESSAGE_DIGEST, Any::encode_from(&OctetString::new(digest.as_ref()).unwrap()).unwrap()),
    ])
    .unwrap()
}

/// A signer over `content`, with or without signed attributes, identified
/// by issuer and serial number or by key identifier.
fn signer(key: &Signing, cert: &Certificate, with_attributes: bool, key_id: Option<&[u8]>) -> SignerInfo {
    let signed_attrs = if with_attributes { Some(signed_attributes(key, CONTENT)) } else { None };
    let message = match &signed_attrs {
        Some(attrs) => attrs.to_der().unwrap(),
        None => CONTENT.to_vec(),
    };
    let sid = match key_id {
        Some(id) => SignerIdentifier::SubjectKeyIdentifier(SubjectKeyIdentifier(OctetString::new(id).unwrap())),
        None => SignerIdentifier::IssuerAndSerialNumber(IssuerAndSerialNumber {
            issuer: cert.tbs_certificate.issuer.clone(),
            serial_number: cert.tbs_certificate.serial_number.clone(),
        }),
    };
    SignerInfo {
        version: CmsVersion::V1,
        sid,
        digest_alg: algorithm(key.digest),
        signed_attrs,
        signature_algorithm: algorithm(key.signature),
        signature: OctetString::new(sign(key, &message)).unwrap(),
        unsigned_attrs: None,
    }
}

fn envelope(signers: Vec<SignerInfo>, certificates: Vec<Certificate>, digests: Vec<&str>) -> Vec<u8> {
    let data = SignedData {
        version: CmsVersion::V1,
        digest_algorithms: SetOfVec::try_from(digests.into_iter().map(algorithm).collect::<Vec<_>>()).unwrap(),
        encap_content_info: EncapsulatedContentInfo { econtent_type: oid(DATA), econtent: None },
        certificates: Some(CertificateSet(
            SetOfVec::try_from(certificates.into_iter().map(CertificateChoices::Certificate).collect::<Vec<_>>())
                .unwrap(),
        )),
        crls: None,
        signer_infos: SignerInfos(SetOfVec::try_from(signers).unwrap()),
    };
    ContentInfo { content_type: oid(SIGNED_DATA), content: Any::encode_from(&data).unwrap() }.to_der().unwrap()
}

/// One signer with signed attributes, identified by issuer and serial.
fn single(key: &Signing) -> Vec<u8> {
    let cert = certificate(key, 7, None);
    envelope(vec![signer(key, &cert, true, None)], vec![cert], vec![key.digest])
}

fn no_attributes() -> Vec<u8> {
    let key = p256();
    let cert = certificate(&key, 8, None);
    envelope(vec![signer(&key, &cert, false, None)], vec![cert], vec![key.digest])
}

fn by_key_id() -> Vec<u8> {
    let key = p256();
    let id = b"verditum-key-1";
    let cert = certificate(&key, 9, Some(id));
    envelope(vec![signer(&key, &cert, true, Some(id))], vec![cert], vec![key.digest])
}

fn multiple() -> Vec<u8> {
    let first = p256();
    let second = p384();
    let a = certificate(&first, 10, None);
    let b = certificate(&second, 11, None);
    envelope(
        vec![signer(&first, &a, true, None), signer(&second, &b, true, None)],
        vec![a, b],
        vec![first.digest, second.digest],
    )
}

fn changed(bytes: &[u8], change: impl FnOnce(&mut SignedData)) -> Vec<u8> {
    let mut envelope = ContentInfo::from_der(bytes).unwrap();
    let mut data = envelope.content.decode_as::<SignedData>().unwrap();
    change(&mut data);
    envelope.content = Any::encode_from(&data).unwrap();
    envelope.to_der().unwrap()
}

fn change_first(data: &mut SignedData, change: impl FnOnce(&mut SignerInfo)) {
    let mut signers: Vec<_> = data.signer_infos.0.iter().cloned().collect();
    change(&mut signers[0]);
    data.signer_infos.0 = SetOfVec::try_from(signers).unwrap();
}

fn archive(entries: &[(&str, &[u8])]) -> Vec<u8> {
    let mut archive = zip::ZipWriter::new(Cursor::new(Vec::new()));
    for (name, bytes) in entries {
        archive.start_file(*name, SimpleFileOptions::default()).unwrap();
        archive.write_all(bytes).unwrap();
    }
    archive.finish().unwrap().into_inner()
}

#[test]
fn verifies_supported_signatures_without_trusting_self_signed_certificates() {
    for bytes in [single(&p256()), single(&p384()), no_attributes(), by_key_id(), multiple()] {
        let report = verify(CONTENT, Some(&bytes));
        assert_eq!(report.status, Status::Verified);
        assert!(report
            .signers
            .iter()
            .all(|signer| { signer.status == Status::Verified && signer.subject.contains("Verditum Test") }));
        // Even a newline changes the exact byte sequence that was signed.
        let mut modified = CONTENT.to_vec();
        modified.push(b'\n');
        assert_eq!(verify(&modified, Some(&bytes)).status, Status::Invalid);
    }
    assert_eq!(verify(CONTENT, Some(&multiple())).signers.len(), 2);
}

#[test]
fn verifies_signature_not_just_the_content_digest_and_requires_every_signer() {
    let bytes = changed(&multiple(), |data| {
        change_first(data, |signer| {
            let mut signature = signer.signature.as_bytes().to_vec();
            signature[0] ^= 1;
            signer.signature = OctetString::new(signature).unwrap();
        })
    });
    let report = verify(CONTENT, Some(&bytes));
    assert_eq!(report.status, Status::Invalid);
    assert_eq!(report.signers.iter().filter(|s| s.status == Status::Verified).count(), 1);
}

#[test]
fn rejects_missing_signers_and_missing_or_mismatched_certificates() {
    let base = single(&p256());
    for bytes in [
        changed(&base, |data| data.signer_infos.0 = SetOfVec::new()),
        changed(&base, |data| data.certificates = None),
        changed(&base, |data| {
            change_first(data, |signer| {
                if let SignerIdentifier::IssuerAndSerialNumber(id) = &mut signer.sid {
                    id.serial_number = SerialNumber::from(1u8);
                }
            })
        }),
    ] {
        assert_eq!(verify(CONTENT, Some(&bytes)).status, Status::Invalid);
    }
}

#[test]
fn accepts_equivalent_absent_and_null_digest_parameters() {
    let base = single(&p256());
    for parameters in [None, Some(Any::encode_from(&()).unwrap())] {
        let bytes = changed(&base, |data| {
            let mut algorithms: Vec<_> = data.digest_algorithms.iter().cloned().collect();
            algorithms[0].parameters = parameters;
            data.digest_algorithms = SetOfVec::try_from(algorithms).unwrap();
        });
        assert_eq!(verify(CONTENT, Some(&bytes)).status, Status::Verified);
    }
}

#[test]
fn rejects_missing_duplicate_or_incorrect_signed_attributes() {
    let base = single(&p256());
    for kind in [CONTENT_TYPE, MESSAGE_DIGEST] {
        let missing = changed(&base, |data| {
            change_first(data, |signer| {
                let attrs: Vec<_> = signer
                    .signed_attrs
                    .as_ref()
                    .unwrap()
                    .iter()
                    .filter(|attr| attr.oid.to_string() != kind)
                    .cloned()
                    .collect();
                signer.signed_attrs = Some(SetOfVec::try_from(attrs).unwrap());
            })
        });
        assert_eq!(verify(CONTENT, Some(&missing)).status, Status::Invalid);

        let duplicate = changed(&base, |data| {
            change_first(data, |signer| {
                let attrs = signer.signed_attrs.as_mut().unwrap();
                let mut extra = attrs.iter().find(|attr| attr.oid.to_string() == kind).unwrap().clone();
                extra.values =
                    SetOfVec::try_from(vec![Any::encode_from(&OctetString::new(vec![0]).unwrap()).unwrap()])
                        .unwrap();
                attrs.insert(extra).unwrap();
            })
        });
        assert_eq!(verify(CONTENT, Some(&duplicate)).status, Status::Invalid);
    }
    let incorrect_type = changed(&base, |data| {
        change_first(data, |signer| {
            let mut attrs: Vec<_> = signer.signed_attrs.as_ref().unwrap().iter().cloned().collect();
            let attr = attrs.iter_mut().find(|attr| attr.oid.to_string() == CONTENT_TYPE).unwrap();
            attr.values = SetOfVec::try_from(vec![Any::encode_from(&oid(SIGNED_DATA)).unwrap()]).unwrap();
            signer.signed_attrs = Some(SetOfVec::try_from(attrs).unwrap());
        })
    });
    assert_eq!(verify(CONTENT, Some(&incorrect_type)).status, Status::Invalid);
}

#[test]
fn distinguishes_absent_malformed_and_unsupported_signatures() {
    let base = single(&p256());
    assert_eq!(verify(CONTENT, None).status, Status::Unsigned);
    for bytes in [b"".as_slice(), b"not a signature", &base[..50]] {
        assert_eq!(verify(CONTENT, Some(bytes)).status, Status::Invalid);
    }
    let sha1 = changed(&base, |data| {
        data.digest_algorithms = SetOfVec::try_from(vec![algorithm(SHA1)]).unwrap();
        change_first(data, |signer| signer.digest_alg = algorithm(SHA1));
    });
    let pss = changed(&base, |data| change_first(data, |signer| signer.signature_algorithm = algorithm(RSA_PSS)));
    for bytes in [sha1.as_slice(), pss.as_slice(), &vec![0; MAX_SIGNATURE_BYTES + 1]] {
        assert_eq!(verify(CONTENT, Some(bytes)).status, Status::Unsupported);
    }
    let embedded = changed(&base, |data| {
        data.encap_content_info.econtent = Some(Any::encode_from(&OctetString::new(CONTENT).unwrap()).unwrap());
    });
    assert_eq!(verify(CONTENT, Some(&embedded)).status, Status::Unsupported);
    let mut trailing = base.clone();
    trailing.push(0);
    assert_eq!(verify(CONTENT, Some(&trailing)).status, Status::Invalid);
}

#[test]
fn verifies_the_bytes_used_by_the_viewer() {
    let signature = single(&p256());
    let bytes = archive(&[("content.xml", CONTENT), ("sign.sgn", &signature)]);
    let document = read(&bytes).unwrap();
    assert_eq!(document.signature.status, Status::Verified);
    assert_eq!(document.content.as_bytes(), CONTENT);
    let bytes = archive(&[("content.xml", b"<template/>"), ("sign.sgn", &signature)]);
    assert_eq!(read(&bytes).unwrap().signature.status, Status::Invalid);
}

#[test]
fn names_the_certificate_of_each_signer() {
    let report = verify(CONTENT, Some(&single(&p256())));
    assert_eq!(report.signers.len(), 1);
    assert!(report.signers[0].issuer.contains("Verditum Test"));
    // A signer whose certificate is missing is named by nothing.
    let orphan = changed(&single(&p256()), |data| data.certificates = None);
    let report = verify(CONTENT, Some(&orphan));
    assert_eq!(report.signers.len(), 1);
    assert_eq!(report.signers[0].subject, "");
    assert_eq!(report.signers[0].status, Status::Invalid);
}

#[test]
fn refuses_to_choose_between_two_matching_certificates() {
    let key = p256();
    let cert = certificate(&key, 7, None);
    let mut twin = certificate(&key, 7, None);
    twin.tbs_certificate.subject = Name::from_str("CN=Verditum Twin").unwrap();
    let bytes = envelope(vec![signer(&key, &cert, true, None)], vec![cert, twin], vec![key.digest]);
    let report = verify(CONTENT, Some(&bytes));
    assert_eq!(report.status, Status::Invalid);
    assert_eq!(report.signers[0].subject, "");
}

#[test]
fn refuses_curve_and_digest_pairs_it_does_not_support() {
    let mut key = p256();
    key.digest = "2.16.840.1.101.3.4.2.3";
    key.hash = &ring::digest::SHA512;
    let report = verify(CONTENT, Some(&single(&key)));
    assert_eq!(report.status, Status::Unsupported);
    assert_eq!(report.signers[0].status, Status::Unsupported);
    assert!(report.signers[0].subject.contains("Verditum Test"));
}
