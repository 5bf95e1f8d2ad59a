//! A CMS `SignedData` as plain values: every nested structure that the
//! signature check reads, decoded.
use vstd::prelude::*;

use crate::cms_der::{
    decode_algorithm_identifier, decode_attributes, decode_certificate, decode_signed_data,
    decode_signer_identifier, decode_signer_info, der_algorithm_identifier, der_attributes,
    der_certificate, der_signed_data, der_signer_identifier, der_signer_info, AlgorithmId,
    AlgorithmIdView, Attribute, AttributeView, SignerId, SignerIdView, lemma_bytes_deep_view,
};

verus! {

broadcast use lemma_bytes_deep_view;

/// Signed attributes: the decoded attributes and the DER `SET OF` they were
/// decoded from, which is what the signature covers.
pub struct SignedAttributes {
    pub attributes: Vec<Attribute>,
    pub encoded: Vec<u8>,
}

pub struct SignedAttributesView {
    pub attributes: Seq<AttributeView>,
    pub encoded: Seq<u8>,
}

impl DeepView for SignedAttributes {
    type V = SignedAttributesView;

    open spec fn deep_view(&self) -> SignedAttributesView {
        SignedAttributesView { attributes: self.attributes.deep_view(), encoded: self.encoded@ }
    }
}

/// One signer of the content.
pub struct SignerInfo {
    pub sid: SignerId,
    pub digest_algorithm: AlgorithmId,
    pub signed_attributes: Option<SignedAttributes>,
    pub signature_algorithm: AlgorithmId,
    pub signature: Vec<u8>,
}

pub struct SignerInfoView {
    pub sid: SignerIdView,
    pub digest_algorithm: AlgorithmIdView,
    pub signed_attributes: Option<SignedAttributesView>,
    pub signature_algorithm: AlgorithmIdView,
    pub signature: Seq<u8>,
}

impl DeepView for SignerInfo {
    type V = SignerInfoView;

    open spec fn deep_view(&self) -> SignerInfoView {
        SignerInfoView {
            sid: self.sid.deep_view(),
            digest_algorithm: self.digest_algorithm.deep_view(),
            signed_attributes: self.signed_attributes.deep_view(),
            signature_algorithm: self.signature_algorithm.deep_view(),
            signature: self.signature@,
        }
    }
}

/// A certificate carried in the signature.
pub struct CertificateInfo {
    pub issuer: Vec<u8>,
    pub serial: Vec<u8>,
    pub subject_name: String,
    pub issuer_name: String,
    pub key_identifier: Option<Vec<u8>>,
    pub key_algorithm: AlgorithmId,
    pub public_key: Option<Vec<u8>>,
}

pub struct CertificateInfoView {
    pub issuer: Seq<u8>,
    pub serial: Seq<u8>,
    pub subject_name: Seq<char>,
    pub issuer_name: Seq<char>,
    pub key_identifier: Option<Seq<u8>>,
    pub key_algorithm: AlgorithmIdView,
    pub public_key: Option<Seq<u8>>,
}

impl DeepView for CertificateInfo {
    type V = CertificateInfoView;

    open spec fn deep_view(&self) -> CertificateInfoView {
        CertificateInfoView {
            issuer: self.issuer@,
            serial: self.serial@,
            subject_name: self.subject_name@,
            issuer_name: self.issuer_name@,
            key_identifier: self.key_identifier.deep_view(),
            key_algorithm: self.key_algorithm.deep_view(),
            public_key: self.public_key.deep_view(),
        }
    }
}

/// The signed content's description, its certificates and its signers.
pub struct SignedContent {
    pub econtent_type: String,
    pub has_econtent: bool,
    pub digest_algorithms: Vec<AlgorithmId>,
    pub certificates: Vec<CertificateInfo>,
    pub signers: Vec<SignerInfo>,
}

pub struct SignedContentView {
    pub econtent_type: Seq<char>,
    pub has_econtent: bool,
    pub digest_algorithms: Seq<AlgorithmIdView>,
    pub certificates: Seq<CertificateInfoView>,
    pub signers: Seq<SignerInfoView>,
}

impl DeepView for SignedContent {
    type V = SignedContentView;

    open spec fn deep_view(&self) -> SignedContentView {
        SignedContentView {
            econtent_type: self.econtent_type@,
            has_econtent: self.has_econtent,
            digest_algorithms: self.digest_algorithms.deep_view(),
            certificates: self.certificates.deep_view(),
            signers: self.signers.deep_view(),
        }
    }
}

/// Decodes every element with `f`; `None` as soon as one fails.
pub open spec fn decode_each<T>(ders: Seq<Seq<u8>>, f: spec_fn(Seq<u8>) -> Option<T>) -> Option<Seq<T>> {
    if forall|i: int| 0 <= i < ders.len() ==> #[trigger] f(ders[i]) is Some {
        Some(Seq::new(ders.len(), |i: int| f(ders[i])->0))
    } else {
        None
    }
}

pub open spec fn spec_signed_attributes(der: Seq<u8>) -> Option<SignedAttributesView> {
    match der_attributes(der) {
        Some(attributes) => Some(SignedAttributesView { attributes, encoded: der }),
        None => None,
    }
}

/// The signer that the DER bytes describe, with its nested structures
/// decoded.
pub open spec fn spec_signer_info(der: Seq<u8>) -> Option<SignerInfoView> {
    match der_signer_info(der) {
        None => None,
        Some(p) => match (
            der_signer_identifier(p.sid),
            der_algorithm_identifier(p.digest_algorithm),
            der_algorithm_identifier(p.signature_algorithm),
        ) {
            (Some(sid), Some(digest_algorithm), Some(signature_algorithm)) => {
                let signed_attributes = match p.signed_attributes {
                    None => Some(None),
                    Some(a) => match spec_signed_attributes(a) {
                        Some(x) => Some(Some(x)),
                        None => None,
                    },
                };
                match signed_attributes {
                    Some(signed_attributes) => Some(
                        SignerInfoView {
                            sid,
                            digest_algorithm,
                            signed_attributes,
                            signature_algorithm,
                            signature: p.signature,
                        },
                    ),
                    None => None,
                }
            },
            _ => None,
        },
    }
}

/// The certificate that the DER bytes describe.
pub open spec fn spec_certificate(der: Seq<u8>) -> Option<CertificateInfoView> {
    match der_certificate(der) {
        None => None,
        Some(p) => match der_algorithm_identifier(p.key_algorithm) {
            None => None,
            Some(key_algorithm) => Some(
                CertificateInfoView {
                    issuer: p.issuer,
                    serial: p.serial,
                    subject_name: p.subject_name,
                    issuer_name: p.issuer_name,
                    key_identifier: p.key_identifier,
                    key_algorithm,
                    public_key: p.public_key,
                },
            ),
        },
    }
}

/// The certificates among the choices of a certificate set, in order.
pub open spec fn certificate_ders(choices: Seq<Option<Seq<u8>>>) -> Seq<Seq<u8>> {
    choices.filter_map(|c: Option<Seq<u8>>| c)
}

/// The certificates among the choices, in order.
fn certificates_only(choices: &Vec<Option<Vec<u8>>>) -> (ders: Vec<Vec<u8>>)
    ensures
        ders.deep_view() == certificate_ders(choices.deep_view()),
{
    let ghost all = choices.deep_view();
    let mut ders: Vec<Vec<u8>> = Vec::new();
    let mut i: usize = 0;
    while i < choices.len()
        invariant
            i <= choices@.len(),
            all == choices.deep_view(),
            ders.deep_view() == certificate_ders(all.take(i as int)),
        decreases choices@.len() - i,
    {
        let ghost before = ders.deep_view();
        assert(all.take(i + 1).drop_last() =~= all.take(i as int));
        assert(all.take(i + 1).last() == all[i as int]);
        assert(all[i as int] == choices@[i as int].deep_view());
        match &choices[i] {
            Some(der) => {
                let copy = der.clone();
                proof {
                    assert(copy@ == der@);
                    crate::cms_der::lemma_bytes_deep_view(copy);
                    crate::cms_der::lemma_bytes_deep_view(*der);
                }
                ders.push(copy);
                assert(ders.deep_view() =~= before + seq![copy@]);
            },
            None => {},
        }
        i += 1;
    }
    assert(all.take(choices@.len() as int) =~= all);
    ders
}

/// The signed data that the DER bytes describe, every nested structure
/// decoded; `None` where any decoding fails.
pub open spec fn spec_signed_content(der: Seq<u8>) -> Option<SignedContentView> {
    match der_signed_data(der) {
        None => None,
        Some(p) => match (
            decode_each(p.digest_algorithms, |d: Seq<u8>| der_algorithm_identifier(d)),
            decode_each(certificate_ders(p.certificates), |d: Seq<u8>| spec_certificate(d)),
            decode_each(p.signers, |d: Seq<u8>| spec_signer_info(d)),
        ) {
            (Some(digest_algorithms), Some(certificates), Some(signers)) => Some(
                SignedContentView {
                    econtent_type: p.econtent_type,
                    has_econtent: p.has_econtent,
                    digest_algorithms,
                    certificates,
                    signers,
                },
            ),
            _ => None,
        },
    }
}

fn decode_signer(der: &[u8]) -> (signer: Option<SignerInfo>)
    ensures
        signer.deep_view() == spec_signer_info(der@),
{
    let parts = decode_signer_info(der)?;
    let sid = decode_signer_identifier(parts.sid.as_slice());
    let digest_algorithm = decode_algorithm_identifier(parts.digest_algorithm.as_slice());
    let signature_algorithm = decode_algorithm_identifier(parts.signature_algorithm.as_slice());
    match (sid, digest_algorithm, signature_algorithm) {
        (Some(sid), Some(digest_algorithm), Some(signature_algorithm)) => {
            let signed_attributes = match parts.signed_attributes {
                None => None,
                Some(encoded) => match decode_attributes(encoded.as_slice()) {
                    Some(attributes) => Some(SignedAttributes { attributes, encoded }),
                    None => { return None; },
                },
            };
            Some(
                SignerInfo {
                    sid,
                    digest_algorithm,
                    signed_attributes,
                    signature_algorithm,
                    signature: parts.signature,
                },
            )
        },
        _ => None,
    }
}

fn decode_certificate_info(der: &[u8]) -> (certificate: Option<CertificateInfo>)
    ensures
        certificate.deep_view() == spec_certificate(der@),
{
    let parts = decode_certificate(der)?;
    let key_algorithm = decode_algorithm_identifier(parts.key_algorithm.as_slice())?;
    Some(
        CertificateInfo {
            issuer: parts.issuer,
            serial: parts.serial,
            subject_name: parts.subject_name,
            issuer_name: parts.issuer_name,
            key_identifier: parts.key_identifier,
            key_algorithm,
            public_key: parts.public_key,
        },
    )
}

fn decode_algorithms(ders: &Vec<Vec<u8>>) -> (algorithms: Option<Vec<AlgorithmId>>)
    ensures
        algorithms.deep_view() == decode_each(ders.deep_view(), |d: Seq<u8>| der_algorithm_identifier(d)),
{
    let mut out: Vec<AlgorithmId> = Vec::new();
    let mut i: usize = 0;
    while i < ders.len()
        invariant
            i <= ders.len(),
            out@.len() == i,
            forall|j: int| 0 <= j < i ==> der_algorithm_identifier(ders.deep_view()[j]) == Some(#[trigger] out@[j].deep_view()),
        decreases ders.len() - i,
    {
        assert(ders.deep_view()[i as int] == ders@[i as int]@);
        match decode_algorithm_identifier(ders[i].as_slice()) {
            Some(x) => out.push(x),
            None => {
                let ghost f = |d: Seq<u8>| der_algorithm_identifier(d);
                assert(f(ders.deep_view()[i as int]) is None);
                assert(decode_each(ders.deep_view(), f) is None);
                return None;
            },
        }
        i += 1;
    }
    assert(forall|j: int| 0 <= j < ders.deep_view().len() ==> #[trigger] der_algorithm_identifier(ders.deep_view()[j]) is Some) by {
        assert forall|j: int| 0 <= j < ders.deep_view().len() implies #[trigger] der_algorithm_identifier(ders.deep_view()[j]) is Some by {
            assert(out@[j].deep_view() == out.deep_view()[j]);
        }
    }
    assert(out.deep_view() =~= Seq::new(ders.deep_view().len(), |j: int| der_algorithm_identifier(ders.deep_view()[j])->0));
    Some(out)
}

fn decode_certificates(ders: &Vec<Vec<u8>>) -> (certificates: Option<Vec<CertificateInfo>>)
    ensures
        certificates.deep_view() == decode_each(ders.deep_view(), |d: Seq<u8>| spec_certificate(d)),
{
    let mut out: Vec<CertificateInfo> = Vec::new();
    let mut i: usize = 0;
    while i < ders.len()
        invariant
            i <= ders.len(),
            out@.len() == i,
            forall|j: int| 0 <= j < i ==> spec_certificate(ders.deep_view()[j]) == Some(#[trigger] out@[j].deep_view()),
        decreases ders.len() - i,
    {
        assert(ders.deep_view()[i as int] == ders@[i as int]@);
        match decode_certificate_info(ders[i].as_slice()) {
            Some(x) => out.push(x),
            None => {
                let ghost f = |d: Seq<u8>| spec_certificate(d);
                assert(f(ders.deep_view()[i as int]) is None);
                assert(decode_each(ders.deep_view(), f) is None);
                return None;
            },
        }
        i += 1;
    }
    assert(forall|j: int| 0 <= j < ders.deep_view().len() ==> #[trigger] spec_certificate(ders.deep_view()[j]) is Some) by {
        assert forall|j: int| 0 <= j < ders.deep_view().len() implies #[trigger] spec_certificate(ders.deep_view()[j]) is Some by {
            assert(out@[j].deep_view() == out.deep_view()[j]);
        }
    }
    assert(out.deep_view() =~= Seq::new(ders.deep_view().len(), |j: int| spec_certificate(ders.deep_view()[j])->0));
    Some(out)
}

fn decode_signers(ders: &Vec<Vec<u8>>) -> (signers: Option<Vec<SignerInfo>>)
    ensures
        signers.deep_view() == decode_each(ders.deep_view(), |d: Seq<u8>| spec_signer_info(d)),
{
    let mut out: Vec<SignerInfo> = Vec::new();
    let mut i: usize = 0;
    while i < ders.len()
        invariant
            i <= ders.len(),
            out@.len() == i,
            forall|j: int| 0 <= j < i ==> spec_signer_info(ders.deep_view()[j]) == Some(#[trigger] out@[j].deep_view()),
        decreases ders.len() - i,
    {
        assert(ders.deep_view()[i as int] == ders@[i as int]@);
        match decode_signer(ders[i].as_slice()) {
            Some(x) => out.push(x),
            None => {
                let ghost f = |d: Seq<u8>| spec_signer_info(d);
                assert(f(ders.deep_view()[i as int]) is None);
                assert(decode_each(ders.deep_view(), f) is None);
                return None;
            },
        }
        i += 1;
    }
    assert(forall|j: int| 0 <= j < ders.deep_view().len() ==> #[trigger] spec_signer_info(ders.deep_view()[j]) is Some) by {
        assert forall|j: int| 0 <= j < ders.deep_view().len() implies #[trigger] spec_signer_info(ders.deep_view()[j]) is Some by {
            assert(out@[j].deep_view() == out.deep_view()[j]);
        }
    }
    assert(out.deep_view() =~= Seq::new(ders.deep_view().len(), |j: int| spec_signer_info(ders.deep_view()[j])->0));
    Some(out)
}

/// Decodes a DER `SignedData` with every nested structure that the signature
/// check reads.
pub fn decode_signed_content(der: &[u8]) -> (content: Option<SignedContent>)
    ensures
        content.deep_view() == spec_signed_content(der@),
{
    let parts = decode_signed_data(der)?;
    let digest_algorithms = decode_algorithms(&parts.digest_algorithms);
    let certificates = decode_certificates(&certificates_only(&parts.certificates));
    let signers = decode_signers(&parts.signers);
    match (digest_algorithms, certificates, signers) {
        (Some(digest_algorithms), Some(certificates), Some(signers)) => Some(
            SignedContent {
                econtent_type: parts.econtent_type,
                has_econtent: parts.has_econtent,
                digest_algorithms,
                certificates,
                signers,
            },
        ),
        _ => None,
    }
}

} // verus!
