//! Message digests and signature verification, done by `ring`.
use ring::signature as s;
use vstd::prelude::*;

verus! {

/// The digest algorithms that a signer may use.
#[derive(Clone, Copy, Debug, PartialEq, Eq, Structural)]
pub enum DigestAlgorithm {
    Sha256,
    Sha384,
    Sha512,
}

/// The signature schemes that a signer may use, each with its key type,
/// curve and digest.
#[derive(Clone, Copy, Debug, PartialEq, Eq, Structural)]
pub enum SignatureAlgorithm {
    RsaPkcs1Sha256,
    RsaPkcs1Sha384,
    RsaPkcs1Sha512,
    EcdsaP256Sha256,
    EcdsaP256Sha384,
    EcdsaP384Sha256,
    EcdsaP384Sha384,
}

/// What `ring::digest::digest` computes for this algorithm and data.
pub uninterp spec fn sha2_digest(algorithm: DigestAlgorithm, data: Seq<u8>) -> Seq<u8>;

/// Whether `ring::signature::UnparsedPublicKey::verify` accepts this
/// signature of this message under this public key.
pub uninterp spec fn signature_valid(
    algorithm: SignatureAlgorithm,
    public_key: Seq<u8>,
    message: Seq<u8>,
    signature: Seq<u8>,
) -> bool;

/// Calls `ring::digest::digest` with `SHA256`, `SHA384` or `SHA512`. The
/// contract only names the result: it is a function of its arguments alone.
#[verifier::external_body]
pub(crate) fn digest(algorithm: DigestAlgorithm, data: &[u8]) -> (d: Vec<u8>)
    ensures
        d@ == sha2_digest(algorithm, data@),
{
    let algorithm = match algorithm {
        DigestAlgorithm::Sha256 => &ring::digest::SHA256,
        DigestAlgorithm::Sha384 => &ring::digest::SHA384,
        DigestAlgorithm::Sha512 => &ring::digest::SHA512,
    };
    ring::digest::digest(algorithm, data).as_ref().to_vec()
}

/// Calls `ring::signature::UnparsedPublicKey::verify` with the matching
/// `ring::signature` algorithm and reports whether it returned `Ok`. The
/// contract only names the result: verification is deterministic.
#[verifier::external_body]
pub(crate) fn verify_signature(
    algorithm: SignatureAlgorithm,
    public_key: &[u8],
    message: &[u8],
    signature: &[u8],
) -> (ok: bool)
    ensures
        ok == signature_valid(algorithm, public_key@, message@, signature@),
{
    let algorithm: &dyn s::VerificationAlgorithm = match algorithm {
        SignatureAlgorithm::RsaPkcs1Sha256 => &s::RSA_PKCS1_2048_8192_SHA256,
        SignatureAlgorithm::RsaPkcs1Sha384 => &s::RSA_PKCS1_2048_8192_SHA384,
        SignatureAlgorithm::RsaPkcs1Sha512 => &s::RSA_PKCS1_2048_8192_SHA512,
        SignatureAlgorithm::EcdsaP256Sha256 => &s::ECDSA_P256_SHA256_ASN1,
        SignatureAlgorithm::EcdsaP256Sha384 => &s::ECDSA_P256_SHA384_ASN1,
        SignatureAlgorithm::EcdsaP384Sha256 => &s::ECDSA_P384_SHA256_ASN1,
        SignatureAlgorithm::EcdsaP384Sha384 => &s::ECDSA_P384_SHA384_ASN1,
    };
    s::UnparsedPublicKey::new(algorithm, public_key).verify(message, signature).is_ok()
}

} // verus!
