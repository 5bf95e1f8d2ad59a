//! A detached CMS signature made with an RSA key (PKCS#1 v1.5, SHA-256)
//! and a self-signed certificate, as OpenSSL's `cms -sign` writes one.

use verditum::signature::{verify, Status};

const CONTENT: &[u8] = b"<template><content><![CDATA[RSA imzal\xc4\xb1 belge]]></content></template>\n";

/// The signature, in hexadecimal.
const SIGNATURE: &[&str] = &[
    "308205d406092a864886f70d010702a08205c5308205c1020101310d300b0609608648016503040201300b06092a8648",
    "86f70d010701a08203433082033f30820227a00302010202145174f6d20bf54f2ca935f019362077e58a6215bd300d06",
    "092a864886f70d01010b0500302f311a301806035504030c11566572646974756d2054657374205253413111300f0603",
    "55040a0c08566572646974756d301e170d3236313131383036323135385a170d3336313131353036323135385a302f31",
    "1a301806035504030c11566572646974756d2054657374205253413111300f060355040a0c08566572646974756d3082",
    "0122300d06092a864886f70d01010105000382010f003082010a0282010100abb47c0a456da5c2fb40cb14210330b9b5",
    "600878c83b4bb0aa65e79d99fdc3fab983fe595553e1147a648447a226cff5f37633336fd9f308bd3470aafa51d648e2",
    "f19d2707fc1f82346d2a73637b7332b4475dd15191968948ea313e5ff1737d6cc07519d010e6be808f9c68c974c35a66",
    "756aa13cd1e3c2a1c8732274ecd35d8afa60675eb12f7d02ec8e7249fe44414f5db7d3f26a6240f7467d2ff72a68d2aa",
    "5cbb14e80d0e30fc2dbf0e4d901fc2320aa97345d1b9a6fcb9471dfe0b19a23a0da47add5bcf0b4ee40cee63fdcf8c29",
    "8248f01892e15a88dbda1eaf875af744c3ea6e7f03d7f6e622e1f1e2a9ad1e176a69457296a870453ef68ae0cd550b02",
    "03010001a3533051301d0603551d0e041604140489b9fe8182ac5be152dea20ae81b3478a97c9b301f0603551d230418",
    "301680140489b9fe8182ac5be152dea20ae81b3478a97c9b300f0603551d130101ff040530030101ff300d06092a8648",
    "86f70d01010b050003820101009375ec09adf5a23671c527ea4097539584c0fd04624c0bc2ca7f7b623ac2f5f84f1ddc",
    "00871421696816817c85ec1a8dceae5fe69557899411d477963372482442cd25fdc792c8409c68a25db6a7dea9d32721",
    "be32f5cd180a4370bdbe3c8d7f24717cf87016960fb414b72123e355d799d0bf44125a74ac585e051edf58daa16ce00b",
    "0e9d2c06dbf6ab9d307182bc68ade035abe18479fb29d4844e1734539b222b059bb6aeb36a392ef994aa066e2af5e10f",
    "0d2fa567b062c24c46cd343ce568237bf14396a075cc6bf4dde97ccd3d4dc353f5d215d7c11e3a089220ce875a3f77f3",
    "171ad9fc0cfc3682e36bcb102730db270afc29255954b28dc2656cd24f31820257308202530201013047302f311a3018",
    "06035504030c11566572646974756d2054657374205253413111300f060355040a0c08566572646974756d02145174f6",
    "d20bf54f2ca935f019362077e58a6215bd300b0609608648016503040201a081e4301806092a864886f70d010903310b",
    "06092a864886f70d010701301c06092a864886f70d010905310f170d3236313131383036323135385a302f06092a8648",
    "86f70d01090431220420cee89ff1f823ea007fda906512d27553d67027a916bceac02cea4c7b718524fb307906092a86",
    "4886f70d01090f316c306a300b060960864801650304012a300b0609608648016503040116300b060960864801650304",
    "0102300a06082a864886f70d0307300e06082a864886f70d030202020080300d06082a864886f70d0302020140300706",
    "052b0e030207300d06082a864886f70d0302020128300d06092a864886f70d01010105000482010099630616c221797a",
    "336aa504e2d4a18b6797235b5c638d3c69bf8655103b65372645627159a47ff713a0c4c1ab8fd2142ffbe906b2489474",
    "db325a2ea5a8fac4f3f32e9e52516de62658cf8453ac6c18a05685cb155468f6365c22c08ac2161d5714ecc68628383f",
    "4a18caa7ce7571687a344d831ce8bba4a859e6569663bea5158e6e51be6f3272eeb64853ab3bdf40caa4a593e3b42046",
    "ee2f25a75180cfb9aa9808261d20a25f7627a2481c1e4a2583df4adc649852de3f7040010c294b9f1e385d05fe700f7a",
    "cf7c186e507410dfac53744f87df4aad32c4ea85cf6659290e9f1cd99647d86bd8261ead858a09b0027eab0735bd0a0e",
    "69494ff42b1ccbd5",
];

fn signature() -> Vec<u8> {
    let hex: String = SIGNATURE.concat();
    (0..hex.len()).step_by(2).map(|i| u8::from_str_radix(&hex[i..i + 2], 16).unwrap()).collect()
}

#[test]
fn verifies_an_rsa_signature_over_the_exact_content() {
    let bytes = signature();
    let report = verify(CONTENT, Some(&bytes));
    assert_eq!(report.status, Status::Verified);
    assert_eq!(report.signers.len(), 1);
    assert_eq!(report.signers[0].status, Status::Verified);
    assert!(report.signers[0].subject.contains("Verditum Test RSA"));
    assert!(report.signers[0].issuer.contains("Verditum Test RSA"));
    let mut modified = CONTENT.to_vec();
    modified.push(b'\n');
    assert_eq!(verify(&modified, Some(&bytes)).status, Status::Invalid);
}

#[test]
fn an_altered_rsa_signature_is_invalid() {
    let mut bytes = signature();
    let last = bytes.len() - 1;
    bytes[last] ^= 1;
    assert_eq!(verify(CONTENT, Some(&bytes)).status, Status::Invalid);
}
