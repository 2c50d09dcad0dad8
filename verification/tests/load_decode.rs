//! Loading collections through the real X.509 decoder.

use bcder::Oid;
use bytes::Bytes;
use cert_chain::cert::oid_user_id;
use cert_chain::codec::load_certificates;
use cert_chain::resolver::resolve;
use x509_certificate::{KeyAlgorithm, X509CertificateBuilder};

fn uid_oid() -> Oid {
    Oid(Bytes::copy_from_slice(&oid_user_id()))
}

/// A self-signed certificate whose subject (and issuer) is CN=`cn`.
fn build_root(cn: &str) -> Vec<u8> {
    let mut b = X509CertificateBuilder::default();
    b.subject().append_common_name_utf8_string(cn).unwrap();
    let (cert, _key) = b.create_with_random_keypair(KeyAlgorithm::Ed25519).unwrap();
    cert.encode_der().unwrap()
}

/// A certificate whose subject carries the user id attribute with value
/// `uid` and whose issuer is CN=`issuer_cn`.
fn build_leaf(uid: &str, issuer_cn: &str) -> Vec<u8> {
    let mut b = X509CertificateBuilder::default();
    b.subject().append_utf8_string(uid_oid(), uid).unwrap();
    b.issuer().append_common_name_utf8_string(issuer_cn).unwrap();
    let (cert, _key) = b.create_with_random_keypair(KeyAlgorithm::Ed25519).unwrap();
    cert.encode_der().unwrap()
}

#[test]
fn scenario_d_undecodable_entry_is_skipped() {
    let leaf = build_leaf("leaf-uid", "R1");
    let garbage = b"this is not a certificate".to_vec();
    let root = build_root("R1");
    let raws = vec![leaf, garbage, root];
    let certs = load_certificates(&raws);
    assert_eq!(certs.len(), 2);
    let chain = resolve(&certs, &oid_user_id(), "leaf-uid").unwrap();
    assert_eq!(chain.len(), 2);
    assert_eq!(chain[1].subject_der, chain[1].issuer_der);
}

#[test]
fn decode_extracts_subject_attribute() {
    let leaf = build_leaf("some-uid", "R1");
    let raws = vec![leaf.clone()];
    let certs = load_certificates(&raws);
    assert_eq!(certs.len(), 1);
    assert_eq!(
        certs[0].attribute(&oid_user_id()),
        Some("some-uid".to_string())
    );
    assert_eq!(certs[0].raw, leaf);
    assert_ne!(certs[0].subject_der, certs[0].issuer_der);
}

#[test]
fn decode_self_signed_root() {
    let root = build_root("Root CA");
    let certs = load_certificates(&vec![root]);
    assert_eq!(certs.len(), 1);
    assert_eq!(certs[0].subject_der, certs[0].issuer_der);
    assert_eq!(certs[0].attribute(&oid_user_id()), None);
}

#[test]
fn only_undecodable_entries_give_empty_collection() {
    let raws = vec![Vec::new(), vec![0x30u8, 0x01, 0x00], b"junk".to_vec()];
    let certs = load_certificates(&raws);
    assert!(certs.is_empty());
}

#[test]
fn chained_names_encode_equal() {
    let leaf = build_leaf("leaf-uid", "Issuer X");
    let mid = build_root("Issuer X");
    let certs = load_certificates(&vec![leaf, mid]);
    assert_eq!(certs.len(), 2);
    assert_eq!(certs[0].issuer_der, certs[1].subject_der);
}
