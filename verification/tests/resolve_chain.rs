//! Chain resolution over hand-built certificate collections.

use cert_chain::cert::{oid_user_id, Certificate};
use cert_chain::resolver::{chain_is_complete, resolve, ResolveError};

/// A certificate whose names are the given bytes and whose subject carries
/// the user id attribute with the given value, when one is given.
fn cert(subject: &[u8], issuer: &[u8], uid: Option<&str>) -> Certificate {
    let mut attrs: Vec<(Vec<u8>, Option<String>)> = Vec::new();
    if let Some(v) = uid {
        attrs.push((oid_user_id(), Some(v.to_string())));
    }
    let mut raw = subject.to_vec();
    raw.extend_from_slice(issuer);
    Certificate {
        subject_der: subject.to_vec(),
        issuer_der: issuer.to_vec(),
        subject_attrs: attrs,
        raw,
    }
}

fn is_self_signed(c: &Certificate) -> bool {
    c.subject_der == c.issuer_der
}

#[test]
fn scenario_a_full_chain() {
    let leaf = cert(b"U1", b"I1", Some("leaf-uid"));
    let mid = cert(b"I1", b"R1", None);
    let root = cert(b"R1", b"R1", None);
    let certs = vec![leaf.clone(), mid.clone(), root.clone()];
    let chain = resolve(&certs, &oid_user_id(), "leaf-uid").unwrap();
    assert_eq!(chain, vec![leaf, mid, root]);
    assert!(is_self_signed(chain.last().unwrap()));
    assert!(chain_is_complete(&chain));
}

#[test]
fn scenario_b_missing_issuer() {
    let leaf = cert(b"U1", b"I1", Some("leaf-uid"));
    let root = cert(b"R1", b"R1", None);
    let certs = vec![leaf.clone(), root];
    let chain = resolve(&certs, &oid_user_id(), "leaf-uid").unwrap();
    assert_eq!(chain, vec![leaf]);
    assert!(!is_self_signed(chain.last().unwrap()));
    assert!(!chain_is_complete(&chain));
}

#[test]
fn scenario_c_not_found() {
    let leaf = cert(b"U1", b"I1", Some("leaf-uid"));
    let certs = vec![leaf];
    let err = resolve(&certs, &oid_user_id(), "no-such-uid").unwrap_err();
    assert_eq!(
        err,
        ResolveError::CertificateNotFound("no-such-uid".to_string())
    );
}

#[test]
fn adjacent_links_hold() {
    let leaf = cert(b"U1", b"I1", Some("leaf-uid"));
    let mid = cert(b"I1", b"R1", None);
    let root = cert(b"R1", b"R1", None);
    let certs = vec![root, mid, leaf];
    let chain = resolve(&certs, &oid_user_id(), "leaf-uid").unwrap();
    assert_eq!(chain.len(), 3);
    for pair in chain.windows(2) {
        assert_eq!(pair[0].issuer_der, pair[1].subject_der);
    }
    assert_eq!(chain[0].attribute(&oid_user_id()), Some("leaf-uid".to_string()));
}

#[test]
fn resolve_twice_identical() {
    let leaf = cert(b"U1", b"I1", Some("leaf-uid"));
    let mid = cert(b"I1", b"R1", None);
    let root = cert(b"R1", b"R1", None);
    let certs = vec![leaf, mid, root];
    let first = resolve(&certs, &oid_user_id(), "leaf-uid").unwrap();
    let second = resolve(&certs, &oid_user_id(), "leaf-uid").unwrap();
    assert_eq!(first, second);
}

#[test]
fn self_signed_leaf_is_its_own_chain() {
    let root = cert(b"R1", b"R1", Some("root-uid"));
    let certs = vec![root.clone(), cert(b"X", b"R1", None)];
    let chain = resolve(&certs, &oid_user_id(), "root-uid").unwrap();
    assert_eq!(chain, vec![root]);
}

#[test]
fn issuer_cycle_is_cut_short() {
    let a = cert(b"A", b"B", Some("a-uid"));
    let b = cert(b"B", b"A", None);
    let certs = vec![a.clone(), b.clone()];
    let chain = resolve(&certs, &oid_user_id(), "a-uid").unwrap();
    assert_eq!(chain, vec![a, b]);
    assert!(!chain_is_complete(&chain));
}

#[test]
fn first_selector_match_wins() {
    let one = cert(b"S1", b"I1", Some("dup"));
    let two = cert(b"S2", b"I2", Some("dup"));
    let certs = vec![one.clone(), two];
    let chain = resolve(&certs, &oid_user_id(), "dup").unwrap();
    assert_eq!(chain[0], one);
}

#[test]
fn first_issuer_match_wins() {
    let leaf = cert(b"U1", b"I1", Some("leaf-uid"));
    let mid_a = cert(b"I1", b"RA", None);
    let mid_b = cert(b"I1", b"RB", None);
    let certs = vec![leaf.clone(), mid_a.clone(), mid_b];
    let chain = resolve(&certs, &oid_user_id(), "leaf-uid").unwrap();
    assert_eq!(chain, vec![leaf, mid_a]);
}

#[test]
fn attribute_first_match_decides() {
    let mut c = cert(b"S", b"I", None);
    c.subject_attrs.push((oid_user_id(), None));
    c.subject_attrs.push((oid_user_id(), Some("later".to_string())));
    // the first attribute with the identifier has no string value, so the
    // lookup yields nothing and the selector does not match
    assert_eq!(c.attribute(&oid_user_id()), None);
    let certs = vec![c];
    assert!(resolve(&certs, &oid_user_id(), "later").is_err());
}

#[test]
fn attribute_returns_first_value() {
    let c = cert(b"S", b"I", Some("first"));
    assert_eq!(c.attribute(&oid_user_id()), Some("first".to_string()));
    assert_eq!(c.attribute(&vec![0x55u8, 0x04, 0x03]), None);
}

#[test]
fn empty_collection_not_found() {
    let certs: Vec<Certificate> = Vec::new();
    let err = resolve(&certs, &oid_user_id(), "anything").unwrap_err();
    assert_eq!(
        err,
        ResolveError::CertificateNotFound("anything".to_string())
    );
}
