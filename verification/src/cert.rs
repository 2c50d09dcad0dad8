//! The certificate model.
//!
//! A certificate is modelled by what the resolver reads of it: its subject
//! and issuer distinguished names as their encoded bytes (two names are equal
//! exactly when their encodings are), the subject's attributes as pairs of an
//! object identifier and an optional string value, and the original encoded
//! bytes, kept for downstream consumers.

use crate::util::{bytes_equal, clone_bytes, lemma_bytes_deep_view};
use vstd::prelude::*;

verus! {

/// The mathematical value of a certificate.
pub ghost struct CertView {
    /// The encoded subject distinguished name.
    pub subject: Seq<u8>,
    /// The encoded issuer distinguished name.
    pub issuer: Seq<u8>,
    /// The subject's attributes, in order: object identifier bytes and the
    /// attribute's string value, `None` where the value is not a string.
    pub attrs: Seq<(Seq<u8>, Option<Seq<char>>)>,
    /// The certificate's original encoded bytes.
    pub raw: Seq<u8>,
}

/// A decoded certificate, immutable once loaded.
#[derive(Debug, PartialEq)]
pub struct Certificate {
    pub subject_der: Vec<u8>,
    pub issuer_der: Vec<u8>,
    pub subject_attrs: Vec<(Vec<u8>, Option<String>)>,
    pub raw: Vec<u8>,
}

impl View for Certificate {
    type V = CertView;

    open spec fn view(&self) -> CertView {
        CertView {
            subject: self.subject_der@,
            issuer: self.issuer_der@,
            attrs: self.subject_attrs.deep_view(),
            raw: self.raw@,
        }
    }
}

/// The views of a sequence of certificates, in order.
pub open spec fn cert_views(certs: Seq<Certificate>) -> Seq<CertView> {
    certs.map_values(|c: Certificate| c@)
}

/// The value of the first attribute carrying the given object identifier:
/// `Some(v)` when that attribute has string value `v`, `None` when it has no
/// string value or no attribute carries the identifier.
pub open spec fn attr_lookup(
    attrs: Seq<(Seq<u8>, Option<Seq<char>>)>,
    oid: Seq<u8>,
) -> Option<Seq<char>>
    decreases attrs.len(),
{
    if attrs.len() == 0 {
        None
    } else if attrs[0].0 == oid {
        attrs[0].1
    } else {
        attr_lookup(attrs.drop_first(), oid)
    }
}

/// Whether a certificate's subject carries the given attribute with exactly
/// the given string value: the leaf-selection predicate.
pub open spec fn spec_matches_selector(c: CertView, oid: Seq<u8>, value: Seq<char>) -> bool {
    attr_lookup(c.attrs, oid) == Some(value)
}

/// Whether a certificate is self-signed: its subject name equals its own
/// issuer name. Such a certificate is treated as a root and terminates a
/// chain.
pub open spec fn spec_is_self_signed(c: CertView) -> bool {
    c.subject == c.issuer
}

impl Certificate {
    /// Look up the subject attribute with the given object identifier; of
    /// several, the first one decides, and an attribute without a string
    /// value hides later ones with the same identifier.
    pub fn attribute(&self, oid: &Vec<u8>) -> (r: Option<String>)
        ensures
            r.deep_view() == attr_lookup(self@.attrs, oid@),
    {
        let ghost attrs = self@.attrs;
        proof {
            assert(attrs.skip(0) =~= attrs);
        }
        let mut i: usize = 0;
        while i < self.subject_attrs.len()
            invariant
                0 <= i <= self.subject_attrs.len(),
                attrs == self.subject_attrs.deep_view(),
                attrs.len() == self.subject_attrs.len(),
                attr_lookup(attrs, oid@) == attr_lookup(attrs.skip(i as int), oid@),
                forall|j: int| 0 <= j < i ==> attrs[j].0 != oid@,
            decreases self.subject_attrs.len() - i,
        {
            proof {
                let j = i as int;
                assert(attrs.skip(j)[0] == attrs[j]);
                lemma_bytes_deep_view(self.subject_attrs@[j].0);
                assert(attrs[j] == (self.subject_attrs@[j].0@, self.subject_attrs@[j].1.deep_view()));
            }
            if bytes_equal(&self.subject_attrs[i].0, oid) {
                proof {
                    assert(attrs.skip(i as int)[0].0 == oid@);
                }
                return clone_opt_string(&self.subject_attrs[i].1);
            }
            proof {
                assert(attrs.skip(i as int).drop_first() =~= attrs.skip(i as int + 1));
            }
            i = i + 1;
        }
        proof {
            assert(attrs.skip(i as int).len() == 0);
        }
        None
    }

    /// Whether this certificate's subject carries the given attribute with
    /// exactly the given string value.
    pub fn matches_selector(&self, oid: &Vec<u8>, value: &String) -> (r: bool)
        ensures
            r == spec_matches_selector(self@, oid@, value@),
    {
        match self.attribute(oid) {
            Some(s) => s == *value,
            None => false,
        }
    }

    /// Whether this certificate is self-signed.
    pub fn is_self_signed(&self) -> (r: bool)
        ensures
            r == spec_is_self_signed(self@),
    {
        bytes_equal(&self.subject_der, &self.issuer_der)
    }
}

impl Clone for Certificate {
    /// A copy with exactly the same model.
    fn clone(&self) -> (r: Self)
        ensures
            r@ == self@,
    {
        Certificate {
            subject_der: clone_bytes(&self.subject_der),
            issuer_der: clone_bytes(&self.issuer_der),
            subject_attrs: clone_attrs(&self.subject_attrs),
            raw: clone_bytes(&self.raw),
        }
    }
}

/// Copy an optional attribute value; the copy has the same model.
fn clone_opt_string(v: &Option<String>) -> (r: Option<String>)
    ensures
        r.deep_view() == v.deep_view(),
{
    match v {
        Some(s) => Some(s.clone()),
        None => None,
    }
}

/// Copy a list of subject attributes; the copy has the same model.
fn clone_attrs(v: &Vec<(Vec<u8>, Option<String>)>) -> (r: Vec<(Vec<u8>, Option<String>)>)
    ensures
        r.deep_view() == v.deep_view(),
{
    let mut r: Vec<(Vec<u8>, Option<String>)> = Vec::new();
    let mut i: usize = 0;
    while i < v.len()
        invariant
            0 <= i <= v.len(),
            r.deep_view() == v.deep_view().take(i as int),
        decreases v.len() - i,
    {
        let oid = clone_bytes(&v[i].0);
        let value = clone_opt_string(&v[i].1);
        proof {
            let j = i as int;
            lemma_bytes_deep_view(oid);
            lemma_bytes_deep_view(v@[j].0);
            assert((oid, value).deep_view() == v.deep_view()[j]);
        }
        let ghost entry_dv = (oid, value).deep_view();
        let ghost r0 = r.deep_view();
        proof {
            assert(r.deep_view().len() == r@.len());
            assert(v.deep_view().take(i as int).len() == i as int);
            assert(r@.len() == i as int);
        }
        r.push((oid, value));
        proof {
            let j = i as int;
            assert(r@.len() == j + 1);
            assert(r.deep_view().len() == j + 1);
            assert(r@[j].deep_view() == entry_dv);
            assert forall|k: int| 0 <= k < j implies r.deep_view()[k] == r0[k] by {}
            assert(r.deep_view() =~~= v.deep_view().take(j + 1));
        }
        i = i + 1;
    }
    proof {
        assert(v.deep_view().take(v.len() as int) =~= v.deep_view());
    }
    r
}

/// The object identifier, as its encoded content bytes, of the user
/// identifier attribute in a subject name: the well-known identifier that the
/// leaf search matches by default.
pub open spec fn spec_oid_user_id() -> Seq<u8> {
    seq![0x09u8, 0x92u8, 0x26u8, 0x89u8, 0x93u8, 0xf2u8, 0x2cu8, 0x64u8, 0x01u8, 0x01u8]
}

/// The user identifier attribute's object identifier bytes.
pub fn oid_user_id() -> (r: Vec<u8>)
    ensures
        r@ == spec_oid_user_id(),
{
    let r: Vec<u8> = vec![0x09u8, 0x92u8, 0x26u8, 0x89u8, 0x93u8, 0xf2u8, 0x2cu8, 0x64u8, 0x01u8, 0x01u8];
    proof {
        assert(r@ =~= spec_oid_user_id());
    }
    r
}

} // verus!
