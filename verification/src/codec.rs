//! The certificate codec boundary and the collection loader.
//!
//! Decoding DER bytes into a structured certificate is the work of an outside
//! X.509 library. What it decodes is a function of the input bytes alone, so
//! the decoded parts are given names here, the decoder is trusted to return
//! them, and the loader is verified against those names: it aggregates every
//! entry that decodes and silently skips every entry that does not.

use crate::cert::{cert_views, CertView, Certificate};
use crate::util::lemma_bytes_deep_view;
use vstd::prelude::*;

verus! {

/// Whether the outside decoder accepts these bytes as a DER certificate.
pub uninterp spec fn cert_decodes(der: Seq<u8>) -> bool;

/// The encoded subject name of the certificate these bytes hold.
pub uninterp spec fn cert_subject(der: Seq<u8>) -> Seq<u8>;

/// The encoded issuer name of the certificate these bytes hold.
pub uninterp spec fn cert_issuer(der: Seq<u8>) -> Seq<u8>;

/// The subject attributes of the certificate these bytes hold, in order:
/// object identifier bytes, and the value where it is a string.
pub uninterp spec fn cert_subject_attrs(der: Seq<u8>) -> Seq<(Seq<u8>, Option<Seq<char>>)>;

/// The model of the certificate the given bytes hold.
pub open spec fn spec_cert(der: Seq<u8>) -> CertView {
    CertView {
        subject: cert_subject(der),
        issuer: cert_issuer(der),
        attrs: cert_subject_attrs(der),
        raw: der,
    }
}

/// Relies on `x509_certificate::CapturedX509Certificate::from_der` to decide
/// whether the bytes hold a certificate, on its `subject_name` and
/// `issuer_name` accessors, encoded with `bcder` in DER mode, for the two
/// names, and on `Name::iter_attributes` with
/// `AttributeTypeAndValue::to_string` for the subject attributes. All of
/// these are functions of the input bytes alone.
#[verifier::external_body]
fn decode_certificate(der: &Vec<u8>) -> (r: Option<Certificate>)
    ensures
        r is Some <==> cert_decodes(der@),
        r matches Some(c) ==> (c@.subject == cert_subject(der@) && c@.issuer == cert_issuer(der@)
            && c@.attrs == cert_subject_attrs(der@) && c@.raw == der@),
{
    let cert = match x509_certificate::CapturedX509Certificate::from_der(der.clone()) {
        Ok(c) => c,
        Err(_) => return None,
    };
    let subject_der =
        bcder::Captured::from_values(bcder::Mode::Der, cert.subject_name().encode_ref()).as_slice().to_vec();
    let issuer_der =
        bcder::Captured::from_values(bcder::Mode::Der, cert.issuer_name().encode_ref()).as_slice().to_vec();
    let subject_attrs = cert.subject_name().iter_attributes()
        .map(|a| (a.typ.as_ref().to_vec(), a.to_string().ok()))
        .collect();
    Some(Certificate { subject_der, issuer_der, subject_attrs, raw: der.clone() })
}

/// The certificates loaded from a list of raw entries, in order: each entry
/// that decodes contributes its certificate, each entry that does not decode
/// is skipped.
pub open spec fn spec_load(raws: Seq<Seq<u8>>) -> Seq<CertView>
    decreases raws.len(),
{
    if raws.len() == 0 {
        Seq::empty()
    } else if cert_decodes(raws[0]) {
        seq![spec_cert(raws[0])] + spec_load(raws.drop_first())
    } else {
        spec_load(raws.drop_first())
    }
}

/// Decode every raw entry, keeping the certificates that decode in their
/// order of appearance and skipping the entries that do not; a failed decode
/// is absorbed here and never stops loading.
pub fn load_certificates(raw_entries: &Vec<Vec<u8>>) -> (r: Vec<Certificate>)
    ensures
        cert_views(r@) == spec_load(raw_entries.deep_view()),
{
    let ghost raws = raw_entries.deep_view();
    let mut out: Vec<Certificate> = Vec::new();
    proof {
        assert(raws.skip(0) =~= raws);
        assert(cert_views(out@) + spec_load(raws) =~= spec_load(raws));
    }
    let mut i: usize = 0;
    while i < raw_entries.len()
        invariant
            0 <= i <= raw_entries.len(),
            raws == raw_entries.deep_view(),
            raws.len() == raw_entries@.len(),
            cert_views(out@) + spec_load(raws.skip(i as int)) == spec_load(raws),
        decreases raw_entries.len() - i,
    {
        proof {
            let j = i as int;
            lemma_bytes_deep_view(raw_entries@[j]);
            assert(raws.skip(j)[0] == raw_entries@[j]@);
            assert(raws.skip(j).drop_first() =~= raws.skip(j + 1));
        }
        let ghost o0 = out@;
        match decode_certificate(&raw_entries[i]) {
            Some(c) => {
                let ghost cv = c@;
                out.push(c);
                proof {
                    let j = i as int;
                    assert(cert_views(out@) =~= cert_views(o0).push(cv));
                    assert(cert_views(o0).push(cv) + spec_load(raws.skip(j + 1)) =~= cert_views(o0)
                        + spec_load(raws.skip(j)));
                }
            },
            None => {},
        }
        i = i + 1;
    }
    proof {
        assert(raws.skip(raws.len() as int).len() == 0);
        assert(cert_views(out@) + spec_load(raws.skip(raws.len() as int)) =~= cert_views(out@));
    }
    out
}

} // verus!
