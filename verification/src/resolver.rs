//! The chain resolver.
//!
//! Given a loaded collection of certificates, the resolver finds the first
//! certificate whose subject carries the selector attribute with the given
//! value, then repeatedly appends the first certificate whose subject name
//! equals the current last certificate's issuer name, until the last
//! certificate is self-signed, no issuer is found, or the candidate's subject
//! was already seen (a cycle, guarded against so that the walk terminates).
//! An incomplete chain is a normal result; only a missing leaf is an error.

use crate::cert::{cert_views, spec_is_self_signed, spec_matches_selector, CertView, Certificate};
use crate::util::bytes_equal;
use vstd::prelude::*;

verus! {

/// Why a chain could not be resolved.
#[derive(Clone, Debug, PartialEq)]
pub enum ResolveError {
    /// No certificate in the collection matches the selector attribute and
    /// value; carries the attempted selector value for diagnostics.
    CertificateNotFound(String),
}

/// The index of the first certificate whose subject name is `name`.
pub open spec fn first_subject_match(certs: Seq<CertView>, name: Seq<u8>) -> Option<int>
    decreases certs.len(),
{
    if certs.len() == 0 {
        None
    } else if certs[0].subject == name {
        Some(0int)
    } else {
        match first_subject_match(certs.drop_first(), name) {
            Some(i) => Some(i + 1),
            None => None,
        }
    }
}

/// The index of the first certificate matching the selector.
pub open spec fn first_selector_match(
    certs: Seq<CertView>,
    oid: Seq<u8>,
    value: Seq<char>,
) -> Option<int>
    decreases certs.len(),
{
    if certs.len() == 0 {
        None
    } else if spec_matches_selector(certs[0], oid, value) {
        Some(0int)
    } else {
        match first_selector_match(certs.drop_first(), oid, value) {
            Some(i) => Some(i + 1),
            None => None,
        }
    }
}

/// What `first_subject_match` returns: the first index whose subject name is
/// `name`, or nothing when no subject name is.
pub proof fn lemma_first_subject_match(certs: Seq<CertView>, name: Seq<u8>)
    ensures
        match first_subject_match(certs, name) {
            Some(i) => 0 <= i < certs.len() && certs[i].subject == name && (forall|j: int|
                0 <= j < i ==> certs[j].subject != name),
            None => forall|j: int| 0 <= j < certs.len() ==> certs[j].subject != name,
        },
    decreases certs.len(),
{
    if certs.len() == 0 {
    } else if certs[0].subject == name {
    } else {
        lemma_first_subject_match(certs.drop_first(), name);
        match first_subject_match(certs.drop_first(), name) {
            Some(i) => {
                assert(certs.drop_first()[i] == certs[i + 1]);
                assert forall|j: int| 0 <= j < i + 1 implies certs[j].subject != name by {
                    if j >= 1 {
                        assert(certs.drop_first()[j - 1] == certs[j]);
                        assert(certs.drop_first()[j - 1].subject != name);
                    }
                }
            },
            None => {
                assert forall|j: int| 0 <= j < certs.len() implies certs[j].subject != name by {
                    if j >= 1 {
                        assert(certs.drop_first()[j - 1] == certs[j]);
                        assert(certs.drop_first()[j - 1].subject != name);
                    }
                }
            },
        }
    }
}

/// A first index with a matching subject and no earlier match determines
/// `first_subject_match`.
pub proof fn lemma_first_subject_match_is(certs: Seq<CertView>, name: Seq<u8>, i: int)
    requires
        0 <= i < certs.len(),
        certs[i].subject == name,
        forall|j: int| 0 <= j < i ==> certs[j].subject != name,
    ensures
        first_subject_match(certs, name) == Some(i),
{
    lemma_first_subject_match(certs, name);
    match first_subject_match(certs, name) {
        Some(k) => {
            if k < i {
                assert(certs[k].subject != name);
            } else if i < k {
                assert(certs[i].subject != name);
            }
        },
        None => {
            assert(certs[i].subject != name);
        },
    }
}

/// What `first_selector_match` returns: the first index matching the
/// selector, or nothing when no certificate does.
pub proof fn lemma_first_selector_match(certs: Seq<CertView>, oid: Seq<u8>, value: Seq<char>)
    ensures
        match first_selector_match(certs, oid, value) {
            Some(i) => 0 <= i < certs.len() && spec_matches_selector(certs[i], oid, value) && (
            forall|j: int| 0 <= j < i ==> !spec_matches_selector(certs[j], oid, value)),
            None => forall|j: int|
                0 <= j < certs.len() ==> !spec_matches_selector(certs[j], oid, value),
        },
    decreases certs.len(),
{
    if certs.len() == 0 {
    } else if spec_matches_selector(certs[0], oid, value) {
    } else {
        lemma_first_selector_match(certs.drop_first(), oid, value);
        match first_selector_match(certs.drop_first(), oid, value) {
            Some(i) => {
                assert(certs.drop_first()[i] == certs[i + 1]);
                assert forall|j: int|
                    0 <= j < i + 1 implies !spec_matches_selector(certs[j], oid, value) by {
                    if j >= 1 {
                        assert(certs.drop_first()[j - 1] == certs[j]);
                        assert(!spec_matches_selector(certs.drop_first()[j - 1], oid, value));
                    }
                }
            },
            None => {
                assert forall|j: int|
                    0 <= j < certs.len() implies !spec_matches_selector(certs[j], oid, value) by {
                    if j >= 1 {
                        assert(certs.drop_first()[j - 1] == certs[j]);
                        assert(!spec_matches_selector(certs.drop_first()[j - 1], oid, value));
                    }
                }
            },
        }
    }
}

/// A first index matching the selector with no earlier match determines
/// `first_selector_match`.
pub proof fn lemma_first_selector_match_is(
    certs: Seq<CertView>,
    oid: Seq<u8>,
    value: Seq<char>,
    i: int,
)
    requires
        0 <= i < certs.len(),
        spec_matches_selector(certs[i], oid, value),
        forall|j: int| 0 <= j < i ==> !spec_matches_selector(certs[j], oid, value),
    ensures
        first_selector_match(certs, oid, value) == Some(i),
{
    lemma_first_selector_match(certs, oid, value);
    match first_selector_match(certs, oid, value) {
        Some(k) => {
            if k < i {
                assert(!spec_matches_selector(certs[k], oid, value));
            } else if i < k {
                assert(!spec_matches_selector(certs[i], oid, value));
            }
        },
        None => {
            assert(!spec_matches_selector(certs[i], oid, value));
        },
    }
}

/// The set of subject names appearing in a collection.
pub open spec fn subject_set(certs: Seq<CertView>) -> Set<Seq<u8>> {
    certs.map_values(|c: CertView| c.subject).to_set()
}

/// The subject names of a one-certificate chain.
proof fn lemma_subject_set_singleton(c: CertView)
    ensures
        subject_set(seq![c]) == set![c.subject],
{
    broadcast use vstd::set::group_set_axioms;

    let subs = seq![c].map_values(|x: CertView| x.subject);
    assert(subs =~= seq![c.subject]);
    assert forall|x: Seq<u8>| #[trigger] subs.contains(x) implies x == c.subject by {
        let k = choose|k: int| 0 <= k < subs.len() && subs[k] == x;
    }
    assert(subs[0] == c.subject);
    assert(subs.contains(c.subject));
    assert(subject_set(seq![c]) =~= set![c.subject]);
}

/// Appending a certificate to a chain adds exactly its subject name.
proof fn lemma_subject_set_push(s: Seq<CertView>, c: CertView)
    ensures
        subject_set(s.push(c)) == subject_set(s).insert(c.subject),
{
    broadcast use vstd::set::group_set_axioms;

    let subs0 = s.map_values(|x: CertView| x.subject);
    let subs1 = s.push(c).map_values(|x: CertView| x.subject);
    assert(subs1 =~= subs0.push(c.subject));
    assert forall|x: Seq<u8>| #[trigger] subs1.contains(x) implies subs0.contains(x) || x
        == c.subject by {
        let k = choose|k: int| 0 <= k < subs1.len() && subs1[k] == x;
        if k < subs0.len() {
            assert(subs0[k] == x);
            assert(subs0.contains(x));
        }
    }
    assert forall|x: Seq<u8>| subs0.contains(x) || x == c.subject implies #[trigger] subs1.contains(
        x,
    ) by {
        if x == c.subject {
            assert(subs1[subs0.len() as int] == x);
            assert(subs1.contains(x));
        } else {
            let k = choose|k: int| 0 <= k < subs0.len() && subs0[k] == x;
            assert(subs1[k] == x);
            assert(subs1.contains(x));
        }
    }
    assert(subject_set(s.push(c)) =~= subject_set(s).insert(c.subject));
}

/// The certificates that the issuer walk appends after `last`, given the
/// subject names already in the chain. The walk stops on a self-signed
/// certificate, on a missing issuer, and on a candidate whose subject name
/// was already seen.
pub open spec fn walk(certs: Seq<CertView>, last: CertView, visited: Set<Seq<u8>>) -> Seq<CertView>
    decreases subject_set(certs).difference(visited).len()
        via walk_decreases
{
    if spec_is_self_signed(last) {
        Seq::empty()
    } else {
        match first_subject_match(certs, last.issuer) {
            Some(i) => {
                if visited.contains(certs[i].subject) {
                    Seq::empty()
                } else {
                    seq![certs[i]] + walk(certs, certs[i], visited.insert(certs[i].subject))
                }
            },
            None => Seq::empty(),
        }
    }
}

#[via_fn]
proof fn walk_decreases(certs: Seq<CertView>, last: CertView, visited: Set<Seq<u8>>) {
    broadcast use vstd::set::group_set_axioms;

    if !spec_is_self_signed(last) {
        lemma_first_subject_match(certs, last.issuer);
        match first_subject_match(certs, last.issuer) {
            Some(i) => {
                if !visited.contains(certs[i].subject) {
                    let s = certs[i].subject;
                    let subs = certs.map_values(|c: CertView| c.subject);
                    assert(subs.contains(s)) by {
                        assert(subs[i] == s);
                    }
                    vstd::seq_lib::seq_to_set_is_finite(subs);
                    let d = subject_set(certs).difference(visited);
                    let d2 = subject_set(certs).difference(visited.insert(s));
                    assert(d2 =~= d.remove(s));
                    vstd::set::axiom_set_remove_len(d, s);
                }
            },
            None => {},
        }
    }
}

/// The chain resolved for a given leaf: the leaf first, then the issuer walk,
/// with the leaf's subject name already counted as seen.
pub open spec fn spec_chain(certs: Seq<CertView>, leaf: CertView) -> Seq<CertView> {
    seq![leaf] + walk(certs, leaf, set![leaf.subject])
}

/// What `resolve` returns: the chain grown from the first certificate
/// matching the selector, or the selector value when none matches.
pub open spec fn spec_resolve(certs: Seq<CertView>, oid: Seq<u8>, value: Seq<char>) -> Result<
    Seq<CertView>,
    Seq<char>,
> {
    match first_selector_match(certs, oid, value) {
        Some(i) => Ok(spec_chain(certs, certs[i])),
        None => Err(value),
    }
}

/// A chain is complete exactly when its last certificate is self-signed;
/// every other way the walk can stop leaves an incomplete chain.
pub open spec fn spec_is_complete(chain: Seq<CertView>) -> bool {
    chain.len() > 0 && spec_is_self_signed(chain.last())
}

/// Prepending a certificate to a chain adds exactly its subject name.
proof fn lemma_subject_set_cons(c: CertView, s: Seq<CertView>)
    ensures
        subject_set(seq![c] + s) == subject_set(s).insert(c.subject),
{
    broadcast use vstd::set::group_set_axioms;

    let subs0 = s.map_values(|x: CertView| x.subject);
    let subs1 = (seq![c] + s).map_values(|x: CertView| x.subject);
    assert(subs1 =~= seq![c.subject] + subs0);
    assert forall|x: Seq<u8>| #[trigger] subs1.contains(x) implies subs0.contains(x) || x
        == c.subject by {
        let k = choose|k: int| 0 <= k < subs1.len() && subs1[k] == x;
        if k >= 1 {
            assert(subs0[k - 1] == x);
            assert(subs0.contains(x));
        }
    }
    assert forall|x: Seq<u8>| subs0.contains(x) || x == c.subject implies #[trigger] subs1.contains(
        x,
    ) by {
        if x == c.subject {
            assert(subs1[0] == x);
            assert(subs1.contains(x));
        } else {
            let k = choose|k: int| 0 <= k < subs0.len() && subs0[k] == x;
            assert(subs1[k + 1] == x);
            assert(subs1.contains(x));
        }
    }
    assert(subject_set(seq![c] + s) =~= subject_set(s).insert(c.subject));
}

/// Every certificate the walk appends is linked to its predecessor: the
/// first appended certificate's subject name is `last`'s issuer name, and
/// each later one's subject name is the issuer name of the one before it.
pub proof fn lemma_walk_links(certs: Seq<CertView>, last: CertView, visited: Set<Seq<u8>>)
    ensures
        ({
            let w = walk(certs, last, visited);
            &&& (w.len() > 0 ==> w[0].subject == last.issuer)
            &&& forall|i: int| 0 <= i < w.len() - 1 ==> #[trigger] w[i].issuer == w[i + 1].subject
        }),
    decreases subject_set(certs).difference(visited).len(),
{
    broadcast use vstd::set::group_set_axioms;

    if !spec_is_self_signed(last) {
        lemma_first_subject_match(certs, last.issuer);
        match first_subject_match(certs, last.issuer) {
            Some(i) => {
                if !visited.contains(certs[i].subject) {
                    let s = certs[i].subject;
                    let subs = certs.map_values(|c: CertView| c.subject);
                    assert(subs[i] == s);
                    assert(subs.contains(s));
                    vstd::seq_lib::seq_to_set_is_finite(subs);
                    let d = subject_set(certs).difference(visited);
                    assert(subject_set(certs).difference(visited.insert(s)) =~= d.remove(s));
                    vstd::set::axiom_set_remove_len(d, s);
                    lemma_walk_links(certs, certs[i], visited.insert(s));
                    let w2 = walk(certs, certs[i], visited.insert(s));
                    let w = walk(certs, last, visited);
                    assert(w == seq![certs[i]] + w2);
                    assert(w[0] == certs[i]);
                    assert forall|k: int| 0 <= k < w.len() - 1 implies #[trigger] w[k].issuer == w[k
                        + 1].subject by {
                        if k == 0 {
                            assert(w2.len() > 0);
                            assert(w[1] == w2[0]);
                            assert(w2[0].subject == certs[i].issuer);
                        } else {
                            assert(w[k] == w2[k - 1]);
                            assert(w[k + 1] == w2[k]);
                            assert(w2[k - 1].issuer == w2[k].subject);
                        }
                    }
                }
            },
            None => {},
        }
    }
}

/// Why the walk stopped: the chain's last certificate is self-signed, or no
/// certificate's subject name is its issuer name, or the first such
/// certificate's subject name was already seen.
proof fn lemma_walk_terminal(certs: Seq<CertView>, last: CertView, visited: Set<Seq<u8>>)
    ensures
        ({
            let w = walk(certs, last, visited);
            let t = if w.len() == 0 {
                last
            } else {
                w.last()
            };
            ||| spec_is_self_signed(t)
            ||| first_subject_match(certs, t.issuer) is None
            ||| (first_subject_match(certs, t.issuer) matches Some(j) && visited.union(
                subject_set(w),
            ).contains(certs[j].subject))
        }),
    decreases subject_set(certs).difference(visited).len(),
{
    broadcast use vstd::set::group_set_axioms;

    let w = walk(certs, last, visited);
    if !spec_is_self_signed(last) {
        lemma_first_subject_match(certs, last.issuer);
        match first_subject_match(certs, last.issuer) {
            Some(i) => {
                let s = certs[i].subject;
                if visited.contains(s) {
                    assert(w.len() == 0);
                    assert(visited.union(subject_set(w)).contains(s));
                } else {
                    let subs = certs.map_values(|c: CertView| c.subject);
                    assert(subs[i] == s);
                    assert(subs.contains(s));
                    vstd::seq_lib::seq_to_set_is_finite(subs);
                    let d = subject_set(certs).difference(visited);
                    assert(subject_set(certs).difference(visited.insert(s)) =~= d.remove(s));
                    vstd::set::axiom_set_remove_len(d, s);
                    lemma_walk_terminal(certs, certs[i], visited.insert(s));
                    let w2 = walk(certs, certs[i], visited.insert(s));
                    assert(w == seq![certs[i]] + w2);
                    lemma_subject_set_cons(certs[i], w2);
                    assert(visited.insert(s).union(subject_set(w2)) =~= visited.union(
                        subject_set(w),
                    ));
                    if w2.len() == 0 {
                        assert(w.last() == certs[i]);
                    } else {
                        assert(w.last() == w2.last());
                    }
                }
            },
            None => {},
        }
    }
}

/// Resolution either returns a chain whose first certificate satisfies the
/// selector, or fails carrying the selector value, and it fails exactly when
/// no certificate in the collection matches the selector.
pub proof fn lemma_resolve_leaf_or_not_found(certs: Seq<CertView>, oid: Seq<u8>, value: Seq<char>)
    ensures
        match spec_resolve(certs, oid, value) {
            Ok(chain) => chain.len() >= 1 && spec_matches_selector(chain[0], oid, value),
            Err(v) => v == value && forall|j: int|
                0 <= j < certs.len() ==> !spec_matches_selector(certs[j], oid, value),
        },
{
    lemma_first_selector_match(certs, oid, value);
    match first_selector_match(certs, oid, value) {
        Some(i) => {
            let chain = spec_chain(certs, certs[i]);
            assert(chain[0] == certs[i]);
        },
        None => {},
    }
}

/// In every resolved chain, each certificate's issuer name is the subject
/// name of the certificate after it.
pub proof fn lemma_chain_links(certs: Seq<CertView>, oid: Seq<u8>, value: Seq<char>)
    ensures
        spec_resolve(certs, oid, value) matches Ok(chain) ==> forall|i: int|
            0 <= i < chain.len() - 1 ==> #[trigger] chain[i].issuer == chain[i + 1].subject,
{
    match spec_resolve(certs, oid, value) {
        Ok(chain) => {
            lemma_first_selector_match(certs, oid, value);
            let li: int = first_selector_match(certs, oid, value)->Some_0;
            let leaf = certs[li];
            lemma_walk_links(certs, leaf, set![leaf.subject]);
            let w = walk(certs, leaf, set![leaf.subject]);
            assert(chain == seq![leaf] + w);
            assert forall|i: int| 0 <= i < chain.len() - 1 implies #[trigger] chain[i].issuer
                == chain[i + 1].subject by {
                if i == 0 {
                    assert(w.len() > 0);
                    assert(chain[1] == w[0]);
                    assert(w[0].subject == leaf.issuer);
                } else {
                    assert(chain[i] == w[i - 1]);
                    assert(chain[i + 1] == w[i]);
                    assert(w[i - 1].issuer == w[i].subject);
                }
            }
        },
        Err(_) => {},
    }
}

/// A resolved chain has at least its leaf; it is complete exactly when its
/// last certificate is self-signed; and an incomplete chain stopped either
/// because no certificate's subject name is the last one's issuer name, or
/// because the first such certificate's subject name was already in the
/// chain: a cycle, cut short.
pub proof fn lemma_chain_terminal(certs: Seq<CertView>, oid: Seq<u8>, value: Seq<char>)
    ensures
        spec_resolve(certs, oid, value) matches Ok(chain) ==> {
            &&& chain.len() >= 1
            &&& (spec_is_complete(chain) <==> spec_is_self_signed(chain.last()))
            &&& (!spec_is_complete(chain) ==> (first_subject_match(certs, chain.last().issuer)
                is None || (first_subject_match(certs, chain.last().issuer) matches Some(j)
                && subject_set(chain).contains(certs[j].subject))))
        },
{
    broadcast use vstd::set::group_set_axioms;

    match spec_resolve(certs, oid, value) {
        Ok(chain) => {
            lemma_first_selector_match(certs, oid, value);
            let li: int = first_selector_match(certs, oid, value)->Some_0;
            let leaf = certs[li];
            let visited0 = set![leaf.subject];
            lemma_walk_terminal(certs, leaf, visited0);
            let w = walk(certs, leaf, visited0);
            assert(chain == seq![leaf] + w);
            lemma_subject_set_cons(leaf, w);
            assert(visited0.union(subject_set(w)) =~= subject_set(chain));
            if w.len() == 0 {
                assert(chain.last() == leaf);
            } else {
                assert(chain.last() == w.last());
            }
        },
        Err(_) => {},
    }
}

/// Whether a resolved chain is complete: it reaches a self-signed root.
/// An incomplete chain stopped because no issuer was found in the available
/// collection, or because a cycle was cut short.
pub fn chain_is_complete(chain: &Vec<Certificate>) -> (r: bool)
    ensures
        r == spec_is_complete(cert_views(chain@)),
{
    if chain.len() == 0 {
        return false;
    }
    let r = chain[chain.len() - 1].is_self_signed();
    proof {
        let cs = cert_views(chain@);
        assert(cs[chain@.len() - 1] == chain@[chain@.len() - 1]@);
        assert(cs.last() == cs[chain@.len() - 1]);
    }
    r
}

/// Find the first certificate matching the selector.
fn find_first_selector(certs: &Vec<Certificate>, oid: &Vec<u8>, value: &String) -> (r: Option<
    usize,
>)
    ensures
        match r {
            Some(i) => i < certs@.len() && first_selector_match(cert_views(certs@), oid@, value@)
                == Some(i as int),
            None => first_selector_match(cert_views(certs@), oid@, value@) is None,
        },
{
    let ghost cs = cert_views(certs@);
    let mut i: usize = 0;
    while i < certs.len()
        invariant
            0 <= i <= certs@.len(),
            cs == cert_views(certs@),
            cs.len() == certs@.len(),
            forall|j: int| 0 <= j < i ==> !spec_matches_selector(cs[j], oid@, value@),
        decreases certs@.len() - i,
    {
        proof {
            assert(cs[i as int] == certs@[i as int]@);
        }
        if certs[i].matches_selector(oid, value) {
            proof {
                lemma_first_selector_match_is(cs, oid@, value@, i as int);
            }
            return Some(i);
        }
        i = i + 1;
    }
    proof {
        lemma_first_selector_match(cs, oid@, value@);
        match first_selector_match(cs, oid@, value@) {
            Some(k) => {
                assert(!spec_matches_selector(cs[k], oid@, value@));
            },
            None => {},
        }
    }
    None
}

/// Find the first certificate whose subject name is `name`.
fn find_first_subject(certs: &Vec<Certificate>, name: &Vec<u8>) -> (r: Option<usize>)
    ensures
        match r {
            Some(i) => i < certs@.len() && first_subject_match(cert_views(certs@), name@) == Some(
                i as int,
            ),
            None => first_subject_match(cert_views(certs@), name@) is None,
        },
{
    let ghost cs = cert_views(certs@);
    let mut i: usize = 0;
    while i < certs.len()
        invariant
            0 <= i <= certs@.len(),
            cs == cert_views(certs@),
            cs.len() == certs@.len(),
            forall|j: int| 0 <= j < i ==> cs[j].subject != name@,
        decreases certs@.len() - i,
    {
        proof {
            assert(cs[i as int] == certs@[i as int]@);
        }
        if bytes_equal(&certs[i].subject_der, name) {
            proof {
                lemma_first_subject_match_is(cs, name@, i as int);
            }
            return Some(i);
        }
        i = i + 1;
    }
    proof {
        lemma_first_subject_match(cs, name@);
        match first_subject_match(cs, name@) {
            Some(k) => {
                assert(cs[k].subject != name@);
            },
            None => {},
        }
    }
    None
}

/// Whether some certificate in the chain has subject name `name`.
fn chain_has_subject(chain: &Vec<Certificate>, name: &Vec<u8>) -> (r: bool)
    ensures
        r == subject_set(cert_views(chain@)).contains(name@),
{
    let ghost cs = cert_views(chain@);
    let ghost subs = cs.map_values(|c: CertView| c.subject);
    let mut i: usize = 0;
    while i < chain.len()
        invariant
            0 <= i <= chain@.len(),
            cs == cert_views(chain@),
            subs == cs.map_values(|c: CertView| c.subject),
            cs.len() == chain@.len(),
            forall|j: int| 0 <= j < i ==> cs[j].subject != name@,
        decreases chain@.len() - i,
    {
        proof {
            assert(cs[i as int] == chain@[i as int]@);
        }
        if bytes_equal(&chain[i].subject_der, name) {
            proof {
                broadcast use vstd::set::group_set_axioms;

                assert(subs[i as int] == name@);
                assert(subs.contains(name@));
            }
            return true;
        }
        i = i + 1;
    }
    proof {
        broadcast use vstd::set::group_set_axioms;

        if subs.contains(name@) {
            let k = choose|k: int| 0 <= k < subs.len() && subs[k] == name@;
            assert(cs[k].subject != name@);
        }
        assert(!subject_set(cs).contains(name@));
    }
    false
}

/// Resolve the certificate chain for the certificate carrying the selector
/// attribute `oid` with value `user_id`.
///
/// The chain starts at the first matching certificate and is grown by issuer
/// lookup until it ends in a self-signed certificate (a complete chain), no
/// issuer is found, or a cycle among non-self-signed certificates is cut
/// short (both incomplete chains, normal results). When no certificate
/// matches the selector, the error carries the attempted value. Each call is
/// a function of the collection and the selector alone, so repeating a call
/// repeats its result.
pub fn resolve(certs: &Vec<Certificate>, oid: &Vec<u8>, user_id: &str) -> (r: Result<
    Vec<Certificate>,
    ResolveError,
>)
    ensures
        match r {
            Ok(chain) => spec_resolve(cert_views(certs@), oid@, user_id@) == Ok::<_, Seq<char>>(
                cert_views(chain@),
            ),
            Err(e) => e matches ResolveError::CertificateNotFound(v) && v@ == user_id@
                && spec_resolve(cert_views(certs@), oid@, user_id@) == Err::<Seq<CertView>, _>(
                user_id@,
            ),
        },
{
    let ghost cs = cert_views(certs@);
    let value = user_id.to_owned();
    let li: usize = match find_first_selector(certs, oid, &value) {
        Some(i) => i,
        None => {
            return Err(ResolveError::CertificateNotFound(value));
        },
    };
    let leaf = certs[li].clone();
    let ghost leafv = leaf@;
    proof {
        assert(leafv == cs[li as int]);
    }
    let mut chain: Vec<Certificate> = Vec::new();
    chain.push(leaf);
    let ghost mut visited: Set<Seq<u8>> = set![leafv.subject];
    proof {
        broadcast use vstd::set::group_set_axioms;

        assert(cert_views(chain@) =~= seq![leafv]);
        lemma_subject_set_singleton(leafv);
        assert(subject_set(cert_views(chain@)) == visited);
        assert(spec_chain(cs, leafv) == cert_views(chain@) + walk(cs, leafv, visited));
    }
    loop
        invariant
            chain@.len() >= 1,
            cs == cert_views(certs@),
            cs.len() == certs@.len(),
            visited == subject_set(cert_views(chain@)),
            visited.finite(),
            spec_chain(cs, leafv) == cert_views(chain@) + walk(
                cs,
                chain@[chain@.len() - 1]@,
                visited,
            ),
        ensures
            spec_chain(cs, leafv) == cert_views(chain@),
        decreases subject_set(cs).difference(visited).len(),
    {
        broadcast use vstd::set::group_set_axioms;

        let n: usize = chain.len();
        let ghost lastv = chain@[n as int - 1]@;
        if chain[n - 1].is_self_signed() {
            proof {
                assert(walk(cs, lastv, visited) =~= Seq::<CertView>::empty());
                assert(cert_views(chain@) + Seq::<CertView>::empty() =~= cert_views(chain@));
            }
            break ;
        }
        match find_first_subject(certs, &chain[n - 1].issuer_der) {
            None => {
                proof {
                    assert(walk(cs, lastv, visited) =~= Seq::<CertView>::empty());
                    assert(cert_views(chain@) + Seq::<CertView>::empty() =~= cert_views(chain@));
                }
                break ;
            },
            Some(j) => {
                proof {
                    assert(first_subject_match(cs, lastv.issuer) == Some(j as int));
                    lemma_first_subject_match(cs, lastv.issuer);
                }
                if chain_has_subject(&chain, &certs[j].subject_der) {
                    proof {
                        assert(visited.contains(cs[j as int].subject));
                        assert(walk(cs, lastv, visited) =~= Seq::<CertView>::empty());
                        assert(cert_views(chain@) + Seq::<CertView>::empty() =~= cert_views(
                            chain@,
                        ));
                    }
                    break ;
                }
                let ghost chain0 = chain@;
                let ghost d = subject_set(cs).difference(visited);
                chain.push(certs[j].clone());
                proof {
                    let s = cs[j as int].subject;
                    assert(!visited.contains(s));
                    assert(walk(cs, lastv, visited) == seq![cs[j as int]] + walk(
                        cs,
                        cs[j as int],
                        visited.insert(s),
                    ));
                    assert(cert_views(chain@) =~= cert_views(chain0).push(cs[j as int]));
                    assert(cert_views(chain0) + (seq![cs[j as int]] + walk(
                        cs,
                        cs[j as int],
                        visited.insert(s),
                    )) =~= cert_views(chain@) + walk(cs, cs[j as int], visited.insert(s)));
                    visited = visited.insert(s);
                    lemma_subject_set_push(cert_views(chain0), cs[j as int]);
                    assert(subject_set(cert_views(chain@)) == visited);
                    assert(chain@[chain@.len() - 1]@ == cs[j as int]);
                    // the walk measure shrinks: the appended subject is fresh
                    let subs = cs.map_values(|c: CertView| c.subject);
                    assert(subs[j as int] == s);
                    assert(subs.contains(s));
                    vstd::seq_lib::seq_to_set_is_finite(subs);
                    assert(subject_set(cs).difference(visited) =~= d.remove(s));
                    vstd::set::axiom_set_remove_len(d, s);
                }
            },
        }
    }
    Ok(chain)
}

} // verus!
