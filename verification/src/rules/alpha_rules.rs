//! Alpha rules: a two-chunk join emitting triples under a fixed predicate.
//!
//! Covers CAX-SCO, CAX-EQC1, SCM-DOM1/2 and SCM-RNG1/2.

#![allow(non_snake_case)]

use vstd::prelude::*;

use crate::inferray::{NodeDictionary, TripleStore};
use crate::rules::engine::{chunk_of, join_pairs, JoinRow};
use crate::utils::{pairs_sorted, prop_idx_to_offset, Pair, Triple, START_INDEX};

verus! {

/// The join pattern shared by the alpha rules: from `(x, b)` under
/// `first_p` and `(b, z)` under `second_p`, emit `(x, out_p, z)`.
pub open spec fn alpha_sem(
    ts: TripleStore,
    first_p: u64,
    second_p: u64,
    out_p: u64,
    t: Triple,
) -> bool {
    t.p == out_p && exists|b: u64|
        #[trigger] chunk_of(ts, first_p).contains(Pair { s: t.s, o: b }) && chunk_of(
            ts,
            second_p,
        ).contains(Pair { s: b, o: t.o })
}

fn apply_alpha_rule(ts: &TripleStore, first_p: u64, second_p: u64, out_p: u64) -> (r: Vec<
    Triple,
>)
    requires
        ts.wf(),
        first_p < START_INDEX,
        second_p < START_INDEX,
        out_p < START_INDEX,
    ensures
        forall|t: Triple|
            #[trigger] r@.contains(t) <==> alpha_sem(*ts, first_p, second_p, out_p, t),
        forall|i: int| 0 <= i < r@.len() ==> (#[trigger] r@[i]).p < START_INDEX,
{
    let mut r: Vec<Triple> = Vec::new();
    let off1 = prop_idx_to_offset(first_p);
    let off2 = prop_idx_to_offset(second_p);
    if off1 >= ts.elem().len() || off2 >= ts.elem().len() {
        return r;
    }
    let rows = join_pairs(ts.elem()[off1].so(), ts.elem()[off2].so());
    let mut k: usize = 0;
    while k < rows.len()
        invariant
            k <= rows@.len(),
            ts.wf(),
            first_p < START_INDEX,
            second_p < START_INDEX,
            out_p < START_INDEX,
            off1 == crate::utils::offset_of(first_p),
            off2 == crate::utils::offset_of(second_p),
            0 <= off1 < ts.elem@.len(),
            0 <= off2 < ts.elem@.len(),
            forall|w: JoinRow|
                #[trigger] rows@.contains(w) <==> (chunk_of(*ts, first_p).contains(
                    Pair { s: w.x, o: w.y },
                ) && chunk_of(*ts, second_p).contains(Pair { s: w.y, o: w.z })),
            forall|t: Triple|
                #[trigger] r@.contains(t) ==> alpha_sem(*ts, first_p, second_p, out_p, t),
            forall|kk: int|
                0 <= kk < k ==> r@.contains(
                    Triple { s: (#[trigger] rows@[kk]).x, p: out_p, o: rows@[kk].z },
                ),
            forall|i: int| 0 <= i < r@.len() ==> (#[trigger] r@[i]).p < START_INDEX,
        decreases rows@.len() - k,
    {
        let w = rows[k];
        let t = Triple { s: w.x, p: out_p, o: w.z };
        proof {
            crate::utils::lemma_push_contains(r@, t);
            assert(rows@.contains(rows@[k as int]));
            assert(alpha_sem(*ts, first_p, second_p, out_p, t)) by {
                assert(chunk_of(*ts, first_p).contains(Pair { s: t.s, o: w.y }));
            }
        }
        r.push(t);
        k += 1;
    }
    proof {
        assert forall|t: Triple|
            alpha_sem(*ts, first_p, second_p, out_p, t) implies #[trigger] r@.contains(t) by {
            let b = choose|b: u64|
                #[trigger] chunk_of(*ts, first_p).contains(Pair { s: t.s, o: b }) && chunk_of(
                    *ts,
                    second_p,
                ).contains(Pair { s: b, o: t.o });
            let w = JoinRow { x: t.s, y: b, z: t.o };
            assert(rows@.contains(w));
            let kk = choose|kk: int| 0 <= kk < rows@.len() && rows@[kk] == w;
            assert(r@.contains(Triple { s: rows@[kk].x, p: out_p, o: rows@[kk].z }));
        }
    }
    r
}

/// From `(x rdf:type c1)` and `(c1 rdfs:subClassOf c2)` infer
/// `(x rdf:type c2)`.
pub fn CAX_SCO(ts: &TripleStore) -> (r: Vec<Triple>)
    requires
        ts.wf(),
    ensures
        forall|t: Triple|
            #[trigger] r@.contains(t) <==> alpha_sem(
                *ts,
                NodeDictionary::RDF_TYPE,
                NodeDictionary::RDFS_SUB_CLASS_OF,
                NodeDictionary::RDF_TYPE,
                t,
            ),
        forall|i: int| 0 <= i < r@.len() ==> (#[trigger] r@[i]).p < START_INDEX,
{
    apply_alpha_rule(
        ts,
        NodeDictionary::RDF_TYPE,
        NodeDictionary::RDFS_SUB_CLASS_OF,
        NodeDictionary::RDF_TYPE,
    )
}

/// From `(x rdf:type c1)` and `(c1 owl:equivalentClass c2)` infer
/// `(x rdf:type c2)`.
pub fn CAX_EQC1(ts: &TripleStore) -> (r: Vec<Triple>)
    requires
        ts.wf(),
    ensures
        forall|t: Triple|
            #[trigger] r@.contains(t) <==> alpha_sem(
                *ts,
                NodeDictionary::RDF_TYPE,
                NodeDictionary::OWL_EQUIVALENT_CLASS,
                NodeDictionary::RDF_TYPE,
                t,
            ),
        forall|i: int| 0 <= i < r@.len() ==> (#[trigger] r@[i]).p < START_INDEX,
{
    apply_alpha_rule(
        ts,
        NodeDictionary::RDF_TYPE,
        NodeDictionary::OWL_EQUIVALENT_CLASS,
        NodeDictionary::RDF_TYPE,
    )
}

/// From `(p rdfs:domain c1)` and `(c1 rdfs:subClassOf c2)` infer
/// `(p rdfs:domain c2)`.
pub fn SCM_DOM1(ts: &TripleStore) -> (r: Vec<Triple>)
    requires
        ts.wf(),
    ensures
        forall|t: Triple|
            #[trigger] r@.contains(t) <==> alpha_sem(
                *ts,
                NodeDictionary::RDFS_DOMAIN,
                NodeDictionary::RDFS_SUB_CLASS_OF,
                NodeDictionary::RDFS_DOMAIN,
                t,
            ),
        forall|i: int| 0 <= i < r@.len() ==> (#[trigger] r@[i]).p < START_INDEX,
{
    apply_alpha_rule(
        ts,
        NodeDictionary::RDFS_DOMAIN,
        NodeDictionary::RDFS_SUB_CLASS_OF,
        NodeDictionary::RDFS_DOMAIN,
    )
}

/// From `(p1 rdfs:subPropertyOf p2)` and `(p2 rdfs:domain c)` infer
/// `(p1 rdfs:domain c)`.
pub fn SCM_DOM2(ts: &TripleStore) -> (r: Vec<Triple>)
    requires
        ts.wf(),
    ensures
        forall|t: Triple|
            #[trigger] r@.contains(t) <==> alpha_sem(
                *ts,
                NodeDictionary::RDFS_SUB_PROPERTY_OF,
                NodeDictionary::RDFS_DOMAIN,
                NodeDictionary::RDFS_DOMAIN,
                t,
            ),
        forall|i: int| 0 <= i < r@.len() ==> (#[trigger] r@[i]).p < START_INDEX,
{
    apply_alpha_rule(
        ts,
        NodeDictionary::RDFS_SUB_PROPERTY_OF,
        NodeDictionary::RDFS_DOMAIN,
        NodeDictionary::RDFS_DOMAIN,
    )
}

/// From `(p rdfs:range c1)` and `(c1 rdfs:subClassOf c2)` infer
/// `(p rdfs:range c2)`.
pub fn SCM_RNG1(ts: &TripleStore) -> (r: Vec<Triple>)
    requires
        ts.wf(),
    ensures
        forall|t: Triple|
            #[trigger] r@.contains(t) <==> alpha_sem(
                *ts,
                NodeDictionary::RDFS_RANGE,
                NodeDictionary::RDFS_SUB_CLASS_OF,
                NodeDictionary::RDFS_RANGE,
                t,
            ),
        forall|i: int| 0 <= i < r@.len() ==> (#[trigger] r@[i]).p < START_INDEX,
{
    apply_alpha_rule(
        ts,
        NodeDictionary::RDFS_RANGE,
        NodeDictionary::RDFS_SUB_CLASS_OF,
        NodeDictionary::RDFS_RANGE,
    )
}

/// From `(p1 rdfs:subPropertyOf p2)` and `(p2 rdfs:range c)` infer
/// `(p1 rdfs:range c)`.
pub fn SCM_RNG2(ts: &TripleStore) -> (r: Vec<Triple>)
    requires
        ts.wf(),
    ensures
        forall|t: Triple|
            #[trigger] r@.contains(t) <==> alpha_sem(
                *ts,
                NodeDictionary::RDFS_SUB_PROPERTY_OF,
                NodeDictionary::RDFS_RANGE,
                NodeDictionary::RDFS_RANGE,
                t,
            ),
        forall|i: int| 0 <= i < r@.len() ==> (#[trigger] r@[i]).p < START_INDEX,
{
    apply_alpha_rule(
        ts,
        NodeDictionary::RDFS_SUB_PROPERTY_OF,
        NodeDictionary::RDFS_RANGE,
        NodeDictionary::RDFS_RANGE,
    )
}

} // verus!
