//! Beta rules: the same predicate appears on both sides of the pattern.
//!
//! Covers SCM-SCO / SCM-EQC2 and SCM-SPO / SCM-EQP2, together with the
//! inverse direction SCM-EQC1 and SCM-EQP1.

#![allow(non_snake_case)]

use vstd::prelude::*;

use crate::inferray::{NodeDictionary, TripleStore};
use crate::rules::engine::{chunk_of, join_pairs, JoinRow};
use crate::utils::{pairs_sorted, prop_idx_to_offset, Pair, Triple, START_INDEX};

verus! {

/// Mutual pairs under `rule_p` yield both directions of `infer_p`; chains
/// of two distinct pairs yield the transitive step under `rule_p`.
pub open spec fn beta_sem(ts: TripleStore, rule_p: u64, infer_p: u64, t: Triple) -> bool {
    ||| (t.p == infer_p && chunk_of(ts, rule_p).contains(Pair { s: t.s, o: t.o }) && chunk_of(
        ts,
        rule_p,
    ).contains(Pair { s: t.o, o: t.s }))
    ||| (t.p == rule_p && t.s != t.o && exists|b: u64|
        #[trigger] chunk_of(ts, rule_p).contains(Pair { s: t.s, o: b }) && chunk_of(
            ts,
            rule_p,
        ).contains(Pair { s: b, o: t.o }))
}

fn apply_beta_rule(ts: &TripleStore, rule_p: u64, infer_p: u64) -> (r: Vec<Triple>)
    requires
        ts.wf(),
        rule_p < START_INDEX,
        infer_p < START_INDEX,
    ensures
        forall|t: Triple| #[trigger] r@.contains(t) <==> beta_sem(*ts, rule_p, infer_p, t),
        forall|i: int| 0 <= i < r@.len() ==> (#[trigger] r@[i]).p < START_INDEX,
{
    let mut r: Vec<Triple> = Vec::new();
    let off = prop_idx_to_offset(rule_p);
    if off >= ts.elem().len() {
        return r;
    }
    let rows = join_pairs(ts.elem()[off].so(), ts.elem()[off].so());
    let mut k: usize = 0;
    while k < rows.len()
        invariant
            k <= rows@.len(),
            ts.wf(),
            rule_p < START_INDEX,
            infer_p < START_INDEX,
            off == crate::utils::offset_of(rule_p),
            0 <= off < ts.elem@.len(),
            forall|w: JoinRow|
                #[trigger] rows@.contains(w) <==> (chunk_of(*ts, rule_p).contains(
                    Pair { s: w.x, o: w.y },
                ) && chunk_of(*ts, rule_p).contains(Pair { s: w.y, o: w.z })),
            forall|t: Triple| #[trigger] r@.contains(t) ==> beta_sem(*ts, rule_p, infer_p, t),
            forall|kk: int|
                0 <= kk < k ==> {
                    let w = #[trigger] rows@[kk];
                    if w.z == w.x {
                        r@.contains(Triple { s: w.x, p: infer_p, o: w.y }) && r@.contains(
                            Triple { s: w.y, p: infer_p, o: w.x },
                        )
                    } else {
                        r@.contains(Triple { s: w.x, p: rule_p, o: w.z })
                    }
                },
            forall|i: int| 0 <= i < r@.len() ==> (#[trigger] r@[i]).p < START_INDEX,
        decreases rows@.len() - k,
    {
        let w = rows[k];
        proof {
            assert(rows@.contains(rows@[k as int]));
        }
        if w.z == w.x {
            let t1 = Triple { s: w.x, p: infer_p, o: w.y };
            let t2 = Triple { s: w.y, p: infer_p, o: w.x };
            proof {
                crate::utils::lemma_push_contains(r@, t1);
                crate::utils::lemma_push_contains(r@.push(t1), t2);
            }
            r.push(t1);
            r.push(t2);
        } else {
            let t = Triple { s: w.x, p: rule_p, o: w.z };
            proof {
                crate::utils::lemma_push_contains(r@, t);
                assert(beta_sem(*ts, rule_p, infer_p, t)) by {
                    assert(chunk_of(*ts, rule_p).contains(Pair { s: t.s, o: w.y }));
                }
            }
            r.push(t);
        }
        k += 1;
    }
    proof {
        assert forall|t: Triple| beta_sem(*ts, rule_p, infer_p, t) implies #[trigger] r@.contains(
            t,
        ) by {
            if t.p == infer_p && chunk_of(*ts, rule_p).contains(Pair { s: t.s, o: t.o })
                && chunk_of(*ts, rule_p).contains(Pair { s: t.o, o: t.s }) {
                let w = JoinRow { x: t.s, y: t.o, z: t.s };
                assert(rows@.contains(w));
                let kk = choose|kk: int| 0 <= kk < rows@.len() && rows@[kk] == w;
                assert(rows@[kk].z == rows@[kk].x);
                assert(r@.contains(Triple { s: w.x, p: infer_p, o: w.y }));
            }
            if t.p == rule_p && t.s != t.o {
                if exists|b: u64|
                    #[trigger] chunk_of(*ts, rule_p).contains(Pair { s: t.s, o: b }) && chunk_of(
                        *ts,
                        rule_p,
                    ).contains(Pair { s: b, o: t.o }) {
                    let b = choose|b: u64|
                        #[trigger] chunk_of(*ts, rule_p).contains(Pair { s: t.s, o: b })
                            && chunk_of(*ts, rule_p).contains(Pair { s: b, o: t.o });
                    let w = JoinRow { x: t.s, y: b, z: t.o };
                    assert(rows@.contains(w));
                    let kk = choose|kk: int| 0 <= kk < rows@.len() && rows@[kk] == w;
                    assert(rows@[kk].z != rows@[kk].x);
                    assert(r@.contains(Triple { s: w.x, p: rule_p, o: w.z }));
                }
            }
        }
    }
    r
}

/// Every pair under `rule_p` yields both directions of `infer_p` and is
/// re-emitted under `rule_p`.
pub open spec fn inv_beta_sem(ts: TripleStore, rule_p: u64, infer_p: u64, t: Triple) -> bool {
    ||| (t.p == infer_p && (chunk_of(ts, rule_p).contains(Pair { s: t.s, o: t.o }) || chunk_of(
        ts,
        rule_p,
    ).contains(Pair { s: t.o, o: t.s })))
    ||| (t.p == rule_p && chunk_of(ts, rule_p).contains(Pair { s: t.s, o: t.o }))
}

fn apply_inverse_beta_rule(ts: &TripleStore, rule_p: u64, infer_p: u64) -> (r: Vec<Triple>)
    requires
        ts.wf(),
        rule_p < START_INDEX,
        infer_p < START_INDEX,
    ensures
        forall|t: Triple| #[trigger] r@.contains(t) <==> inv_beta_sem(*ts, rule_p, infer_p, t),
        forall|i: int| 0 <= i < r@.len() ==> (#[trigger] r@[i]).p < START_INDEX,
{
    let mut r: Vec<Triple> = Vec::new();
    let off = prop_idx_to_offset(rule_p);
    if off >= ts.elem().len() {
        return r;
    }
    let so = ts.elem()[off].so();
    let mut k: usize = 0;
    while k < so.len()
        invariant
            k <= so@.len(),
            ts.wf(),
            rule_p < START_INDEX,
            infer_p < START_INDEX,
            off == crate::utils::offset_of(rule_p),
            0 <= off < ts.elem@.len(),
            so@ == chunk_of(*ts, rule_p),
            forall|t: Triple| #[trigger] r@.contains(t) ==> inv_beta_sem(*ts, rule_p, infer_p, t),
            forall|kk: int|
                0 <= kk < k ==> {
                    let pr = #[trigger] so@[kk];
                    r@.contains(Triple { s: pr.s, p: infer_p, o: pr.o }) && r@.contains(
                        Triple { s: pr.o, p: infer_p, o: pr.s },
                    ) && r@.contains(Triple { s: pr.s, p: rule_p, o: pr.o })
                },
            forall|i: int| 0 <= i < r@.len() ==> (#[trigger] r@[i]).p < START_INDEX,
        decreases so@.len() - k,
    {
        let pr = so[k];
        let t1 = Triple { s: pr.s, p: infer_p, o: pr.o };
        let t2 = Triple { s: pr.o, p: infer_p, o: pr.s };
        let t3 = Triple { s: pr.s, p: rule_p, o: pr.o };
        proof {
            assert(so@.contains(so@[k as int]));
            crate::utils::lemma_push_contains(r@, t1);
            crate::utils::lemma_push_contains(r@.push(t1), t2);
            crate::utils::lemma_push_contains(r@.push(t1).push(t2), t3);
        }
        r.push(t1);
        r.push(t2);
        r.push(t3);
        k += 1;
    }
    proof {
        assert forall|t: Triple|
            inv_beta_sem(*ts, rule_p, infer_p, t) implies #[trigger] r@.contains(t) by {
            if t.p == infer_p && chunk_of(*ts, rule_p).contains(Pair { s: t.s, o: t.o }) {
                let kk = choose|kk: int| 0 <= kk < so@.len() && so@[kk] == (Pair { s: t.s, o: t.o });
                assert(r@.contains(Triple { s: so@[kk].s, p: infer_p, o: so@[kk].o }));
            }
            if t.p == infer_p && chunk_of(*ts, rule_p).contains(Pair { s: t.o, o: t.s }) {
                let kk = choose|kk: int| 0 <= kk < so@.len() && so@[kk] == (Pair { s: t.o, o: t.s });
                assert(r@.contains(Triple { s: so@[kk].o, p: infer_p, o: so@[kk].s }));
            }
            if t.p == rule_p && chunk_of(*ts, rule_p).contains(Pair { s: t.s, o: t.o }) {
                let kk = choose|kk: int| 0 <= kk < so@.len() && so@[kk] == (Pair { s: t.s, o: t.o });
                assert(r@.contains(Triple { s: so@[kk].s, p: rule_p, o: so@[kk].o }));
            }
        }
    }
    r
}

/// Mutual subclass pairs yield equivalence, plus the transitive step.
pub fn SCM_SCO_EQC2(ts: &TripleStore) -> (r: Vec<Triple>)
    requires
        ts.wf(),
    ensures
        forall|t: Triple|
            #[trigger] r@.contains(t) <==> beta_sem(
                *ts,
                NodeDictionary::RDFS_SUB_CLASS_OF,
                NodeDictionary::OWL_EQUIVALENT_CLASS,
                t,
            ),
        forall|i: int| 0 <= i < r@.len() ==> (#[trigger] r@[i]).p < START_INDEX,
{
    apply_beta_rule(ts, NodeDictionary::RDFS_SUB_CLASS_OF, NodeDictionary::OWL_EQUIVALENT_CLASS)
}

/// Mutual subproperty pairs yield equivalence, plus the transitive step.
pub fn SCM_SPO_EQP2(ts: &TripleStore) -> (r: Vec<Triple>)
    requires
        ts.wf(),
    ensures
        forall|t: Triple|
            #[trigger] r@.contains(t) <==> beta_sem(
                *ts,
                NodeDictionary::RDFS_SUB_PROPERTY_OF,
                NodeDictionary::OWL_EQUIVALENT_PROPERTY,
                t,
            ),
        forall|i: int| 0 <= i < r@.len() ==> (#[trigger] r@[i]).p < START_INDEX,
{
    apply_beta_rule(
        ts,
        NodeDictionary::RDFS_SUB_PROPERTY_OF,
        NodeDictionary::OWL_EQUIVALENT_PROPERTY,
    )
}

/// Each equivalent-class pair yields both subclass directions.
pub fn SCM_EQC1(ts: &TripleStore) -> (r: Vec<Triple>)
    requires
        ts.wf(),
    ensures
        forall|t: Triple|
            #[trigger] r@.contains(t) <==> inv_beta_sem(
                *ts,
                NodeDictionary::OWL_EQUIVALENT_CLASS,
                NodeDictionary::RDFS_SUB_CLASS_OF,
                t,
            ),
        forall|i: int| 0 <= i < r@.len() ==> (#[trigger] r@[i]).p < START_INDEX,
{
    apply_inverse_beta_rule(
        ts,
        NodeDictionary::OWL_EQUIVALENT_CLASS,
        NodeDictionary::RDFS_SUB_CLASS_OF,
    )
}

/// Each equivalent-property pair yields both subproperty directions.
pub fn SCM_EQP1(ts: &TripleStore) -> (r: Vec<Triple>)
    requires
        ts.wf(),
    ensures
        forall|t: Triple|
            #[trigger] r@.contains(t) <==> inv_beta_sem(
                *ts,
                NodeDictionary::OWL_EQUIVALENT_PROPERTY,
                NodeDictionary::RDFS_SUB_PROPERTY_OF,
                t,
            ),
        forall|i: int| 0 <= i < r@.len() ==> (#[trigger] r@[i]).p < START_INDEX,
{
    apply_inverse_beta_rule(
        ts,
        NodeDictionary::OWL_EQUIVALENT_PROPERTY,
        NodeDictionary::RDFS_SUB_PROPERTY_OF,
    )
}

} // verus!
