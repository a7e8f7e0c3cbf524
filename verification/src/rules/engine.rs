//! Rule dispatch and rule-set evaluation to a fixed point.

use vstd::prelude::*;

use crate::inferray::{NodeDictionary, TripleStore};
use crate::rules::alpha_rules::{alpha_sem, CAX_EQC1, CAX_SCO, SCM_DOM1, SCM_DOM2, SCM_RNG1, SCM_RNG2};
use crate::rules::beta_rules::{beta_sem, inv_beta_sem, SCM_EQC1, SCM_EQP1, SCM_SCO_EQC2, SCM_SPO_EQP2};
use crate::rules::delta_rules::{delta_sem, PRP_EQP_1_2, PRP_INV_1_2};
use crate::rules::gamma_rules::{eq_trans_sem, gamma_sem, symp_sem, EQ_TRANS, PRP_DOM, PRP_RNG, PRP_SPO1, PRP_SYMP};
use crate::rules::other_rules::{fp_sem, ifp_sem, trp_sem, PRP_FP, PRP_IFP, PRP_TRP};
use crate::rules::same_as_rules::{same_as_sem, SAME_AS};
use crate::rules::zeta_rules::{rdfs4_sem, scm_cls_sem, scm_dp_op_sem, zeta_sem, RDFS10, RDFS12, RDFS13, RDFS4, RDFS6, RDFS8, SCM_CLS, SCM_DP_OP};
use crate::inferray::store::{lemma_store_growth, lemma_store_size_from_chunks};
use crate::utils::{
    lemma_push_contains, lemma_sorted_unique, matches_of, offset_of, pairs_sorted, prop_at_offset,
    Pair, Triple, START_INDEX,
};
use vstd::seq_lib::*;
use vstd::set_lib::*;

verus! {

/// The pair list a store holds for predicate `p`.
pub open spec fn chunk_of(ts: TripleStore, p: u64) -> Seq<Pair> {
    ts.chunk_at(offset_of(p))
}

/// One row of a relational join: `(x, y)` in the left list and `(y, z)` in
/// the right one.
#[derive(Clone, Copy, PartialEq, Eq, Structural, Debug)]
pub struct JoinRow {
    pub x: u64,
    pub y: u64,
    pub z: u64,
}

/// Join two pair lists on the object of the first and the subject of the
/// second.
pub fn join_pairs(a: &Vec<Pair>, b: &Vec<Pair>) -> (r: Vec<JoinRow>)
    requires
        pairs_sorted(b@),
    ensures
        forall|w: JoinRow|
            #[trigger] r@.contains(w) <==> (a@.contains(Pair { s: w.x, o: w.y }) && b@.contains(
                Pair { s: w.y, o: w.z },
            )),
{
    let mut r: Vec<JoinRow> = Vec::new();
    let mut i: usize = 0;
    while i < a.len()
        invariant
            i <= a@.len(),
            pairs_sorted(b@),
            forall|w: JoinRow|
                #[trigger] r@.contains(w) ==> (a@.contains(Pair { s: w.x, o: w.y })
                    && b@.contains(Pair { s: w.y, o: w.z })),
            forall|ii: int, z: u64|
                0 <= ii < i && #[trigger] b@.contains(Pair { s: a@[ii].o, o: z }) ==> r@.contains(
                    JoinRow { x: a@[ii].s, y: a@[ii].o, z: z },
                ),
        decreases a@.len() - i,
    {
        let pr = a[i];
        let ms = matches_of(b, pr.o);
        let mut k: usize = 0;
        while k < ms.len()
            invariant
                k <= ms@.len(),
                i < a@.len(),
                pr == a@[i as int],
                pairs_sorted(b@),
                forall|y: u64| ms@.contains(y) <==> b@.contains(Pair { s: pr.o, o: y }),
                forall|w: JoinRow|
                    #[trigger] r@.contains(w) ==> (a@.contains(Pair { s: w.x, o: w.y })
                        && b@.contains(Pair { s: w.y, o: w.z })),
                forall|ii: int, z: u64|
                    0 <= ii < i && #[trigger] b@.contains(Pair { s: a@[ii].o, o: z })
                        ==> r@.contains(JoinRow { x: a@[ii].s, y: a@[ii].o, z: z }),
                forall|kk: int|
                    0 <= kk < k ==> r@.contains(
                        JoinRow { x: pr.s, y: pr.o, z: #[trigger] ms@[kk] },
                    ),
            decreases ms@.len() - k,
        {
            let w = JoinRow { x: pr.s, y: pr.o, z: ms[k] };
            proof {
                lemma_push_contains(r@, w);
                assert(a@.contains(Pair { s: w.x, o: w.y })) by {
                    assert(a@[i as int] == (Pair { s: w.x, o: w.y }));
                }
                assert(ms@.contains(ms@[k as int]));
            }
            r.push(w);
            k += 1;
        }
        proof {
            assert forall|z: u64| #[trigger] b@.contains(Pair { s: pr.o, o: z })
                implies r@.contains(JoinRow { x: pr.s, y: pr.o, z: z }) by {
                assert(ms@.contains(z));
                let kk = choose|kk: int| 0 <= kk < ms@.len() && ms@[kk] == z;
                assert(r@.contains(JoinRow { x: pr.s, y: pr.o, z: ms@[kk] }));
            }
        }
        i += 1;
    }
    proof {
        assert forall|w: JoinRow|
            (a@.contains(Pair { s: w.x, o: w.y }) && b@.contains(Pair { s: w.y, o: w.z }))
            implies #[trigger] r@.contains(w) by {
            let ii = choose|ii: int| 0 <= ii < a@.len() && a@[ii] == (Pair { s: w.x, o: w.y });
            assert(b@.contains(Pair { s: a@[ii].o, o: w.z }));
            assert(r@.contains(JoinRow { x: a@[ii].s, y: a@[ii].o, z: w.z }));
        }
    }
    r
}

/// A name for each rule of the reasoner, used by the rule profiles.
#[derive(Clone, Copy, PartialEq, Eq, Structural, Debug)]
pub enum RuleId {
    CaxSco,
    CaxEqc1,
    ScmDom1,
    ScmDom2,
    ScmRng1,
    ScmRng2,
    ScmScoEqc2,
    ScmSpoEqp2,
    ScmEqc1,
    ScmEqp1,
    PrpDom,
    PrpRng,
    PrpSpo1,
    PrpSymp,
    EqTrans,
    PrpInv12,
    PrpEqp12,
    SameAs,
    PrpFp,
    PrpIfp,
    PrpTrp,
    Rdfs4,
    Rdfs6,
    Rdfs8,
    Rdfs10,
    Rdfs12,
    Rdfs13,
    ScmDpOp,
    ScmCls,
}

/// The set of triples a rule derives from a store snapshot.
pub open spec fn rule_sem(id: RuleId, ts: TripleStore, t: Triple) -> bool {
    match id {
        RuleId::CaxSco => alpha_sem(
            ts,
            NodeDictionary::RDF_TYPE,
            NodeDictionary::RDFS_SUB_CLASS_OF,
            NodeDictionary::RDF_TYPE,
            t,
        ),
        RuleId::CaxEqc1 => alpha_sem(
            ts,
            NodeDictionary::RDF_TYPE,
            NodeDictionary::OWL_EQUIVALENT_CLASS,
            NodeDictionary::RDF_TYPE,
            t,
        ),
        RuleId::ScmDom1 => alpha_sem(
            ts,
            NodeDictionary::RDFS_DOMAIN,
            NodeDictionary::RDFS_SUB_CLASS_OF,
            NodeDictionary::RDFS_DOMAIN,
            t,
        ),
        RuleId::ScmDom2 => alpha_sem(
            ts,
            NodeDictionary::RDFS_SUB_PROPERTY_OF,
            NodeDictionary::RDFS_DOMAIN,
            NodeDictionary::RDFS_DOMAIN,
            t,
        ),
        RuleId::ScmRng1 => alpha_sem(
            ts,
            NodeDictionary::RDFS_RANGE,
            NodeDictionary::RDFS_SUB_CLASS_OF,
            NodeDictionary::RDFS_RANGE,
            t,
        ),
        RuleId::ScmRng2 => alpha_sem(
            ts,
            NodeDictionary::RDFS_SUB_PROPERTY_OF,
            NodeDictionary::RDFS_RANGE,
            NodeDictionary::RDFS_RANGE,
            t,
        ),
        RuleId::ScmScoEqc2 => beta_sem(
            ts,
            NodeDictionary::RDFS_SUB_CLASS_OF,
            NodeDictionary::OWL_EQUIVALENT_CLASS,
            t,
        ),
        RuleId::ScmSpoEqp2 => beta_sem(
            ts,
            NodeDictionary::RDFS_SUB_PROPERTY_OF,
            NodeDictionary::OWL_EQUIVALENT_PROPERTY,
            t,
        ),
        RuleId::ScmEqc1 => inv_beta_sem(
            ts,
            NodeDictionary::OWL_EQUIVALENT_CLASS,
            NodeDictionary::RDFS_SUB_CLASS_OF,
            t,
        ),
        RuleId::ScmEqp1 => inv_beta_sem(
            ts,
            NodeDictionary::OWL_EQUIVALENT_PROPERTY,
            NodeDictionary::RDFS_SUB_PROPERTY_OF,
            t,
        ),
        RuleId::PrpDom => gamma_sem(
            ts,
            NodeDictionary::RDFS_DOMAIN,
            NodeDictionary::RDF_TYPE,
            true,
            true,
            t,
        ),
        RuleId::PrpRng => gamma_sem(
            ts,
            NodeDictionary::RDFS_RANGE,
            NodeDictionary::RDF_TYPE,
            false,
            true,
            t,
        ),
        RuleId::PrpSpo1 => gamma_sem(
            ts,
            NodeDictionary::RDFS_SUB_PROPERTY_OF,
            NodeDictionary::RDF_TYPE,
            false,
            false,
            t,
        ),
        RuleId::PrpSymp => symp_sem(ts, t),
        RuleId::EqTrans => eq_trans_sem(ts, t),
        RuleId::PrpInv12 => delta_sem(ts, NodeDictionary::OWL_INVERSE_OF, true, t),
        RuleId::PrpEqp12 => delta_sem(ts, NodeDictionary::OWL_EQUIVALENT_PROPERTY, false, t),
        RuleId::SameAs => same_as_sem(ts, t),
        RuleId::PrpFp => fp_sem(ts, t),
        RuleId::PrpIfp => ifp_sem(ts, t),
        RuleId::PrpTrp => trp_sem(ts, t),
        RuleId::Rdfs4 => rdfs4_sem(ts, t),
        RuleId::Rdfs6 => zeta_sem(
            ts,
            NodeDictionary::RDF_PROPERTY,
            NodeDictionary::RDFS_SUB_PROPERTY_OF,
            0,
            true,
            t,
        ),
        RuleId::Rdfs8 => zeta_sem(
            ts,
            NodeDictionary::RDFS_CLASS,
            NodeDictionary::RDF_TYPE,
            NodeDictionary::RDFS_RESOURCE,
            false,
            t,
        ),
        RuleId::Rdfs10 => zeta_sem(
            ts,
            NodeDictionary::RDFS_CLASS,
            NodeDictionary::RDFS_SUB_CLASS_OF,
            0,
            true,
            t,
        ),
        RuleId::Rdfs12 => zeta_sem(
            ts,
            NodeDictionary::RDFS_CONTAINER_MEMBERSHIP_PROPERTY,
            NodeDictionary::RDFS_SUB_PROPERTY_OF,
            NodeDictionary::RDFS_MEMBER,
            false,
            t,
        ),
        RuleId::Rdfs13 => zeta_sem(
            ts,
            NodeDictionary::RDFS_DATATYPE,
            NodeDictionary::RDFS_SUB_CLASS_OF,
            NodeDictionary::RDFS_LITERAL,
            false,
            t,
        ),
        RuleId::ScmDpOp => scm_dp_op_sem(ts, t),
        RuleId::ScmCls => scm_cls_sem(ts, t),
    }
}

/// Run one rule on a store snapshot, returning exactly the triples its
/// pattern derives.
pub fn apply_rule(id: RuleId, ts: &TripleStore) -> (r: Vec<Triple>)
    requires
        ts.wf(),
        ts.all_os(),
    ensures
        forall|t: Triple| #[trigger] r@.contains(t) <==> rule_sem(id, *ts, t),
        forall|i: int| 0 <= i < r@.len() ==> (#[trigger] r@[i]).p < START_INDEX,
{
    match id {
        RuleId::CaxSco => CAX_SCO(ts),
        RuleId::CaxEqc1 => CAX_EQC1(ts),
        RuleId::ScmDom1 => SCM_DOM1(ts),
        RuleId::ScmDom2 => SCM_DOM2(ts),
        RuleId::ScmRng1 => SCM_RNG1(ts),
        RuleId::ScmRng2 => SCM_RNG2(ts),
        RuleId::ScmScoEqc2 => SCM_SCO_EQC2(ts),
        RuleId::ScmSpoEqp2 => SCM_SPO_EQP2(ts),
        RuleId::ScmEqc1 => SCM_EQC1(ts),
        RuleId::ScmEqp1 => SCM_EQP1(ts),
        RuleId::PrpDom => PRP_DOM(ts),
        RuleId::PrpRng => PRP_RNG(ts),
        RuleId::PrpSpo1 => PRP_SPO1(ts),
        RuleId::PrpSymp => PRP_SYMP(ts),
        RuleId::EqTrans => EQ_TRANS(ts),
        RuleId::PrpInv12 => PRP_INV_1_2(ts),
        RuleId::PrpEqp12 => PRP_EQP_1_2(ts),
        RuleId::SameAs => SAME_AS(ts),
        RuleId::PrpFp => PRP_FP(ts),
        RuleId::PrpIfp => PRP_IFP(ts),
        RuleId::PrpTrp => PRP_TRP(ts),
        RuleId::Rdfs4 => RDFS4(ts),
        RuleId::Rdfs6 => RDFS6(ts),
        RuleId::Rdfs8 => RDFS8(ts),
        RuleId::Rdfs10 => RDFS10(ts),
        RuleId::Rdfs12 => RDFS12(ts),
        RuleId::Rdfs13 => RDFS13(ts),
        RuleId::ScmDpOp => SCM_DP_OP(ts),
        RuleId::ScmCls => SCM_CLS(ts),
    }
}

/// A rule reads a store only through its chunk contents: two stores whose
/// chunks agree derive the same triples.
pub proof fn lemma_sem_stable(id: RuleId, a: TripleStore, b: TripleStore)
    requires
        forall|k: int| a.chunk_at(k) == b.chunk_at(k),
    ensures
        forall|t: Triple| #[trigger] rule_sem(id, a, t) == rule_sem(id, b, t),
{
    assert forall|p: u64| #[trigger] chunk_of(a, p) == chunk_of(b, p) by {
        assert(a.chunk_at(offset_of(p)) == b.chunk_at(offset_of(p)));
    }
    assert forall|k: int, x: u64, y: u64|
        #![trigger a.chunk_at(k).contains(Pair { s: x, o: y })]
        #![trigger b.chunk_at(k).contains(Pair { s: x, o: y })]
        a.chunk_at(k).contains(Pair { s: x, o: y }) == b.chunk_at(k).contains(
        Pair { s: x, o: y },
    ) by {
        assert(a.chunk_at(k) == b.chunk_at(k));
    }
    assert forall|k: int, x: u64, y: u64|
        #![trigger a.chunk_at(k).contains(Pair { s: x, o: y })]
        (a.chunk_at(k).contains(Pair { s: x, o: y }) && 0 <= k) implies (k < a.elem@.len() && k
        < b.elem@.len()) by {
        if k >= a.elem@.len() {
            assert(a.chunk_at(k) =~= Seq::<Pair>::empty());
        }
        if k >= b.elem@.len() {
            assert(b.chunk_at(k) =~= Seq::<Pair>::empty());
        }
    }
    assert forall|t: Triple| #[trigger] rule_sem(id, a, t) == rule_sem(id, b, t) by {
        if rule_sem(id, a, t) {
            stable_one(id, a, b, t);
        }
        if rule_sem(id, b, t) {
            assert forall|k: int| b.chunk_at(k) == a.chunk_at(k) by {
                assert(a.chunk_at(k) == b.chunk_at(k));
            }
            stable_one(id, b, a, t);
        }
    }
}

/// One direction of rule stability: a triple derived from `a` is derived
/// from `b` whenever the chunk contents agree.
proof fn stable_one(id: RuleId, a: TripleStore, b: TripleStore, t: Triple)
    requires
        forall|k: int| a.chunk_at(k) == b.chunk_at(k),
        rule_sem(id, a, t),
    ensures
        rule_sem(id, b, t),
{
    assert forall|p: u64| #[trigger] chunk_of(a, p) == chunk_of(b, p) by {
        assert(a.chunk_at(offset_of(p)) == b.chunk_at(offset_of(p)));
    }
    assert forall|k: int, x: u64, y: u64|
        #![trigger a.chunk_at(k).contains(Pair { s: x, o: y })]
        a.chunk_at(k).contains(Pair { s: x, o: y }) implies (b.chunk_at(k).contains(
        Pair { s: x, o: y },
    ) && (0 <= k ==> k < b.elem@.len())) by {
        assert(a.chunk_at(k) == b.chunk_at(k));
        if 0 <= k && k >= b.elem@.len() {
            assert(b.chunk_at(k) =~= Seq::<Pair>::empty());
        }
    }
    match id {
        RuleId::CaxSco | RuleId::CaxEqc1 | RuleId::ScmDom1 | RuleId::ScmDom2 | RuleId::ScmRng1
            | RuleId::ScmRng2 => {
            let (fp, sp, op): (u64, u64, u64) = match id {
                RuleId::CaxSco => (
                    NodeDictionary::RDF_TYPE,
                    NodeDictionary::RDFS_SUB_CLASS_OF,
                    NodeDictionary::RDF_TYPE,
                ),
                RuleId::CaxEqc1 => (
                    NodeDictionary::RDF_TYPE,
                    NodeDictionary::OWL_EQUIVALENT_CLASS,
                    NodeDictionary::RDF_TYPE,
                ),
                RuleId::ScmDom1 => (
                    NodeDictionary::RDFS_DOMAIN,
                    NodeDictionary::RDFS_SUB_CLASS_OF,
                    NodeDictionary::RDFS_DOMAIN,
                ),
                RuleId::ScmDom2 => (
                    NodeDictionary::RDFS_SUB_PROPERTY_OF,
                    NodeDictionary::RDFS_DOMAIN,
                    NodeDictionary::RDFS_DOMAIN,
                ),
                RuleId::ScmRng1 => (
                    NodeDictionary::RDFS_RANGE,
                    NodeDictionary::RDFS_SUB_CLASS_OF,
                    NodeDictionary::RDFS_RANGE,
                ),
                _ => (
                    NodeDictionary::RDFS_SUB_PROPERTY_OF,
                    NodeDictionary::RDFS_RANGE,
                    NodeDictionary::RDFS_RANGE,
                ),
            };
            let bb = choose|bb: u64|
                #[trigger] chunk_of(a, fp).contains(Pair { s: t.s, o: bb }) && chunk_of(
                    a,
                    sp,
                ).contains(Pair { s: bb, o: t.o });
            assert(chunk_of(b, fp).contains(Pair { s: t.s, o: bb }));
            assert(chunk_of(b, sp).contains(Pair { s: bb, o: t.o }));
        },
        RuleId::ScmScoEqc2 | RuleId::ScmSpoEqp2 => {
            let rp: u64 = if id == RuleId::ScmScoEqc2 {
                NodeDictionary::RDFS_SUB_CLASS_OF
            } else {
                NodeDictionary::RDFS_SUB_PROPERTY_OF
            };
            if t.p == rp && t.s != t.o {
                if exists|bb: u64|
                    #[trigger] chunk_of(a, rp).contains(Pair { s: t.s, o: bb }) && chunk_of(
                        a,
                        rp,
                    ).contains(Pair { s: bb, o: t.o }) {
                    let bb = choose|bb: u64|
                        #[trigger] chunk_of(a, rp).contains(Pair { s: t.s, o: bb }) && chunk_of(
                            a,
                            rp,
                        ).contains(Pair { s: bb, o: t.o });
                    assert(chunk_of(b, rp).contains(Pair { s: t.s, o: bb }));
                    assert(chunk_of(b, rp).contains(Pair { s: bb, o: t.o }));
                }
            }
        },
        RuleId::ScmEqc1 | RuleId::ScmEqp1 => {},
        RuleId::PrpDom | RuleId::PrpRng | RuleId::PrpSpo1 => {
            let (hp, op, us, raw): (u64, u64, bool, bool) = match id {
                RuleId::PrpDom => (
                    NodeDictionary::RDFS_DOMAIN,
                    NodeDictionary::RDF_TYPE,
                    true,
                    true,
                ),
                RuleId::PrpRng => (
                    NodeDictionary::RDFS_RANGE,
                    NodeDictionary::RDF_TYPE,
                    false,
                    true,
                ),
                _ => (
                    NodeDictionary::RDFS_SUB_PROPERTY_OF,
                    NodeDictionary::RDF_TYPE,
                    false,
                    false,
                ),
            };
            let (q, c, x, y) = choose|q: u64, c: u64, x: u64, y: u64|
                #![trigger chunk_of(a, hp).contains(Pair { s: q, o: c }),
                    chunk_of(a, q).contains(Pair { s: x, o: y })]
                {
                    &&& chunk_of(a, hp).contains(Pair { s: q, o: c })
                    &&& q < START_INDEX
                    &&& chunk_of(a, q).contains(Pair { s: x, o: y })
                    &&& if raw {
                        t == (Triple {
                            s: if us {
                                x
                            } else {
                                y
                            },
                            p: op,
                            o: c,
                        })
                    } else {
                        c < START_INDEX && t == (Triple { s: x, p: c, o: y })
                    }
                };
            assert(chunk_of(b, hp).contains(Pair { s: q, o: c }));
            assert(chunk_of(b, q).contains(Pair { s: x, o: y }));
        },
        RuleId::PrpSymp => {
            let (q, x, y) = choose|q: u64, x: u64, y: u64|
                #![trigger chunk_of(a, q).contains(Pair { s: x, o: y })]
                {
                    &&& chunk_of(a, NodeDictionary::RDF_TYPE).contains(
                        Pair { s: q, o: NodeDictionary::OWL_SYMMETRIC_PROPERTY },
                    )
                    &&& q < START_INDEX
                    &&& chunk_of(a, q).contains(Pair { s: x, o: y })
                    &&& t == (Triple { s: y, p: q, o: x })
                };
            assert(chunk_of(b, NodeDictionary::RDF_TYPE).contains(
                Pair { s: q, o: NodeDictionary::OWL_SYMMETRIC_PROPERTY },
            ));
            assert(chunk_of(b, q).contains(Pair { s: x, o: y }));
        },
        RuleId::EqTrans => {
            let bb = choose|bb: u64|
                #![trigger chunk_of(a, NodeDictionary::OWL_SAME_AS).contains(
                    Pair { s: t.s, o: bb },
                )]
                #![trigger chunk_of(a, NodeDictionary::OWL_SAME_AS).contains(
                    Pair { s: t.o, o: bb },
                )]
                {
                    ||| (chunk_of(a, NodeDictionary::OWL_SAME_AS).contains(Pair { s: t.s, o: bb })
                        && chunk_of(a, NodeDictionary::OWL_SAME_AS).contains(
                        Pair { s: bb, o: t.o },
                    ))
                    ||| (chunk_of(a, NodeDictionary::OWL_SAME_AS).contains(Pair { s: t.o, o: bb })
                        && chunk_of(a, NodeDictionary::OWL_SAME_AS).contains(
                        Pair { s: bb, o: t.s },
                    ))
                };
            if chunk_of(a, NodeDictionary::OWL_SAME_AS).contains(Pair { s: t.s, o: bb })
                && chunk_of(a, NodeDictionary::OWL_SAME_AS).contains(Pair { s: bb, o: t.o }) {
                assert(chunk_of(b, NodeDictionary::OWL_SAME_AS).contains(Pair { s: t.s, o: bb }));
                assert(chunk_of(b, NodeDictionary::OWL_SAME_AS).contains(Pair { s: bb, o: t.o }));
            } else {
                assert(chunk_of(b, NodeDictionary::OWL_SAME_AS).contains(Pair { s: t.o, o: bb }));
                assert(chunk_of(b, NodeDictionary::OWL_SAME_AS).contains(Pair { s: bb, o: t.s }));
            }
        },
        RuleId::PrpInv12 | RuleId::PrpEqp12 => {
            let (hp, inv): (u64, bool) = if id == RuleId::PrpInv12 {
                (NodeDictionary::OWL_INVERSE_OF, true)
            } else {
                (NodeDictionary::OWL_EQUIVALENT_PROPERTY, false)
            };
            let (aa, bb, x, y) = choose|aa: u64, bb: u64, x: u64, y: u64|
                #![trigger chunk_of(a, hp).contains(Pair { s: aa, o: bb }),
                    chunk_of(a, aa).contains(Pair { s: x, o: y })]
                #![trigger chunk_of(a, hp).contains(Pair { s: aa, o: bb }),
                    chunk_of(a, bb).contains(Pair { s: x, o: y })]
                {
                    &&& chunk_of(a, hp).contains(Pair { s: aa, o: bb })
                    &&& aa != bb
                    &&& aa < START_INDEX
                    &&& bb < START_INDEX
                    &&& {
                        ||| (chunk_of(a, aa).contains(Pair { s: x, o: y }) && t == (if inv {
                            Triple { s: y, p: bb, o: x }
                        } else {
                            Triple { s: x, p: bb, o: y }
                        }))
                        ||| (chunk_of(a, bb).contains(Pair { s: x, o: y }) && t == (if inv {
                            Triple { s: y, p: aa, o: x }
                        } else {
                            Triple { s: x, p: aa, o: y }
                        }))
                    }
                };
            assert(chunk_of(b, hp).contains(Pair { s: aa, o: bb }));
            if chunk_of(a, aa).contains(Pair { s: x, o: y }) && t == (if inv {
                Triple { s: y, p: bb, o: x }
            } else {
                Triple { s: x, p: bb, o: y }
            }) {
                assert(chunk_of(b, aa).contains(Pair { s: x, o: y }));
            } else {
                assert(chunk_of(b, bb).contains(Pair { s: x, o: y }));
            }
        },
        RuleId::SameAs => {
            let (aa, bb) = choose|aa: u64, bb: u64|
                #[trigger] chunk_of(a, NodeDictionary::OWL_SAME_AS).contains(
                    Pair { s: aa, o: bb },
                ) && {
                    ||| t == (Triple { s: bb, p: NodeDictionary::OWL_SAME_AS, o: aa })
                    ||| (aa < START_INDEX && bb < START_INDEX && exists|x: u64, y: u64|
                        #[trigger] chunk_of(a, aa).contains(Pair { s: x, o: y }) && t == (Triple {
                            s: x,
                            p: bb,
                            o: y,
                        }))
                    ||| (aa >= START_INDEX && exists|k: int, x: u64, y: u64|
                        #![trigger a.chunk_at(k).contains(Pair { s: x, o: y })]
                        {
                            &&& 0 <= k < a.elem@.len()
                            &&& prop_at_offset(k) != NodeDictionary::OWL_SAME_AS
                            &&& a.chunk_at(k).contains(Pair { s: x, o: y })
                            &&& ((x == aa && t == (Triple { s: bb, p: prop_at_offset(k), o: y }))
                                || (y == aa && t == (Triple { s: x, p: prop_at_offset(k), o: bb })))
                        })
                };
            assert(chunk_of(b, NodeDictionary::OWL_SAME_AS).contains(Pair { s: aa, o: bb }));
            if t == (Triple { s: bb, p: NodeDictionary::OWL_SAME_AS, o: aa }) {
            } else if aa < START_INDEX && bb < START_INDEX && exists|x: u64, y: u64|
                #[trigger] chunk_of(a, aa).contains(Pair { s: x, o: y }) && t == (Triple {
                    s: x,
                    p: bb,
                    o: y,
                }) {
                let (x, y) = choose|x: u64, y: u64|
                    #[trigger] chunk_of(a, aa).contains(Pair { s: x, o: y }) && t == (Triple {
                        s: x,
                        p: bb,
                        o: y,
                    });
                assert(chunk_of(b, aa).contains(Pair { s: x, o: y }));
            } else {
                let (k, x, y) = choose|k: int, x: u64, y: u64|
                    #![trigger a.chunk_at(k).contains(Pair { s: x, o: y })]
                    {
                        &&& 0 <= k < a.elem@.len()
                        &&& prop_at_offset(k) != NodeDictionary::OWL_SAME_AS
                        &&& a.chunk_at(k).contains(Pair { s: x, o: y })
                        &&& ((x == aa && t == (Triple { s: bb, p: prop_at_offset(k), o: y })) || (y
                            == aa && t == (Triple { s: x, p: prop_at_offset(k), o: bb })))
                    };
                assert(b.chunk_at(k).contains(Pair { s: x, o: y }));
            }
        },
        RuleId::PrpFp => {
            let (q, x, y1, y2) = choose|q: u64, x: u64, y1: u64, y2: u64|
                #![trigger chunk_of(a, q).contains(Pair { s: x, o: y1 }),
                    chunk_of(a, q).contains(Pair { s: x, o: y2 })]
                {
                    &&& chunk_of(a, NodeDictionary::RDF_TYPE).contains(
                        Pair { s: q, o: NodeDictionary::OWL_FUNCTIONAL_PROPERTY },
                    )
                    &&& q < START_INDEX
                    &&& chunk_of(a, q).contains(Pair { s: x, o: y1 })
                    &&& chunk_of(a, q).contains(Pair { s: x, o: y2 })
                    &&& y1 != y2
                    &&& t == (Triple { s: y1, p: NodeDictionary::OWL_SAME_AS, o: y2 })
                };
            assert(chunk_of(b, NodeDictionary::RDF_TYPE).contains(
                Pair { s: q, o: NodeDictionary::OWL_FUNCTIONAL_PROPERTY },
            ));
            assert(chunk_of(b, q).contains(Pair { s: x, o: y1 }));
            assert(chunk_of(b, q).contains(Pair { s: x, o: y2 }));
        },
        RuleId::PrpIfp => {
            let (q, x1, x2, y) = choose|q: u64, x1: u64, x2: u64, y: u64|
                #![trigger chunk_of(a, q).contains(Pair { s: x1, o: y }),
                    chunk_of(a, q).contains(Pair { s: x2, o: y })]
                {
                    &&& chunk_of(a, NodeDictionary::RDF_TYPE).contains(
                        Pair { s: q, o: NodeDictionary::OWL_INVERSE_FUNCTIONAL_PROPERTY },
                    )
                    &&& q < START_INDEX
                    &&& chunk_of(a, q).contains(Pair { s: x1, o: y })
                    &&& chunk_of(a, q).contains(Pair { s: x2, o: y })
                    &&& x1 != x2
                    &&& t == (Triple { s: x1, p: NodeDictionary::OWL_SAME_AS, o: x2 })
                };
            assert(chunk_of(b, NodeDictionary::RDF_TYPE).contains(
                Pair { s: q, o: NodeDictionary::OWL_INVERSE_FUNCTIONAL_PROPERTY },
            ));
            assert(chunk_of(b, q).contains(Pair { s: x1, o: y }));
            assert(chunk_of(b, q).contains(Pair { s: x2, o: y }));
        },
        RuleId::PrpTrp => {
            let (q, x, y, z) = choose|q: u64, x: u64, y: u64, z: u64|
                #![trigger chunk_of(a, q).contains(Pair { s: x, o: y }),
                    chunk_of(a, q).contains(Pair { s: y, o: z })]
                {
                    &&& chunk_of(a, NodeDictionary::RDF_TYPE).contains(
                        Pair { s: q, o: NodeDictionary::OWL_TRANSITIVE_PROPERTY },
                    )
                    &&& q < START_INDEX
                    &&& chunk_of(a, q).contains(Pair { s: x, o: y })
                    &&& chunk_of(a, q).contains(Pair { s: y, o: z })
                    &&& t == (Triple { s: x, p: q, o: z })
                };
            assert(chunk_of(b, NodeDictionary::RDF_TYPE).contains(
                Pair { s: q, o: NodeDictionary::OWL_TRANSITIVE_PROPERTY },
            ));
            assert(chunk_of(b, q).contains(Pair { s: x, o: y }));
            assert(chunk_of(b, q).contains(Pair { s: y, o: z }));
        },
        RuleId::Rdfs4 => {
            let (k, x, y) = choose|k: int, x: u64, y: u64|
                #![trigger a.chunk_at(k).contains(Pair { s: x, o: y })]
                {
                    &&& 0 <= k < a.elem@.len()
                    &&& a.chunk_at(k).contains(Pair { s: x, o: y })
                    &&& (t == (Triple {
                        s: x,
                        p: NodeDictionary::RDF_TYPE,
                        o: NodeDictionary::RDFS_RESOURCE,
                    }) || t == (Triple {
                        s: y,
                        p: NodeDictionary::RDF_TYPE,
                        o: NodeDictionary::RDFS_RESOURCE,
                    }))
                };
            assert(b.chunk_at(k).contains(Pair { s: x, o: y }));
        },
        RuleId::Rdfs6 | RuleId::Rdfs8 | RuleId::Rdfs10 | RuleId::Rdfs12 | RuleId::Rdfs13 => {
            let (io, op, oo, ois): (u64, u64, u64, bool) = match id {
                RuleId::Rdfs6 => (
                    NodeDictionary::RDF_PROPERTY,
                    NodeDictionary::RDFS_SUB_PROPERTY_OF,
                    0,
                    true,
                ),
                RuleId::Rdfs8 => (
                    NodeDictionary::RDFS_CLASS,
                    NodeDictionary::RDF_TYPE,
                    NodeDictionary::RDFS_RESOURCE,
                    false,
                ),
                RuleId::Rdfs10 => (
                    NodeDictionary::RDFS_CLASS,
                    NodeDictionary::RDFS_SUB_CLASS_OF,
                    0,
                    true,
                ),
                RuleId::Rdfs12 => (
                    NodeDictionary::RDFS_CONTAINER_MEMBERSHIP_PROPERTY,
                    NodeDictionary::RDFS_SUB_PROPERTY_OF,
                    NodeDictionary::RDFS_MEMBER,
                    false,
                ),
                _ => (
                    NodeDictionary::RDFS_DATATYPE,
                    NodeDictionary::RDFS_SUB_CLASS_OF,
                    NodeDictionary::RDFS_LITERAL,
                    false,
                ),
            };
            let x = choose|x: u64|
                #[trigger] chunk_of(a, NodeDictionary::RDF_TYPE).contains(Pair { s: x, o: io })
                    && t == (Triple {
                    s: x,
                    p: op,
                    o: if ois {
                        x
                    } else {
                        oo
                    },
                });
            assert(chunk_of(b, NodeDictionary::RDF_TYPE).contains(Pair { s: x, o: io }));
        },
        RuleId::ScmDpOp => {
            let x = choose|x: u64|
                #![trigger chunk_of(a, NodeDictionary::RDF_TYPE).contains(
                    Pair { s: x, o: NodeDictionary::OWL_DATATYPE_PROPERTY },
                )]
                #![trigger chunk_of(a, NodeDictionary::RDF_TYPE).contains(
                    Pair { s: x, o: NodeDictionary::OWL_OBJECT_PROPERTY },
                )]
                {
                    &&& (chunk_of(a, NodeDictionary::RDF_TYPE).contains(
                        Pair { s: x, o: NodeDictionary::OWL_DATATYPE_PROPERTY },
                    ) || chunk_of(a, NodeDictionary::RDF_TYPE).contains(
                        Pair { s: x, o: NodeDictionary::OWL_OBJECT_PROPERTY },
                    ))
                    &&& (t == (Triple { s: x, p: NodeDictionary::RDFS_SUB_PROPERTY_OF, o: x }) || t
                        == (Triple { s: x, p: NodeDictionary::OWL_EQUIVALENT_PROPERTY, o: x }))
                };
            if chunk_of(a, NodeDictionary::RDF_TYPE).contains(
                Pair { s: x, o: NodeDictionary::OWL_DATATYPE_PROPERTY },
            ) {
                assert(chunk_of(b, NodeDictionary::RDF_TYPE).contains(
                    Pair { s: x, o: NodeDictionary::OWL_DATATYPE_PROPERTY },
                ));
            } else {
                assert(chunk_of(b, NodeDictionary::RDF_TYPE).contains(
                    Pair { s: x, o: NodeDictionary::OWL_OBJECT_PROPERTY },
                ));
            }
        },
        RuleId::ScmCls => {
            let c = choose|c: u64|
                #[trigger] chunk_of(a, NodeDictionary::RDF_TYPE).contains(
                    Pair { s: c, o: NodeDictionary::OWL_CLASS },
                ) && {
                    ||| t == (Triple { s: c, p: NodeDictionary::RDFS_SUB_CLASS_OF, o: c })
                    ||| t == (Triple { s: c, p: NodeDictionary::OWL_EQUIVALENT_CLASS, o: c })
                    ||| t == (Triple {
                        s: c,
                        p: NodeDictionary::RDFS_SUB_CLASS_OF,
                        o: NodeDictionary::OWL_THING,
                    })
                    ||| t == (Triple {
                        s: NodeDictionary::OWL_NOTHING,
                        p: NodeDictionary::RDFS_SUB_CLASS_OF,
                        o: c,
                    })
                };
            assert(chunk_of(b, NodeDictionary::RDF_TYPE).contains(
                Pair { s: c, o: NodeDictionary::OWL_CLASS },
            ));
        },
    }
}

/// `v` occurs in the store: as a subject, an object, or the predicate of
/// a non-empty chunk.
pub open spec fn id_in_store(ts: TripleStore, v: u64) -> bool {
    exists|k: int, x: u64, y: u64|
        #![trigger ts.chunk_at(k).contains(Pair { s: x, o: y })]
        0 <= k < ts.elem@.len() && ts.chunk_at(k).contains(Pair { s: x, o: y }) && (x == v || y
            == v || prop_at_offset(k) == v)
}

/// The reserved vocabulary ids the rules may emit.
pub open spec fn rule_const_id(v: u64) -> bool {
    START_INDEX - 55 <= v <= START_INDEX + 15
}

/// An id a rule output may carry.
pub open spec fn tid_ok(ts: TripleStore, v: u64) -> bool {
    id_in_store(ts, v) || rule_const_id(v)
}

proof fn lemma_chunk_member_ids(ts: TripleStore, p: u64, x: u64, y: u64)
    requires
        p < START_INDEX,
        chunk_of(ts, p).contains(Pair { s: x, o: y }),
    ensures
        id_in_store(ts, x),
        id_in_store(ts, y),
        id_in_store(ts, p),
{
    let k = offset_of(p);
    if !(0 <= k < ts.elem@.len()) {
        assert(ts.chunk_at(k) =~= Seq::<Pair>::empty());
    }
    assert(ts.chunk_at(k).contains(Pair { s: x, o: y }));
    assert(prop_at_offset(k) == p);
}

proof fn lemma_chunk_at_member_ids(ts: TripleStore, k: int, x: u64, y: u64)
    requires
        0 <= k < ts.elem@.len(),
        ts.chunk_at(k).contains(Pair { s: x, o: y }),
    ensures
        id_in_store(ts, x),
        id_in_store(ts, y),
        id_in_store(ts, prop_at_offset(k)),
{
}

/// Every id in a rule's output occurs in the store or is a reserved
/// vocabulary id.
pub proof fn lemma_rule_ids(id: RuleId, ts: TripleStore, t: Triple)
    requires
        rule_sem(id, ts, t),
    ensures
        tid_ok(ts, t.s),
        tid_ok(ts, t.p),
        tid_ok(ts, t.o),
{
    match id {
        RuleId::CaxSco | RuleId::CaxEqc1 | RuleId::ScmDom1 | RuleId::ScmDom2 | RuleId::ScmRng1
            | RuleId::ScmRng2 => {
            let (fp, sp): (u64, u64) = match id {
                RuleId::CaxSco => (NodeDictionary::RDF_TYPE, NodeDictionary::RDFS_SUB_CLASS_OF),
                RuleId::CaxEqc1 => (NodeDictionary::RDF_TYPE, NodeDictionary::OWL_EQUIVALENT_CLASS),
                RuleId::ScmDom1 => (
                    NodeDictionary::RDFS_DOMAIN,
                    NodeDictionary::RDFS_SUB_CLASS_OF,
                ),
                RuleId::ScmDom2 => (
                    NodeDictionary::RDFS_SUB_PROPERTY_OF,
                    NodeDictionary::RDFS_DOMAIN,
                ),
                RuleId::ScmRng1 => (NodeDictionary::RDFS_RANGE, NodeDictionary::RDFS_SUB_CLASS_OF),
                _ => (NodeDictionary::RDFS_SUB_PROPERTY_OF, NodeDictionary::RDFS_RANGE),
            };
            let bb = choose|bb: u64|
                #[trigger] chunk_of(ts, fp).contains(Pair { s: t.s, o: bb }) && chunk_of(
                    ts,
                    sp,
                ).contains(Pair { s: bb, o: t.o });
            lemma_chunk_member_ids(ts, fp, t.s, bb);
            lemma_chunk_member_ids(ts, sp, bb, t.o);
        },
        RuleId::ScmScoEqc2 | RuleId::ScmSpoEqp2 => {
            let rp: u64 = if id == RuleId::ScmScoEqc2 {
                NodeDictionary::RDFS_SUB_CLASS_OF
            } else {
                NodeDictionary::RDFS_SUB_PROPERTY_OF
            };
            if chunk_of(ts, rp).contains(Pair { s: t.s, o: t.o }) {
                lemma_chunk_member_ids(ts, rp, t.s, t.o);
            } else {
                let bb = choose|bb: u64|
                    #[trigger] chunk_of(ts, rp).contains(Pair { s: t.s, o: bb }) && chunk_of(
                        ts,
                        rp,
                    ).contains(Pair { s: bb, o: t.o });
                lemma_chunk_member_ids(ts, rp, t.s, bb);
                lemma_chunk_member_ids(ts, rp, bb, t.o);
            }
        },
        RuleId::ScmEqc1 | RuleId::ScmEqp1 => {
            let rp: u64 = if id == RuleId::ScmEqc1 {
                NodeDictionary::OWL_EQUIVALENT_CLASS
            } else {
                NodeDictionary::OWL_EQUIVALENT_PROPERTY
            };
            if chunk_of(ts, rp).contains(Pair { s: t.s, o: t.o }) {
                lemma_chunk_member_ids(ts, rp, t.s, t.o);
            } else {
                lemma_chunk_member_ids(ts, rp, t.o, t.s);
            }
        },
        RuleId::PrpDom | RuleId::PrpRng | RuleId::PrpSpo1 => {
            let (hp, op, us, raw): (u64, u64, bool, bool) = match id {
                RuleId::PrpDom => (
                    NodeDictionary::RDFS_DOMAIN,
                    NodeDictionary::RDF_TYPE,
                    true,
                    true,
                ),
                RuleId::PrpRng => (
                    NodeDictionary::RDFS_RANGE,
                    NodeDictionary::RDF_TYPE,
                    false,
                    true,
                ),
                _ => (
                    NodeDictionary::RDFS_SUB_PROPERTY_OF,
                    NodeDictionary::RDF_TYPE,
                    false,
                    false,
                ),
            };
            let (q, c, x, y) = choose|q: u64, c: u64, x: u64, y: u64|
                #![trigger chunk_of(ts, hp).contains(Pair { s: q, o: c }),
                    chunk_of(ts, q).contains(Pair { s: x, o: y })]
                {
                    &&& chunk_of(ts, hp).contains(Pair { s: q, o: c })
                    &&& q < START_INDEX
                    &&& chunk_of(ts, q).contains(Pair { s: x, o: y })
                    &&& if raw {
                        t == (Triple {
                            s: if us {
                                x
                            } else {
                                y
                            },
                            p: op,
                            o: c,
                        })
                    } else {
                        c < START_INDEX && t == (Triple { s: x, p: c, o: y })
                    }
                };
            lemma_chunk_member_ids(ts, hp, q, c);
            lemma_chunk_member_ids(ts, q, x, y);
        },
        RuleId::PrpSymp => {
            let (q, x, y) = choose|q: u64, x: u64, y: u64|
                #![trigger chunk_of(ts, q).contains(Pair { s: x, o: y })]
                {
                    &&& chunk_of(ts, NodeDictionary::RDF_TYPE).contains(
                        Pair { s: q, o: NodeDictionary::OWL_SYMMETRIC_PROPERTY },
                    )
                    &&& q < START_INDEX
                    &&& chunk_of(ts, q).contains(Pair { s: x, o: y })
                    &&& t == (Triple { s: y, p: q, o: x })
                };
            lemma_chunk_member_ids(
                ts,
                NodeDictionary::RDF_TYPE,
                q,
                NodeDictionary::OWL_SYMMETRIC_PROPERTY,
            );
            lemma_chunk_member_ids(ts, q, x, y);
        },
        RuleId::EqTrans => {
            let bb = choose|bb: u64|
                #![trigger chunk_of(ts, NodeDictionary::OWL_SAME_AS).contains(
                    Pair { s: t.s, o: bb },
                )]
                #![trigger chunk_of(ts, NodeDictionary::OWL_SAME_AS).contains(
                    Pair { s: t.o, o: bb },
                )]
                {
                    ||| (chunk_of(ts, NodeDictionary::OWL_SAME_AS).contains(Pair { s: t.s, o: bb })
                        && chunk_of(ts, NodeDictionary::OWL_SAME_AS).contains(
                        Pair { s: bb, o: t.o },
                    ))
                    ||| (chunk_of(ts, NodeDictionary::OWL_SAME_AS).contains(Pair { s: t.o, o: bb })
                        && chunk_of(ts, NodeDictionary::OWL_SAME_AS).contains(
                        Pair { s: bb, o: t.s },
                    ))
                };
            if chunk_of(ts, NodeDictionary::OWL_SAME_AS).contains(Pair { s: t.s, o: bb })
                && chunk_of(ts, NodeDictionary::OWL_SAME_AS).contains(Pair { s: bb, o: t.o }) {
                lemma_chunk_member_ids(ts, NodeDictionary::OWL_SAME_AS, t.s, bb);
                lemma_chunk_member_ids(ts, NodeDictionary::OWL_SAME_AS, bb, t.o);
            } else {
                lemma_chunk_member_ids(ts, NodeDictionary::OWL_SAME_AS, t.o, bb);
                lemma_chunk_member_ids(ts, NodeDictionary::OWL_SAME_AS, bb, t.s);
            }
        },
        RuleId::PrpInv12 | RuleId::PrpEqp12 => {
            let (hp, inv): (u64, bool) = if id == RuleId::PrpInv12 {
                (NodeDictionary::OWL_INVERSE_OF, true)
            } else {
                (NodeDictionary::OWL_EQUIVALENT_PROPERTY, false)
            };
            let (aa, bb, x, y) = choose|aa: u64, bb: u64, x: u64, y: u64|
                #![trigger chunk_of(ts, hp).contains(Pair { s: aa, o: bb }),
                    chunk_of(ts, aa).contains(Pair { s: x, o: y })]
                #![trigger chunk_of(ts, hp).contains(Pair { s: aa, o: bb }),
                    chunk_of(ts, bb).contains(Pair { s: x, o: y })]
                {
                    &&& chunk_of(ts, hp).contains(Pair { s: aa, o: bb })
                    &&& aa != bb
                    &&& aa < START_INDEX
                    &&& bb < START_INDEX
                    &&& {
                        ||| (chunk_of(ts, aa).contains(Pair { s: x, o: y }) && t == (if inv {
                            Triple { s: y, p: bb, o: x }
                        } else {
                            Triple { s: x, p: bb, o: y }
                        }))
                        ||| (chunk_of(ts, bb).contains(Pair { s: x, o: y }) && t == (if inv {
                            Triple { s: y, p: aa, o: x }
                        } else {
                            Triple { s: x, p: aa, o: y }
                        }))
                    }
                };
            lemma_chunk_member_ids(ts, hp, aa, bb);
            if chunk_of(ts, aa).contains(Pair { s: x, o: y }) && t == (if inv {
                Triple { s: y, p: bb, o: x }
            } else {
                Triple { s: x, p: bb, o: y }
            }) {
                lemma_chunk_member_ids(ts, aa, x, y);
            } else {
                lemma_chunk_member_ids(ts, bb, x, y);
            }
        },
        RuleId::SameAs => {
            let (aa, bb) = choose|aa: u64, bb: u64|
                #[trigger] chunk_of(ts, NodeDictionary::OWL_SAME_AS).contains(
                    Pair { s: aa, o: bb },
                ) && {
                    ||| t == (Triple { s: bb, p: NodeDictionary::OWL_SAME_AS, o: aa })
                    ||| (aa < START_INDEX && bb < START_INDEX && exists|x: u64, y: u64|
                        #[trigger] chunk_of(ts, aa).contains(Pair { s: x, o: y }) && t == (Triple {
                            s: x,
                            p: bb,
                            o: y,
                        }))
                    ||| (aa >= START_INDEX && exists|k: int, x: u64, y: u64|
                        #![trigger ts.chunk_at(k).contains(Pair { s: x, o: y })]
                        {
                            &&& 0 <= k < ts.elem@.len()
                            &&& prop_at_offset(k) != NodeDictionary::OWL_SAME_AS
                            &&& ts.chunk_at(k).contains(Pair { s: x, o: y })
                            &&& ((x == aa && t == (Triple { s: bb, p: prop_at_offset(k), o: y }))
                                || (y == aa && t == (Triple {
                                    s: x,
                                    p: prop_at_offset(k),
                                    o: bb,
                                })))
                        })
                };
            lemma_chunk_member_ids(ts, NodeDictionary::OWL_SAME_AS, aa, bb);
            if t == (Triple { s: bb, p: NodeDictionary::OWL_SAME_AS, o: aa }) {
            } else if aa < START_INDEX && bb < START_INDEX && exists|x: u64, y: u64|
                #[trigger] chunk_of(ts, aa).contains(Pair { s: x, o: y }) && t == (Triple {
                    s: x,
                    p: bb,
                    o: y,
                }) {
                let (x, y) = choose|x: u64, y: u64|
                    #[trigger] chunk_of(ts, aa).contains(Pair { s: x, o: y }) && t == (Triple {
                        s: x,
                        p: bb,
                        o: y,
                    });
                lemma_chunk_member_ids(ts, aa, x, y);
            } else {
                let (k, x, y) = choose|k: int, x: u64, y: u64|
                    #![trigger ts.chunk_at(k).contains(Pair { s: x, o: y })]
                    {
                        &&& 0 <= k < ts.elem@.len()
                        &&& prop_at_offset(k) != NodeDictionary::OWL_SAME_AS
                        &&& ts.chunk_at(k).contains(Pair { s: x, o: y })
                        &&& ((x == aa && t == (Triple { s: bb, p: prop_at_offset(k), o: y })) || (y
                            == aa && t == (Triple { s: x, p: prop_at_offset(k), o: bb })))
                    };
                lemma_chunk_at_member_ids(ts, k, x, y);
            }
        },
        RuleId::PrpFp => {
            let (q, x, y1, y2) = choose|q: u64, x: u64, y1: u64, y2: u64|
                #![trigger chunk_of(ts, q).contains(Pair { s: x, o: y1 }),
                    chunk_of(ts, q).contains(Pair { s: x, o: y2 })]
                {
                    &&& chunk_of(ts, NodeDictionary::RDF_TYPE).contains(
                        Pair { s: q, o: NodeDictionary::OWL_FUNCTIONAL_PROPERTY },
                    )
                    &&& q < START_INDEX
                    &&& chunk_of(ts, q).contains(Pair { s: x, o: y1 })
                    &&& chunk_of(ts, q).contains(Pair { s: x, o: y2 })
                    &&& y1 != y2
                    &&& t == (Triple { s: y1, p: NodeDictionary::OWL_SAME_AS, o: y2 })
                };
            lemma_chunk_member_ids(ts, q, x, y1);
            lemma_chunk_member_ids(ts, q, x, y2);
        },
        RuleId::PrpIfp => {
            let (q, x1, x2, y) = choose|q: u64, x1: u64, x2: u64, y: u64|
                #![trigger chunk_of(ts, q).contains(Pair { s: x1, o: y }),
                    chunk_of(ts, q).contains(Pair { s: x2, o: y })]
                {
                    &&& chunk_of(ts, NodeDictionary::RDF_TYPE).contains(
                        Pair { s: q, o: NodeDictionary::OWL_INVERSE_FUNCTIONAL_PROPERTY },
                    )
                    &&& q < START_INDEX
                    &&& chunk_of(ts, q).contains(Pair { s: x1, o: y })
                    &&& chunk_of(ts, q).contains(Pair { s: x2, o: y })
                    &&& x1 != x2
                    &&& t == (Triple { s: x1, p: NodeDictionary::OWL_SAME_AS, o: x2 })
                };
            lemma_chunk_member_ids(ts, q, x1, y);
            lemma_chunk_member_ids(ts, q, x2, y);
        },
        RuleId::PrpTrp => {
            let (q, x, y, z) = choose|q: u64, x: u64, y: u64, z: u64|
                #![trigger chunk_of(ts, q).contains(Pair { s: x, o: y }),
                    chunk_of(ts, q).contains(Pair { s: y, o: z })]
                {
                    &&& chunk_of(ts, NodeDictionary::RDF_TYPE).contains(
                        Pair { s: q, o: NodeDictionary::OWL_TRANSITIVE_PROPERTY },
                    )
                    &&& q < START_INDEX
                    &&& chunk_of(ts, q).contains(Pair { s: x, o: y })
                    &&& chunk_of(ts, q).contains(Pair { s: y, o: z })
                    &&& t == (Triple { s: x, p: q, o: z })
                };
            lemma_chunk_member_ids(ts, q, x, y);
            lemma_chunk_member_ids(ts, q, y, z);
        },
        RuleId::Rdfs4 => {
            let (k, x, y) = choose|k: int, x: u64, y: u64|
                #![trigger ts.chunk_at(k).contains(Pair { s: x, o: y })]
                {
                    &&& 0 <= k < ts.elem@.len()
                    &&& ts.chunk_at(k).contains(Pair { s: x, o: y })
                    &&& (t == (Triple {
                        s: x,
                        p: NodeDictionary::RDF_TYPE,
                        o: NodeDictionary::RDFS_RESOURCE,
                    }) || t == (Triple {
                        s: y,
                        p: NodeDictionary::RDF_TYPE,
                        o: NodeDictionary::RDFS_RESOURCE,
                    }))
                };
            lemma_chunk_at_member_ids(ts, k, x, y);
        },
        RuleId::Rdfs6 | RuleId::Rdfs8 | RuleId::Rdfs10 | RuleId::Rdfs12 | RuleId::Rdfs13 => {
            let (io, op, oo, ois): (u64, u64, u64, bool) = match id {
                RuleId::Rdfs6 => (
                    NodeDictionary::RDF_PROPERTY,
                    NodeDictionary::RDFS_SUB_PROPERTY_OF,
                    0,
                    true,
                ),
                RuleId::Rdfs8 => (
                    NodeDictionary::RDFS_CLASS,
                    NodeDictionary::RDF_TYPE,
                    NodeDictionary::RDFS_RESOURCE,
                    false,
                ),
                RuleId::Rdfs10 => (
                    NodeDictionary::RDFS_CLASS,
                    NodeDictionary::RDFS_SUB_CLASS_OF,
                    0,
                    true,
                ),
                RuleId::Rdfs12 => (
                    NodeDictionary::RDFS_CONTAINER_MEMBERSHIP_PROPERTY,
                    NodeDictionary::RDFS_SUB_PROPERTY_OF,
                    NodeDictionary::RDFS_MEMBER,
                    false,
                ),
                _ => (
                    NodeDictionary::RDFS_DATATYPE,
                    NodeDictionary::RDFS_SUB_CLASS_OF,
                    NodeDictionary::RDFS_LITERAL,
                    false,
                ),
            };
            let x = choose|x: u64|
                #[trigger] chunk_of(ts, NodeDictionary::RDF_TYPE).contains(Pair { s: x, o: io })
                    && t == (Triple {
                    s: x,
                    p: op,
                    o: if ois {
                        x
                    } else {
                        oo
                    },
                });
            lemma_chunk_member_ids(ts, NodeDictionary::RDF_TYPE, x, io);
        },
        RuleId::ScmDpOp => {
            let x = choose|x: u64|
                #![trigger chunk_of(ts, NodeDictionary::RDF_TYPE).contains(
                    Pair { s: x, o: NodeDictionary::OWL_DATATYPE_PROPERTY },
                )]
                #![trigger chunk_of(ts, NodeDictionary::RDF_TYPE).contains(
                    Pair { s: x, o: NodeDictionary::OWL_OBJECT_PROPERTY },
                )]
                {
                    &&& (chunk_of(ts, NodeDictionary::RDF_TYPE).contains(
                        Pair { s: x, o: NodeDictionary::OWL_DATATYPE_PROPERTY },
                    ) || chunk_of(ts, NodeDictionary::RDF_TYPE).contains(
                        Pair { s: x, o: NodeDictionary::OWL_OBJECT_PROPERTY },
                    ))
                    &&& (t == (Triple { s: x, p: NodeDictionary::RDFS_SUB_PROPERTY_OF, o: x }) || t
                        == (Triple { s: x, p: NodeDictionary::OWL_EQUIVALENT_PROPERTY, o: x }))
                };
            if chunk_of(ts, NodeDictionary::RDF_TYPE).contains(
                Pair { s: x, o: NodeDictionary::OWL_DATATYPE_PROPERTY },
            ) {
                lemma_chunk_member_ids(
                    ts,
                    NodeDictionary::RDF_TYPE,
                    x,
                    NodeDictionary::OWL_DATATYPE_PROPERTY,
                );
            } else {
                lemma_chunk_member_ids(
                    ts,
                    NodeDictionary::RDF_TYPE,
                    x,
                    NodeDictionary::OWL_OBJECT_PROPERTY,
                );
            }
        },
        RuleId::ScmCls => {
            let c = choose|c: u64|
                #[trigger] chunk_of(ts, NodeDictionary::RDF_TYPE).contains(
                    Pair { s: c, o: NodeDictionary::OWL_CLASS },
                ) && {
                    ||| t == (Triple { s: c, p: NodeDictionary::RDFS_SUB_CLASS_OF, o: c })
                    ||| t == (Triple { s: c, p: NodeDictionary::OWL_EQUIVALENT_CLASS, o: c })
                    ||| t == (Triple {
                        s: c,
                        p: NodeDictionary::RDFS_SUB_CLASS_OF,
                        o: NodeDictionary::OWL_THING,
                    })
                    ||| t == (Triple {
                        s: NodeDictionary::OWL_NOTHING,
                        p: NodeDictionary::RDFS_SUB_CLASS_OF,
                        o: c,
                    })
                };
            lemma_chunk_member_ids(ts, NodeDictionary::RDF_TYPE, c, NodeDictionary::OWL_CLASS);
        },
    }
}

/// The ids of all pairs in a chunk, flattened.
spec fn chunk_ids(ps: Seq<Pair>) -> Seq<u64>
    decreases ps.len(),
{
    if ps.len() == 0 {
        Seq::empty()
    } else {
        chunk_ids(ps.drop_last()) + seq![ps.last().s, ps.last().o]
    }
}

proof fn lemma_concat_contains_left<A>(a: Seq<A>, b: Seq<A>, v: A)
    requires
        a.contains(v),
    ensures
        (a + b).contains(v),
{
    let i = choose|i: int| 0 <= i < a.len() && a[i] == v;
    assert((a + b)[i] == v);
}

proof fn lemma_concat_contains_right<A>(a: Seq<A>, b: Seq<A>, v: A)
    requires
        b.contains(v),
    ensures
        (a + b).contains(v),
{
    let i = choose|i: int| 0 <= i < b.len() && b[i] == v;
    assert((a + b)[a.len() + i] == v);
}

proof fn lemma_chunk_ids(ps: Seq<Pair>, x: u64, y: u64)
    requires
        ps.contains(Pair { s: x, o: y }),
    ensures
        chunk_ids(ps).contains(x),
        chunk_ids(ps).contains(y),
    decreases ps.len(),
{
    let tailseq = seq![ps.last().s, ps.last().o];
    if ps.last() == (Pair { s: x, o: y }) {
        assert(tailseq[0] == x && tailseq[1] == y);
        lemma_concat_contains_right(chunk_ids(ps.drop_last()), tailseq, x);
        lemma_concat_contains_right(chunk_ids(ps.drop_last()), tailseq, y);
    } else {
        let i = choose|i: int| 0 <= i < ps.len() && ps[i] == (Pair { s: x, o: y });
        assert(ps.drop_last()[i] == (Pair { s: x, o: y }));
        assert(ps.drop_last().contains(Pair { s: x, o: y }));
        lemma_chunk_ids(ps.drop_last(), x, y);
        lemma_concat_contains_left(chunk_ids(ps.drop_last()), tailseq, x);
        lemma_concat_contains_left(chunk_ids(ps.drop_last()), tailseq, y);
    }
}

/// All ids occurring in a store: pair components and the predicate id of
/// every chunk slot.
spec fn store_ids(cs: Seq<crate::inferray::Chunk>) -> Seq<u64>
    decreases cs.len(),
{
    if cs.len() == 0 {
        Seq::empty()
    } else {
        store_ids(cs.drop_last()) + chunk_ids(cs.last().so_seq()) + seq![
            prop_at_offset(cs.len() - 1),
        ]
    }
}

proof fn lemma_store_ids(cs: Seq<crate::inferray::Chunk>, k: int, x: u64, y: u64)
    requires
        0 <= k < cs.len(),
        cs[k].so_seq().contains(Pair { s: x, o: y }),
    ensures
        store_ids(cs).contains(x),
        store_ids(cs).contains(y),
        store_ids(cs).contains(prop_at_offset(k)),
    decreases cs.len(),
{
    let front = store_ids(cs.drop_last()) + chunk_ids(cs.last().so_seq());
    let pkseq = seq![prop_at_offset(cs.len() - 1)];
    if k == cs.len() - 1 {
        lemma_chunk_ids(cs.last().so_seq(), x, y);
        lemma_concat_contains_right(store_ids(cs.drop_last()), chunk_ids(cs.last().so_seq()), x);
        lemma_concat_contains_right(store_ids(cs.drop_last()), chunk_ids(cs.last().so_seq()), y);
        lemma_concat_contains_left(front, pkseq, x);
        lemma_concat_contains_left(front, pkseq, y);
        assert(pkseq[0] == prop_at_offset(k));
        lemma_concat_contains_right(front, pkseq, prop_at_offset(k));
    } else {
        assert(cs.drop_last()[k] == cs[k]);
        lemma_store_ids(cs.drop_last(), k, x, y);
        lemma_concat_contains_left(store_ids(cs.drop_last()), chunk_ids(cs.last().so_seq()), x);
        lemma_concat_contains_left(store_ids(cs.drop_last()), chunk_ids(cs.last().so_seq()), y);
        lemma_concat_contains_left(
            store_ids(cs.drop_last()),
            chunk_ids(cs.last().so_seq()),
            prop_at_offset(k),
        );
        lemma_concat_contains_left(front, pkseq, x);
        lemma_concat_contains_left(front, pkseq, y);
        lemma_concat_contains_left(front, pkseq, prop_at_offset(k));
    }
}

/// The reserved vocabulary ids as a sequence.
spec fn const_ids_seq() -> Seq<u64> {
    Seq::new(71, |i: int| (START_INDEX - 55 + i) as u64)
}

proof fn lemma_const_ids(v: u64)
    requires
        rule_const_id(v),
    ensures
        const_ids_seq().contains(v),
{
    let i = v - (START_INDEX - 55);
    assert(const_ids_seq()[i as int] == v);
}

/// All triples over a finite id list.
spec fn cube_of(uids: Seq<u64>) -> Seq<Triple> {
    Seq::new(
        (uids.len() * uids.len() * uids.len()) as nat,
        |k: int|
            Triple {
                s: uids[k / (uids.len() * uids.len()) as int],
                p: uids[(k % (uids.len() * uids.len()) as int) / uids.len() as int],
                o: uids[(k % (uids.len() * uids.len()) as int) % uids.len() as int],
            },
    )
}

proof fn lemma_cube_mem(uids: Seq<u64>, t: Triple)
    requires
        uids.contains(t.s),
        uids.contains(t.p),
        uids.contains(t.o),
    ensures
        cube_of(uids).contains(t),
{
    let n = uids.len() as int;
    let i = choose|i: int| 0 <= i < n && uids[i] == t.s;
    let j = choose|j: int| 0 <= j < n && uids[j] == t.p;
    let l = choose|l: int| 0 <= l < n && uids[l] == t.o;
    let k = i * (n * n) + j * n + l;
    assert(0 <= j * n + l < n * n) by (nonlinear_arith)
        requires
            0 <= j < n,
            0 <= l < n,
    ;
    assert(k / (n * n) == i && k % (n * n) == j * n + l) by (nonlinear_arith)
        requires
            k == i * (n * n) + j * n + l,
            0 <= i,
            0 <= j * n + l < n * n,
    ;
    assert((j * n + l) / n == j && (j * n + l) % n == l) by (nonlinear_arith)
        requires
            0 <= j,
            0 <= l < n,
    ;
    assert(0 <= k < n * n * n) by (nonlinear_arith)
        requires
            k == i * (n * n) + j * n + l,
            0 <= i < n,
            0 <= j * n + l < n * n,
    ;
    assert(cube_of(uids)[k] == t);
}

proof fn lemma_cube_inv(uids: Seq<u64>, t: Triple)
    requires
        cube_of(uids).contains(t),
    ensures
        uids.contains(t.s),
        uids.contains(t.p),
        uids.contains(t.o),
{
    let n = uids.len() as int;
    let k = choose|k: int| 0 <= k < cube_of(uids).len() && cube_of(uids)[k] == t;
    assert(0 <= k / (n * n) < n) by (nonlinear_arith)
        requires
            0 <= k < n * n * n,
            n > 0,
    ;
    assert(0 <= k % (n * n) < n * n) by (nonlinear_arith)
        requires
            0 <= k,
            n > 0,
    ;
    assert(0 <= (k % (n * n)) / n < n) by (nonlinear_arith)
        requires
            0 <= k % (n * n) < n * n,
            n > 0,
    ;
    assert(0 <= (k % (n * n)) % n < n) by (nonlinear_arith)
        requires
            0 <= k % (n * n),
            n > 0,
    ;
    assert(uids[k / (n * n)] == t.s);
    assert(uids[(k % (n * n)) / n] == t.p);
    assert(uids[(k % (n * n)) % n] == t.o);
}

/// Two well-formed stores holding the same triples have the same chunks.
proof fn lemma_has_eq_chunks(a: TripleStore, b: TripleStore)
    requires
        a.wf(),
        b.wf(),
        b.elem@.len() >= a.elem@.len(),
        forall|t: Triple| a.has_triple(t) == b.has_triple(t),
    ensures
        forall|k: int| a.chunk_at(k) == b.chunk_at(k),
{
    assert forall|k: int| a.chunk_at(k) == b.chunk_at(k) by {
        if 0 <= k < b.elem@.len() {
            let p = prop_at_offset(k);
            assert(p < START_INDEX);
            assert(offset_of(p) == k);
            assert forall|q: Pair| a.chunk_at(k).contains(q) <==> b.chunk_at(k).contains(q) by {
                let t = Triple { s: q.s, p: p, o: q.o };
                assert(a.has_triple(t) == b.has_triple(t));
            }
            assert(pairs_sorted(a.chunk_at(k))) by {
                if k >= a.elem@.len() {
                    assert(a.chunk_at(k) =~= Seq::<Pair>::empty());
                }
            }
            lemma_sorted_unique(a.chunk_at(k), b.chunk_at(k));
        } else {
            assert(a.chunk_at(k) =~= Seq::<Pair>::empty());
            assert(b.chunk_at(k) =~= Seq::<Pair>::empty());
            assert(a.chunk_at(k) == b.chunk_at(k));
        }
    }
}

/// Run every rule once against the current store snapshot and merge the
/// results in: afterwards the store holds exactly its old triples and
/// every triple some rule derived from the old snapshot.
pub fn process_rules(rules: &Vec<RuleId>, store: &mut TripleStore)
    requires
        old(store).wf(),
    ensures
        final(store).wf(),
        final(store).elem@.len() >= old(store).elem@.len(),
        forall|k: int, p: Pair|
            old(store).chunk_at(k).contains(p) ==> #[trigger] final(store).chunk_at(k).contains(p),
        forall|t: Triple|
            #[trigger] final(store).has_triple(t) <==> (old(store).has_triple(t) || exists|i: int|
                0 <= i < rules@.len() && #[trigger] rule_sem(rules@[i], *old(store), t)),
{
    store.ensure_all_os();
    let ghost mid = *store;
    let mut flat: Vec<Triple> = Vec::new();
    let mut i: usize = 0;
    while i < rules.len()
        invariant
            i <= rules@.len(),
            store.wf(),
            store.all_os(),
            *store == mid,
            forall|t: Triple|
                #[trigger] flat@.contains(t) <==> exists|ii: int|
                    0 <= ii < i && #[trigger] rule_sem(rules@[ii], mid, t),
            forall|j: int| 0 <= j < flat@.len() ==> (#[trigger] flat@[j]).p < START_INDEX,
        decreases rules@.len() - i,
    {
        let out = apply_rule(rules[i], store);
        let ghost flat0 = flat@;
        let mut j: usize = 0;
        while j < out.len()
            invariant
                j <= out@.len(),
                i < rules@.len(),
                forall|t: Triple| #[trigger] out@.contains(t) <==> rule_sem(rules@[i as int], mid, t),
                forall|jj: int| 0 <= jj < out@.len() ==> (#[trigger] out@[jj]).p < START_INDEX,
                forall|t: Triple|
                    #[trigger] flat@.contains(t) <==> (flat0.contains(t) || out@.subrange(
                        0,
                        j as int,
                    ).contains(t)),
                forall|jj: int| 0 <= jj < flat@.len() ==> (#[trigger] flat@[jj]).p < START_INDEX,
            decreases out@.len() - j,
        {
            let ghost prefix = out@.subrange(0, j as int);
            let t = out[j];
            proof {
                lemma_push_contains(flat@, t);
                assert(out@.subrange(0, j as int + 1) =~= prefix.push(t));
                lemma_push_contains(prefix, t);
                assert(out@[j as int].p < START_INDEX);
            }
            flat.push(t);
            j += 1;
        }
        i += 1;
        proof {
            assert(out@.subrange(0, out@.len() as int) =~= out@);
            assert forall|t: Triple|
                #[trigger] flat@.contains(t) <==> exists|ii: int|
                    0 <= ii < i && #[trigger] rule_sem(rules@[ii], mid, t) by {
                if flat@.contains(t) {
                    if flat0.contains(t) {
                        let ii = choose|ii: int|
                            0 <= ii < i - 1 && #[trigger] rule_sem(rules@[ii], mid, t);
                        assert(rule_sem(rules@[ii], mid, t));
                    } else {
                        assert(out@.contains(t));
                        assert(rule_sem(rules@[i - 1], mid, t));
                    }
                }
                if exists|ii: int| 0 <= ii < i && #[trigger] rule_sem(rules@[ii], mid, t) {
                    let ii = choose|ii: int| 0 <= ii < i && #[trigger] rule_sem(rules@[ii], mid, t);
                    if ii < i - 1 {
                        assert(flat0.contains(t));
                    } else {
                        assert(out@.contains(t));
                    }
                }
            }
        }
    }
    let delta = TripleStore::new(flat);
    store.merge(&delta);
    proof {
        assert forall|k: int| mid.chunk_at(k) == old(store).chunk_at(k) by {}
        assert forall|t: Triple|
            #[trigger] final(store).has_triple(t) <==> (old(store).has_triple(t) || exists|i2: int|
                0 <= i2 < rules@.len() && #[trigger] rule_sem(rules@[i2], *old(store), t)) by {
            assert(mid.has_triple(t) == old(store).has_triple(t)) by {
                assert(mid.chunk_at(offset_of(t.p)) == old(store).chunk_at(offset_of(t.p)));
            }
            assert(delta.has_triple(t) <==> flat@.contains(t));
            if final(store).has_triple(t) {
                if delta.has_triple(t) && !mid.has_triple(t) {
                    let ii = choose|ii: int|
                        0 <= ii < rules@.len() && #[trigger] rule_sem(rules@[ii], mid, t);
                    lemma_sem_stable(rules@[ii], mid, *old(store));
                    assert(rule_sem(rules@[ii], *old(store), t));
                }
            }
            if exists|i2: int|
                0 <= i2 < rules@.len() && #[trigger] rule_sem(rules@[i2], *old(store), t) {
                let ii = choose|ii: int|
                    0 <= ii < rules@.len() && #[trigger] rule_sem(rules@[ii], *old(store), t);
                lemma_sem_stable(rules@[ii], mid, *old(store));
                assert(rule_sem(rules@[ii], mid, t));
                assert(flat@.contains(t));
            }
        }
        assert forall|k: int, p: Pair|
            old(store).chunk_at(k).contains(p) implies #[trigger] final(store).chunk_at(
            k,
        ).contains(p) by {
            assert(0 <= k < old(store).elem@.len()) by {
                if !(0 <= k < old(store).elem@.len()) {
                    assert(old(store).chunk_at(k) =~= Seq::<Pair>::empty());
                }
            }
            let pk = prop_at_offset(k);
            assert(pk < START_INDEX);
            assert(offset_of(pk) == k);
            let t2 = Triple { s: p.s, p: pk, o: p.o };
            assert(old(store).has_triple(t2));
            assert(final(store).has_triple(t2));
            assert(final(store).chunk_at(k).contains(Pair { s: t2.s, o: t2.o }));
        }
    }
}

/// Whether a store already holds everything the rules can derive from it.
pub open spec fn rules_closed(rules: Seq<RuleId>, ts: TripleStore) -> bool {
    forall|i: int, t: Triple|
        0 <= i < rules.len() && #[trigger] rule_sem(rules[i], ts, t) ==> ts.has_triple(t)
}

/// A rule set that is run repeatedly until the store stops growing.
pub struct FixPointRuleSet {
    pub rules: Vec<RuleId>,
}

impl FixPointRuleSet {
    /// Whether the set holds no rule.
    pub fn is_empty(&self) -> (r: bool)
        ensures
            r == (self.rules@.len() == 0),
    {
        self.rules.len() == 0
    }

    /// Run the rules to a fixed point: afterwards the store holds its old
    /// triples, nothing the rules derive from the final store is missing,
    /// and a store that was already closed comes back unchanged.
    pub fn process(&self, store: &mut TripleStore)
        requires
            old(store).wf(),
        ensures
            final(store).wf(),
            final(store).elem@.len() >= old(store).elem@.len(),
            forall|t: Triple| old(store).has_triple(t) ==> #[trigger] final(store).has_triple(t),
            rules_closed(self.rules@, *final(store)),
            rules_closed(self.rules@, *old(store)) ==> ((forall|k: int|
                final(store).chunk_at(k) == old(store).chunk_at(k)) && final(store).size == old(
                store,
            ).size),
    {
        if self.rules.len() == 0 {
            return ;
        }
        let ghost uids = store_ids(old(store).elem@) + const_ids_seq();
        let ghost cube = cube_of(uids);
        let ghost uset = cube.to_set();
        proof {
            seq_to_set_is_finite(cube);
            assert forall|t: Triple| #[trigger] old(store).has_triple(t) implies uset.contains(
                t,
            ) by {
                lemma_store_has_in_cube(*old(store), uids, t);
            }
        }
        loop
            invariant
                store.wf(),
                store.elem@.len() >= old(store).elem@.len(),
                self.rules@.len() > 0,
                uset.finite(),
                uset == cube.to_set(),
                cube == cube_of(uids),
                uids == store_ids(old(store).elem@) + const_ids_seq(),
                forall|t: Triple| old(store).has_triple(t) ==> #[trigger] store.has_triple(t),
                forall|t: Triple| #[trigger] store.has_triple(t) ==> uset.contains(t),
                rules_closed(self.rules@, *old(store)) ==> ((forall|k: int|
                    store.chunk_at(k) == old(store).chunk_at(k)) && store.size == old(store).size),
            decreases uset.len() - Set::new(|t: Triple| store.has_triple(t)).len(),
        {
            let prev_size = store.size();
            let ghost prev = *store;
            proof {
                assert(Set::new(|t: Triple| prev.has_triple(t)) <= uset);
                lemma_len_subset(Set::new(|t: Triple| prev.has_triple(t)), uset);
            }
            process_rules(&self.rules, store);
            proof {
                assert forall|t: Triple| #[trigger] store.has_triple(t) implies uset.contains(
                    t,
                ) by {
                    if !prev.has_triple(t) {
                        let ii = choose|ii: int|
                            0 <= ii < self.rules@.len() && #[trigger] rule_sem(
                                self.rules@[ii],
                                prev,
                                t,
                            );
                        lemma_rule_ids(self.rules@[ii], prev, t);
                        lemma_tid_in_uids(prev, store_ids(old(store).elem@), uids, uset, t.s);
                        lemma_tid_in_uids(prev, store_ids(old(store).elem@), uids, uset, t.p);
                        lemma_tid_in_uids(prev, store_ids(old(store).elem@), uids, uset, t.o);
                        lemma_cube_mem(uids, t);
                    }
                }
            }
            if store.size() == prev_size {
                proof {
                    lemma_store_growth(prev, *store);
                    assert forall|i: int, t: Triple|
                        0 <= i < self.rules@.len() && #[trigger] rule_sem(
                            self.rules@[i],
                            *store,
                            t,
                        ) implies store.has_triple(t) by {
                        stable_one(self.rules@[i], *store, prev, t);
                        assert(rule_sem(self.rules@[i], prev, t));
                    }
                    if rules_closed(self.rules@, *old(store)) {
                        assert forall|k: int|
                            store.chunk_at(k) == old(store).chunk_at(k) by {
                            assert(store.chunk_at(k) == prev.chunk_at(k));
                        }
                    }
                }
                return ;
            }
            proof {
                // the store grew: pick a fresh triple for the measure
                assert(exists|tw: Triple| store.has_triple(tw) && !prev.has_triple(tw)) by {
                    if forall|tw: Triple| #[trigger] store.has_triple(tw) ==> prev.has_triple(tw) {
                        assert forall|tw: Triple| prev.has_triple(tw) == store.has_triple(
                            tw,
                        ) by {}
                        lemma_has_eq_chunks(prev, *store);
                        lemma_store_size_from_chunks(prev, *store);
                    }
                }
                let tw = choose|tw: Triple| store.has_triple(tw) && !prev.has_triple(tw);
                let pset = Set::new(|t: Triple| prev.has_triple(t));
                let nset = Set::new(|t: Triple| store.has_triple(t));
                assert(nset <= uset);
                lemma_set_subset_finite(uset, nset);
                assert(pset <= nset);
                assert(nset.contains(tw) && !pset.contains(tw));
                pset.lemma_subset_not_in_lt(nset, tw);
                lemma_len_subset(nset, uset);
                // a closed store would not have grown
                if rules_closed(self.rules@, *old(store)) {
                    assert forall|t: Triple| store.has_triple(t) implies prev.has_triple(t) by {
                        if !prev.has_triple(t) {
                            let ii = choose|ii: int|
                                0 <= ii < self.rules@.len() && #[trigger] rule_sem(
                                    self.rules@[ii],
                                    prev,
                                    t,
                                );
                            lemma_sem_stable(self.rules@[ii], prev, *old(store));
                            assert(rule_sem(self.rules@[ii], *old(store), t));
                            assert(old(store).has_triple(t));
                        }
                    }
                    assert(false);
                }
            }
        }
    }
}

/// A triple held by a store lies inside the cube over the store's ids
/// extended with the vocabulary.
proof fn lemma_store_has_in_cube(ts: TripleStore, uids: Seq<u64>, t: Triple)
    requires
        ts.has_triple(t),
        uids == store_ids(ts.elem@) + const_ids_seq(),
    ensures
        cube_of(uids).to_set().contains(t),
{
    let k = offset_of(t.p);
    assert(0 <= k < ts.elem@.len()) by {
        if !(0 <= k < ts.elem@.len()) {
            assert(ts.chunk_at(k) =~= Seq::<Pair>::empty());
        }
    }
    lemma_store_ids(ts.elem@, k, t.s, t.o);
    assert(prop_at_offset(k) == t.p);
    lemma_concat_contains_left(store_ids(ts.elem@), const_ids_seq(), t.s);
    lemma_concat_contains_left(store_ids(ts.elem@), const_ids_seq(), t.p);
    lemma_concat_contains_left(store_ids(ts.elem@), const_ids_seq(), t.o);
    lemma_cube_mem(uids, t);
}

/// A rule-output id over a store whose triples lie in the cube is itself
/// among the cube's ids.
proof fn lemma_tid_in_uids(ts: TripleStore, pre: Seq<u64>, uids: Seq<u64>, uset: Set<Triple>, v: u64)
    requires
        ts.wf(),
        tid_ok(ts, v),
        uids == pre + const_ids_seq(),
        uset == cube_of(uids).to_set(),
        forall|t: Triple| #[trigger] ts.has_triple(t) ==> uset.contains(t),
    ensures
        uids.contains(v),
{
    if id_in_store(ts, v) {
        let (k, x, y) = choose|k: int, x: u64, y: u64|
            #![trigger ts.chunk_at(k).contains(Pair { s: x, o: y })]
            0 <= k < ts.elem@.len() && ts.chunk_at(k).contains(Pair { s: x, o: y }) && (x == v || y
                == v || prop_at_offset(k) == v);
        let p = prop_at_offset(k);
        assert(p < START_INDEX);
        assert(offset_of(p) == k);
        let t = Triple { s: x, p: p, o: y };
        assert(ts.has_triple(t));
        assert(uset.contains(t));
        assert(cube_of(uids).contains(t));
        lemma_cube_inv(uids, t);
        assert(uids.contains(t.s) && uids.contains(t.p) && uids.contains(t.o));
        assert(v == t.s || v == t.p || v == t.o);
        assert(uids.contains(v));
    } else {
        lemma_const_ids(v);
        lemma_concat_contains_right(pre, const_ids_seq(), v);
        assert(uids.contains(v));
    }
}

} // verus!
