//! Zeta rules: cheap one-pass rules over the `rdf:type` chunk, and the
//! resource-typing rule RDFS4.

#![allow(non_snake_case)]

use vstd::prelude::*;

use crate::inferray::{NodeDictionary, TripleStore};
use crate::rules::engine::chunk_of;
use crate::utils::{ids_contain, matches_of, prop_idx_to_offset, Pair, Triple, START_INDEX};

verus! {

/// Every subject typed `input_o` yields one fixed triple: its own subject,
/// the fixed predicate `output_p`, and either itself or `output_o`.
pub open spec fn zeta_sem(
    ts: TripleStore,
    input_o: u64,
    output_p: u64,
    output_o: u64,
    object_is_subject: bool,
    t: Triple,
) -> bool {
    exists|x: u64|
        #[trigger] chunk_of(ts, NodeDictionary::RDF_TYPE).contains(Pair { s: x, o: input_o }) && t
            == (Triple {
            s: x,
            p: output_p,
            o: if object_is_subject {
                x
            } else {
                output_o
            },
        })
}

/// Collect every subject typed with the class `input_o`.
pub(crate) fn typed_subjects(ts: &TripleStore, input_o: u64) -> (r: Vec<u64>)
    requires
        ts.wf(),
        ts.all_os(),
    ensures
        forall|x: u64|
            #[trigger] r@.contains(x) <==> chunk_of(*ts, NodeDictionary::RDF_TYPE).contains(
                Pair { s: x, o: input_o },
            ),
{
    let toff = prop_idx_to_offset(NodeDictionary::RDF_TYPE);
    if toff >= ts.elem().len() {
        let r: Vec<u64> = Vec::new();
        return r;
    }
    let r = matches_of(ts.elem()[toff].os(), input_o);
    proof {
        assert(ts.elem@[toff as int].wf());
        assert forall|x: u64| #[trigger] r@.contains(x) <==> chunk_of(
            *ts,
            NodeDictionary::RDF_TYPE,
        ).contains(Pair { s: x, o: input_o }) by {}
    }
    r
}

fn apply_zeta_rule(
    ts: &TripleStore,
    input_o: u64,
    output_p: u64,
    output_o: u64,
    object_is_subject: bool,
) -> (r: Vec<Triple>)
    requires
        ts.wf(),
        ts.all_os(),
        output_p < START_INDEX,
    ensures
        forall|t: Triple|
            #[trigger] r@.contains(t) <==> zeta_sem(
                *ts,
                input_o,
                output_p,
                output_o,
                object_is_subject,
                t,
            ),
        forall|i: int| 0 <= i < r@.len() ==> (#[trigger] r@[i]).p < START_INDEX,
{
    let mut r: Vec<Triple> = Vec::new();
    let xs = typed_subjects(ts, input_o);
    let mut k: usize = 0;
    while k < xs.len()
        invariant
            k <= xs@.len(),
            ts.wf(),
            output_p < START_INDEX,
            forall|x: u64|
                #[trigger] xs@.contains(x) <==> chunk_of(*ts, NodeDictionary::RDF_TYPE).contains(
                    Pair { s: x, o: input_o },
                ),
            forall|t: Triple|
                #[trigger] r@.contains(t) ==> zeta_sem(
                    *ts,
                    input_o,
                    output_p,
                    output_o,
                    object_is_subject,
                    t,
                ),
            forall|kk: int|
                0 <= kk < k ==> r@.contains(
                    Triple {
                        s: #[trigger] xs@[kk],
                        p: output_p,
                        o: if object_is_subject {
                            xs@[kk]
                        } else {
                            output_o
                        },
                    },
                ),
            forall|i: int| 0 <= i < r@.len() ==> (#[trigger] r@[i]).p < START_INDEX,
        decreases xs@.len() - k,
    {
        let x = xs[k];
        let t = Triple {
            s: x,
            p: output_p,
            o: if object_is_subject {
                x
            } else {
                output_o
            },
        };
        proof {
            assert(xs@.contains(xs@[k as int]));
            crate::utils::lemma_push_contains(r@, t);
        }
        r.push(t);
        k += 1;
    }
    proof {
        assert forall|t: Triple|
            zeta_sem(*ts, input_o, output_p, output_o, object_is_subject, t)
            implies #[trigger] r@.contains(t) by {
            let x = choose|x: u64|
                #[trigger] chunk_of(*ts, NodeDictionary::RDF_TYPE).contains(
                    Pair { s: x, o: input_o },
                ) && t == (Triple {
                    s: x,
                    p: output_p,
                    o: if object_is_subject {
                        x
                    } else {
                        output_o
                    },
                });
            assert(xs@.contains(x));
            let kk = choose|kk: int| 0 <= kk < xs@.len() && xs@[kk] == x;
            assert(r@.contains(
                Triple {
                    s: xs@[kk],
                    p: output_p,
                    o: if object_is_subject {
                        xs@[kk]
                    } else {
                        output_o
                    },
                },
            ));
        }
    }
    r
}

/// Every declared property is a subproperty of itself.
pub fn RDFS6(ts: &TripleStore) -> (r: Vec<Triple>)
    requires
        ts.wf(),
        ts.all_os(),
    ensures
        forall|t: Triple|
            #[trigger] r@.contains(t) <==> zeta_sem(
                *ts,
                NodeDictionary::RDF_PROPERTY,
                NodeDictionary::RDFS_SUB_PROPERTY_OF,
                0,
                true,
                t,
            ),
        forall|i: int| 0 <= i < r@.len() ==> (#[trigger] r@[i]).p < START_INDEX,
{
    apply_zeta_rule(
        ts,
        NodeDictionary::RDF_PROPERTY,
        NodeDictionary::RDFS_SUB_PROPERTY_OF,
        0,
        true,
    )
}

/// Every declared class is a resource.
pub fn RDFS8(ts: &TripleStore) -> (r: Vec<Triple>)
    requires
        ts.wf(),
        ts.all_os(),
    ensures
        forall|t: Triple|
            #[trigger] r@.contains(t) <==> zeta_sem(
                *ts,
                NodeDictionary::RDFS_CLASS,
                NodeDictionary::RDF_TYPE,
                NodeDictionary::RDFS_RESOURCE,
                false,
                t,
            ),
        forall|i: int| 0 <= i < r@.len() ==> (#[trigger] r@[i]).p < START_INDEX,
{
    apply_zeta_rule(
        ts,
        NodeDictionary::RDFS_CLASS,
        NodeDictionary::RDF_TYPE,
        NodeDictionary::RDFS_RESOURCE,
        false,
    )
}

/// Every declared class is a subclass of itself.
pub fn RDFS10(ts: &TripleStore) -> (r: Vec<Triple>)
    requires
        ts.wf(),
        ts.all_os(),
    ensures
        forall|t: Triple|
            #[trigger] r@.contains(t) <==> zeta_sem(
                *ts,
                NodeDictionary::RDFS_CLASS,
                NodeDictionary::RDFS_SUB_CLASS_OF,
                0,
                true,
                t,
            ),
        forall|i: int| 0 <= i < r@.len() ==> (#[trigger] r@[i]).p < START_INDEX,
{
    apply_zeta_rule(ts, NodeDictionary::RDFS_CLASS, NodeDictionary::RDFS_SUB_CLASS_OF, 0, true)
}

/// Container membership properties are subproperties of `rdfs:member`.
pub fn RDFS12(ts: &TripleStore) -> (r: Vec<Triple>)
    requires
        ts.wf(),
        ts.all_os(),
    ensures
        forall|t: Triple|
            #[trigger] r@.contains(t) <==> zeta_sem(
                *ts,
                NodeDictionary::RDFS_CONTAINER_MEMBERSHIP_PROPERTY,
                NodeDictionary::RDFS_SUB_PROPERTY_OF,
                NodeDictionary::RDFS_MEMBER,
                false,
                t,
            ),
        forall|i: int| 0 <= i < r@.len() ==> (#[trigger] r@[i]).p < START_INDEX,
{
    apply_zeta_rule(
        ts,
        NodeDictionary::RDFS_CONTAINER_MEMBERSHIP_PROPERTY,
        NodeDictionary::RDFS_SUB_PROPERTY_OF,
        NodeDictionary::RDFS_MEMBER,
        false,
    )
}

/// Every datatype is a subclass of `rdfs:Literal`.
pub fn RDFS13(ts: &TripleStore) -> (r: Vec<Triple>)
    requires
        ts.wf(),
        ts.all_os(),
    ensures
        forall|t: Triple|
            #[trigger] r@.contains(t) <==> zeta_sem(
                *ts,
                NodeDictionary::RDFS_DATATYPE,
                NodeDictionary::RDFS_SUB_CLASS_OF,
                NodeDictionary::RDFS_LITERAL,
                false,
                t,
            ),
        forall|i: int| 0 <= i < r@.len() ==> (#[trigger] r@[i]).p < START_INDEX,
{
    apply_zeta_rule(
        ts,
        NodeDictionary::RDFS_DATATYPE,
        NodeDictionary::RDFS_SUB_CLASS_OF,
        NodeDictionary::RDFS_LITERAL,
        false,
    )
}

/// Every datatype or object property is a subproperty of and equivalent
/// to itself.
pub open spec fn scm_dp_op_sem(ts: TripleStore, t: Triple) -> bool {
    exists|x: u64|
        #![trigger chunk_of(ts, NodeDictionary::RDF_TYPE).contains(
            Pair { s: x, o: NodeDictionary::OWL_DATATYPE_PROPERTY },
        )]
        #![trigger chunk_of(ts, NodeDictionary::RDF_TYPE).contains(
            Pair { s: x, o: NodeDictionary::OWL_OBJECT_PROPERTY },
        )]
        {
            &&& (chunk_of(ts, NodeDictionary::RDF_TYPE).contains(
                Pair { s: x, o: NodeDictionary::OWL_DATATYPE_PROPERTY },
            ) || chunk_of(ts, NodeDictionary::RDF_TYPE).contains(
                Pair { s: x, o: NodeDictionary::OWL_OBJECT_PROPERTY },
            ))
            &&& (t == (Triple { s: x, p: NodeDictionary::RDFS_SUB_PROPERTY_OF, o: x }) || t == (
            Triple { s: x, p: NodeDictionary::OWL_EQUIVALENT_PROPERTY, o: x }))
        }
}

pub fn SCM_DP_OP(ts: &TripleStore) -> (r: Vec<Triple>)
    requires
        ts.wf(),
        ts.all_os(),
    ensures
        forall|t: Triple| #[trigger] r@.contains(t) <==> scm_dp_op_sem(*ts, t),
        forall|i: int| 0 <= i < r@.len() ==> (#[trigger] r@[i]).p < START_INDEX,
{
    let mut r: Vec<Triple> = Vec::new();
    let dts = typed_subjects(ts, NodeDictionary::OWL_DATATYPE_PROPERTY);
    let obs = typed_subjects(ts, NodeDictionary::OWL_OBJECT_PROPERTY);
    let mut k: usize = 0;
    while k < dts.len()
        invariant
            k <= dts@.len(),
            ts.wf(),
            forall|x: u64|
                #[trigger] dts@.contains(x) <==> chunk_of(*ts, NodeDictionary::RDF_TYPE).contains(
                    Pair { s: x, o: NodeDictionary::OWL_DATATYPE_PROPERTY },
                ),
            forall|t: Triple| #[trigger] r@.contains(t) ==> scm_dp_op_sem(*ts, t),
            forall|kk: int|
                0 <= kk < k ==> r@.contains(
                    Triple {
                        s: #[trigger] dts@[kk],
                        p: NodeDictionary::RDFS_SUB_PROPERTY_OF,
                        o: dts@[kk],
                    },
                ) && r@.contains(
                    Triple { s: dts@[kk], p: NodeDictionary::OWL_EQUIVALENT_PROPERTY, o: dts@[kk] },
                ),
            forall|i: int| 0 <= i < r@.len() ==> (#[trigger] r@[i]).p < START_INDEX,
        decreases dts@.len() - k,
    {
        let x = dts[k];
        let t1 = Triple { s: x, p: NodeDictionary::RDFS_SUB_PROPERTY_OF, o: x };
        let t2 = Triple { s: x, p: NodeDictionary::OWL_EQUIVALENT_PROPERTY, o: x };
        proof {
            assert(dts@.contains(dts@[k as int]));
            crate::utils::lemma_push_contains(r@, t1);
            crate::utils::lemma_push_contains(r@.push(t1), t2);
        }
        r.push(t1);
        r.push(t2);
        k += 1;
    }
    let mut k2: usize = 0;
    while k2 < obs.len()
        invariant
            k2 <= obs@.len(),
            ts.wf(),
            forall|x: u64|
                #[trigger] dts@.contains(x) <==> chunk_of(*ts, NodeDictionary::RDF_TYPE).contains(
                    Pair { s: x, o: NodeDictionary::OWL_DATATYPE_PROPERTY },
                ),
            forall|x: u64|
                #[trigger] obs@.contains(x) <==> chunk_of(*ts, NodeDictionary::RDF_TYPE).contains(
                    Pair { s: x, o: NodeDictionary::OWL_OBJECT_PROPERTY },
                ),
            forall|t: Triple| #[trigger] r@.contains(t) ==> scm_dp_op_sem(*ts, t),
            forall|kk: int|
                0 <= kk < dts@.len() ==> r@.contains(
                    Triple {
                        s: #[trigger] dts@[kk],
                        p: NodeDictionary::RDFS_SUB_PROPERTY_OF,
                        o: dts@[kk],
                    },
                ) && r@.contains(
                    Triple { s: dts@[kk], p: NodeDictionary::OWL_EQUIVALENT_PROPERTY, o: dts@[kk] },
                ),
            forall|kk: int|
                0 <= kk < k2 ==> r@.contains(
                    Triple {
                        s: #[trigger] obs@[kk],
                        p: NodeDictionary::RDFS_SUB_PROPERTY_OF,
                        o: obs@[kk],
                    },
                ) && r@.contains(
                    Triple { s: obs@[kk], p: NodeDictionary::OWL_EQUIVALENT_PROPERTY, o: obs@[kk] },
                ),
            forall|i: int| 0 <= i < r@.len() ==> (#[trigger] r@[i]).p < START_INDEX,
        decreases obs@.len() - k2,
    {
        let x = obs[k2];
        let t1 = Triple { s: x, p: NodeDictionary::RDFS_SUB_PROPERTY_OF, o: x };
        let t2 = Triple { s: x, p: NodeDictionary::OWL_EQUIVALENT_PROPERTY, o: x };
        proof {
            assert(obs@.contains(obs@[k2 as int]));
            crate::utils::lemma_push_contains(r@, t1);
            crate::utils::lemma_push_contains(r@.push(t1), t2);
        }
        r.push(t1);
        r.push(t2);
        k2 += 1;
    }
    proof {
        assert forall|t: Triple| scm_dp_op_sem(*ts, t) implies #[trigger] r@.contains(t) by {
            let x = choose|x: u64|
                #![trigger chunk_of(*ts, NodeDictionary::RDF_TYPE).contains(
                    Pair { s: x, o: NodeDictionary::OWL_DATATYPE_PROPERTY },
                )]
                #![trigger chunk_of(*ts, NodeDictionary::RDF_TYPE).contains(
                    Pair { s: x, o: NodeDictionary::OWL_OBJECT_PROPERTY },
                )]
                {
                    &&& (chunk_of(*ts, NodeDictionary::RDF_TYPE).contains(
                        Pair { s: x, o: NodeDictionary::OWL_DATATYPE_PROPERTY },
                    ) || chunk_of(*ts, NodeDictionary::RDF_TYPE).contains(
                        Pair { s: x, o: NodeDictionary::OWL_OBJECT_PROPERTY },
                    ))
                    &&& (t == (Triple { s: x, p: NodeDictionary::RDFS_SUB_PROPERTY_OF, o: x }) || t
                        == (Triple { s: x, p: NodeDictionary::OWL_EQUIVALENT_PROPERTY, o: x }))
                };
            if chunk_of(*ts, NodeDictionary::RDF_TYPE).contains(
                Pair { s: x, o: NodeDictionary::OWL_DATATYPE_PROPERTY },
            ) {
                assert(dts@.contains(x));
                let kk = choose|kk: int| 0 <= kk < dts@.len() && dts@[kk] == x;
                assert(r@.contains(
                    Triple { s: dts@[kk], p: NodeDictionary::RDFS_SUB_PROPERTY_OF, o: dts@[kk] },
                ));
                assert(r@.contains(
                    Triple { s: dts@[kk], p: NodeDictionary::OWL_EQUIVALENT_PROPERTY, o: dts@[kk] },
                ));
            } else {
                assert(obs@.contains(x));
                let kk = choose|kk: int| 0 <= kk < obs@.len() && obs@[kk] == x;
                assert(r@.contains(
                    Triple { s: obs@[kk], p: NodeDictionary::RDFS_SUB_PROPERTY_OF, o: obs@[kk] },
                ));
                assert(r@.contains(
                    Triple { s: obs@[kk], p: NodeDictionary::OWL_EQUIVALENT_PROPERTY, o: obs@[kk] },
                ));
            }
        }
    }
    r
}

/// Every declared OWL class is a subclass of itself and of `owl:Thing`,
/// equivalent to itself, and a superclass of `owl:Nothing`.
pub open spec fn scm_cls_sem(ts: TripleStore, t: Triple) -> bool {
    exists|c: u64|
        #[trigger] chunk_of(ts, NodeDictionary::RDF_TYPE).contains(
            Pair { s: c, o: NodeDictionary::OWL_CLASS },
        ) && {
            ||| t == (Triple { s: c, p: NodeDictionary::RDFS_SUB_CLASS_OF, o: c })
            ||| t == (Triple { s: c, p: NodeDictionary::OWL_EQUIVALENT_CLASS, o: c })
            ||| t == (Triple {
                s: c,
                p: NodeDictionary::RDFS_SUB_CLASS_OF,
                o: NodeDictionary::OWL_THING,
            })
            ||| t == (Triple {
                s: NodeDictionary::OWL_NOTHING,
                p: NodeDictionary::RDFS_SUB_CLASS_OF,
                o: c,
            })
        }
}

pub fn SCM_CLS(ts: &TripleStore) -> (r: Vec<Triple>)
    requires
        ts.wf(),
        ts.all_os(),
    ensures
        forall|t: Triple| #[trigger] r@.contains(t) <==> scm_cls_sem(*ts, t),
        forall|i: int| 0 <= i < r@.len() ==> (#[trigger] r@[i]).p < START_INDEX,
{
    let mut r: Vec<Triple> = Vec::new();
    let cs = typed_subjects(ts, NodeDictionary::OWL_CLASS);
    let mut k: usize = 0;
    while k < cs.len()
        invariant
            k <= cs@.len(),
            ts.wf(),
            forall|x: u64|
                #[trigger] cs@.contains(x) <==> chunk_of(*ts, NodeDictionary::RDF_TYPE).contains(
                    Pair { s: x, o: NodeDictionary::OWL_CLASS },
                ),
            forall|t: Triple| #[trigger] r@.contains(t) ==> scm_cls_sem(*ts, t),
            forall|kk: int|
                0 <= kk < k ==> {
                    let c = #[trigger] cs@[kk];
                    r@.contains(Triple { s: c, p: NodeDictionary::RDFS_SUB_CLASS_OF, o: c })
                        && r@.contains(
                        Triple { s: c, p: NodeDictionary::OWL_EQUIVALENT_CLASS, o: c },
                    ) && r@.contains(
                        Triple {
                            s: c,
                            p: NodeDictionary::RDFS_SUB_CLASS_OF,
                            o: NodeDictionary::OWL_THING,
                        },
                    ) && r@.contains(
                        Triple {
                            s: NodeDictionary::OWL_NOTHING,
                            p: NodeDictionary::RDFS_SUB_CLASS_OF,
                            o: c,
                        },
                    )
                },
            forall|i: int| 0 <= i < r@.len() ==> (#[trigger] r@[i]).p < START_INDEX,
        decreases cs@.len() - k,
    {
        let c = cs[k];
        let t1 = Triple { s: c, p: NodeDictionary::RDFS_SUB_CLASS_OF, o: c };
        let t2 = Triple { s: c, p: NodeDictionary::OWL_EQUIVALENT_CLASS, o: c };
        let t3 = Triple { s: c, p: NodeDictionary::RDFS_SUB_CLASS_OF, o: NodeDictionary::OWL_THING };
        let t4 = Triple {
            s: NodeDictionary::OWL_NOTHING,
            p: NodeDictionary::RDFS_SUB_CLASS_OF,
            o: c,
        };
        proof {
            assert(cs@.contains(cs@[k as int]));
            crate::utils::lemma_push_contains(r@, t1);
            crate::utils::lemma_push_contains(r@.push(t1), t2);
            crate::utils::lemma_push_contains(r@.push(t1).push(t2), t3);
            crate::utils::lemma_push_contains(r@.push(t1).push(t2).push(t3), t4);
        }
        r.push(t1);
        r.push(t2);
        r.push(t3);
        r.push(t4);
        k += 1;
    }
    proof {
        assert forall|t: Triple| scm_cls_sem(*ts, t) implies #[trigger] r@.contains(t) by {
            let c = choose|c: u64|
                #[trigger] chunk_of(*ts, NodeDictionary::RDF_TYPE).contains(
                    Pair { s: c, o: NodeDictionary::OWL_CLASS },
                ) && {
                    ||| t == (Triple { s: c, p: NodeDictionary::RDFS_SUB_CLASS_OF, o: c })
                    ||| t == (Triple { s: c, p: NodeDictionary::OWL_EQUIVALENT_CLASS, o: c })
                    ||| t == (Triple {
                        s: c,
                        p: NodeDictionary::RDFS_SUB_CLASS_OF,
                        o: NodeDictionary::OWL_THING,
                    })
                    ||| t == (Triple {
                        s: NodeDictionary::OWL_NOTHING,
                        p: NodeDictionary::RDFS_SUB_CLASS_OF,
                        o: c,
                    })
                };
            assert(cs@.contains(c));
            let kk = choose|kk: int| 0 <= kk < cs@.len() && cs@[kk] == c;
            assert(cs@[kk] == c);
        }
    }
    r
}

/// Everything that appears in a statement, as subject or as object, is
/// a resource.
pub open spec fn rdfs4_sem(ts: TripleStore, t: Triple) -> bool {
    exists|k: int, x: u64, y: u64|
        #![trigger ts.chunk_at(k).contains(Pair { s: x, o: y })]
        {
            &&& 0 <= k < ts.elem@.len()
            &&& ts.chunk_at(k).contains(Pair { s: x, o: y })
            &&& (t == (Triple {
                s: x,
                p: NodeDictionary::RDF_TYPE,
                o: NodeDictionary::RDFS_RESOURCE,
            }) || t == (Triple {
                s: y,
                p: NodeDictionary::RDF_TYPE,
                o: NodeDictionary::RDFS_RESOURCE,
            }))
        }
}

pub fn RDFS4(ts: &TripleStore) -> (r: Vec<Triple>)
    requires
        ts.wf(),
    ensures
        forall|t: Triple| #[trigger] r@.contains(t) <==> rdfs4_sem(*ts, t),
        forall|i: int| 0 <= i < r@.len() ==> (#[trigger] r@[i]).p < START_INDEX,
{
    let mut r: Vec<Triple> = Vec::new();
    let n = ts.elem().len();
    let mut k: usize = 0;
    while k < n
        invariant
            k <= n,
            n == ts.elem@.len(),
            ts.wf(),
            forall|t: Triple| #[trigger] r@.contains(t) ==> rdfs4_sem(*ts, t),
            forall|kk: int, x: u64, y: u64|
                (0 <= kk < k && #[trigger] ts.chunk_at(kk).contains(Pair { s: x, o: y }))
                    ==> (r@.contains(
                    Triple { s: x, p: NodeDictionary::RDF_TYPE, o: NodeDictionary::RDFS_RESOURCE },
                ) && r@.contains(
                    Triple { s: y, p: NodeDictionary::RDF_TYPE, o: NodeDictionary::RDFS_RESOURCE },
                )),
            forall|i: int| 0 <= i < r@.len() ==> (#[trigger] r@[i]).p < START_INDEX,
        decreases n - k,
    {
        let so = ts.elem()[k].so();
        let mut j: usize = 0;
        while j < so.len()
            invariant
                j <= so@.len(),
                k < n,
                n == ts.elem@.len(),
                ts.wf(),
                so@ == ts.chunk_at(k as int),
                forall|t: Triple| #[trigger] r@.contains(t) ==> rdfs4_sem(*ts, t),
                forall|kk: int, x: u64, y: u64|
                    (0 <= kk < k && #[trigger] ts.chunk_at(kk).contains(Pair { s: x, o: y }))
                        ==> (r@.contains(
                        Triple {
                            s: x,
                            p: NodeDictionary::RDF_TYPE,
                            o: NodeDictionary::RDFS_RESOURCE,
                        },
                    ) && r@.contains(
                        Triple {
                            s: y,
                            p: NodeDictionary::RDF_TYPE,
                            o: NodeDictionary::RDFS_RESOURCE,
                        },
                    )),
                forall|jj: int|
                    0 <= jj < j ==> (r@.contains(
                        Triple {
                            s: (#[trigger] so@[jj]).s,
                            p: NodeDictionary::RDF_TYPE,
                            o: NodeDictionary::RDFS_RESOURCE,
                        },
                    ) && r@.contains(
                        Triple {
                            s: so@[jj].o,
                            p: NodeDictionary::RDF_TYPE,
                            o: NodeDictionary::RDFS_RESOURCE,
                        },
                    )),
                forall|i: int| 0 <= i < r@.len() ==> (#[trigger] r@[i]).p < START_INDEX,
            decreases so@.len() - j,
        {
            let pr = so[j];
            let t1 = Triple {
                s: pr.s,
                p: NodeDictionary::RDF_TYPE,
                o: NodeDictionary::RDFS_RESOURCE,
            };
            let t2 = Triple {
                s: pr.o,
                p: NodeDictionary::RDF_TYPE,
                o: NodeDictionary::RDFS_RESOURCE,
            };
            proof {
                assert(so@.contains(so@[j as int]));
                assert(ts.chunk_at(k as int).contains(Pair { s: pr.s, o: pr.o }));
                crate::utils::lemma_push_contains(r@, t1);
                crate::utils::lemma_push_contains(r@.push(t1), t2);
            }
            r.push(t1);
            r.push(t2);
            j += 1;
        }
        proof {
            assert forall|x: u64, y: u64|
                #[trigger] ts.chunk_at(k as int).contains(Pair { s: x, o: y }) implies (r@.contains(
                Triple { s: x, p: NodeDictionary::RDF_TYPE, o: NodeDictionary::RDFS_RESOURCE },
            ) && r@.contains(
                Triple { s: y, p: NodeDictionary::RDF_TYPE, o: NodeDictionary::RDFS_RESOURCE },
            )) by {
                let jj = choose|jj: int| 0 <= jj < so@.len() && so@[jj] == (Pair { s: x, o: y });
                assert(so@[jj].s == x && so@[jj].o == y);
            }
        }
        k += 1;
    }
    proof {
        assert forall|t: Triple| rdfs4_sem(*ts, t) implies #[trigger] r@.contains(t) by {
            let (kk, x, y) = choose|kk: int, x: u64, y: u64|
                #![trigger ts.chunk_at(kk).contains(Pair { s: x, o: y })]
                {
                    &&& 0 <= kk < ts.elem@.len()
                    &&& ts.chunk_at(kk).contains(Pair { s: x, o: y })
                    &&& (t == (Triple {
                        s: x,
                        p: NodeDictionary::RDF_TYPE,
                        o: NodeDictionary::RDFS_RESOURCE,
                    }) || t == (Triple {
                        s: y,
                        p: NodeDictionary::RDF_TYPE,
                        o: NodeDictionary::RDFS_RESOURCE,
                    }))
                };
        }
    }
    r
}

} // verus!
