//! Functional and inverse-functional property rules, transitivity as a
//! rule, and the finalize pass that types every resource.

#![allow(non_snake_case)]

use vstd::prelude::*;

use crate::inferray::{NodeDictionary, TripleStore};
use crate::rules::engine::{chunk_of, join_pairs, JoinRow};
use crate::utils::{prop_idx_to_offset, Pair, Triple, START_INDEX};

verus! {

/// Two objects of a functional property sharing a subject are the same.
pub open spec fn fp_sem(ts: TripleStore, t: Triple) -> bool {
    exists|q: u64, x: u64, y1: u64, y2: u64|
        #![trigger chunk_of(ts, q).contains(Pair { s: x, o: y1 }),
            chunk_of(ts, q).contains(Pair { s: x, o: y2 })]
        {
            &&& chunk_of(ts, NodeDictionary::RDF_TYPE).contains(
                Pair { s: q, o: NodeDictionary::OWL_FUNCTIONAL_PROPERTY },
            )
            &&& q < START_INDEX
            &&& chunk_of(ts, q).contains(Pair { s: x, o: y1 })
            &&& chunk_of(ts, q).contains(Pair { s: x, o: y2 })
            &&& y1 != y2
            &&& t == (Triple { s: y1, p: NodeDictionary::OWL_SAME_AS, o: y2 })
        }
}

/// Two subjects of an inverse-functional property sharing an object are
/// the same.
pub open spec fn ifp_sem(ts: TripleStore, t: Triple) -> bool {
    exists|q: u64, x1: u64, x2: u64, y: u64|
        #![trigger chunk_of(ts, q).contains(Pair { s: x1, o: y }),
            chunk_of(ts, q).contains(Pair { s: x2, o: y })]
        {
            &&& chunk_of(ts, NodeDictionary::RDF_TYPE).contains(
                Pair { s: q, o: NodeDictionary::OWL_INVERSE_FUNCTIONAL_PROPERTY },
            )
            &&& q < START_INDEX
            &&& chunk_of(ts, q).contains(Pair { s: x1, o: y })
            &&& chunk_of(ts, q).contains(Pair { s: x2, o: y })
            &&& x1 != x2
            &&& t == (Triple { s: x1, p: NodeDictionary::OWL_SAME_AS, o: x2 })
        }
}

/// A declared transitive property composes with itself.
pub open spec fn trp_sem(ts: TripleStore, t: Triple) -> bool {
    exists|q: u64, x: u64, y: u64, z: u64|
        #![trigger chunk_of(ts, q).contains(Pair { s: x, o: y }),
            chunk_of(ts, q).contains(Pair { s: y, o: z })]
        {
            &&& chunk_of(ts, NodeDictionary::RDF_TYPE).contains(
                Pair { s: q, o: NodeDictionary::OWL_TRANSITIVE_PROPERTY },
            )
            &&& q < START_INDEX
            &&& chunk_of(ts, q).contains(Pair { s: x, o: y })
            &&& chunk_of(ts, q).contains(Pair { s: y, o: z })
            &&& t == (Triple { s: x, p: q, o: z })
        }
}

/// From `(p rdf:type owl:FunctionalProperty)`, `(x p y1)` and `(x p y2)`
/// infer `(y1 owl:sameAs y2)`.
pub fn PRP_FP(ts: &TripleStore) -> (r: Vec<Triple>)
    requires
        ts.wf(),
        ts.all_os(),
    ensures
        forall|t: Triple| #[trigger] r@.contains(t) <==> fp_sem(*ts, t),
        forall|i: int| 0 <= i < r@.len() ==> (#[trigger] r@[i]).p < START_INDEX,
{
    let mut r: Vec<Triple> = Vec::new();
    let qs = crate::rules::zeta_rules::typed_subjects(ts, NodeDictionary::OWL_FUNCTIONAL_PROPERTY);
    let mut i: usize = 0;
    while i < qs.len()
        invariant
            i <= qs@.len(),
            ts.wf(),
            ts.all_os(),
            forall|x: u64|
                #[trigger] qs@.contains(x) <==> chunk_of(*ts, NodeDictionary::RDF_TYPE).contains(
                    Pair { s: x, o: NodeDictionary::OWL_FUNCTIONAL_PROPERTY },
                ),
            forall|t: Triple| #[trigger] r@.contains(t) ==> fp_sem(*ts, t),
            forall|ii: int, x: u64, y1: u64, y2: u64|
                (0 <= ii < i && (#[trigger] qs@[ii]) < START_INDEX && #[trigger] chunk_of(
                    *ts,
                    qs@[ii],
                ).contains(Pair { s: x, o: y1 }) && #[trigger] chunk_of(*ts, qs@[ii]).contains(
                    Pair { s: x, o: y2 },
                ) && y1 != y2) ==> r@.contains(
                    Triple { s: y1, p: NodeDictionary::OWL_SAME_AS, o: y2 },
                ),
            forall|j: int| 0 <= j < r@.len() ==> (#[trigger] r@[j]).p < START_INDEX,
        decreases qs@.len() - i,
    {
        let q = qs[i];
        proof {
            assert(qs@.contains(qs@[i as int]));
        }
        if q < START_INDEX {
            let qoff = prop_idx_to_offset(q);
            if qoff < ts.elem().len() {
                let c = &ts.elem()[qoff];
                proof {
                    assert(ts.elem@[qoff as int].wf());
                }
                let rows = join_pairs(c.os(), c.so());
                let mut k: usize = 0;
                while k < rows.len()
                    invariant
                        k <= rows@.len(),
                        ts.wf(),
                        i < qs@.len(),
                        q == qs@[i as int],
                        q < START_INDEX,
                        qoff == crate::utils::offset_of(q),
                        0 <= qoff < ts.elem@.len(),
                        forall|q2: u64|
                            #[trigger] qs@.contains(q2) <==> chunk_of(
                                *ts,
                                NodeDictionary::RDF_TYPE,
                            ).contains(Pair { s: q2, o: NodeDictionary::OWL_FUNCTIONAL_PROPERTY }),
                        forall|w: JoinRow|
                            #[trigger] rows@.contains(w) <==> (chunk_of(*ts, q).contains(
                                Pair { s: w.y, o: w.x },
                            ) && chunk_of(*ts, q).contains(Pair { s: w.y, o: w.z })),
                        forall|t: Triple| #[trigger] r@.contains(t) ==> fp_sem(*ts, t),
                        forall|ii: int, x: u64, y1: u64, y2: u64|
                            (0 <= ii < i && (#[trigger] qs@[ii]) < START_INDEX
                                && #[trigger] chunk_of(*ts, qs@[ii]).contains(Pair { s: x, o: y1 })
                                && #[trigger] chunk_of(*ts, qs@[ii]).contains(Pair { s: x, o: y2 })
                                && y1 != y2) ==> r@.contains(
                                Triple { s: y1, p: NodeDictionary::OWL_SAME_AS, o: y2 },
                            ),
                        forall|kk: int|
                            (0 <= kk < k && (#[trigger] rows@[kk]).x != rows@[kk].z)
                                ==> r@.contains(
                                Triple {
                                    s: rows@[kk].x,
                                    p: NodeDictionary::OWL_SAME_AS,
                                    o: rows@[kk].z,
                                },
                            ),
                        forall|j: int| 0 <= j < r@.len() ==> (#[trigger] r@[j]).p < START_INDEX,
                    decreases rows@.len() - k,
                {
                    let w = rows[k];
                    proof {
                        assert(rows@.contains(rows@[k as int]));
                    }
                    if w.x != w.z {
                        let t = Triple { s: w.x, p: NodeDictionary::OWL_SAME_AS, o: w.z };
                        proof {
                            crate::utils::lemma_push_contains(r@, t);
                            assert(fp_sem(*ts, t)) by {
                                assert(qs@.contains(qs@[i as int]));
                                assert(chunk_of(*ts, NodeDictionary::RDF_TYPE).contains(
                                    Pair { s: q, o: NodeDictionary::OWL_FUNCTIONAL_PROPERTY },
                                ));
                                assert(chunk_of(*ts, q).contains(Pair { s: w.y, o: w.x }));
                                assert(chunk_of(*ts, q).contains(Pair { s: w.y, o: w.z }));
                            }
                        }
                        r.push(t);
                    }
                    k += 1;
                }
                proof {
                    assert forall|x: u64, y1: u64, y2: u64|
                        (#[trigger] chunk_of(*ts, q).contains(Pair { s: x, o: y1 })
                            && #[trigger] chunk_of(*ts, q).contains(Pair { s: x, o: y2 }) && y1
                            != y2) implies r@.contains(
                        Triple { s: y1, p: NodeDictionary::OWL_SAME_AS, o: y2 },
                    ) by {
                        let w = JoinRow { x: y1, y: x, z: y2 };
                        assert(rows@.contains(w));
                        let kk = choose|kk: int| 0 <= kk < rows@.len() && rows@[kk] == w;
                        assert(rows@[kk].x != rows@[kk].z);
                    }
                }
            }
        }
        i += 1;
    }
    proof {
        assert forall|t: Triple| fp_sem(*ts, t) implies #[trigger] r@.contains(t) by {
            let (q, x, y1, y2) = choose|q: u64, x: u64, y1: u64, y2: u64|
                #![trigger chunk_of(*ts, q).contains(Pair { s: x, o: y1 }),
                    chunk_of(*ts, q).contains(Pair { s: x, o: y2 })]
                {
                    &&& chunk_of(*ts, NodeDictionary::RDF_TYPE).contains(
                        Pair { s: q, o: NodeDictionary::OWL_FUNCTIONAL_PROPERTY },
                    )
                    &&& q < START_INDEX
                    &&& chunk_of(*ts, q).contains(Pair { s: x, o: y1 })
                    &&& chunk_of(*ts, q).contains(Pair { s: x, o: y2 })
                    &&& y1 != y2
                    &&& t == (Triple { s: y1, p: NodeDictionary::OWL_SAME_AS, o: y2 })
                };
            assert(qs@.contains(q));
            let ii = choose|ii: int| 0 <= ii < qs@.len() && qs@[ii] == q;
            assert(chunk_of(*ts, qs@[ii]).contains(Pair { s: x, o: y1 }));
            assert(chunk_of(*ts, qs@[ii]).contains(Pair { s: x, o: y2 }));
        }
    }
    r
}

/// From `(p rdf:type owl:InverseFunctionalProperty)`, `(x1 p y)` and
/// `(x2 p y)` infer `(x1 owl:sameAs x2)`.
pub fn PRP_IFP(ts: &TripleStore) -> (r: Vec<Triple>)
    requires
        ts.wf(),
        ts.all_os(),
    ensures
        forall|t: Triple| #[trigger] r@.contains(t) <==> ifp_sem(*ts, t),
        forall|i: int| 0 <= i < r@.len() ==> (#[trigger] r@[i]).p < START_INDEX,
{
    let mut r: Vec<Triple> = Vec::new();
    let qs = crate::rules::zeta_rules::typed_subjects(
        ts,
        NodeDictionary::OWL_INVERSE_FUNCTIONAL_PROPERTY,
    );
    let mut i: usize = 0;
    while i < qs.len()
        invariant
            i <= qs@.len(),
            ts.wf(),
            ts.all_os(),
            forall|x: u64|
                #[trigger] qs@.contains(x) <==> chunk_of(*ts, NodeDictionary::RDF_TYPE).contains(
                    Pair { s: x, o: NodeDictionary::OWL_INVERSE_FUNCTIONAL_PROPERTY },
                ),
            forall|t: Triple| #[trigger] r@.contains(t) ==> ifp_sem(*ts, t),
            forall|ii: int, x1: u64, x2: u64, y: u64|
                (0 <= ii < i && (#[trigger] qs@[ii]) < START_INDEX && #[trigger] chunk_of(
                    *ts,
                    qs@[ii],
                ).contains(Pair { s: x1, o: y }) && #[trigger] chunk_of(*ts, qs@[ii]).contains(
                    Pair { s: x2, o: y },
                ) && x1 != x2) ==> r@.contains(
                    Triple { s: x1, p: NodeDictionary::OWL_SAME_AS, o: x2 },
                ),
            forall|j: int| 0 <= j < r@.len() ==> (#[trigger] r@[j]).p < START_INDEX,
        decreases qs@.len() - i,
    {
        let q = qs[i];
        proof {
            assert(qs@.contains(qs@[i as int]));
        }
        if q < START_INDEX {
            let qoff = prop_idx_to_offset(q);
            if qoff < ts.elem().len() {
                let c = &ts.elem()[qoff];
                proof {
                    assert(ts.elem@[qoff as int].wf());
                }
                let rows = join_pairs(c.so(), c.os());
                let mut k: usize = 0;
                while k < rows.len()
                    invariant
                        k <= rows@.len(),
                        ts.wf(),
                        i < qs@.len(),
                        q == qs@[i as int],
                        q < START_INDEX,
                        qoff == crate::utils::offset_of(q),
                        0 <= qoff < ts.elem@.len(),
                        forall|q2: u64|
                            #[trigger] qs@.contains(q2) <==> chunk_of(
                                *ts,
                                NodeDictionary::RDF_TYPE,
                            ).contains(
                                Pair { s: q2, o: NodeDictionary::OWL_INVERSE_FUNCTIONAL_PROPERTY },
                            ),
                        forall|w: JoinRow|
                            #[trigger] rows@.contains(w) <==> (chunk_of(*ts, q).contains(
                                Pair { s: w.x, o: w.y },
                            ) && chunk_of(*ts, q).contains(Pair { s: w.z, o: w.y })),
                        forall|t: Triple| #[trigger] r@.contains(t) ==> ifp_sem(*ts, t),
                        forall|ii: int, x1: u64, x2: u64, y: u64|
                            (0 <= ii < i && (#[trigger] qs@[ii]) < START_INDEX
                                && #[trigger] chunk_of(*ts, qs@[ii]).contains(Pair { s: x1, o: y })
                                && #[trigger] chunk_of(*ts, qs@[ii]).contains(Pair { s: x2, o: y })
                                && x1 != x2) ==> r@.contains(
                                Triple { s: x1, p: NodeDictionary::OWL_SAME_AS, o: x2 },
                            ),
                        forall|kk: int|
                            (0 <= kk < k && (#[trigger] rows@[kk]).x != rows@[kk].z)
                                ==> r@.contains(
                                Triple {
                                    s: rows@[kk].x,
                                    p: NodeDictionary::OWL_SAME_AS,
                                    o: rows@[kk].z,
                                },
                            ),
                        forall|j: int| 0 <= j < r@.len() ==> (#[trigger] r@[j]).p < START_INDEX,
                    decreases rows@.len() - k,
                {
                    let w = rows[k];
                    proof {
                        assert(rows@.contains(rows@[k as int]));
                    }
                    if w.x != w.z {
                        let t = Triple { s: w.x, p: NodeDictionary::OWL_SAME_AS, o: w.z };
                        proof {
                            crate::utils::lemma_push_contains(r@, t);
                            assert(ifp_sem(*ts, t)) by {
                                assert(qs@.contains(qs@[i as int]));
                                assert(chunk_of(*ts, NodeDictionary::RDF_TYPE).contains(
                                    Pair {
                                        s: q,
                                        o: NodeDictionary::OWL_INVERSE_FUNCTIONAL_PROPERTY,
                                    },
                                ));
                                assert(chunk_of(*ts, q).contains(Pair { s: w.x, o: w.y }));
                                assert(chunk_of(*ts, q).contains(Pair { s: w.z, o: w.y }));
                            }
                        }
                        r.push(t);
                    }
                    k += 1;
                }
                proof {
                    assert forall|x1: u64, x2: u64, y: u64|
                        (#[trigger] chunk_of(*ts, q).contains(Pair { s: x1, o: y })
                            && #[trigger] chunk_of(*ts, q).contains(Pair { s: x2, o: y }) && x1
                            != x2) implies r@.contains(
                        Triple { s: x1, p: NodeDictionary::OWL_SAME_AS, o: x2 },
                    ) by {
                        let w = JoinRow { x: x1, y: y, z: x2 };
                        assert(rows@.contains(w));
                        let kk = choose|kk: int| 0 <= kk < rows@.len() && rows@[kk] == w;
                        assert(rows@[kk].x != rows@[kk].z);
                    }
                }
            }
        }
        i += 1;
    }
    proof {
        assert forall|t: Triple| ifp_sem(*ts, t) implies #[trigger] r@.contains(t) by {
            let (q, x1, x2, y) = choose|q: u64, x1: u64, x2: u64, y: u64|
                #![trigger chunk_of(*ts, q).contains(Pair { s: x1, o: y }),
                    chunk_of(*ts, q).contains(Pair { s: x2, o: y })]
                {
                    &&& chunk_of(*ts, NodeDictionary::RDF_TYPE).contains(
                        Pair { s: q, o: NodeDictionary::OWL_INVERSE_FUNCTIONAL_PROPERTY },
                    )
                    &&& q < START_INDEX
                    &&& chunk_of(*ts, q).contains(Pair { s: x1, o: y })
                    &&& chunk_of(*ts, q).contains(Pair { s: x2, o: y })
                    &&& x1 != x2
                    &&& t == (Triple { s: x1, p: NodeDictionary::OWL_SAME_AS, o: x2 })
                };
            assert(qs@.contains(q));
            let ii = choose|ii: int| 0 <= ii < qs@.len() && qs@[ii] == q;
            assert(chunk_of(*ts, qs@[ii]).contains(Pair { s: x1, o: y }));
            assert(chunk_of(*ts, qs@[ii]).contains(Pair { s: x2, o: y }));
        }
    }
    r
}

/// From `(p rdf:type owl:TransitiveProperty)`, `(x p y)` and `(y p z)`
/// infer `(x p z)`.
pub fn PRP_TRP(ts: &TripleStore) -> (r: Vec<Triple>)
    requires
        ts.wf(),
        ts.all_os(),
    ensures
        forall|t: Triple| #[trigger] r@.contains(t) <==> trp_sem(*ts, t),
        forall|i: int| 0 <= i < r@.len() ==> (#[trigger] r@[i]).p < START_INDEX,
{
    let mut r: Vec<Triple> = Vec::new();
    let qs = crate::rules::zeta_rules::typed_subjects(ts, NodeDictionary::OWL_TRANSITIVE_PROPERTY);
    let mut i: usize = 0;
    while i < qs.len()
        invariant
            i <= qs@.len(),
            ts.wf(),
            ts.all_os(),
            forall|x: u64|
                #[trigger] qs@.contains(x) <==> chunk_of(*ts, NodeDictionary::RDF_TYPE).contains(
                    Pair { s: x, o: NodeDictionary::OWL_TRANSITIVE_PROPERTY },
                ),
            forall|t: Triple| #[trigger] r@.contains(t) ==> trp_sem(*ts, t),
            forall|ii: int, x: u64, y: u64, z: u64|
                (0 <= ii < i && (#[trigger] qs@[ii]) < START_INDEX && #[trigger] chunk_of(
                    *ts,
                    qs@[ii],
                ).contains(Pair { s: x, o: y }) && #[trigger] chunk_of(*ts, qs@[ii]).contains(
                    Pair { s: y, o: z },
                )) ==> r@.contains(Triple { s: x, p: qs@[ii], o: z }),
            forall|j: int| 0 <= j < r@.len() ==> (#[trigger] r@[j]).p < START_INDEX,
        decreases qs@.len() - i,
    {
        let q = qs[i];
        proof {
            assert(qs@.contains(qs@[i as int]));
        }
        if q < START_INDEX {
            let qoff = prop_idx_to_offset(q);
            if qoff < ts.elem().len() {
                let c = &ts.elem()[qoff];
                let rows = join_pairs(c.so(), c.so());
                let mut k: usize = 0;
                while k < rows.len()
                    invariant
                        k <= rows@.len(),
                        ts.wf(),
                        i < qs@.len(),
                        q == qs@[i as int],
                        q < START_INDEX,
                        qoff == crate::utils::offset_of(q),
                        0 <= qoff < ts.elem@.len(),
                        forall|q2: u64|
                            #[trigger] qs@.contains(q2) <==> chunk_of(
                                *ts,
                                NodeDictionary::RDF_TYPE,
                            ).contains(Pair { s: q2, o: NodeDictionary::OWL_TRANSITIVE_PROPERTY }),
                        forall|w: JoinRow|
                            #[trigger] rows@.contains(w) <==> (chunk_of(*ts, q).contains(
                                Pair { s: w.x, o: w.y },
                            ) && chunk_of(*ts, q).contains(Pair { s: w.y, o: w.z })),
                        forall|t: Triple| #[trigger] r@.contains(t) ==> trp_sem(*ts, t),
                        forall|ii: int, x: u64, y: u64, z: u64|
                            (0 <= ii < i && (#[trigger] qs@[ii]) < START_INDEX
                                && #[trigger] chunk_of(*ts, qs@[ii]).contains(Pair { s: x, o: y })
                                && #[trigger] chunk_of(*ts, qs@[ii]).contains(Pair { s: y, o: z }))
                                ==> r@.contains(Triple { s: x, p: qs@[ii], o: z }),
                        forall|kk: int|
                            0 <= kk < k ==> r@.contains(
                                Triple { s: (#[trigger] rows@[kk]).x, p: q, o: rows@[kk].z },
                            ),
                        forall|j: int| 0 <= j < r@.len() ==> (#[trigger] r@[j]).p < START_INDEX,
                    decreases rows@.len() - k,
                {
                    let w = rows[k];
                    let t = Triple { s: w.x, p: q, o: w.z };
                    proof {
                        assert(rows@.contains(rows@[k as int]));
                        crate::utils::lemma_push_contains(r@, t);
                        assert(trp_sem(*ts, t)) by {
                            assert(qs@.contains(qs@[i as int]));
                            assert(chunk_of(*ts, NodeDictionary::RDF_TYPE).contains(
                                Pair { s: q, o: NodeDictionary::OWL_TRANSITIVE_PROPERTY },
                            ));
                            assert(chunk_of(*ts, q).contains(Pair { s: w.x, o: w.y }));
                            assert(chunk_of(*ts, q).contains(Pair { s: w.y, o: w.z }));
                        }
                    }
                    r.push(t);
                    k += 1;
                }
                proof {
                    assert forall|x: u64, y: u64, z: u64|
                        (#[trigger] chunk_of(*ts, q).contains(Pair { s: x, o: y })
                            && #[trigger] chunk_of(*ts, q).contains(Pair { s: y, o: z }))
                        implies r@.contains(Triple { s: x, p: q, o: z }) by {
                        let w = JoinRow { x: x, y: y, z: z };
                        assert(rows@.contains(w));
                        let kk = choose|kk: int| 0 <= kk < rows@.len() && rows@[kk] == w;
                        assert(r@.contains(Triple { s: rows@[kk].x, p: q, o: rows@[kk].z }));
                    }
                }
            }
        }
        i += 1;
    }
    proof {
        assert forall|t: Triple| trp_sem(*ts, t) implies #[trigger] r@.contains(t) by {
            let (q, x, y, z) = choose|q: u64, x: u64, y: u64, z: u64|
                #![trigger chunk_of(*ts, q).contains(Pair { s: x, o: y }),
                    chunk_of(*ts, q).contains(Pair { s: y, o: z })]
                {
                    &&& chunk_of(*ts, NodeDictionary::RDF_TYPE).contains(
                        Pair { s: q, o: NodeDictionary::OWL_TRANSITIVE_PROPERTY },
                    )
                    &&& q < START_INDEX
                    &&& chunk_of(*ts, q).contains(Pair { s: x, o: y })
                    &&& chunk_of(*ts, q).contains(Pair { s: y, o: z })
                    &&& t == (Triple { s: x, p: q, o: z })
                };
            assert(qs@.contains(q));
            let ii = choose|ii: int| 0 <= ii < qs@.len() && qs@[ii] == q;
            assert(chunk_of(*ts, qs@[ii]).contains(Pair { s: x, o: y }));
            assert(chunk_of(*ts, qs@[ii]).contains(Pair { s: y, o: z }));
        }
    }
    r
}

/// Every interned resource is typed `rdfs:Resource`.
pub open spec fn tar_sem(d: crate::inferray::NodeDictionary, t: Triple) -> bool {
    &&& t.p == NodeDictionary::RDF_TYPE
    &&& t.o == NodeDictionary::RDFS_RESOURCE
    &&& START_INDEX < t.s
    &&& t.s <= START_INDEX + d.resources@.len()
}

/// The finalize pass: type every resource the dictionary knows as
/// `rdfs:Resource`.
pub fn type_all_resources(d: &crate::inferray::NodeDictionary) -> (r: Vec<Triple>)
    requires
        d.wf(),
    ensures
        forall|t: Triple| #[trigger] r@.contains(t) <==> tar_sem(*d, t),
        forall|i: int| 0 <= i < r@.len() ==> (#[trigger] r@[i]).p < START_INDEX,
{
    let mut r: Vec<Triple> = Vec::new();
    let n = d.resources.len();
    let mut j: usize = 0;
    while j < n
        invariant
            j <= n,
            n == d.resources@.len(),
            d.wf(),
            forall|t: Triple|
                #[trigger] r@.contains(t) <==> (t.p == NodeDictionary::RDF_TYPE && t.o
                    == NodeDictionary::RDFS_RESOURCE && START_INDEX < t.s && t.s <= START_INDEX
                    + j),
            forall|i: int| 0 <= i < r@.len() ==> (#[trigger] r@[i]).p < START_INDEX,
        decreases n - j,
    {
        let id = START_INDEX + 1 + (j as u64);
        let t = Triple {
            s: id,
            p: NodeDictionary::RDF_TYPE,
            o: NodeDictionary::RDFS_RESOURCE,
        };
        proof {
            crate::utils::lemma_push_contains(r@, t);
        }
        r.push(t);
        j += 1;
    }
    r
}

} // verus!
