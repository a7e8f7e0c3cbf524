//! Gamma rules: a schema assertion on a predicate rewrites the triples
//! stored under that predicate.
//!
//! Covers PRP-DOM, PRP-RNG, PRP-SPO1, PRP-SYMP and EQ-TRANS.

#![allow(non_snake_case)]

use vstd::prelude::*;

use crate::inferray::{NodeDictionary, TripleStore};
use crate::rules::engine::{chunk_of, join_pairs, JoinRow};
use crate::utils::{matches_of, pairs_sorted, prop_idx_to_offset, Pair, Triple, START_INDEX};

verus! {

/// From a schema pair `(q, c)` under `head_p` with `q` a property id,
/// rewrite every pair `(x, y)` of predicate `q`: with `raw_idx`, emit a
/// triple under the fixed predicate `out_p` keeping `c` as the object;
/// without it, emit `(x, c, y)`, substituting the predicate.
pub open spec fn gamma_sem(
    ts: TripleStore,
    head_p: u64,
    out_p: u64,
    use_subject: bool,
    raw_idx: bool,
    t: Triple,
) -> bool {
    exists|q: u64, c: u64, x: u64, y: u64|
        #![trigger chunk_of(ts, head_p).contains(Pair { s: q, o: c }),
            chunk_of(ts, q).contains(Pair { s: x, o: y })]
        {
            &&& chunk_of(ts, head_p).contains(Pair { s: q, o: c })
            &&& q < START_INDEX
            &&& chunk_of(ts, q).contains(Pair { s: x, o: y })
            &&& if raw_idx {
                t == (Triple {
                    s: if use_subject {
                        x
                    } else {
                        y
                    },
                    p: out_p,
                    o: c,
                })
            } else {
                c < START_INDEX && t == (Triple { s: x, p: c, o: y })
            }
        }
}

fn apply_gamma_rule(
    ts: &TripleStore,
    head_p: u64,
    out_p: u64,
    use_subject: bool,
    raw_idx: bool,
) -> (r: Vec<Triple>)
    requires
        ts.wf(),
        head_p < START_INDEX,
        out_p < START_INDEX,
    ensures
        forall|t: Triple|
            #[trigger] r@.contains(t) <==> gamma_sem(*ts, head_p, out_p, use_subject, raw_idx, t),
        forall|i: int| 0 <= i < r@.len() ==> (#[trigger] r@[i]).p < START_INDEX,
{
    let mut r: Vec<Triple> = Vec::new();
    let hoff = prop_idx_to_offset(head_p);
    if hoff >= ts.elem().len() {
        return r;
    }
    let head = ts.elem()[hoff].so();
    let mut i: usize = 0;
    while i < head.len()
        invariant
            i <= head@.len(),
            ts.wf(),
            head_p < START_INDEX,
            out_p < START_INDEX,
            hoff == crate::utils::offset_of(head_p),
            0 <= hoff < ts.elem@.len(),
            head@ == chunk_of(*ts, head_p),
            forall|t: Triple|
                #[trigger] r@.contains(t) ==> gamma_sem(*ts, head_p, out_p, use_subject, raw_idx, t),
            forall|ii: int, x: u64, y: u64|
                (0 <= ii < i && (#[trigger] head@[ii]).s < START_INDEX && (raw_idx || head@[ii].o
                    < START_INDEX) && #[trigger] chunk_of(*ts, head@[ii].s).contains(
                    Pair { s: x, o: y },
                )) ==> r@.contains(
                    if raw_idx {
                        Triple {
                            s: if use_subject {
                                x
                            } else {
                                y
                            },
                            p: out_p,
                            o: head@[ii].o,
                        }
                    } else {
                        Triple { s: x, p: head@[ii].o, o: y }
                    },
                ),
            forall|j: int| 0 <= j < r@.len() ==> (#[trigger] r@[j]).p < START_INDEX,
        decreases head@.len() - i,
    {
        let hp = head[i];
        let q = hp.s;
        let c = hp.o;
        proof {
            assert(head@.contains(head@[i as int]));
        }
        if q < START_INDEX && (raw_idx || c < START_INDEX) {
            let qoff = prop_idx_to_offset(q);
            if qoff < ts.elem().len() {
                let inner = ts.elem()[qoff].so();
                let mut k: usize = 0;
                while k < inner.len()
                    invariant
                        k <= inner@.len(),
                        ts.wf(),
                        head_p < START_INDEX,
                        out_p < START_INDEX,
                        i < head@.len(),
                        hp == head@[i as int],
                        q == hp.s,
                        c == hp.o,
                        q < START_INDEX,
                        raw_idx || c < START_INDEX,
                        qoff == crate::utils::offset_of(q),
                        0 <= qoff < ts.elem@.len(),
                        head@ == chunk_of(*ts, head_p),
                        inner@ == chunk_of(*ts, q),
                        forall|t: Triple|
                            #[trigger] r@.contains(t) ==> gamma_sem(
                                *ts,
                                head_p,
                                out_p,
                                use_subject,
                                raw_idx,
                                t,
                            ),
                        forall|ii: int, x: u64, y: u64|
                            (0 <= ii < i && (#[trigger] head@[ii]).s < START_INDEX && (raw_idx
                                || head@[ii].o < START_INDEX) && #[trigger] chunk_of(
                                *ts,
                                head@[ii].s,
                            ).contains(Pair { s: x, o: y })) ==> r@.contains(
                                if raw_idx {
                                    Triple {
                                        s: if use_subject {
                                            x
                                        } else {
                                            y
                                        },
                                        p: out_p,
                                        o: head@[ii].o,
                                    }
                                } else {
                                    Triple { s: x, p: head@[ii].o, o: y }
                                },
                            ),
                        forall|kk: int|
                            0 <= kk < k ==> r@.contains(
                                {
                                    let pr = #[trigger] inner@[kk];
                                    if raw_idx {
                                        Triple {
                                            s: if use_subject {
                                                pr.s
                                            } else {
                                                pr.o
                                            },
                                            p: out_p,
                                            o: c,
                                        }
                                    } else {
                                        Triple { s: pr.s, p: c, o: pr.o }
                                    }
                                },
                            ),
                        forall|j: int| 0 <= j < r@.len() ==> (#[trigger] r@[j]).p < START_INDEX,
                    decreases inner@.len() - k,
                {
                    let pr = inner[k];
                    let t = if raw_idx {
                        Triple {
                            s: if use_subject {
                                pr.s
                            } else {
                                pr.o
                            },
                            p: out_p,
                            o: c,
                        }
                    } else {
                        Triple { s: pr.s, p: c, o: pr.o }
                    };
                    proof {
                        assert(inner@.contains(inner@[k as int]));
                        crate::utils::lemma_push_contains(r@, t);
                        assert(gamma_sem(*ts, head_p, out_p, use_subject, raw_idx, t)) by {
                            assert(chunk_of(*ts, head_p).contains(Pair { s: q, o: c }));
                            assert(chunk_of(*ts, q).contains(Pair { s: pr.s, o: pr.o }));
                        }
                    }
                    r.push(t);
                    k += 1;
                }
            }
        }
        i += 1;
    }
    proof {
        assert forall|t: Triple|
            gamma_sem(*ts, head_p, out_p, use_subject, raw_idx, t) implies #[trigger] r@.contains(
            t,
        ) by {
            let (q, c, x, y) = choose|q: u64, c: u64, x: u64, y: u64|
                #![trigger chunk_of(*ts, head_p).contains(Pair { s: q, o: c }),
                    chunk_of(*ts, q).contains(Pair { s: x, o: y })]
                {
                    &&& chunk_of(*ts, head_p).contains(Pair { s: q, o: c })
                    &&& q < START_INDEX
                    &&& chunk_of(*ts, q).contains(Pair { s: x, o: y })
                    &&& if raw_idx {
                        t == (Triple {
                            s: if use_subject {
                                x
                            } else {
                                y
                            },
                            p: out_p,
                            o: c,
                        })
                    } else {
                        c < START_INDEX && t == (Triple { s: x, p: c, o: y })
                    }
                };
            let ii = choose|ii: int| 0 <= ii < head@.len() && head@[ii] == (Pair { s: q, o: c });
            assert(head@[ii].s == q && head@[ii].o == c);
            assert(chunk_of(*ts, q).contains(Pair { s: x, o: y }));
        }
    }
    r
}

/// From `(p rdfs:domain c)` and `(x p y)` infer `(x rdf:type c)`.
pub fn PRP_DOM(ts: &TripleStore) -> (r: Vec<Triple>)
    requires
        ts.wf(),
    ensures
        forall|t: Triple|
            #[trigger] r@.contains(t) <==> gamma_sem(
                *ts,
                NodeDictionary::RDFS_DOMAIN,
                NodeDictionary::RDF_TYPE,
                true,
                true,
                t,
            ),
        forall|i: int| 0 <= i < r@.len() ==> (#[trigger] r@[i]).p < START_INDEX,
{
    apply_gamma_rule(ts, NodeDictionary::RDFS_DOMAIN, NodeDictionary::RDF_TYPE, true, true)
}

/// From `(p rdfs:range c)` and `(x p y)` infer `(y rdf:type c)`.
pub fn PRP_RNG(ts: &TripleStore) -> (r: Vec<Triple>)
    requires
        ts.wf(),
    ensures
        forall|t: Triple|
            #[trigger] r@.contains(t) <==> gamma_sem(
                *ts,
                NodeDictionary::RDFS_RANGE,
                NodeDictionary::RDF_TYPE,
                false,
                true,
                t,
            ),
        forall|i: int| 0 <= i < r@.len() ==> (#[trigger] r@[i]).p < START_INDEX,
{
    apply_gamma_rule(ts, NodeDictionary::RDFS_RANGE, NodeDictionary::RDF_TYPE, false, true)
}

/// From `(p1 rdfs:subPropertyOf p2)` and `(x p1 y)` infer `(x p2 y)`.
pub fn PRP_SPO1(ts: &TripleStore) -> (r: Vec<Triple>)
    requires
        ts.wf(),
    ensures
        forall|t: Triple|
            #[trigger] r@.contains(t) <==> gamma_sem(
                *ts,
                NodeDictionary::RDFS_SUB_PROPERTY_OF,
                NodeDictionary::RDF_TYPE,
                false,
                false,
                t,
            ),
        forall|i: int| 0 <= i < r@.len() ==> (#[trigger] r@[i]).p < START_INDEX,
{
    apply_gamma_rule(
        ts,
        NodeDictionary::RDFS_SUB_PROPERTY_OF,
        NodeDictionary::RDF_TYPE,
        false,
        false,
    )
}

/// From `(p rdf:type owl:SymmetricProperty)` and `(x p y)` infer
/// `(y p x)`.
pub open spec fn symp_sem(ts: TripleStore, t: Triple) -> bool {
    exists|q: u64, x: u64, y: u64|
        #![trigger chunk_of(ts, q).contains(Pair { s: x, o: y })]
        {
            &&& chunk_of(ts, NodeDictionary::RDF_TYPE).contains(
                Pair { s: q, o: NodeDictionary::OWL_SYMMETRIC_PROPERTY },
            )
            &&& q < START_INDEX
            &&& chunk_of(ts, q).contains(Pair { s: x, o: y })
            &&& t == (Triple { s: y, p: q, o: x })
        }
}

pub fn PRP_SYMP(ts: &TripleStore) -> (r: Vec<Triple>)
    requires
        ts.wf(),
        ts.all_os(),
    ensures
        forall|t: Triple| #[trigger] r@.contains(t) <==> symp_sem(*ts, t),
        forall|i: int| 0 <= i < r@.len() ==> (#[trigger] r@[i]).p < START_INDEX,
{
    let mut r: Vec<Triple> = Vec::new();
    let toff = prop_idx_to_offset(NodeDictionary::RDF_TYPE);
    if toff >= ts.elem().len() {
        return r;
    }
    let qs = matches_of(ts.elem()[toff].os(), NodeDictionary::OWL_SYMMETRIC_PROPERTY);
    proof {
        assert forall|q: u64| #[trigger] qs@.contains(q) <==> chunk_of(
            *ts,
            NodeDictionary::RDF_TYPE,
        ).contains(Pair { s: q, o: NodeDictionary::OWL_SYMMETRIC_PROPERTY }) by {
            assert(ts.elem@[toff as int].wf());
        }
    }
    let mut i: usize = 0;
    while i < qs.len()
        invariant
            i <= qs@.len(),
            ts.wf(),
            toff == crate::utils::offset_of(NodeDictionary::RDF_TYPE),
            0 <= toff < ts.elem@.len(),
            forall|q: u64|
                #[trigger] qs@.contains(q) <==> chunk_of(*ts, NodeDictionary::RDF_TYPE).contains(
                    Pair { s: q, o: NodeDictionary::OWL_SYMMETRIC_PROPERTY },
                ),
            forall|t: Triple| #[trigger] r@.contains(t) ==> symp_sem(*ts, t),
            forall|ii: int, x: u64, y: u64|
                (0 <= ii < i && (#[trigger] qs@[ii]) < START_INDEX && #[trigger] chunk_of(
                    *ts,
                    qs@[ii],
                ).contains(Pair { s: x, o: y })) ==> r@.contains(
                    Triple { s: y, p: qs@[ii], o: x },
                ),
            forall|j: int| 0 <= j < r@.len() ==> (#[trigger] r@[j]).p < START_INDEX,
        decreases qs@.len() - i,
    {
        let q = qs[i];
        proof {
            assert(qs@.contains(qs@[i as int]));
        }
        if q < START_INDEX {
            let qoff = prop_idx_to_offset(q);
            if qoff < ts.elem().len() {
                let inner = ts.elem()[qoff].so();
                let mut k: usize = 0;
                while k < inner.len()
                    invariant
                        k <= inner@.len(),
                        ts.wf(),
                        i < qs@.len(),
                        q == qs@[i as int],
                        q < START_INDEX,
                        qoff == crate::utils::offset_of(q),
                        0 <= qoff < ts.elem@.len(),
                        inner@ == chunk_of(*ts, q),
                        forall|q2: u64|
                            #[trigger] qs@.contains(q2) <==> chunk_of(
                                *ts,
                                NodeDictionary::RDF_TYPE,
                            ).contains(Pair { s: q2, o: NodeDictionary::OWL_SYMMETRIC_PROPERTY }),
                        forall|t: Triple| #[trigger] r@.contains(t) ==> symp_sem(*ts, t),
                        forall|ii: int, x: u64, y: u64|
                            (0 <= ii < i && (#[trigger] qs@[ii]) < START_INDEX && #[trigger] chunk_of(
                                *ts,
                                qs@[ii],
                            ).contains(Pair { s: x, o: y })) ==> r@.contains(
                                Triple { s: y, p: qs@[ii], o: x },
                            ),
                        forall|kk: int|
                            0 <= kk < k ==> r@.contains(
                                Triple {
                                    s: (#[trigger] inner@[kk]).o,
                                    p: q,
                                    o: inner@[kk].s,
                                },
                            ),
                        forall|j: int| 0 <= j < r@.len() ==> (#[trigger] r@[j]).p < START_INDEX,
                    decreases inner@.len() - k,
                {
                    let pr = inner[k];
                    let t = Triple { s: pr.o, p: q, o: pr.s };
                    proof {
                        assert(inner@.contains(inner@[k as int]));
                        crate::utils::lemma_push_contains(r@, t);
                        assert(symp_sem(*ts, t)) by {
                            assert(qs@.contains(qs@[i as int]));
                            assert(chunk_of(*ts, NodeDictionary::RDF_TYPE).contains(
                                Pair { s: q, o: NodeDictionary::OWL_SYMMETRIC_PROPERTY },
                            ));
                            assert(chunk_of(*ts, q).contains(Pair { s: pr.s, o: pr.o }));
                        }
                    }
                    r.push(t);
                    k += 1;
                }
            }
        }
        i += 1;
    }
    proof {
        assert forall|t: Triple| symp_sem(*ts, t) implies #[trigger] r@.contains(t) by {
            let (q, x, y) = choose|q: u64, x: u64, y: u64|
                #![trigger chunk_of(*ts, q).contains(Pair { s: x, o: y })]
                {
                    &&& chunk_of(*ts, NodeDictionary::RDF_TYPE).contains(
                        Pair { s: q, o: NodeDictionary::OWL_SYMMETRIC_PROPERTY },
                    )
                    &&& q < START_INDEX
                    &&& chunk_of(*ts, q).contains(Pair { s: x, o: y })
                    &&& t == (Triple { s: y, p: q, o: x })
                };
            assert(qs@.contains(q));
            let ii = choose|ii: int| 0 <= ii < qs@.len() && qs@[ii] == q;
            assert(chunk_of(*ts, qs@[ii]).contains(Pair { s: x, o: y }));
        }
    }
    r
}

/// Two sameAs links compose: from `(a owl:sameAs b)` and `(b owl:sameAs c)`
/// with `a != c`, infer `(a owl:sameAs c)` and `(c owl:sameAs a)`.
pub open spec fn eq_trans_sem(ts: TripleStore, t: Triple) -> bool {
    &&& t.p == NodeDictionary::OWL_SAME_AS
    &&& t.s != t.o
    &&& exists|b: u64|
        #![trigger chunk_of(ts, NodeDictionary::OWL_SAME_AS).contains(Pair { s: t.s, o: b })]
        #![trigger chunk_of(ts, NodeDictionary::OWL_SAME_AS).contains(Pair { s: t.o, o: b })]
        {
            ||| (chunk_of(ts, NodeDictionary::OWL_SAME_AS).contains(Pair { s: t.s, o: b })
                && chunk_of(ts, NodeDictionary::OWL_SAME_AS).contains(Pair { s: b, o: t.o }))
            ||| (chunk_of(ts, NodeDictionary::OWL_SAME_AS).contains(Pair { s: t.o, o: b })
                && chunk_of(ts, NodeDictionary::OWL_SAME_AS).contains(Pair { s: b, o: t.s }))
        }
}

pub fn EQ_TRANS(ts: &TripleStore) -> (r: Vec<Triple>)
    requires
        ts.wf(),
    ensures
        forall|t: Triple| #[trigger] r@.contains(t) <==> eq_trans_sem(*ts, t),
        forall|i: int| 0 <= i < r@.len() ==> (#[trigger] r@[i]).p < START_INDEX,
{
    let mut r: Vec<Triple> = Vec::new();
    let off = prop_idx_to_offset(NodeDictionary::OWL_SAME_AS);
    if off >= ts.elem().len() {
        return r;
    }
    let rows = join_pairs(ts.elem()[off].so(), ts.elem()[off].so());
    let mut k: usize = 0;
    while k < rows.len()
        invariant
            k <= rows@.len(),
            ts.wf(),
            off == crate::utils::offset_of(NodeDictionary::OWL_SAME_AS),
            0 <= off < ts.elem@.len(),
            forall|w: JoinRow|
                #[trigger] rows@.contains(w) <==> (chunk_of(
                    *ts,
                    NodeDictionary::OWL_SAME_AS,
                ).contains(Pair { s: w.x, o: w.y }) && chunk_of(
                    *ts,
                    NodeDictionary::OWL_SAME_AS,
                ).contains(Pair { s: w.y, o: w.z })),
            forall|t: Triple| #[trigger] r@.contains(t) ==> eq_trans_sem(*ts, t),
            forall|kk: int|
                0 <= kk < k ==> {
                    let w = #[trigger] rows@[kk];
                    w.x != w.z ==> r@.contains(
                        Triple { s: w.x, p: NodeDictionary::OWL_SAME_AS, o: w.z },
                    ) && r@.contains(Triple { s: w.z, p: NodeDictionary::OWL_SAME_AS, o: w.x })
                },
            forall|i: int| 0 <= i < r@.len() ==> (#[trigger] r@[i]).p < START_INDEX,
        decreases rows@.len() - k,
    {
        let w = rows[k];
        proof {
            assert(rows@.contains(rows@[k as int]));
        }
        if w.x != w.z {
            let t1 = Triple { s: w.x, p: NodeDictionary::OWL_SAME_AS, o: w.z };
            let t2 = Triple { s: w.z, p: NodeDictionary::OWL_SAME_AS, o: w.x };
            proof {
                crate::utils::lemma_push_contains(r@, t1);
                crate::utils::lemma_push_contains(r@.push(t1), t2);
                assert(chunk_of(*ts, NodeDictionary::OWL_SAME_AS).contains(
                    Pair { s: w.x, o: w.y },
                ));
                assert(chunk_of(*ts, NodeDictionary::OWL_SAME_AS).contains(
                    Pair { s: w.y, o: w.z },
                ));
                assert(eq_trans_sem(*ts, t1)) by {
                    assert(chunk_of(*ts, NodeDictionary::OWL_SAME_AS).contains(
                        Pair { s: t1.s, o: w.y },
                    ));
                }
                assert(eq_trans_sem(*ts, t2)) by {
                    assert(chunk_of(*ts, NodeDictionary::OWL_SAME_AS).contains(
                        Pair { s: t2.o, o: w.y },
                    ));
                    assert(chunk_of(*ts, NodeDictionary::OWL_SAME_AS).contains(
                        Pair { s: w.y, o: t2.s },
                    ));
                }
            }
            r.push(t1);
            r.push(t2);
        }
        k += 1;
    }
    proof {
        assert forall|t: Triple| eq_trans_sem(*ts, t) implies #[trigger] r@.contains(t) by {
            let b = choose|b: u64|
                #![trigger chunk_of(*ts, NodeDictionary::OWL_SAME_AS).contains(
                    Pair { s: t.s, o: b },
                )]
                #![trigger chunk_of(*ts, NodeDictionary::OWL_SAME_AS).contains(
                    Pair { s: t.o, o: b },
                )]
                {
                    ||| (chunk_of(*ts, NodeDictionary::OWL_SAME_AS).contains(Pair { s: t.s, o: b })
                        && chunk_of(*ts, NodeDictionary::OWL_SAME_AS).contains(
                        Pair { s: b, o: t.o },
                    ))
                    ||| (chunk_of(*ts, NodeDictionary::OWL_SAME_AS).contains(Pair { s: t.o, o: b })
                        && chunk_of(*ts, NodeDictionary::OWL_SAME_AS).contains(
                        Pair { s: b, o: t.s },
                    ))
                };
            if chunk_of(*ts, NodeDictionary::OWL_SAME_AS).contains(Pair { s: t.s, o: b })
                && chunk_of(*ts, NodeDictionary::OWL_SAME_AS).contains(Pair { s: b, o: t.o }) {
                let w = JoinRow { x: t.s, y: b, z: t.o };
                assert(chunk_of(*ts, NodeDictionary::OWL_SAME_AS).contains(
                    Pair { s: w.x, o: w.y },
                ));
                assert(chunk_of(*ts, NodeDictionary::OWL_SAME_AS).contains(
                    Pair { s: w.y, o: w.z },
                ));
                assert(rows@.contains(w));
                let kk = choose|kk: int| 0 <= kk < rows@.len() && rows@[kk] == w;
                assert(rows@[kk].x != rows@[kk].z);
            } else {
                let w = JoinRow { x: t.o, y: b, z: t.s };
                assert(chunk_of(*ts, NodeDictionary::OWL_SAME_AS).contains(
                    Pair { s: w.x, o: w.y },
                ));
                assert(chunk_of(*ts, NodeDictionary::OWL_SAME_AS).contains(
                    Pair { s: w.y, o: w.z },
                ));
                assert(rows@.contains(w));
                let kk = choose|kk: int| 0 <= kk < rows@.len() && rows@[kk] == w;
                assert(rows@[kk].x != rows@[kk].z);
            }
        }
    }
    r
}

} // verus!
