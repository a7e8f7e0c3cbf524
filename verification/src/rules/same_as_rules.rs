//! The consolidated sameAs rule: symmetry, predicate rewriting for
//! property ids, and subject/object substitution for resources.

#![allow(non_snake_case)]

use vstd::prelude::*;

use crate::inferray::{NodeDictionary, TripleStore};
use crate::rules::engine::chunk_of;
use crate::utils::{
    matches_of, offset_to_prop_idx, prop_at_offset, prop_idx_to_offset, Pair, Triple, START_INDEX,
};

verus! {

/// For every `(a owl:sameAs b)`: the symmetric pair; if `a` and `b` are
/// property ids, every triple of predicate `a` rewritten to predicate
/// `b`; and if `a` is a resource, every triple with `a` as subject or
/// object rewritten with `b` in its place, over every predicate but
/// `owl:sameAs` itself.
pub open spec fn same_as_sem(ts: TripleStore, t: Triple) -> bool {
    exists|a: u64, b: u64|
        #[trigger] chunk_of(ts, NodeDictionary::OWL_SAME_AS).contains(Pair { s: a, o: b }) && {
            ||| t == (Triple { s: b, p: NodeDictionary::OWL_SAME_AS, o: a })
            ||| (a < START_INDEX && b < START_INDEX && exists|x: u64, y: u64|
                #[trigger] chunk_of(ts, a).contains(Pair { s: x, o: y }) && t == (Triple {
                    s: x,
                    p: b,
                    o: y,
                }))
            ||| (a >= START_INDEX && exists|k: int, x: u64, y: u64|
                #![trigger ts.chunk_at(k).contains(Pair { s: x, o: y })]
                {
                    &&& 0 <= k < ts.elem@.len()
                    &&& prop_at_offset(k) != NodeDictionary::OWL_SAME_AS
                    &&& ts.chunk_at(k).contains(Pair { s: x, o: y })
                    &&& ((x == a && t == (Triple { s: b, p: prop_at_offset(k), o: y })) || (y == a
                        && t == (Triple { s: x, p: prop_at_offset(k), o: b })))
                })
        }
}

pub fn SAME_AS(ts: &TripleStore) -> (r: Vec<Triple>)
    requires
        ts.wf(),
        ts.all_os(),
    ensures
        forall|t: Triple| #[trigger] r@.contains(t) <==> same_as_sem(*ts, t),
        forall|i: int| 0 <= i < r@.len() ==> (#[trigger] r@[i]).p < START_INDEX,
{
    let mut r: Vec<Triple> = Vec::new();
    let saoff = prop_idx_to_offset(NodeDictionary::OWL_SAME_AS);
    if saoff >= ts.elem().len() {
        return r;
    }
    let sa = ts.elem()[saoff].so();
    let mut i: usize = 0;
    while i < sa.len()
        invariant
            i <= sa@.len(),
            ts.wf(),
            ts.all_os(),
            saoff == crate::utils::offset_of(NodeDictionary::OWL_SAME_AS),
            0 <= saoff < ts.elem@.len(),
            sa@ == chunk_of(*ts, NodeDictionary::OWL_SAME_AS),
            forall|t: Triple| #[trigger] r@.contains(t) ==> same_as_sem(*ts, t),
            forall|ii: int|
                0 <= ii < i ==> r@.contains(
                    Triple {
                        s: (#[trigger] sa@[ii]).o,
                        p: NodeDictionary::OWL_SAME_AS,
                        o: sa@[ii].s,
                    },
                ),
            forall|ii: int, x: u64, y: u64|
                (0 <= ii < i && (#[trigger] sa@[ii]).s < START_INDEX && sa@[ii].o < START_INDEX
                    && #[trigger] chunk_of(*ts, sa@[ii].s).contains(Pair { s: x, o: y }))
                    ==> r@.contains(Triple { s: x, p: sa@[ii].o, o: y }),
            forall|ii: int, k: int, x: u64, y: u64|
                (0 <= ii < i && (#[trigger] sa@[ii]).s >= START_INDEX && 0 <= k < ts.elem@.len()
                    && prop_at_offset(k) != NodeDictionary::OWL_SAME_AS
                    && #[trigger] ts.chunk_at(k).contains(Pair { s: x, o: y })) ==> ((x
                    == sa@[ii].s ==> r@.contains(
                    Triple { s: sa@[ii].o, p: prop_at_offset(k), o: y },
                )) && (y == sa@[ii].s ==> r@.contains(
                    Triple { s: x, p: prop_at_offset(k), o: sa@[ii].o },
                ))),
            forall|j: int| 0 <= j < r@.len() ==> (#[trigger] r@[j]).p < START_INDEX,
        decreases sa@.len() - i,
    {
        let pr = sa[i];
        let a = pr.s;
        let b = pr.o;
        let tsym = Triple { s: b, p: NodeDictionary::OWL_SAME_AS, o: a };
        proof {
            assert(sa@.contains(sa@[i as int]));
            crate::utils::lemma_push_contains(r@, tsym);
            assert(same_as_sem(*ts, tsym)) by {
                assert(chunk_of(*ts, NodeDictionary::OWL_SAME_AS).contains(Pair { s: a, o: b }));
            }
        }
        r.push(tsym);
        if a < START_INDEX {
            if b < START_INDEX {
                let aoff = prop_idx_to_offset(a);
                if aoff < ts.elem().len() {
                    let inner = ts.elem()[aoff].so();
                    let mut k: usize = 0;
                    while k < inner.len()
                        invariant
                            k <= inner@.len(),
                            ts.wf(),
                            i < sa@.len(),
                            pr == sa@[i as int],
                            a == pr.s,
                            b == pr.o,
                            a < START_INDEX,
                            b < START_INDEX,
                            aoff == crate::utils::offset_of(a),
                            0 <= aoff < ts.elem@.len(),
                            sa@ == chunk_of(*ts, NodeDictionary::OWL_SAME_AS),
                            inner@ == chunk_of(*ts, a),
                            forall|t: Triple| #[trigger] r@.contains(t) ==> same_as_sem(*ts, t),
                            forall|ii: int|
                                0 <= ii < i + 1 ==> r@.contains(
                                    Triple {
                                        s: (#[trigger] sa@[ii]).o,
                                        p: NodeDictionary::OWL_SAME_AS,
                                        o: sa@[ii].s,
                                    },
                                ),
                            forall|ii: int, x: u64, y: u64|
                                (0 <= ii < i && (#[trigger] sa@[ii]).s < START_INDEX && sa@[ii].o
                                    < START_INDEX && #[trigger] chunk_of(*ts, sa@[ii].s).contains(
                                    Pair { s: x, o: y },
                                )) ==> r@.contains(Triple { s: x, p: sa@[ii].o, o: y }),
                            forall|ii: int, k2: int, x: u64, y: u64|
                                (0 <= ii < i && (#[trigger] sa@[ii]).s >= START_INDEX && 0 <= k2
                                    < ts.elem@.len() && prop_at_offset(k2)
                                    != NodeDictionary::OWL_SAME_AS && #[trigger] ts.chunk_at(
                                    k2,
                                ).contains(Pair { s: x, o: y })) ==> ((x == sa@[ii].s
                                    ==> r@.contains(
                                    Triple { s: sa@[ii].o, p: prop_at_offset(k2), o: y },
                                )) && (y == sa@[ii].s ==> r@.contains(
                                    Triple { s: x, p: prop_at_offset(k2), o: sa@[ii].o },
                                ))),
                            forall|kk: int|
                                0 <= kk < k ==> r@.contains(
                                    Triple {
                                        s: (#[trigger] inner@[kk]).s,
                                        p: b,
                                        o: inner@[kk].o,
                                    },
                                ),
                            forall|j: int| 0 <= j < r@.len() ==> (#[trigger] r@[j]).p
                                < START_INDEX,
                        decreases inner@.len() - k,
                    {
                        let ip = inner[k];
                        let t = Triple { s: ip.s, p: b, o: ip.o };
                        proof {
                            assert(inner@.contains(inner@[k as int]));
                            crate::utils::lemma_push_contains(r@, t);
                            assert(same_as_sem(*ts, t)) by {
                                assert(chunk_of(*ts, NodeDictionary::OWL_SAME_AS).contains(
                                    Pair { s: a, o: b },
                                ));
                                assert(chunk_of(*ts, a).contains(Pair { s: ip.s, o: ip.o }));
                            }
                        }
                        r.push(t);
                        k += 1;
                    }
                }
            }
        } else {
            let n = ts.elem().len();
            let mut k: usize = 0;
            while k < n
                invariant
                    k <= n,
                    n == ts.elem@.len(),
                    ts.wf(),
                    ts.all_os(),
                    i < sa@.len(),
                    pr == sa@[i as int],
                    a == pr.s,
                    b == pr.o,
                    a >= START_INDEX,
                    sa@ == chunk_of(*ts, NodeDictionary::OWL_SAME_AS),
                    forall|t: Triple| #[trigger] r@.contains(t) ==> same_as_sem(*ts, t),
                    forall|ii: int|
                        0 <= ii < i + 1 ==> r@.contains(
                            Triple {
                                s: (#[trigger] sa@[ii]).o,
                                p: NodeDictionary::OWL_SAME_AS,
                                o: sa@[ii].s,
                            },
                        ),
                    forall|ii: int, x: u64, y: u64|
                        (0 <= ii < i && (#[trigger] sa@[ii]).s < START_INDEX && sa@[ii].o
                            < START_INDEX && #[trigger] chunk_of(*ts, sa@[ii].s).contains(
                            Pair { s: x, o: y },
                        )) ==> r@.contains(Triple { s: x, p: sa@[ii].o, o: y }),
                    forall|ii: int, k2: int, x: u64, y: u64|
                        (0 <= ii < i && (#[trigger] sa@[ii]).s >= START_INDEX && 0 <= k2
                            < ts.elem@.len() && prop_at_offset(k2) != NodeDictionary::OWL_SAME_AS
                            && #[trigger] ts.chunk_at(k2).contains(Pair { s: x, o: y })) ==> ((x
                            == sa@[ii].s ==> r@.contains(
                            Triple { s: sa@[ii].o, p: prop_at_offset(k2), o: y },
                        )) && (y == sa@[ii].s ==> r@.contains(
                            Triple { s: x, p: prop_at_offset(k2), o: sa@[ii].o },
                        ))),
                    forall|k2: int, x: u64, y: u64|
                        (0 <= k2 < k && prop_at_offset(k2) != NodeDictionary::OWL_SAME_AS
                            && #[trigger] ts.chunk_at(k2).contains(Pair { s: x, o: y })) ==> ((x
                            == a ==> r@.contains(Triple { s: b, p: prop_at_offset(k2), o: y }))
                            && (y == a ==> r@.contains(
                            Triple { s: x, p: prop_at_offset(k2), o: b },
                        ))),
                    forall|j: int| 0 <= j < r@.len() ==> (#[trigger] r@[j]).p < START_INDEX,
                decreases n - k,
            {
                let pk = offset_to_prop_idx(k);
                if pk != NodeDictionary::OWL_SAME_AS {
                    let c = &ts.elem()[k];
                    proof {
                        assert(ts.elem@[k as int].wf());
                    }
                    let ys = matches_of(c.so(), a);
                    let mut m: usize = 0;
                    while m < ys.len()
                        invariant
                            m <= ys@.len(),
                            ts.wf(),
                            i < sa@.len(),
                            k < n,
                            n == ts.elem@.len(),
                            a == (sa@[i as int]).s,
                            b == (sa@[i as int]).o,
                            a >= START_INDEX,
                            pk == prop_at_offset(k as int),
                            pk < START_INDEX,
                            pk != NodeDictionary::OWL_SAME_AS,
                            sa@ == chunk_of(*ts, NodeDictionary::OWL_SAME_AS),
                            forall|y: u64|
                                #[trigger] ys@.contains(y) <==> ts.chunk_at(k as int).contains(
                                    Pair { s: a, o: y },
                                ),
                            forall|t: Triple| #[trigger] r@.contains(t) ==> same_as_sem(*ts, t),
                            forall|ii: int|
                                0 <= ii < i + 1 ==> r@.contains(
                                    Triple {
                                        s: (#[trigger] sa@[ii]).o,
                                        p: NodeDictionary::OWL_SAME_AS,
                                        o: sa@[ii].s,
                                    },
                                ),
                            forall|ii: int, x2: u64, y2: u64|
                                (0 <= ii < i && (#[trigger] sa@[ii]).s < START_INDEX && sa@[ii].o
                                    < START_INDEX && #[trigger] chunk_of(*ts, sa@[ii].s).contains(
                                    Pair { s: x2, o: y2 },
                                )) ==> r@.contains(Triple { s: x2, p: sa@[ii].o, o: y2 }),
                            forall|ii: int, k3: int, x2: u64, y2: u64|
                                (0 <= ii < i && (#[trigger] sa@[ii]).s >= START_INDEX && 0 <= k3
                                    < ts.elem@.len() && prop_at_offset(k3)
                                    != NodeDictionary::OWL_SAME_AS && #[trigger] ts.chunk_at(
                                    k3,
                                ).contains(Pair { s: x2, o: y2 })) ==> ((x2 == sa@[ii].s
                                    ==> r@.contains(
                                    Triple { s: sa@[ii].o, p: prop_at_offset(k3), o: y2 },
                                )) && (y2 == sa@[ii].s ==> r@.contains(
                                    Triple { s: x2, p: prop_at_offset(k3), o: sa@[ii].o },
                                ))),
                            forall|k3: int, x2: u64, y2: u64|
                                (0 <= k3 < k && prop_at_offset(k3) != NodeDictionary::OWL_SAME_AS
                                    && #[trigger] ts.chunk_at(k3).contains(
                                    Pair { s: x2, o: y2 },
                                )) ==> ((x2 == a ==> r@.contains(
                                    Triple { s: b, p: prop_at_offset(k3), o: y2 },
                                )) && (y2 == a ==> r@.contains(
                                    Triple { s: x2, p: prop_at_offset(k3), o: b },
                                ))),
                            forall|mm: int|
                                0 <= mm < m ==> r@.contains(
                                    Triple { s: b, p: pk, o: #[trigger] ys@[mm] },
                                ),
                            forall|j: int| 0 <= j < r@.len() ==> (#[trigger] r@[j]).p
                                < START_INDEX,
                        decreases ys@.len() - m,
                    {
                        let t = Triple { s: b, p: pk, o: ys[m] };
                        proof {
                            assert(ys@.contains(ys@[m as int]));
                            crate::utils::lemma_push_contains(r@, t);
                            assert(same_as_sem(*ts, t)) by {
                                assert(sa@.contains(sa@[i as int]));
                                assert(chunk_of(*ts, NodeDictionary::OWL_SAME_AS).contains(
                                    Pair { s: a, o: b },
                                ));
                                assert(ts.chunk_at(k as int).contains(Pair { s: a, o: ys@[m as int] }));
                            }
                        }
                        r.push(t);
                        m += 1;
                    }
                    let xs = matches_of(c.os(), a);
                    let mut m2: usize = 0;
                    while m2 < xs.len()
                        invariant
                            m2 <= xs@.len(),
                            ts.wf(),
                            i < sa@.len(),
                            k < n,
                            n == ts.elem@.len(),
                            a == (sa@[i as int]).s,
                            b == (sa@[i as int]).o,
                            a >= START_INDEX,
                            pk == prop_at_offset(k as int),
                            pk < START_INDEX,
                            pk != NodeDictionary::OWL_SAME_AS,
                            sa@ == chunk_of(*ts, NodeDictionary::OWL_SAME_AS),
                            forall|y: u64|
                                #[trigger] ys@.contains(y) <==> ts.chunk_at(k as int).contains(
                                    Pair { s: a, o: y },
                                ),
                            forall|x: u64|
                                #[trigger] xs@.contains(x) <==> ts.chunk_at(k as int).contains(
                                    Pair { s: x, o: a },
                                ),
                            forall|t: Triple| #[trigger] r@.contains(t) ==> same_as_sem(*ts, t),
                            forall|ii: int|
                                0 <= ii < i + 1 ==> r@.contains(
                                    Triple {
                                        s: (#[trigger] sa@[ii]).o,
                                        p: NodeDictionary::OWL_SAME_AS,
                                        o: sa@[ii].s,
                                    },
                                ),
                            forall|ii: int, x2: u64, y2: u64|
                                (0 <= ii < i && (#[trigger] sa@[ii]).s < START_INDEX && sa@[ii].o
                                    < START_INDEX && #[trigger] chunk_of(*ts, sa@[ii].s).contains(
                                    Pair { s: x2, o: y2 },
                                )) ==> r@.contains(Triple { s: x2, p: sa@[ii].o, o: y2 }),
                            forall|ii: int, k3: int, x2: u64, y2: u64|
                                (0 <= ii < i && (#[trigger] sa@[ii]).s >= START_INDEX && 0 <= k3
                                    < ts.elem@.len() && prop_at_offset(k3)
                                    != NodeDictionary::OWL_SAME_AS && #[trigger] ts.chunk_at(
                                    k3,
                                ).contains(Pair { s: x2, o: y2 })) ==> ((x2 == sa@[ii].s
                                    ==> r@.contains(
                                    Triple { s: sa@[ii].o, p: prop_at_offset(k3), o: y2 },
                                )) && (y2 == sa@[ii].s ==> r@.contains(
                                    Triple { s: x2, p: prop_at_offset(k3), o: sa@[ii].o },
                                ))),
                            forall|k3: int, x2: u64, y2: u64|
                                (0 <= k3 < k && prop_at_offset(k3) != NodeDictionary::OWL_SAME_AS
                                    && #[trigger] ts.chunk_at(k3).contains(
                                    Pair { s: x2, o: y2 },
                                )) ==> ((x2 == a ==> r@.contains(
                                    Triple { s: b, p: prop_at_offset(k3), o: y2 },
                                )) && (y2 == a ==> r@.contains(
                                    Triple { s: x2, p: prop_at_offset(k3), o: b },
                                ))),
                            forall|mm: int|
                                0 <= mm < ys@.len() ==> r@.contains(
                                    Triple { s: b, p: pk, o: #[trigger] ys@[mm] },
                                ),
                            forall|mm: int|
                                0 <= mm < m2 ==> r@.contains(
                                    Triple { s: #[trigger] xs@[mm], p: pk, o: b },
                                ),
                            forall|j: int| 0 <= j < r@.len() ==> (#[trigger] r@[j]).p
                                < START_INDEX,
                        decreases xs@.len() - m2,
                    {
                        let t = Triple { s: xs[m2], p: pk, o: b };
                        proof {
                            assert(xs@.contains(xs@[m2 as int]));
                            crate::utils::lemma_push_contains(r@, t);
                            assert(same_as_sem(*ts, t)) by {
                                assert(sa@.contains(sa@[i as int]));
                                assert(chunk_of(*ts, NodeDictionary::OWL_SAME_AS).contains(
                                    Pair { s: a, o: b },
                                ));
                                assert(ts.chunk_at(k as int).contains(
                                    Pair { s: xs@[m2 as int], o: a },
                                ));
                            }
                        }
                        r.push(t);
                        m2 += 1;
                    }
                    proof {
                        assert forall|x: u64, y: u64|
                            (#[trigger] ts.chunk_at(k as int).contains(Pair { s: x, o: y }))
                            implies ((x == a ==> r@.contains(Triple { s: b, p: pk, o: y })) && (y
                            == a ==> r@.contains(Triple { s: x, p: pk, o: b }))) by {
                            if x == a {
                                assert(ys@.contains(y));
                                let mm = choose|mm: int| 0 <= mm < ys@.len() && ys@[mm] == y;
                                assert(r@.contains(Triple { s: b, p: pk, o: ys@[mm] }));
                            }
                            if y == a {
                                assert(xs@.contains(x));
                                let mm = choose|mm: int| 0 <= mm < xs@.len() && xs@[mm] == x;
                                assert(r@.contains(Triple { s: xs@[mm], p: pk, o: b }));
                            }
                        }
                    }
                }
                k += 1;
            }
        }
        i += 1;
    }
    proof {
        assert forall|t: Triple| same_as_sem(*ts, t) implies #[trigger] r@.contains(t) by {
            let (a, b) = choose|a: u64, b: u64|
                #[trigger] chunk_of(*ts, NodeDictionary::OWL_SAME_AS).contains(Pair { s: a, o: b })
                    && {
                    ||| t == (Triple { s: b, p: NodeDictionary::OWL_SAME_AS, o: a })
                    ||| (a < START_INDEX && b < START_INDEX && exists|x: u64, y: u64|
                        #[trigger] chunk_of(*ts, a).contains(Pair { s: x, o: y }) && t == (Triple {
                            s: x,
                            p: b,
                            o: y,
                        }))
                    ||| (a >= START_INDEX && exists|k: int, x: u64, y: u64|
                        #![trigger ts.chunk_at(k).contains(Pair { s: x, o: y })]
                        {
                            &&& 0 <= k < ts.elem@.len()
                            &&& prop_at_offset(k) != NodeDictionary::OWL_SAME_AS
                            &&& ts.chunk_at(k).contains(Pair { s: x, o: y })
                            &&& ((x == a && t == (Triple { s: b, p: prop_at_offset(k), o: y }))
                                || (y == a && t == (Triple { s: x, p: prop_at_offset(k), o: b })))
                        })
                };
            let ii = choose|ii: int| 0 <= ii < sa@.len() && sa@[ii] == (Pair { s: a, o: b });
            assert(sa@[ii].s == a && sa@[ii].o == b);
            if t == (Triple { s: b, p: NodeDictionary::OWL_SAME_AS, o: a }) {
                assert(r@.contains(
                    Triple { s: sa@[ii].o, p: NodeDictionary::OWL_SAME_AS, o: sa@[ii].s },
                ));
            } else if a < START_INDEX && b < START_INDEX && exists|x: u64, y: u64|
                #[trigger] chunk_of(*ts, a).contains(Pair { s: x, o: y }) && t == (Triple {
                    s: x,
                    p: b,
                    o: y,
                }) {
                let (x, y) = choose|x: u64, y: u64|
                    #[trigger] chunk_of(*ts, a).contains(Pair { s: x, o: y }) && t == (Triple {
                        s: x,
                        p: b,
                        o: y,
                    });
                assert(chunk_of(*ts, sa@[ii].s).contains(Pair { s: x, o: y }));
            } else {
                let (k, x, y) = choose|k: int, x: u64, y: u64|
                    #![trigger ts.chunk_at(k).contains(Pair { s: x, o: y })]
                    {
                        &&& 0 <= k < ts.elem@.len()
                        &&& prop_at_offset(k) != NodeDictionary::OWL_SAME_AS
                        &&& ts.chunk_at(k).contains(Pair { s: x, o: y })
                        &&& ((x == a && t == (Triple { s: b, p: prop_at_offset(k), o: y })) || (y
                            == a && t == (Triple { s: x, p: prop_at_offset(k), o: b })))
                    };
                assert(ts.chunk_at(k).contains(Pair { s: x, o: y }));
            }
        }
    }
    r
}

} // verus!
