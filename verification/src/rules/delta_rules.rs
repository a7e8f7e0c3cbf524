//! Delta rules: predicate substitution through `owl:inverseOf` and
//! `owl:equivalentProperty`.

#![allow(non_snake_case)]

use vstd::prelude::*;

use crate::inferray::{NodeDictionary, TripleStore};
use crate::rules::engine::chunk_of;
use crate::utils::{prop_idx_to_offset, Pair, Triple, START_INDEX};

verus! {

/// For every pair `(a, b)` of distinct property ids under `head_p`, the
/// triples of predicate `a` are rewritten to predicate `b` and vice
/// versa; with `invert`, subject and object are also exchanged.
pub open spec fn delta_sem(ts: TripleStore, head_p: u64, invert: bool, t: Triple) -> bool {
    exists|a: u64, b: u64, x: u64, y: u64|
        #![trigger chunk_of(ts, head_p).contains(Pair { s: a, o: b }),
            chunk_of(ts, a).contains(Pair { s: x, o: y })]
        #![trigger chunk_of(ts, head_p).contains(Pair { s: a, o: b }),
            chunk_of(ts, b).contains(Pair { s: x, o: y })]
        {
            &&& chunk_of(ts, head_p).contains(Pair { s: a, o: b })
            &&& a != b
            &&& a < START_INDEX
            &&& b < START_INDEX
            &&& {
                ||| (chunk_of(ts, a).contains(Pair { s: x, o: y }) && t == (if invert {
                    Triple { s: y, p: b, o: x }
                } else {
                    Triple { s: x, p: b, o: y }
                }))
                ||| (chunk_of(ts, b).contains(Pair { s: x, o: y }) && t == (if invert {
                    Triple { s: y, p: a, o: x }
                } else {
                    Triple { s: x, p: a, o: y }
                }))
            }
        }
}

fn copy_renamed(
    ts: &TripleStore,
    from_p: u64,
    to_p: u64,
    invert: bool,
    r: &mut Vec<Triple>,
)
    requires
        ts.wf(),
        from_p < START_INDEX,
        to_p < START_INDEX,
    ensures
        forall|t: Triple|
            #[trigger] final(r)@.contains(t) <==> (old(r)@.contains(t) || exists|x: u64, y: u64|
                #[trigger] chunk_of(*ts, from_p).contains(Pair { s: x, o: y }) && t == (if invert {
                    Triple { s: y, p: to_p, o: x }
                } else {
                    Triple { s: x, p: to_p, o: y }
                })),
{
    let off = prop_idx_to_offset(from_p);
    if off >= ts.elem().len() {
        return ;
    }
    let so = ts.elem()[off].so();
    let mut k: usize = 0;
    while k < so.len()
        invariant
            k <= so@.len(),
            ts.wf(),
            from_p < START_INDEX,
            to_p < START_INDEX,
            off == crate::utils::offset_of(from_p),
            0 <= off < ts.elem@.len(),
            so@ == chunk_of(*ts, from_p),
            forall|t: Triple|
                #[trigger] r@.contains(t) <==> (old(r)@.contains(t) || exists|kk: int|
                    0 <= kk < k && t == (if invert {
                        Triple { s: (#[trigger] so@[kk]).o, p: to_p, o: so@[kk].s }
                    } else {
                        Triple { s: so@[kk].s, p: to_p, o: so@[kk].o }
                    })),
        decreases so@.len() - k,
    {
        let pr = so[k];
        let t = if invert {
            Triple { s: pr.o, p: to_p, o: pr.s }
        } else {
            Triple { s: pr.s, p: to_p, o: pr.o }
        };
        proof {
            crate::utils::lemma_push_contains(r@, t);
        }
        r.push(t);
        k += 1;
    }
    proof {
        assert forall|t: Triple|
            #[trigger] final(r)@.contains(t) <==> (old(r)@.contains(t) || exists|x: u64, y: u64|
                #[trigger] chunk_of(*ts, from_p).contains(Pair { s: x, o: y }) && t == (if invert {
                    Triple { s: y, p: to_p, o: x }
                } else {
                    Triple { s: x, p: to_p, o: y }
                })) by {
            if r@.contains(t) && !old(r)@.contains(t) {
                let kk = choose|kk: int|
                    0 <= kk < k && t == (if invert {
                        Triple { s: (#[trigger] so@[kk]).o, p: to_p, o: so@[kk].s }
                    } else {
                        Triple { s: so@[kk].s, p: to_p, o: so@[kk].o }
                    });
                assert(chunk_of(*ts, from_p).contains(Pair { s: so@[kk].s, o: so@[kk].o }));
            }
            if !r@.contains(t) {
                if exists|x: u64, y: u64|
                    #[trigger] chunk_of(*ts, from_p).contains(Pair { s: x, o: y }) && t == (
                    if invert {
                        Triple { s: y, p: to_p, o: x }
                    } else {
                        Triple { s: x, p: to_p, o: y }
                    }) {
                    let (x, y) = choose|x: u64, y: u64|
                        #[trigger] chunk_of(*ts, from_p).contains(Pair { s: x, o: y }) && t == (
                        if invert {
                            Triple { s: y, p: to_p, o: x }
                        } else {
                            Triple { s: x, p: to_p, o: y }
                        });
                    let kk = choose|kk: int|
                        0 <= kk < so@.len() && so@[kk] == (Pair { s: x, o: y });
                    assert(t == (if invert {
                        Triple { s: so@[kk].o, p: to_p, o: so@[kk].s }
                    } else {
                        Triple { s: so@[kk].s, p: to_p, o: so@[kk].o }
                    }));
                }
            }
        }
    }
}

fn apply_delta_rule(ts: &TripleStore, head_p: u64, invert: bool) -> (r: Vec<Triple>)
    requires
        ts.wf(),
        head_p < START_INDEX,
    ensures
        forall|t: Triple| #[trigger] r@.contains(t) <==> delta_sem(*ts, head_p, invert, t),
        forall|i: int| 0 <= i < r@.len() ==> (#[trigger] r@[i]).p < START_INDEX,
{
    let mut r: Vec<Triple> = Vec::new();
    let hoff = prop_idx_to_offset(head_p);
    if hoff >= ts.elem().len() {
        return r;
    }
    let head = ts.elem()[hoff].so();
    let mut i: usize = 0;
    while i < head.len()
        invariant
            i <= head@.len(),
            ts.wf(),
            head_p < START_INDEX,
            hoff == crate::utils::offset_of(head_p),
            0 <= hoff < ts.elem@.len(),
            head@ == chunk_of(*ts, head_p),
            forall|t: Triple| #[trigger] r@.contains(t) ==> delta_sem(*ts, head_p, invert, t),
            forall|ii: int, x: u64, y: u64|
                (0 <= ii < i && (#[trigger] head@[ii]).s != head@[ii].o && head@[ii].s
                    < START_INDEX && head@[ii].o < START_INDEX && #[trigger] chunk_of(
                    *ts,
                    head@[ii].s,
                ).contains(Pair { s: x, o: y })) ==> r@.contains(
                    if invert {
                        Triple { s: y, p: head@[ii].o, o: x }
                    } else {
                        Triple { s: x, p: head@[ii].o, o: y }
                    },
                ),
            forall|ii: int, x: u64, y: u64|
                (0 <= ii < i && (#[trigger] head@[ii]).s != head@[ii].o && head@[ii].s
                    < START_INDEX && head@[ii].o < START_INDEX && #[trigger] chunk_of(
                    *ts,
                    head@[ii].o,
                ).contains(Pair { s: x, o: y })) ==> r@.contains(
                    if invert {
                        Triple { s: y, p: head@[ii].s, o: x }
                    } else {
                        Triple { s: x, p: head@[ii].s, o: y }
                    },
                ),
        decreases head@.len() - i,
    {
        let hp = head[i];
        let a = hp.s;
        let b = hp.o;
        proof {
            assert(head@.contains(head@[i as int]));
        }
        if a != b && a < START_INDEX && b < START_INDEX {
            let ghost r0 = r@;
            copy_renamed(ts, a, b, invert, &mut r);
            let ghost r1 = r@;
            copy_renamed(ts, b, a, invert, &mut r);
            proof {
                assert forall|t: Triple|
                    #[trigger] r@.contains(t) implies delta_sem(*ts, head_p, invert, t) by {
                    if !r1.contains(t) {
                        let (x, y) = choose|x: u64, y: u64|
                            #[trigger] chunk_of(*ts, b).contains(Pair { s: x, o: y }) && t == (
                            if invert {
                                Triple { s: y, p: a, o: x }
                            } else {
                                Triple { s: x, p: a, o: y }
                            });
                        assert(chunk_of(*ts, head_p).contains(Pair { s: a, o: b }));
                    } else if !r0.contains(t) {
                        let (x, y) = choose|x: u64, y: u64|
                            #[trigger] chunk_of(*ts, a).contains(Pair { s: x, o: y }) && t == (
                            if invert {
                                Triple { s: y, p: b, o: x }
                            } else {
                                Triple { s: x, p: b, o: y }
                            });
                        assert(chunk_of(*ts, head_p).contains(Pair { s: a, o: b }));
                    }
                }
            }
        }
        i += 1;
    }
    proof {
        assert forall|t: Triple|
            delta_sem(*ts, head_p, invert, t) implies #[trigger] r@.contains(t) by {
            let (a, b, x, y) = choose|a: u64, b: u64, x: u64, y: u64|
                #![trigger chunk_of(*ts, head_p).contains(Pair { s: a, o: b }),
                    chunk_of(*ts, a).contains(Pair { s: x, o: y })]
                #![trigger chunk_of(*ts, head_p).contains(Pair { s: a, o: b }),
                    chunk_of(*ts, b).contains(Pair { s: x, o: y })]
                {
                    &&& chunk_of(*ts, head_p).contains(Pair { s: a, o: b })
                    &&& a != b
                    &&& a < START_INDEX
                    &&& b < START_INDEX
                    &&& {
                        ||| (chunk_of(*ts, a).contains(Pair { s: x, o: y }) && t == (if invert {
                            Triple { s: y, p: b, o: x }
                        } else {
                            Triple { s: x, p: b, o: y }
                        }))
                        ||| (chunk_of(*ts, b).contains(Pair { s: x, o: y }) && t == (if invert {
                            Triple { s: y, p: a, o: x }
                        } else {
                            Triple { s: x, p: a, o: y }
                        }))
                    }
                };
            let ii = choose|ii: int| 0 <= ii < head@.len() && head@[ii] == (Pair { s: a, o: b });
            assert(head@[ii].s == a && head@[ii].o == b);
            if chunk_of(*ts, a).contains(Pair { s: x, o: y }) && t == (if invert {
                Triple { s: y, p: b, o: x }
            } else {
                Triple { s: x, p: b, o: y }
            }) {
                assert(chunk_of(*ts, head@[ii].s).contains(Pair { s: x, o: y }));
            } else {
                assert(chunk_of(*ts, head@[ii].o).contains(Pair { s: x, o: y }));
            }
        }
        assert forall|j: int| 0 <= j < r@.len() implies (#[trigger] r@[j]).p < START_INDEX by {
            assert(r@.contains(r@[j]));
            let t = r@[j];
            let (a, b, x, y) = choose|a: u64, b: u64, x: u64, y: u64|
                #![trigger chunk_of(*ts, head_p).contains(Pair { s: a, o: b }),
                    chunk_of(*ts, a).contains(Pair { s: x, o: y })]
                #![trigger chunk_of(*ts, head_p).contains(Pair { s: a, o: b }),
                    chunk_of(*ts, b).contains(Pair { s: x, o: y })]
                {
                    &&& chunk_of(*ts, head_p).contains(Pair { s: a, o: b })
                    &&& a != b
                    &&& a < START_INDEX
                    &&& b < START_INDEX
                    &&& {
                        ||| (chunk_of(*ts, a).contains(Pair { s: x, o: y }) && t == (if invert {
                            Triple { s: y, p: b, o: x }
                        } else {
                            Triple { s: x, p: b, o: y }
                        }))
                        ||| (chunk_of(*ts, b).contains(Pair { s: x, o: y }) && t == (if invert {
                            Triple { s: y, p: a, o: x }
                        } else {
                            Triple { s: x, p: a, o: y }
                        }))
                    }
                };
        }
    }
    r
}

/// From `(p1 owl:inverseOf p2)`, every `(x p1 y)` yields `(y p2 x)` and
/// every `(x p2 y)` yields `(y p1 x)`.
pub fn PRP_INV_1_2(ts: &TripleStore) -> (r: Vec<Triple>)
    requires
        ts.wf(),
    ensures
        forall|t: Triple|
            #[trigger] r@.contains(t) <==> delta_sem(*ts, NodeDictionary::OWL_INVERSE_OF, true, t),
        forall|i: int| 0 <= i < r@.len() ==> (#[trigger] r@[i]).p < START_INDEX,
{
    apply_delta_rule(ts, NodeDictionary::OWL_INVERSE_OF, true)
}

/// From `(p1 owl:equivalentProperty p2)`, the triples of either predicate
/// are copied to the other.
pub fn PRP_EQP_1_2(ts: &TripleStore) -> (r: Vec<Triple>)
    requires
        ts.wf(),
    ensures
        forall|t: Triple|
            #[trigger] r@.contains(t) <==> delta_sem(
                *ts,
                NodeDictionary::OWL_EQUIVALENT_PROPERTY,
                false,
                t,
            ),
        forall|i: int| 0 <= i < r@.len() ==> (#[trigger] r@[i]).p < START_INDEX,
{
    apply_delta_rule(ts, NodeDictionary::OWL_EQUIVALENT_PROPERTY, false)
}

} // verus!
