//! Transitive closure of a single predicate's pair set, viewed as a
//! directed graph.

use vstd::prelude::*;
use vstd::seq_lib::*;
use vstd::set_lib::*;

use crate::utils::{
    bucket_sort_pairs, lemma_push_contains, lemma_sorted_no_dup, matches_of, merge_sorted_pairs,
    pairs_sorted, Pair,
};

verus! {

/// There is a directed path of exactly `n` edges from `x` to `y`.
pub open spec fn reach(es: Seq<Pair>, x: u64, y: u64, n: nat) -> bool
    decreases n,
{
    if n == 0 {
        false
    } else if n == 1 {
        es.contains(Pair { s: x, o: y })
    } else {
        exists|m: u64| reach(es, x, m, (n - 1) as nat) && #[trigger] es.contains(Pair { s: m, o: y })
    }
}

/// There is a non-empty directed path from `x` to `y`.  A reflexive pair
/// `(x, x)` is reachable exactly when `x` lies on a cycle.
pub open spec fn reachable(es: Seq<Pair>, x: u64, y: u64) -> bool {
    exists|n: nat| reach(es, x, y, n)
}

/// Some edge starts at `x`.
pub open spec fn in_subjects(es: Seq<Pair>, x: u64) -> bool {
    exists|i: int| 0 <= i < es.len() && (#[trigger] es[i]).s == x
}

/// Some edge ends at `y`.
pub open spec fn in_objects(es: Seq<Pair>, y: u64) -> bool {
    exists|i: int| 0 <= i < es.len() && (#[trigger] es[i]).o == y
}

/// No path exists over an empty edge list.
pub proof fn lemma_no_reach_empty(es: Seq<Pair>, x: u64, y: u64)
    requires
        es.len() == 0,
    ensures
        !reachable(es, x, y),
{
    assert forall|n: nat| !reach(es, x, y, n) by {
        lemma_no_reach_empty_n(es, x, y, n);
    }
}

proof fn lemma_no_reach_empty_n(es: Seq<Pair>, x: u64, y: u64, n: nat)
    requires
        es.len() == 0,
    ensures
        !reach(es, x, y, n),
    decreases n,
{
    if n > 1 {
        if reach(es, x, y, n) {
            let m = choose|m: u64|
                reach(es, x, m, (n - 1) as nat) && #[trigger] es.contains(Pair { s: m, o: y });
            lemma_no_reach_empty_n(es, x, m, (n - 1) as nat);
        }
    }
}

/// Paths survive when edges are added.
pub proof fn lemma_reach_monotone(e1: Seq<Pair>, e2: Seq<Pair>, x: u64, y: u64, n: nat)
    requires
        forall|p: Pair| e1.contains(p) ==> e2.contains(p),
        reach(e1, x, y, n),
    ensures
        reach(e2, x, y, n),
    decreases n,
{
    if n == 1 {
        assert(e2.contains(Pair { s: x, o: y }));
    } else {
        let m = choose|m: u64|
            reach(e1, x, m, (n - 1) as nat) && #[trigger] e1.contains(Pair { s: m, o: y });
        lemma_reach_monotone(e1, e2, x, m, (n - 1) as nat);
        assert(e2.contains(Pair { s: m, o: y }));
        assert(reach(e2, x, y, n));
    }
}

/// Reachability survives when edges are added.
pub proof fn lemma_reachable_monotone(e1: Seq<Pair>, e2: Seq<Pair>, x: u64, y: u64)
    requires
        forall|p: Pair| e1.contains(p) ==> e2.contains(p),
        reachable(e1, x, y),
    ensures
        reachable(e2, x, y),
{
    let n = choose|n: nat| reach(e1, x, y, n);
    lemma_reach_monotone(e1, e2, x, y, n);
}

/// A path can be extended by one edge.
pub proof fn lemma_reach_extend(es: Seq<Pair>, x: u64, y: u64, z: u64)
    requires
        reachable(es, x, y),
        es.contains(Pair { s: y, o: z }),
    ensures
        reachable(es, x, z),
{
    let n = choose|n: nat| reach(es, x, y, n);
    assert(n >= 1);
    assert(reach(es, x, z, n + 1));
}

/// Every path lands inside a set that holds the edges and is closed under
/// extension by one edge.
pub proof fn lemma_closed_contains_reach(es: Seq<Pair>, cur: Seq<Pair>, x: u64, y: u64, n: nat)
    requires
        forall|p: Pair| es.contains(p) ==> cur.contains(p),
        forall|a: u64, b: u64, c: u64|
            #![trigger cur.contains(Pair { s: a, o: b }), es.contains(Pair { s: b, o: c })]
            cur.contains(Pair { s: a, o: b }) && es.contains(Pair { s: b, o: c })
                ==> cur.contains(Pair { s: a, o: c }),
        reach(es, x, y, n),
    ensures
        cur.contains(Pair { s: x, o: y }),
    decreases n,
{
    if n == 1 {
    } else {
        let m = choose|m: u64|
            reach(es, x, m, (n - 1) as nat) && #[trigger] es.contains(Pair { s: m, o: y });
        lemma_closed_contains_reach(es, cur, x, m, (n - 1) as nat);
    }
}

proof fn lemma_encode(i: int, j: int, n: int)
    requires
        0 <= i,
        0 <= j < n,
    ensures
        (i * n + j) / n == i,
        (i * n + j) % n == j,
{
    assert((i * n + j) / n == i && (i * n + j) % n == j) by (nonlinear_arith)
        requires
            0 <= i,
            0 <= j < n,
    ;
}

/// One round of semi-naive extension: the input pairs together with every
/// pair reached by following one more edge.
fn compose_step(cur: &Vec<Pair>, edges: &Vec<Pair>) -> (r: Vec<Pair>)
    requires
        pairs_sorted(cur@),
        pairs_sorted(edges@),
    ensures
        pairs_sorted(r@),
        forall|p: Pair|
            #[trigger] r@.contains(p) <==> (cur@.contains(p) || exists|y: u64|
                #[trigger] cur@.contains(Pair { s: p.s, o: y }) && edges@.contains(
                    Pair { s: y, o: p.o },
                )),
{
    let mut delta: Vec<Pair> = Vec::new();
    let mut i: usize = 0;
    while i < cur.len()
        invariant
            i <= cur@.len(),
            pairs_sorted(cur@),
            pairs_sorted(edges@),
            forall|p: Pair|
                #[trigger] delta@.contains(p) ==> exists|y: u64|
                    #[trigger] cur@.contains(Pair { s: p.s, o: y }) && edges@.contains(
                        Pair { s: y, o: p.o },
                    ),
            forall|ii: int, z: u64|
                0 <= ii < i && #[trigger] edges@.contains(Pair { s: cur@[ii].o, o: z })
                    ==> delta@.contains(Pair { s: cur@[ii].s, o: z }),
        decreases cur@.len() - i,
    {
        let p = cur[i];
        let ms = matches_of(edges, p.o);
        let mut k: usize = 0;
        while k < ms.len()
            invariant
                k <= ms@.len(),
                i < cur@.len(),
                p == cur@[i as int],
                pairs_sorted(cur@),
                pairs_sorted(edges@),
                forall|y: u64| ms@.contains(y) <==> edges@.contains(Pair { s: p.o, o: y }),
                forall|q: Pair|
                    #[trigger] delta@.contains(q) ==> exists|y: u64|
                        #[trigger] cur@.contains(Pair { s: q.s, o: y }) && edges@.contains(
                            Pair { s: y, o: q.o },
                        ),
                forall|ii: int, z: u64|
                    0 <= ii < i && #[trigger] edges@.contains(Pair { s: cur@[ii].o, o: z })
                        ==> delta@.contains(Pair { s: cur@[ii].s, o: z }),
                forall|kk: int|
                    0 <= kk < k ==> delta@.contains(Pair { s: p.s, o: #[trigger] ms@[kk] }),
            decreases ms@.len() - k,
        {
            let q = Pair { s: p.s, o: ms[k] };
            proof {
                lemma_push_contains(delta@, q);
                assert(cur@.contains(Pair { s: q.s, o: p.o })) by {
                    assert(cur@[i as int] == (Pair { s: q.s, o: p.o }));
                }
                assert(ms@.contains(ms@[k as int]));
                assert(edges@.contains(Pair { s: p.o, o: q.o }));
            }
            delta.push(q);
            k += 1;
        }
        proof {
            assert forall|z: u64| #[trigger] edges@.contains(Pair { s: p.o, o: z })
                implies delta@.contains(Pair { s: p.s, o: z }) by {
                assert(ms@.contains(z));
                let kk = choose|kk: int| 0 <= kk < ms@.len() && ms@[kk] == z;
                assert(delta@.contains(Pair { s: p.s, o: ms@[kk] }));
            }
        }
        i += 1;
    }
    bucket_sort_pairs(&mut delta);
    let r = merge_sorted_pairs(cur, &delta);
    proof {
        assert forall|p: Pair| #[trigger] r@.contains(p) implies (cur@.contains(p) || exists|y: u64|
            #[trigger] cur@.contains(Pair { s: p.s, o: y }) && edges@.contains(
                Pair { s: y, o: p.o },
            )) by {}
        assert forall|p: Pair|
            (cur@.contains(p) || exists|y: u64|
                #[trigger] cur@.contains(Pair { s: p.s, o: y }) && edges@.contains(
                    Pair { s: y, o: p.o },
                )) implies #[trigger] r@.contains(p) by {
            if !cur@.contains(p) {
                let y = choose|y: u64|
                    #[trigger] cur@.contains(Pair { s: p.s, o: y }) && edges@.contains(
                        Pair { s: y, o: p.o },
                    );
                let ii = choose|ii: int|
                    0 <= ii < cur@.len() && cur@[ii] == (Pair { s: p.s, o: y });
                assert(edges@.contains(Pair { s: cur@[ii].o, o: p.o }));
                assert(delta@.contains(Pair { s: cur@[ii].s, o: p.o }));
            }
        }
    }
    r
}

/// Compute the transitive closure of the directed graph given by a sorted
/// list of edges: the result holds `(x, y)` exactly when a non-empty path
/// leads from `x` to `y`, so a reflexive pair appears only for nodes on a
/// cycle.
pub fn graph_tc(edges: &Vec<Pair>) -> (r: Vec<Pair>)
    requires
        pairs_sorted(edges@),
    ensures
        pairs_sorted(r@),
        forall|p: Pair| #[trigger] r@.contains(p) <==> reachable(edges@, p.s, p.o),
{
    let empty: Vec<Pair> = Vec::new();
    let mut cur = merge_sorted_pairs(edges, &empty);
    let ghost n = edges@.len() as int;
    let ghost useq = Seq::<Pair>::new(
        (n * n) as nat,
        |k: int| Pair { s: edges@[k / n].s, o: edges@[k % n].o },
    );
    let ghost uset = useq.to_set();
    proof {
        seq_to_set_is_finite(useq);
        assert(n * n >= 0) by (nonlinear_arith);
        assert forall|p: Pair| #[trigger] cur@.contains(p) implies reachable(
            edges@,
            p.s,
            p.o,
        ) by {
            assert(edges@.contains(Pair { s: p.s, o: p.o }));
            assert(reach(edges@, p.s, p.o, 1));
        }
        assert forall|p: Pair| #[trigger] cur@.contains(p) implies in_subjects(edges@, p.s)
            && in_objects(edges@, p.o) by {
            let i = choose|i: int| 0 <= i < edges@.len() && edges@[i] == p;
            assert(edges@[i].s == p.s);
            assert(edges@[i].o == p.o);
        }
    }
    loop
        invariant
            pairs_sorted(edges@),
            pairs_sorted(cur@),
            forall|p: Pair| edges@.contains(p) ==> cur@.contains(p),
            forall|p: Pair| #[trigger] cur@.contains(p) ==> reachable(edges@, p.s, p.o),
            forall|p: Pair|
                #[trigger] cur@.contains(p) ==> in_subjects(edges@, p.s) && in_objects(edges@, p.o),
            uset.finite(),
            uset == useq.to_set(),
            n == edges@.len(),
            useq == Seq::<Pair>::new(
                (n * n) as nat,
                |k: int| Pair { s: edges@[k / n].s, o: edges@[k % n].o },
            ),
        decreases uset.len() - cur@.to_set().len(),
    {
        proof {
            // cur stays inside the finite universe of candidate pairs
            assert forall|p: Pair| #[trigger] cur@.to_set().contains(p) implies uset.contains(
                p,
            ) by {
                assert(cur@.contains(p));
                let i = choose|i: int| 0 <= i < edges@.len() && (#[trigger] edges@[i]).s == p.s;
                let j = choose|j: int| 0 <= j < edges@.len() && (#[trigger] edges@[j]).o == p.o;
                assert(0 <= i * n + j < n * n) by (nonlinear_arith)
                    requires
                        0 <= i < n,
                        0 <= j < n,
                ;
                lemma_encode(i, j, n);
                assert(useq[i * n + j] == p);
            }
            lemma_len_subset(cur@.to_set(), uset);
            lemma_sorted_no_dup(cur@);
            cur@.unique_seq_to_set();
        }
        let stepped = compose_step(&cur, edges);
        proof {
            lemma_sorted_no_dup(stepped@);
            stepped@.unique_seq_to_set();
            assert(cur@.to_set() <= stepped@.to_set()) by {
                assert forall|p: Pair| #[trigger] cur@.to_set().contains(p)
                    implies stepped@.to_set().contains(p) by {
                    assert(cur@.contains(p));
                    assert(stepped@.contains(p));
                }
            }
        }
        if stepped.len() == cur.len() {
            proof {
                assert(stepped@.to_set().finite()) by {
                    seq_to_set_is_finite(stepped@);
                }
                lemma_len_subset(cur@.to_set(), stepped@.to_set());
                assert(cur@.to_set().len() == stepped@.to_set().len());
                lemma_subset_equality(cur@.to_set(), stepped@.to_set());
                // cur and stepped hold the same pairs, so cur is closed
                assert forall|a: u64, b: u64, c: u64|
                    #![trigger cur@.contains(Pair { s: a, o: b }),
                        edges@.contains(Pair { s: b, o: c })]
                    cur@.contains(Pair { s: a, o: b }) && edges@.contains(Pair { s: b, o: c })
                        implies cur@.contains(Pair { s: a, o: c }) by {
                    let pp = Pair { s: a, o: c };
                    assert(cur@.contains(Pair { s: pp.s, o: b }));
                    assert(edges@.contains(Pair { s: b, o: pp.o }));
                    assert(exists|y: u64|
                        #[trigger] cur@.contains(Pair { s: pp.s, o: y }) && edges@.contains(
                            Pair { s: y, o: pp.o },
                        ));
                    assert(stepped@.contains(pp));
                    assert(stepped@.to_set().contains(Pair { s: a, o: c }));
                    assert(cur@.to_set().contains(Pair { s: a, o: c }));
                }
                assert forall|p: Pair| reachable(edges@, p.s, p.o) implies #[trigger] cur@.contains(
                    p,
                ) by {
                    let nn = choose|nn: nat| reach(edges@, p.s, p.o, nn);
                    lemma_closed_contains_reach(edges@, cur@, p.s, p.o, nn);
                }
                assert forall|p: Pair| #[trigger] cur@.contains(p) implies reachable(
                    edges@,
                    p.s,
                    p.o,
                ) by {}
            }
            return cur;
        }
        proof {
            // a strictly larger subset of the universe: the measure shrinks
            assert(stepped@.len() > cur@.len()) by {
                seq_to_set_is_finite(stepped@);
                lemma_len_subset(cur@.to_set(), stepped@.to_set());
            }
            assert forall|p: Pair| #[trigger] stepped@.contains(p) implies reachable(
                edges@,
                p.s,
                p.o,
            ) by {
                if cur@.contains(p) {
                } else {
                    let y = choose|y: u64|
                        #[trigger] cur@.contains(Pair { s: p.s, o: y }) && edges@.contains(
                            Pair { s: y, o: p.o },
                        );
                    lemma_reach_extend(edges@, p.s, y, p.o);
                }
            }
            assert forall|p: Pair| #[trigger] stepped@.contains(p) implies in_subjects(edges@, p.s)
                && in_objects(edges@, p.o) by {
                if cur@.contains(p) {
                } else {
                    let y = choose|y: u64|
                        #[trigger] cur@.contains(Pair { s: p.s, o: y }) && edges@.contains(
                            Pair { s: y, o: p.o },
                        );
                    let j = choose|j: int|
                        0 <= j < edges@.len() && edges@[j] == (Pair { s: y, o: p.o });
                    assert(edges@[j].o == p.o);
                }
            }
            // the new list still lies inside the universe, so the measure
            // stays non-negative
            assert(stepped@.to_set().len() <= uset.len()) by {
                assert forall|p: Pair| #[trigger] stepped@.to_set().contains(p)
                    implies uset.contains(p) by {
                    assert(stepped@.contains(p));
                    assert(in_subjects(edges@, p.s) && in_objects(edges@, p.o));
                    let i = choose|i: int|
                        0 <= i < edges@.len() && (#[trigger] edges@[i]).s == p.s;
                    let j = choose|j: int|
                        0 <= j < edges@.len() && (#[trigger] edges@[j]).o == p.o;
                    assert(0 <= i * n + j < n * n) by (nonlinear_arith)
                        requires
                            0 <= i < n,
                            0 <= j < n,
                    ;
                    lemma_encode(i, j, n);
                    assert(useq[i * n + j] == p);
                }
                lemma_len_subset(stepped@.to_set(), uset);
            }
        }
        cur = stepped;
    }
}

} // verus!
