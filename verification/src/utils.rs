//! Ordered pairs and triples of integer ids, and the sorted-list utilities
//! that the per-predicate chunks are built from.

use vstd::prelude::*;

verus! {

/// The boundary between the two id half-spaces: property ids lie strictly
/// below `START_INDEX`, resource ids strictly above it.
pub const START_INDEX: u64 = 0xFFFF_FFFF;

/// A (subject, object) pair belonging to an implicit predicate.
#[derive(Clone, Copy, PartialEq, Eq, Structural, Debug)]
pub struct Pair {
    pub s: u64,
    pub o: u64,
}

/// An integer-encoded RDF triple.
#[derive(Clone, Copy, PartialEq, Eq, Structural, Debug)]
pub struct Triple {
    pub s: u64,
    pub p: u64,
    pub o: u64,
}

/// The chunk offset that a property id is stored at.
pub open spec fn offset_of(p: u64) -> int {
    START_INDEX - p - 1
}

/// The property id stored at a chunk offset.
pub open spec fn prop_at_offset(k: int) -> u64 {
    (START_INDEX - k - 1) as u64
}

/// Convert a property index to an offset usable with `TripleStore::elem`.
pub fn prop_idx_to_offset(p: u64) -> (r: usize)
    requires
        p < START_INDEX,
    ensures
        r == offset_of(p),
{
    (START_INDEX - p - 1) as usize
}

/// Convert an offset (usable with `TripleStore::elem`) into a property id.
pub fn offset_to_prop_idx(k: usize) -> (r: u64)
    requires
        (k as u64) < START_INDEX,
    ensures
        r == prop_at_offset(k as int),
        r < START_INDEX,
{
    START_INDEX - (k as u64) - 1
}

/// Strict lexicographic order on pairs: by subject, then by object.
pub open spec fn pair_lt(a: Pair, b: Pair) -> bool {
    a.s < b.s || (a.s == b.s && a.o < b.o)
}

/// The pair with subject and object exchanged.
pub open spec fn pair_swap(p: Pair) -> Pair {
    Pair { s: p.o, o: p.s }
}

/// A strictly increasing (hence duplicate-free) sequence of pairs.
pub open spec fn pairs_sorted(s: Seq<Pair>) -> bool {
    forall|i: int, j: int| 0 <= i < j < s.len() ==> #[trigger] pair_lt(s[i], s[j])
}

/// A strictly increasing sequence of integers.
pub open spec fn nums_sorted(s: Seq<u64>) -> bool {
    forall|i: int, j: int| #![trigger s[i], s[j]] 0 <= i < j < s.len() ==> s[i] < s[j]
}

/// Appending an integer strictly above the last element keeps the list
/// sorted.
pub proof fn lemma_push_sorted_nums(s: Seq<u64>, v: u64)
    requires
        nums_sorted(s),
        forall|i: int| 0 <= i < s.len() ==> #[trigger] s[i] < v,
    ensures
        nums_sorted(s.push(v)),
{
    assert forall|i: int, j: int| #![trigger s.push(v)[i], s.push(v)[j]]
        0 <= i < j < s.push(v).len() implies s.push(v)[i] < s.push(v)[j] by {
        if j < s.len() {
            assert(s[i] < s[j]);
        } else {
            assert(s.push(v)[i] == s[i]);
        }
    }
}

/// Appending an element preserves membership as expected.
pub proof fn lemma_push_contains<A>(s: Seq<A>, v: A)
    ensures
        forall|x: A| #[trigger] s.push(v).contains(x) <==> (s.contains(x) || x == v),
{
    assert forall|x: A| #[trigger] s.push(v).contains(x) implies (s.contains(x) || x == v) by {
        let i = choose|i: int| 0 <= i < s.push(v).len() && s.push(v)[i] == x;
        if i < s.len() {
            assert(s[i] == x);
        }
    }
    assert forall|x: A| (s.contains(x) || x == v) implies #[trigger] s.push(v).contains(x) by {
        if s.contains(x) {
            let i = choose|i: int| 0 <= i < s.len() && s[i] == x;
            assert(s.push(v)[i] == x);
        } else {
            assert(s.push(v)[s.len() as int] == x);
        }
    }
}

/// Appending a pair strictly above the last element keeps the list sorted.
pub proof fn lemma_push_sorted(s: Seq<Pair>, v: Pair)
    requires
        pairs_sorted(s),
        forall|i: int| 0 <= i < s.len() ==> pair_lt(#[trigger] s[i], v),
    ensures
        pairs_sorted(s.push(v)),
{
    assert forall|i: int, j: int| 0 <= i < j < s.push(v).len() implies #[trigger] pair_lt(
        s.push(v)[i],
        s.push(v)[j],
    ) by {
        if j < s.len() {
            assert(pair_lt(s[i], s[j]));
        } else {
            assert(s.push(v)[i] == s[i]);
        }
    }
}

/// A strictly sorted sequence has no duplicates.
pub proof fn lemma_sorted_no_dup(s: Seq<Pair>)
    requires
        pairs_sorted(s),
    ensures
        s.no_duplicates(),
{
    assert forall|i: int, j: int|
        0 <= i < s.len() && 0 <= j < s.len() && i != j implies s[i] != s[j] by {
        if i < j {
            assert(pair_lt(s[i], s[j]));
        } else {
            assert(pair_lt(s[j], s[i]));
        }
    }
}

/// Two strictly sorted sequences holding the same pairs are equal:
/// the sorted, duplicate-free form of a set of pairs is canonical.
pub proof fn lemma_sorted_unique(a: Seq<Pair>, b: Seq<Pair>)
    requires
        pairs_sorted(a),
        pairs_sorted(b),
        forall|p: Pair| a.contains(p) <==> b.contains(p),
    ensures
        a == b,
    decreases a.len(),
{
    if a.len() == 0 {
        if b.len() > 0 {
            assert(b.contains(b[0]));
        }
        assert(a =~= b);
    } else {
        assert(a.contains(a[0]));
        assert(b.contains(b[0]));
        let i = choose|i: int| 0 <= i < a.len() && a[i] == b[0];
        let j = choose|j: int| 0 <= j < b.len() && b[j] == a[0];
        if i > 0 {
            assert(pair_lt(a[0], a[i]));
        }
        if j > 0 {
            assert(pair_lt(b[0], b[j]));
        }
        assert(a[0] == b[0]);
        let a1 = a.subrange(1, a.len() as int);
        let b1 = b.subrange(1, b.len() as int);
        assert forall|p: Pair| a1.contains(p) implies b1.contains(p) by {
            let k = choose|k: int| 0 <= k < a1.len() && a1[k] == p;
            assert(a[k + 1] == p);
            assert(a.contains(p));
            assert(pair_lt(a[0], p));
            let m = choose|m: int| 0 <= m < b.len() && b[m] == p;
            assert(m > 0);
            assert(b1[m - 1] == p);
        }
        assert forall|p: Pair| b1.contains(p) implies a1.contains(p) by {
            let k = choose|k: int| 0 <= k < b1.len() && b1[k] == p;
            assert(b[k + 1] == p);
            assert(b.contains(p));
            assert(pair_lt(b[0], p));
            let m = choose|m: int| 0 <= m < a.len() && a[m] == p;
            assert(m > 0);
            assert(a1[m - 1] == p);
        }
        lemma_sorted_unique(a1, b1);
        assert forall|k: int| 0 <= k < a.len() implies a[k] == b[k] by {
            if k > 0 {
                assert(a1[k - 1] == b1[k - 1]);
            }
        }
        assert(a =~= b);
    }
}

/// Return the position of the first pair in `pairs` whose first element is
/// `x`, or the length of `pairs` if there is none.
pub fn first_pair(pairs: &Vec<Pair>, x: u64) -> (r: usize)
    requires
        pairs_sorted(pairs@),
    ensures
        r <= pairs@.len(),
        forall|i: int| 0 <= i < r ==> #[trigger] pairs@[i].s != x,
        r < pairs@.len() ==> pairs@[r as int].s == x,
        (forall|i: int| 0 <= i < pairs@.len() ==> #[trigger] pairs@[i].s != x) ==> r
            == pairs@.len(),
{
    let mut lo: usize = 0;
    let mut hi: usize = pairs.len();
    while lo < hi
        invariant
            lo <= hi <= pairs@.len(),
            pairs_sorted(pairs@),
            forall|i: int| 0 <= i < lo ==> #[trigger] pairs@[i].s < x,
            forall|i: int| hi <= i < pairs@.len() ==> #[trigger] pairs@[i].s >= x,
        decreases hi - lo,
    {
        let mid = lo + (hi - lo) / 2;
        if pairs[mid].s < x {
            assert forall|i: int| 0 <= i < mid + 1 implies #[trigger] pairs@[i].s < x by {
                if i < mid {
                    assert(pair_lt(pairs@[i], pairs@[mid as int]));
                }
            }
            lo = mid + 1;
        } else {
            assert forall|i: int| mid <= i < pairs@.len() implies #[trigger] pairs@[i].s >= x by {
                if i > mid {
                    assert(pair_lt(pairs@[mid as int], pairs@[i]));
                }
            }
            hi = mid;
        }
    }
    if lo < pairs.len() && pairs[lo].s == x {
        lo
    } else {
        proof {
            assert forall|i: int| 0 <= i < pairs@.len() implies #[trigger] pairs@[i].s != x by {
                if i >= lo && lo < pairs@.len() {
                    if i > lo {
                        assert(pair_lt(pairs@[lo as int], pairs@[i]));
                    }
                }
            }
        }
        pairs.len()
    }
}

/// All objects paired with subject `key` in a sorted pair list.
pub fn matches_of(pairs: &Vec<Pair>, key: u64) -> (r: Vec<u64>)
    requires
        pairs_sorted(pairs@),
    ensures
        forall|y: u64| r@.contains(y) <==> pairs@.contains(Pair { s: key, o: y }),
{
    let mut r: Vec<u64> = Vec::new();
    let start = first_pair(pairs, key);
    let mut j = start;
    while j < pairs.len() && pairs[j].s == key
        invariant
            pairs_sorted(pairs@),
            start <= j <= pairs@.len(),
            forall|i: int| start <= i < j ==> #[trigger] pairs@[i].s == key,
            forall|i: int| 0 <= i < start ==> #[trigger] pairs@[i].s != key,
            r@.len() == j - start,
            forall|i: int| start <= i < j ==> r@[i - start] == #[trigger] pairs@[i].o,
        decreases pairs@.len() - j,
    {
        let y = pairs[j].o;
        r.push(y);
        j += 1;
    }
    proof {
        assert forall|y: u64| r@.contains(y) implies pairs@.contains(Pair { s: key, o: y }) by {
            let i = choose|i: int| 0 <= i < r@.len() && r@[i] == y;
            assert(pairs@[i + start].o == y);
            assert(pairs@[i + start].s == key);
            assert(pairs@[i + start] == Pair { s: key, o: y });
        }
        assert forall|y: u64| pairs@.contains(Pair { s: key, o: y }) implies r@.contains(y) by {
            let i = choose|i: int| 0 <= i < pairs@.len() && pairs@[i] == (Pair { s: key, o: y });
            assert(pairs@[i].s == key);
            assert(i >= start);
            if i >= j {
                // the loop stopped at j, so i >= j is impossible
                assert(j < pairs@.len());
                assert(pairs@[j as int].s != key);
                if j == start {
                    assert(pairs@[start as int].s == key);
                } else {
                    assert(pairs@[j - 1].s == key);
                    assert(pair_lt(pairs@[j - 1], pairs@[j as int]));
                    if i > j {
                        assert(pair_lt(pairs@[j as int], pairs@[i]));
                    }
                }
            }
            assert(i < j);
            assert(pairs@[i].o == y);
            assert(r@[i - start] == y);
        }
    }
    r
}

/// Whether a vector of ids holds `x`.
pub fn ids_contain(v: &Vec<u64>, x: u64) -> (r: bool)
    ensures
        r == v@.contains(x),
{
    let mut k: usize = 0;
    while k < v.len()
        invariant
            k <= v@.len(),
            forall|i: int| 0 <= i < k ==> v@[i] != x,
        decreases v@.len() - k,
    {
        if v[k] == x {
            assert(v@[k as int] == x);
            return true;
        }
        k += 1;
    }
    false
}

/// Whether a pair list holds `p`.
pub fn pairs_contain(v: &Vec<Pair>, p: Pair) -> (r: bool)
    ensures
        r == v@.contains(p),
{
    let mut k: usize = 0;
    while k < v.len()
        invariant
            k <= v@.len(),
            forall|i: int| 0 <= i < k ==> v@[i] != p,
        decreases v@.len() - k,
    {
        if v[k].s == p.s && v[k].o == p.o {
            assert(v@[k as int] == p);
            return true;
        }
        k += 1;
    }
    false
}

/// Merge two strictly sorted integer lists into one, without duplicates.
pub fn merge_sort(a: Vec<u64>, b: Vec<u64>) -> (r: Vec<u64>)
    requires
        nums_sorted(a@),
        nums_sorted(b@),
    ensures
        nums_sorted(r@),
        forall|x: u64| r@.contains(x) <==> (a@.contains(x) || b@.contains(x)),
{
    let mut r: Vec<u64> = Vec::new();
    let mut ia: usize = 0;
    let mut ib: usize = 0;
    while ia < a.len() || ib < b.len()
        invariant
            ia <= a@.len(),
            ib <= b@.len(),
            nums_sorted(a@),
            nums_sorted(b@),
            nums_sorted(r@),
            forall|x: u64|
                r@.contains(x) <==> (a@.subrange(0, ia as int).contains(x) || b@.subrange(
                    0,
                    ib as int,
                ).contains(x)),
            forall|k: int| ia <= k < a@.len() ==> r@.len() == 0 || r@.last() < #[trigger] a@[k],
            forall|k: int| ib <= k < b@.len() ==> r@.len() == 0 || r@.last() < #[trigger] b@[k],
        decreases a@.len() - ia + b@.len() - ib,
    {
        let ghost ra = a@.subrange(0, ia as int);
        let ghost rb = b@.subrange(0, ib as int);
        let ghost oldr = r@;
        let take_a = if ib >= b.len() {
            true
        } else if ia >= a.len() {
            false
        } else {
            a[ia] <= b[ib]
        };
        if take_a {
            let v = a[ia];
            let both = ib < b.len() && b[ib] == v;
            proof {
                lemma_push_contains(oldr, v);
                assert forall|i: int| 0 <= i < oldr.len() implies #[trigger] oldr[i] < v by {
                    assert(oldr[i] <= oldr.last());
                }
                lemma_push_sorted_nums(oldr, v);
            }
            r.push(v);
            ia += 1;
            if both {
                ib += 1;
                proof {
                    assert(b@.subrange(0, ib as int) =~= rb.push(v));
                }
            } else {
                proof {
                    assert(b@.subrange(0, ib as int) =~= rb);
                    lemma_push_contains(rb, v);
                }
            }
            proof {
                assert(a@.subrange(0, ia as int) =~= ra.push(v));
                lemma_push_contains(ra, v);
                if both {
                    lemma_push_contains(rb, v);
                }
            }
        } else {
            let v = b[ib];
            proof {
                lemma_push_contains(oldr, v);
                assert forall|i: int| 0 <= i < oldr.len() implies #[trigger] oldr[i] < v by {
                    assert(oldr[i] <= oldr.last());
                }
                lemma_push_sorted_nums(oldr, v);
            }
            r.push(v);
            ib += 1;
            proof {
                assert(b@.subrange(0, ib as int) =~= rb.push(v));
                assert(a@.subrange(0, ia as int) =~= ra);
                lemma_push_contains(rb, v);
            }
        }
    }
    proof {
        assert(a@.subrange(0, ia as int) =~= a@);
        assert(b@.subrange(0, ib as int) =~= b@);
    }
    r
}

/// Merge two strictly sorted pair lists into one, without duplicates.
pub fn merge_sorted_pairs(a: &Vec<Pair>, b: &Vec<Pair>) -> (r: Vec<Pair>)
    requires
        pairs_sorted(a@),
        pairs_sorted(b@),
    ensures
        pairs_sorted(r@),
        forall|p: Pair| r@.contains(p) <==> (a@.contains(p) || b@.contains(p)),
{
    let mut r: Vec<Pair> = Vec::new();
    let mut ia: usize = 0;
    let mut ib: usize = 0;
    while ia < a.len() || ib < b.len()
        invariant
            ia <= a@.len(),
            ib <= b@.len(),
            pairs_sorted(a@),
            pairs_sorted(b@),
            pairs_sorted(r@),
            forall|p: Pair|
                r@.contains(p) <==> (a@.subrange(0, ia as int).contains(p) || b@.subrange(
                    0,
                    ib as int,
                ).contains(p)),
            forall|k: int|
                ia <= k < a@.len() ==> r@.len() == 0 || pair_lt(r@.last(), #[trigger] a@[k]),
            forall|k: int|
                ib <= k < b@.len() ==> r@.len() == 0 || pair_lt(r@.last(), #[trigger] b@[k]),
        decreases a@.len() - ia + b@.len() - ib,
    {
        let ghost ra = a@.subrange(0, ia as int);
        let ghost rb = b@.subrange(0, ib as int);
        let ghost oldr = r@;
        let take_a = if ib >= b.len() {
            true
        } else if ia >= a.len() {
            false
        } else {
            !(b[ib].s < a[ia].s || (b[ib].s == a[ia].s && b[ib].o < a[ia].o))
        };
        if take_a {
            let v = a[ia];
            let both = ib < b.len() && b[ib].s == v.s && b[ib].o == v.o;
            proof {
                lemma_push_contains(oldr, v);
                assert forall|i: int| 0 <= i < oldr.len() implies pair_lt(
                    #[trigger] oldr[i],
                    v,
                ) by {
                    if i < oldr.len() - 1 {
                        assert(pair_lt(oldr[i], oldr.last()));
                    }
                }
                lemma_push_sorted(oldr, v);
            }
            r.push(v);
            ia += 1;
            if both {
                ib += 1;
                proof {
                    assert(b@[ib - 1] == v);
                    assert(b@.subrange(0, ib as int) =~= rb.push(v));
                }
            } else {
                proof {
                    assert(b@.subrange(0, ib as int) =~= rb);
                }
            }
            proof {
                assert(a@.subrange(0, ia as int) =~= ra.push(v));
                lemma_push_contains(ra, v);
                if both {
                    lemma_push_contains(rb, v);
                }
                assert(r@.last() == v);
                assert forall|k: int| ia <= k < a@.len() implies pair_lt(
                    r@.last(),
                    #[trigger] a@[k],
                ) by {
                    assert(pair_lt(a@[ia - 1], a@[k]));
                }
                assert forall|k: int| ib <= k < b@.len() implies pair_lt(
                    r@.last(),
                    #[trigger] b@[k],
                ) by {
                    if both {
                        if k > ib - 1 {
                            assert(pair_lt(b@[ib - 1], b@[k]));
                        }
                    } else {
                        assert(!pair_lt(b@[ib as int], v));
                        assert(b@[ib as int] != v);
                        assert(pair_lt(v, b@[ib as int]));
                        if k > ib {
                            assert(pair_lt(b@[ib as int], b@[k]));
                        }
                    }
                }
            }
        } else {
            let v = b[ib];
            proof {
                lemma_push_contains(oldr, v);
                assert forall|i: int| 0 <= i < oldr.len() implies pair_lt(
                    #[trigger] oldr[i],
                    v,
                ) by {
                    if i < oldr.len() - 1 {
                        assert(pair_lt(oldr[i], oldr.last()));
                    }
                }
                lemma_push_sorted(oldr, v);
            }
            r.push(v);
            ib += 1;
            proof {
                assert(b@.subrange(0, ib as int) =~= rb.push(v));
                assert(a@.subrange(0, ia as int) =~= ra);
                lemma_push_contains(rb, v);
                assert(r@.last() == v);
                assert forall|k: int| ib <= k < b@.len() implies pair_lt(
                    r@.last(),
                    #[trigger] b@[k],
                ) by {
                    assert(pair_lt(b@[ib - 1], b@[k]));
                }
                assert forall|k: int| ia <= k < a@.len() implies pair_lt(
                    r@.last(),
                    #[trigger] a@[k],
                ) by {
                    assert(pair_lt(v, a@[ia as int]));
                    if k > ia {
                        assert(pair_lt(a@[ia as int], a@[k]));
                    }
                }
            }
        }
    }
    proof {
        assert(a@.subrange(0, ia as int) =~= a@);
        assert(b@.subrange(0, ib as int) =~= b@);
    }
    r
}

/// Insert a pair into a strictly sorted list, keeping it sorted and
/// duplicate-free.
pub fn sorted_insert_pair(v: &mut Vec<Pair>, p: Pair) -> (added: bool)
    requires
        pairs_sorted(old(v)@),
    ensures
        pairs_sorted(final(v)@),
        forall|q: Pair| final(v)@.contains(q) <==> (old(v)@.contains(q) || q == p),
        added == !old(v)@.contains(p),
        final(v)@.len() == old(v)@.len() + if added {
            1int
        } else {
            0int
        },
{
    let mut lo: usize = 0;
    let mut hi: usize = v.len();
    while lo < hi
        invariant
            lo <= hi <= v@.len(),
            pairs_sorted(v@),
            forall|i: int| 0 <= i < lo ==> pair_lt(#[trigger] v@[i], p),
            forall|i: int| hi <= i < v@.len() ==> !pair_lt(#[trigger] v@[i], p),
        decreases hi - lo,
    {
        let mid = lo + (hi - lo) / 2;
        if v[mid].s < p.s || (v[mid].s == p.s && v[mid].o < p.o) {
            assert forall|i: int| 0 <= i < mid + 1 implies pair_lt(#[trigger] v@[i], p) by {
                if i < mid {
                    assert(pair_lt(v@[i], v@[mid as int]));
                }
            }
            lo = mid + 1;
        } else {
            assert forall|i: int| mid <= i < v@.len() implies !pair_lt(#[trigger] v@[i], p) by {
                if i > mid {
                    assert(pair_lt(v@[mid as int], v@[i]));
                }
            }
            hi = mid;
        }
    }
    if lo < v.len() && v[lo].s == p.s && v[lo].o == p.o {
        proof {
            assert(v@[lo as int] == p);
        }
        false
    } else {
        let ghost oldv = v@;
        v.insert(lo, p);
        proof {
            assert forall|q: Pair| v@.contains(q) implies (oldv.contains(q) || q == p) by {
                let i = choose|i: int| 0 <= i < v@.len() && v@[i] == q;
                if i < lo {
                    assert(oldv[i] == q);
                } else if i > lo {
                    assert(oldv[i - 1] == q);
                }
            }
            assert forall|q: Pair| oldv.contains(q) implies v@.contains(q) by {
                let i = choose|i: int| 0 <= i < oldv.len() && oldv[i] == q;
                if i < lo {
                    assert(v@[i] == q);
                } else {
                    assert(v@[i + 1] == q);
                }
            }
            assert(v@.contains(p)) by {
                assert(v@[lo as int] == p);
            }
            assert(!oldv.contains(p)) by {
                if oldv.contains(p) {
                    let i = choose|i: int| 0 <= i < oldv.len() && oldv[i] == p;
                    if i < lo {
                        assert(pair_lt(oldv[i], p));
                    } else if lo < oldv.len() && i > lo {
                        assert(!pair_lt(oldv[lo as int], p));
                        assert(pair_lt(oldv[lo as int], oldv[i]));
                    } else {
                        assert(!pair_lt(oldv[i], p));
                    }
                }
            }
            assert(pairs_sorted(v@)) by {
                assert forall|i: int, j: int| 0 <= i < j < v@.len() implies #[trigger] pair_lt(
                    v@[i],
                    v@[j],
                ) by {
                    if j < lo {
                        assert(v@[i] == oldv[i] && v@[j] == oldv[j]);
                        assert(pair_lt(oldv[i], oldv[j]));
                    } else if i > lo {
                        assert(v@[i] == oldv[i - 1] && v@[j] == oldv[j - 1]);
                        assert(pair_lt(oldv[i - 1], oldv[j - 1]));
                    } else if i < lo && j == lo {
                        assert(pair_lt(oldv[i], p));
                    } else if i == lo {
                        assert(!pair_lt(oldv[j - 1], p));
                        assert(v@[j] == oldv[j - 1]);
                        assert(oldv[j - 1] != p);
                    } else {
                        assert(i < lo && j > lo);
                        assert(pair_lt(oldv[i], p));
                        assert(!pair_lt(oldv[j - 1], p));
                        assert(oldv[j - 1] != p);
                    }
                }
            }
        }
        true
    }
}

/// Sort the pairs and remove duplicates; return the new length.
pub fn bucket_sort_pairs(pairs: &mut Vec<Pair>) -> (r: usize)
    ensures
        pairs_sorted(final(pairs)@),
        forall|p: Pair| final(pairs)@.contains(p) <==> old(pairs)@.contains(p),
        r == final(pairs)@.len(),
{
    let mut out: Vec<Pair> = Vec::new();
    let mut k: usize = 0;
    while k < pairs.len()
        invariant
            k <= pairs@.len(),
            pairs_sorted(out@),
            forall|p: Pair| out@.contains(p) <==> pairs@.subrange(0, k as int).contains(p),
        decreases pairs@.len() - k,
    {
        let ghost prefix = pairs@.subrange(0, k as int);
        let p = pairs[k];
        sorted_insert_pair(&mut out, p);
        k += 1;
        proof {
            assert(pairs@.subrange(0, k as int) =~= prefix.push(p));
            lemma_push_contains(prefix, p);
        }
    }
    proof {
        assert(pairs@.subrange(0, pairs@.len() as int) =~= pairs@);
    }
    let r = out.len();
    *pairs = out;
    r
}

/// Exchange subject and object in every pair.
pub fn reverse_pairs(pairs: &Vec<Pair>) -> (r: Vec<Pair>)
    ensures
        r@.len() == pairs@.len(),
        forall|i: int| 0 <= i < r@.len() ==> r@[i] == pair_swap(#[trigger] pairs@[i]),
        forall|p: Pair| r@.contains(p) <==> pairs@.contains(pair_swap(p)),
{
    let mut r: Vec<Pair> = Vec::new();
    let mut k: usize = 0;
    while k < pairs.len()
        invariant
            k <= pairs@.len(),
            r@.len() == k,
            forall|i: int| 0 <= i < k ==> r@[i] == pair_swap(#[trigger] pairs@[i]),
        decreases pairs@.len() - k,
    {
        let p = pairs[k];
        r.push(Pair { s: p.o, o: p.s });
        k += 1;
    }
    proof {
        assert forall|p: Pair| r@.contains(p) implies pairs@.contains(pair_swap(p)) by {
            let i = choose|i: int| 0 <= i < r@.len() && r@[i] == p;
            assert(pairs@[i] == pair_swap(p));
        }
        assert forall|p: Pair| pairs@.contains(pair_swap(p)) implies r@.contains(p) by {
            let i = choose|i: int| 0 <= i < pairs@.len() && pairs@[i] == pair_swap(p);
            assert(r@[i] == p);
        }
    }
    r
}

} // verus!
