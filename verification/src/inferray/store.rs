//! The integer-triple store: one sorted chunk of (subject, object) pairs
//! per predicate, indexed by predicate offset.

use vstd::prelude::*;
use vstd::seq_lib::*;
use vstd::set_lib::*;

use crate::closure::{graph_tc, reachable};
use crate::utils::{
    bucket_sort_pairs, lemma_push_contains, lemma_sorted_no_dup, lemma_sorted_unique,
    merge_sorted_pairs, offset_of, pair_lt, pair_swap, pairs_sorted, prop_at_offset,
    prop_idx_to_offset, reverse_pairs, sorted_insert_pair, Pair, Triple, START_INDEX,
};

verus! {

/// Per-predicate storage: the (subject, object) pairs sorted
/// lexicographically, and a lazily materialized (object, subject) index.
pub struct Chunk {
    /// The sorted subject-object list.
    pub so: Vec<Pair>,
    /// The object-subject list, built lazily.
    pub os: Option<Vec<Pair>>,
}

impl Chunk {
    /// The sorted subject-object list.
    pub open spec fn so_seq(self) -> Seq<Pair> {
        self.so@
    }

    /// Whether the object-subject index is materialized.
    pub open spec fn has_os(self) -> bool {
        self.os is Some
    }

    /// The materialized object-subject list (empty when absent).
    pub open spec fn os_seq(self) -> Seq<Pair> {
        match self.os {
            Some(v) => v@,
            None => Seq::empty(),
        }
    }

    /// The chunk invariant: SO is strictly sorted (hence duplicate-free),
    /// and OS, when present, is the strictly sorted list of swapped SO
    /// pairs.
    pub open spec fn wf(self) -> bool {
        &&& pairs_sorted(self.so@)
        &&& self.has_os() ==> {
            &&& pairs_sorted(self.os_seq())
            &&& forall|p: Pair|
                #[trigger] self.os_seq().contains(p) <==> self.so@.contains(pair_swap(p))
        }
    }

    /// Create an empty chunk.
    pub fn empty() -> (c: Chunk)
        ensures
            c.wf(),
            c.so_seq() == Seq::<Pair>::empty(),
            !c.has_os(),
    {
        Chunk { so: Vec::new(), os: None }
    }

    /// Build a chunk from arbitrary pairs: sort and deduplicate.
    pub fn from_pairs(pairs: Vec<Pair>) -> (c: Chunk)
        ensures
            c.wf(),
            !c.has_os(),
            forall|p: Pair| c.so_seq().contains(p) <==> pairs@.contains(p),
    {
        let mut pairs = pairs;
        bucket_sort_pairs(&mut pairs);
        Chunk { so: pairs, os: None }
    }

    /// Build a chunk from an already sorted pair list.
    pub fn from_sorted(pairs: Vec<Pair>) -> (c: Chunk)
        requires
            pairs_sorted(pairs@),
        ensures
            c.wf(),
            !c.has_os(),
            c.so_seq() == pairs@,
    {
        Chunk { so: pairs, os: None }
    }

    /// The number of pairs in this chunk.
    pub fn len(&self) -> (r: usize)
        ensures
            r == self.so_seq().len(),
    {
        self.so.len()
    }

    /// Whether this chunk holds no pair.
    pub fn is_empty(&self) -> (r: bool)
        ensures
            r == (self.so_seq().len() == 0),
    {
        self.so.is_empty()
    }

    /// The subject-object list.
    pub fn so(&self) -> (r: &Vec<Pair>)
        ensures
            r@ == self.so_seq(),
    {
        &self.so
    }

    /// The object-subject list; it must have been materialized first.
    pub fn os(&self) -> (r: &Vec<Pair>)
        requires
            self.has_os(),
        ensures
            r@ == self.os_seq(),
    {
        match &self.os {
            Some(v) => v,
            None => unreached(),
        }
    }

    /// Materialize the object-subject list if it is absent.
    pub fn ensure_os(&mut self)
        requires
            old(self).wf(),
        ensures
            final(self).wf(),
            final(self).so_seq() == old(self).so_seq(),
            final(self).has_os(),
    {
        if self.os.is_none() {
            let mut sw = reverse_pairs(&self.so);
            bucket_sort_pairs(&mut sw);
            proof {
                assert forall|p: Pair| #[trigger] sw@.contains(p) <==> self.so@.contains(
                    pair_swap(p),
                ) by {}
            }
            self.os = Some(sw);
        }
    }

    /// Check that the subject-object list is sorted; for tests.
    pub fn is_sorted(&self) -> (r: bool)
        ensures
            r == pairs_sorted(self.so_seq()),
    {
        let mut k: usize = 1;
        if self.so.len() == 0 {
            return true;
        }
        while k < self.so.len()
            invariant
                1 <= k <= self.so@.len(),
                forall|i: int|
                    0 <= i < k - 1 ==> pair_lt(#[trigger] self.so@[i], self.so@[i + 1]),
            decreases self.so@.len() - k,
        {
            let a = self.so[k - 1];
            let b = self.so[k];
            if !(a.s < b.s || (a.s == b.s && a.o < b.o)) {
                proof {
                    assert(!pair_lt(self.so@[k - 1], self.so@[k as int]));
                }
                return false;
            }
            k += 1;
        }
        proof {
            lemma_adjacent_sorted(self.so@);
        }
        true
    }

    /// Add new pairs to this chunk, re-sorting the underlying data and
    /// discarding the object-subject index.
    pub fn add_pairs(&mut self, pairs: &Vec<Pair>)
        requires
            old(self).wf(),
        ensures
            final(self).wf(),
            !final(self).has_os(),
            forall|p: Pair|
                #![trigger final(self).so_seq().contains(p)]
                final(self).so_seq().contains(p) <==> (old(self).so_seq().contains(p)
                    || pairs@.contains(p)),
    {
        let ghost orig = self.so@;
        let mut k: usize = 0;
        while k < pairs.len()
            invariant
                k <= pairs@.len(),
                pairs_sorted(self.so@),
                forall|p: Pair|
                    self.so@.contains(p) <==> (orig.contains(p) || pairs@.subrange(
                        0,
                        k as int,
                    ).contains(p)),
            decreases pairs@.len() - k,
        {
            let ghost prefix = pairs@.subrange(0, k as int);
            let p = pairs[k];
            sorted_insert_pair(&mut self.so, p);
            k += 1;
            proof {
                assert(pairs@.subrange(0, k as int) =~= prefix.push(p));
                lemma_push_contains(prefix, p);
            }
        }
        proof {
            assert(pairs@.subrange(0, pairs@.len() as int) =~= pairs@);
        }
        self.os = None;
    }

    /// Insert a single pair, keeping the list sorted; report whether it is
    /// new.  The object-subject index is discarded.
    pub fn add_so(&mut self, p: Pair) -> (added: bool)
        requires
            old(self).wf(),
        ensures
            final(self).wf(),
            !final(self).has_os(),
            forall|q: Pair|
                final(self).so_seq().contains(q) <==> (old(self).so_seq().contains(q) || q == p),
            added == !old(self).so_seq().contains(p),
            final(self).so_seq().len() == old(self).so_seq().len() + if added {
                1int
            } else {
                0int
            },
    {
        let added = sorted_insert_pair(&mut self.so, p);
        self.os = None;
        added
    }

    /// Merge another chunk into this one, keeping the list sorted and
    /// discarding the object-subject index.
    pub fn merge(&mut self, other: Chunk)
        requires
            old(self).wf(),
            other.wf(),
        ensures
            final(self).wf(),
            !final(self).has_os(),
            forall|p: Pair|
                #![trigger final(self).so_seq().contains(p)]
                final(self).so_seq().contains(p) <==> (old(self).so_seq().contains(p)
                    || other.so_seq().contains(p)),
            final(self).so_seq().len() >= old(self).so_seq().len(),
            (forall|p: Pair| other.so_seq().contains(p) ==> old(self).so_seq().contains(p))
                ==> final(self).so_seq() == old(self).so_seq(),
    {
        let merged = merge_sorted_pairs(&self.so, &other.so);
        proof {
            lemma_sorted_subset_len(self.so@, merged@);
            if forall|p: Pair| other.so_seq().contains(p) ==> old(self).so_seq().contains(p) {
                assert forall|p: Pair| merged@.contains(p) <==> self.so@.contains(p) by {
                    if merged@.contains(p) && !self.so@.contains(p) {
                        assert(other.so_seq().contains(p));
                    }
                }
                lemma_sorted_unique(merged@, self.so@);
            }
        }
        self.so = merged;
        self.os = None;
    }
}

/// A list whose adjacent elements are ordered is sorted.
proof fn lemma_adjacent_sorted(s: Seq<Pair>)
    requires
        forall|i: int| 0 <= i < s.len() - 1 ==> pair_lt(#[trigger] s[i], s[i + 1]),
    ensures
        pairs_sorted(s),
{
    assert forall|i: int, j: int| 0 <= i < j < s.len() implies #[trigger] pair_lt(
        s[i],
        s[j],
    ) by {
        lemma_adjacent_sorted_rec(s, i, j);
    }
}

proof fn lemma_adjacent_sorted_rec(s: Seq<Pair>, i: int, j: int)
    requires
        forall|k: int| 0 <= k < s.len() - 1 ==> pair_lt(#[trigger] s[k], s[k + 1]),
        0 <= i < j < s.len(),
    ensures
        pair_lt(s[i], s[j]),
    decreases j - i,
{
    if j == i + 1 {
        assert(pair_lt(s[i], s[i + 1]));
    } else {
        lemma_adjacent_sorted_rec(s, i, j - 1);
        assert(pair_lt(s[j - 1], s[j - 1 + 1]));
    }
}

/// A sorted list holding a subset of another sorted list is no longer.
proof fn lemma_sorted_subset_len(a: Seq<Pair>, b: Seq<Pair>)
    requires
        pairs_sorted(a),
        pairs_sorted(b),
        forall|p: Pair| a.contains(p) ==> b.contains(p),
    ensures
        a.len() <= b.len(),
{
    lemma_sorted_no_dup(a);
    lemma_sorted_no_dup(b);
    a.unique_seq_to_set();
    b.unique_seq_to_set();
    seq_to_set_is_finite(b);
    assert(a.to_set() <= b.to_set());
    lemma_len_subset(a.to_set(), b.to_set());
}

/// The total number of pairs across a list of chunks.
pub open spec fn sum_lens(cs: Seq<Chunk>) -> int
    decreases cs.len(),
{
    if cs.len() == 0 {
        0
    } else {
        sum_lens(cs.drop_last()) + cs.last().so_seq().len()
    }
}

proof fn lemma_sum_lens_nonneg(cs: Seq<Chunk>)
    ensures
        sum_lens(cs) >= 0,
    decreases cs.len(),
{
    if cs.len() > 0 {
        lemma_sum_lens_nonneg(cs.drop_last());
    }
}

proof fn lemma_sum_lens_push(cs: Seq<Chunk>, c: Chunk)
    ensures
        sum_lens(cs.push(c)) == sum_lens(cs) + c.so_seq().len(),
{
    assert(cs.push(c).drop_last() =~= cs);
    assert(cs.push(c).last() == c);
}

proof fn lemma_sum_lens_update(cs: Seq<Chunk>, k: int, c: Chunk)
    requires
        0 <= k < cs.len(),
    ensures
        sum_lens(cs.update(k, c)) == sum_lens(cs) - cs[k].so_seq().len() + c.so_seq().len(),
    decreases cs.len(),
{
    if k == cs.len() - 1 {
        assert(cs.update(k, c).drop_last() =~= cs.drop_last());
        assert(cs.update(k, c).last() == c);
    } else {
        lemma_sum_lens_update(cs.drop_last(), k, c);
        assert(cs.update(k, c).drop_last() =~= cs.drop_last().update(k, c));
        assert(cs.update(k, c).last() == cs.last());
    }
}

proof fn lemma_sum_lens_ge_elem(cs: Seq<Chunk>, k: int)
    requires
        0 <= k < cs.len(),
    ensures
        sum_lens(cs) >= cs[k].so_seq().len(),
    decreases cs.len(),
{
    lemma_sum_lens_nonneg(cs.drop_last());
    if k == cs.len() - 1 {
    } else {
        lemma_sum_lens_ge_elem(cs.drop_last(), k);
    }
}

proof fn lemma_sum_lens_bound(cs: Seq<Chunk>)
    ensures
        0 <= sum_lens(cs) <= cs.len() * (u64::MAX as int),
    decreases cs.len(),
{
    if cs.len() == 0 {
    } else {
        lemma_sum_lens_bound(cs.drop_last());
        assert(cs.last().so_seq().len() <= usize::MAX as int) by {
            vstd::std_specs::vec::axiom_spec_len(&cs.last().so);
        }
        assert((cs.len() - 1) * (u64::MAX as int) + (u64::MAX as int) == cs.len() * (
        u64::MAX as int)) by (nonlinear_arith);
    }
}

/// The sum of an integer list.
spec fn sum_ints(s: Seq<int>) -> int
    decreases s.len(),
{
    if s.len() == 0 {
        0
    } else {
        sum_ints(s.drop_last()) + s.last()
    }
}

/// Pointwise dominance gives sum dominance, with equality only pointwise.
proof fn lemma_sum_pointwise(a: Seq<int>, b: Seq<int>)
    requires
        a.len() == b.len(),
        forall|k: int| 0 <= k < a.len() ==> #[trigger] a[k] >= b[k],
    ensures
        sum_ints(a) >= sum_ints(b),
        sum_ints(a) == sum_ints(b) ==> a == b,
    decreases a.len(),
{
    if a.len() == 0 {
        assert(a =~= b);
    } else {
        let a1 = a.drop_last();
        let b1 = b.drop_last();
        assert forall|k: int| 0 <= k < a1.len() implies #[trigger] a1[k] >= b1[k] by {
            assert(a[k] >= b[k]);
        }
        lemma_sum_pointwise(a1, b1);
        assert(a.last() >= b.last());
        if sum_ints(a) == sum_ints(b) {
            assert(sum_ints(a1) == sum_ints(b1));
            assert(a1 == b1);
            assert(a.last() == b.last());
            assert forall|k: int| 0 <= k < a.len() implies a[k] == b[k] by {
                if k < a.len() - 1 {
                    assert(a1[k] == b1[k]);
                }
            }
            assert(a =~= b);
        }
    }
}

/// The chunk-length view of a chunk list.
spec fn lens_of(cs: Seq<Chunk>) -> Seq<int> {
    Seq::new(cs.len(), |k: int| cs[k].so_seq().len() as int)
}

proof fn lemma_sum_lens_is_sum_ints(cs: Seq<Chunk>)
    ensures
        sum_lens(cs) == sum_ints(lens_of(cs)),
    decreases cs.len(),
{
    if cs.len() == 0 {
        assert(lens_of(cs) =~= Seq::<int>::empty());
    } else {
        lemma_sum_lens_is_sum_ints(cs.drop_last());
        assert(lens_of(cs).drop_last() =~= lens_of(cs.drop_last()));
        assert(lens_of(cs).last() == cs.last().so_seq().len() as int);
    }
}

/// Padding an integer list with zeroes keeps its sum.
proof fn lemma_sum_pad(s: Seq<int>, m: int)
    requires
        s.len() <= m,
    ensures
        sum_ints(
            Seq::new(m as nat, |k: int| if k < s.len() { s[k] } else { 0 }),
        ) == sum_ints(s),
    decreases m,
{
    let padded = Seq::new(m as nat, |k: int| if k < s.len() { s[k] } else { 0 });
    if m == s.len() {
        assert(padded =~= s);
    } else {
        lemma_sum_pad(s, m - 1);
        let shorter = Seq::new((m - 1) as nat, |k: int| if k < s.len() { s[k] } else { 0 });
        assert(padded.drop_last() =~= shorter);
        assert(padded.last() == 0);
    }
}

/// An array of chunks indexed by predicate offset, together with the
/// cached total number of pairs.
pub struct TripleStore {
    pub elem: Vec<Chunk>,
    pub size: u128,
}

impl TripleStore {
    /// The pair list stored for a predicate offset; empty when the offset
    /// is beyond the chunk array.
    pub open spec fn chunk_at(self, k: int) -> Seq<Pair> {
        if 0 <= k < self.elem@.len() {
            self.elem@[k].so_seq()
        } else {
            Seq::empty()
        }
    }

    /// Whether the store holds the integer triple `t`.
    pub open spec fn has_triple(self, t: Triple) -> bool {
        t.p < START_INDEX && self.chunk_at(offset_of(t.p)).contains(Pair { s: t.s, o: t.o })
    }

    /// The store invariant: every chunk is well formed and `size` is the
    /// sum of the chunk lengths.
    pub open spec fn wf(self) -> bool {
        &&& forall|k: int| 0 <= k < self.elem@.len() ==> (#[trigger] self.elem@[k]).wf()
        &&& self.size as int == sum_lens(self.elem@)
        &&& self.elem@.len() <= START_INDEX
    }

    /// Every chunk has its object-subject index materialized.
    pub open spec fn all_os(self) -> bool {
        forall|k: int| 0 <= k < self.elem@.len() ==> (#[trigger] self.elem@[k]).has_os()
    }

    /// An empty store.
    pub fn new_empty() -> (st: TripleStore)
        ensures
            st.wf(),
            st.elem@.len() == 0,
            st.size == 0,
            forall|t: Triple| !st.has_triple(t),
    {
        TripleStore { elem: Vec::new(), size: 0 }
    }

    /// Build a store from a flat buffer of integer triples.
    pub fn new(triples: Vec<Triple>) -> (st: TripleStore)
        requires
            forall|i: int| 0 <= i < triples@.len() ==> (#[trigger] triples@[i]).p < START_INDEX,
        ensures
            st.wf(),
            forall|t: Triple| st.has_triple(t) <==> triples@.contains(t),
    {
        let mut st = TripleStore { elem: Vec::new(), size: 0 };
        let mut k: usize = 0;
        while k < triples.len()
            invariant
                k <= triples@.len(),
                st.wf(),
                forall|i: int|
                    0 <= i < triples@.len() ==> (#[trigger] triples@[i]).p < START_INDEX,
                forall|t: Triple| st.has_triple(t) <==> triples@.subrange(0, k as int).contains(t),
            decreases triples@.len() - k,
        {
            let ghost prefix = triples@.subrange(0, k as int);
            let t = triples[k];
            st.add_triple(t);
            k += 1;
            proof {
                assert(triples@.subrange(0, k as int) =~= prefix.push(t));
                lemma_push_contains(prefix, t);
            }
        }
        proof {
            assert(triples@.subrange(0, triples@.len() as int) =~= triples@);
        }
        st
    }

    /// Borrow the chunk array.
    pub fn elem(&self) -> (r: &Vec<Chunk>)
        ensures
            r@ == self.elem@,
    {
        &self.elem
    }

    /// The total number of triples held.
    pub fn size(&self) -> (r: u128)
        ensures
            r == self.size,
    {
        self.size
    }

    /// Ensure that the chunk array reaches the offset `ip`.
    pub fn ensure_prop(&mut self, ip: usize)
        requires
            old(self).wf(),
            (ip as u64) < START_INDEX,
        ensures
            final(self).wf(),
            final(self).elem@.len() > ip,
            final(self).elem@.len() >= old(self).elem@.len(),
            final(self).size == old(self).size,
            forall|k: int|
                0 <= k < old(self).elem@.len() ==> final(self).elem@[k] == old(self).elem@[k],
            forall|k: int|
                old(self).elem@.len() <= k < final(self).elem@.len()
                    ==> (#[trigger] final(self).elem@[k]).so_seq().len() == 0,
            forall|t: Triple| final(self).has_triple(t) <==> old(self).has_triple(t),
    {
        while self.elem.len() <= ip
            invariant
                self.wf(),
                (ip as u64) < START_INDEX,
                self.elem@.len() >= old(self).elem@.len(),
                self.size == old(self).size,
                forall|k: int|
                    0 <= k < old(self).elem@.len() ==> self.elem@[k] == old(self).elem@[k],
                forall|k: int|
                    old(self).elem@.len() <= k < self.elem@.len()
                        ==> (#[trigger] self.elem@[k]).so_seq().len() == 0,
            decreases ip + 1 - self.elem@.len(),
        {
            let c = Chunk::empty();
            proof {
                lemma_sum_lens_push(self.elem@, c);
            }
            self.elem.push(c);
        }
        proof {
            assert forall|t: Triple| final(self).has_triple(t) <==> old(self).has_triple(t) by {
                let k = offset_of(t.p);
                if 0 <= k < old(self).elem@.len() {
                    assert(self.elem@[k] == old(self).elem@[k]);
                } else if 0 <= k < self.elem@.len() {
                    assert(self.elem@[k].so_seq().len() == 0);
                }
            }
        }
    }

    /// Insert one pair into the chunk at offset `ip`, which must exist.
    pub fn add_triple_raw(&mut self, is: u64, ip: usize, io: u64)
        requires
            old(self).wf(),
            ip < old(self).elem@.len(),
        ensures
            final(self).wf(),
            final(self).elem@.len() == old(self).elem@.len(),
            forall|q: Triple|
                final(self).has_triple(q) <==> (old(self).has_triple(q) || q == (Triple {
                    s: is,
                    p: prop_at_offset(ip as int),
                    o: io,
                })),
    {
        let ghost oldelems = self.elem@;
        proof {
            lemma_sum_lens_bound(self.elem@);
            vstd::std_specs::vec::axiom_spec_len(&self.elem);
            assert(self.elem@.len() * (u64::MAX as int) < u128::MAX as int) by (nonlinear_arith)
                requires
                    0 <= self.elem@.len() <= usize::MAX as int,
            ;
        }
        let added = self.elem[ip].add_so(Pair { s: is, o: io });
        if added {
            self.size = self.size + 1;
        }
        proof {
            assert(self.elem@ =~= oldelems.update(ip as int, self.elem@[ip as int]));
            lemma_sum_lens_update(oldelems, ip as int, self.elem@[ip as int]);
            let newt = Triple { s: is, p: prop_at_offset(ip as int), o: io };
            assert(offset_of(newt.p) == ip);
            assert forall|q: Triple|
                final(self).has_triple(q) <==> (old(self).has_triple(q) || q == newt) by {
                if q.p < START_INDEX {
                    let k = offset_of(q.p);
                    if k == ip {
                        assert(q.p == newt.p);
                        assert(self.elem@[k] == self.elem@[ip as int]);
                        if q == newt {
                            assert(self.elem@[ip as int].so_seq().contains(
                                Pair { s: is, o: io },
                            ));
                        }
                    } else {
                        assert(q.p != newt.p);
                        if 0 <= k < self.elem@.len() {
                            assert(self.elem@[k] == oldelems[k]);
                        }
                    }
                }
            }
        }
    }

    /// Add one integer triple, growing the chunk array as needed.
    pub fn add_triple(&mut self, t: Triple)
        requires
            old(self).wf(),
            t.p < START_INDEX,
        ensures
            final(self).wf(),
            forall|q: Triple|
                final(self).has_triple(q) <==> (old(self).has_triple(q) || q == t),
    {
        let off = prop_idx_to_offset(t.p);
        self.ensure_prop(off);
        self.add_triple_raw(t.s, off, t.o);
        proof {
            assert(prop_at_offset(off as int) == t.p);
        }
    }

    /// Add every triple from a batch of rule results.
    pub fn add_all(&mut self, others: Vec<Vec<Triple>>)
        requires
            old(self).wf(),
            forall|i: int, j: int|
                0 <= i < others@.len() && 0 <= j < others@[i].len()
                    ==> (#[trigger] others@[i]@[j]).p < START_INDEX,
        ensures
            final(self).wf(),
            forall|q: Triple|
                final(self).has_triple(q) <==> (old(self).has_triple(q) || exists|i: int|
                    0 <= i < others@.len() && (#[trigger] others@[i]@).contains(q)),
    {
        let mut i: usize = 0;
        while i < others.len()
            invariant
                i <= others@.len(),
                self.wf(),
                forall|ii: int, j: int|
                    0 <= ii < others@.len() && 0 <= j < others@[ii].len()
                        ==> (#[trigger] others@[ii]@[j]).p < START_INDEX,
                forall|q: Triple|
                    self.has_triple(q) <==> (old(self).has_triple(q) || exists|ii: int|
                        0 <= ii < i && (#[trigger] others@[ii]@).contains(q)),
            decreases others@.len() - i,
        {
            let batch = &others[i];
            let mut j: usize = 0;
            while j < batch.len()
                invariant
                    j <= batch@.len(),
                    i < others@.len(),
                    batch@ == others@[i as int]@,
                    self.wf(),
                    forall|ii: int, jj: int|
                        0 <= ii < others@.len() && 0 <= jj < others@[ii].len()
                            ==> (#[trigger] others@[ii]@[jj]).p < START_INDEX,
                    forall|q: Triple|
                        self.has_triple(q) <==> ((old(self).has_triple(q) || exists|ii: int|
                            0 <= ii < i && (#[trigger] others@[ii]@).contains(q)) || batch@.subrange(
                            0,
                            j as int,
                        ).contains(q)),
                decreases batch@.len() - j,
            {
                let ghost prefix = batch@.subrange(0, j as int);
                let t = batch[j];
                proof {
                    assert(others@[i as int]@[j as int].p < START_INDEX);
                }
                self.add_triple(t);
                j += 1;
                proof {
                    assert(batch@.subrange(0, j as int) =~= prefix.push(t));
                    lemma_push_contains(prefix, t);
                }
            }
            i += 1;
            proof {
                assert(batch@.subrange(0, batch@.len() as int) =~= batch@);
                assert forall|q: Triple|
                    self.has_triple(q) <==> (old(self).has_triple(q) || exists|ii: int|
                        0 <= ii < i && (#[trigger] others@[ii]@).contains(q)) by {
                    if self.has_triple(q) && !old(self).has_triple(q) {
                        if others@[i - 1]@.contains(q) {
                            assert(0 <= i - 1 < i && others@[i - 1]@.contains(q));
                        }
                    }
                }
            }
        }
    }

    /// Materialize the object-subject index of every chunk.
    pub fn ensure_all_os(&mut self)
        requires
            old(self).wf(),
        ensures
            final(self).wf(),
            final(self).all_os(),
            final(self).elem@.len() == old(self).elem@.len(),
            final(self).size == old(self).size,
            forall|k: int| final(self).chunk_at(k) == old(self).chunk_at(k),
            forall|t: Triple| final(self).has_triple(t) == old(self).has_triple(t),
    {
        let n = self.elem.len();
        let mut k: usize = 0;
        while k < n
            invariant
                k <= n,
                n == self.elem@.len(),
                self.wf(),
                self.elem@.len() == old(self).elem@.len(),
                self.size == old(self).size,
                forall|j: int| 0 <= j < k ==> (#[trigger] self.elem@[j]).has_os(),
                forall|j: int|
                    0 <= j < n ==> (#[trigger] self.elem@[j]).so_seq() == old(
                        self,
                    ).elem@[j].so_seq(),
            decreases n - k,
        {
            let ghost oldelems = self.elem@;
            self.elem[k].ensure_os();
            proof {
                assert(self.elem@ =~= oldelems.update(k as int, self.elem@[k as int]));
                lemma_sum_lens_update(oldelems, k as int, self.elem@[k as int]);
            }
            k += 1;
        }
        proof {
            assert forall|k2: int| final(self).chunk_at(k2) == old(self).chunk_at(k2) by {
                if 0 <= k2 < self.elem@.len() {
                    assert(self.elem@[k2].so_seq() == old(self).elem@[k2].so_seq());
                }
            }
            assert forall|t: Triple|
                final(self).has_triple(t) == old(self).has_triple(t) by {
                assert(final(self).chunk_at(offset_of(t.p)) == old(self).chunk_at(offset_of(t.p)));
            }
        }
    }

    /// Replace the chunk of predicate `p` with its transitive closure.
    pub fn transitive_closure(&mut self, p: u64)
        requires
            old(self).wf(),
            p < START_INDEX,
        ensures
            final(self).wf(),
            final(self).elem@.len() == old(self).elem@.len(),
            forall|q: Triple|
                final(self).has_triple(q) <==> if q.p == p {
                    reachable(old(self).chunk_at(offset_of(p)), q.s, q.o)
                } else {
                    old(self).has_triple(q)
                },
    {
        let off = prop_idx_to_offset(p);
        if off >= self.elem.len() {
            proof {
                assert forall|q: Triple|
                    final(self).has_triple(q) <==> if q.p == p {
                        reachable(old(self).chunk_at(offset_of(p)), q.s, q.o)
                    } else {
                        old(self).has_triple(q)
                    } by {
                    if q.p == p {
                        assert(old(self).chunk_at(offset_of(p)) =~= Seq::<Pair>::empty());
                        crate::closure::lemma_no_reach_empty(
                            old(self).chunk_at(offset_of(p)),
                            q.s,
                            q.o,
                        );
                        assert(!final(self).has_triple(q));
                    }
                }
            }
            return ;
        }
        let ghost oldelems = self.elem@;
        let ghost oldsize = self.size;
        let closed = graph_tc(self.elem[off].so());
        let oldlen = self.elem[off].len();
        let newlen = closed.len();
        let c = Chunk::from_sorted(closed);
        self.elem[off] = c;
        proof {
            assert(self.elem@ =~= oldelems.update(off as int, c));
            lemma_sum_lens_update(oldelems, off as int, c);
            lemma_sum_lens_nonneg(oldelems.update(off as int, c));
            lemma_sum_lens_ge_elem(oldelems, off as int);
            lemma_sum_lens_bound(oldelems.update(off as int, c));
            vstd::std_specs::vec::axiom_spec_len(&self.elem);
            assert(self.elem@.len() * (u64::MAX as int) < u128::MAX as int) by (nonlinear_arith)
                requires
                    0 <= self.elem@.len() <= usize::MAX as int,
            ;
        }
        self.size = self.size - (oldlen as u128) + (newlen as u128);
        proof {
            assert(self.size as int == sum_lens(self.elem@));
            let kk = off as int;
            assert forall|q: Triple|
                final(self).has_triple(q) <==> if q.p == p {
                    reachable(old(self).chunk_at(offset_of(p)), q.s, q.o)
                } else {
                    old(self).has_triple(q)
                } by {
                if q.p < START_INDEX {
                    let k = offset_of(q.p);
                    if k == kk {
                        assert(q.p == p);
                    } else {
                        assert(q.p != p);
                        if 0 <= k < self.elem@.len() {
                            assert(self.elem@[k] == oldelems[k]);
                        }
                    }
                }
            }
        }
    }

    /// Recompute the cached size as the sum of the chunk lengths.
    fn recompute_size(&mut self)
        ensures
            final(self).elem@ == old(self).elem@,
            final(self).size as int == sum_lens(final(self).elem@),
    {
        let n = self.elem.len();
        let mut acc: u128 = 0;
        let mut k: usize = 0;
        while k < n
            invariant
                k <= n,
                n == self.elem@.len(),
                self.elem@ == old(self).elem@,
                self.size == old(self).size,
                acc as int == sum_lens(self.elem@.subrange(0, k as int)),
                acc as int <= k * (u64::MAX as int),
            decreases n - k,
        {
            let l = self.elem[k].len();
            proof {
                assert(self.elem@.subrange(0, k as int + 1) =~= self.elem@.subrange(
                    0,
                    k as int,
                ).push(self.elem@[k as int]));
                lemma_sum_lens_push(self.elem@.subrange(0, k as int), self.elem@[k as int]);
                assert(l as int <= u64::MAX as int);
                assert(k * (u64::MAX as int) + (u64::MAX as int) == (k + 1) * (
                u64::MAX as int)) by (nonlinear_arith);
                assert((k + 1) * (u64::MAX as int) < u128::MAX as int) by (nonlinear_arith)
                    requires
                        0 <= k,
                        k + 1 <= usize::MAX as int,
                ;
            }
            acc = acc + (l as u128);
            k += 1;
        }
        proof {
            assert(self.elem@.subrange(0, n as int) =~= self.elem@);
        }
        self.size = acc;
    }

    /// Merge another store into this one: the union of the two pair sets,
    /// chunk by chunk.
    pub fn merge(&mut self, other: &TripleStore)
        requires
            old(self).wf(),
            other.wf(),
        ensures
            final(self).wf(),
            final(self).elem@.len() >= old(self).elem@.len(),
            forall|k: int, p: Pair|
                #![trigger final(self).chunk_at(k).contains(p)]
                final(self).chunk_at(k).contains(p) <==> (old(self).chunk_at(k).contains(p)
                    || other.chunk_at(k).contains(p)),
            forall|t: Triple|
                #![trigger final(self).has_triple(t)]
                final(self).has_triple(t) <==> (old(self).has_triple(t) || other.has_triple(t)),
            other.size == 0 ==> *final(self) == *old(self),
    {
        if other.size == 0 {
            proof {
                assert forall|k: int, p: Pair|
                    !(#[trigger] other.chunk_at(k).contains(p)) by {
                    if 0 <= k < other.elem@.len() {
                        lemma_sum_lens_ge_elem(other.elem@, k);
                        assert(other.chunk_at(k) =~= Seq::<Pair>::empty());
                    } else {
                        assert(other.chunk_at(k) =~= Seq::<Pair>::empty());
                    }
                }
            }
            return ;
        }
        let ghost oldself = *old(self);
        let n = other.elem.len();
        let mut k: usize = 0;
        while k < n
            invariant
                oldself.wf(),
                other.wf(),
                n == other.elem@.len(),
                k <= n,
                self.elem@.len() == if k <= oldself.elem@.len() {
                    oldself.elem@.len() as int
                } else {
                    k as int
                },
                forall|j: int| 0 <= j < self.elem@.len() ==> (#[trigger] self.elem@[j]).wf(),
                forall|j: int, p: Pair|
                    0 <= j < k ==> (#[trigger] cseq_contains(self.elem@, j, p) <==> (
                    cseq_contains(oldself.elem@, j, p) || cseq_contains(other.elem@, j, p))),
                forall|j: int|
                    k <= j < oldself.elem@.len() ==> #[trigger] self.elem@[j]
                        == oldself.elem@[j],
            decreases n - k,
        {
            let ghost oldelems = self.elem@;
            if k < self.elem.len() {
                proof {
                    assert(k < oldself.elem@.len());
                    assert(oldelems[k as int] == oldself.elem@[k as int]);
                    assert(self.elem@[k as int].wf());
                    assert(other.elem@[k as int].wf());
                }
                let merged = merge_sorted_pairs(&self.elem[k].so, &other.elem[k].so);
                let nc = Chunk::from_sorted(merged);
                self.elem[k] = nc;
                proof {
                    assert(self.elem@ =~= oldelems.update(k as int, nc));
                    assert forall|p: Pair|
                        cseq_contains(self.elem@, k as int, p) <==> (cseq_contains(
                            oldself.elem@,
                            k as int,
                            p,
                        ) || cseq_contains(other.elem@, k as int, p)) by {
                        assert(self.elem@[k as int] == nc);
                        assert(nc.so_seq().contains(p) <==> (oldelems[k as int].so_seq().contains(
                            p,
                        ) || other.elem@[k as int].so_seq().contains(p)));
                    }
                }
            } else {
                proof {
                    assert(k >= oldself.elem@.len());
                    assert(other.elem@[k as int].wf());
                }
                let empty: Vec<Pair> = Vec::new();
                let copied = merge_sorted_pairs(&other.elem[k].so, &empty);
                let nc = Chunk::from_sorted(copied);
                self.elem.push(nc);
                proof {
                    assert(self.elem@[k as int] == nc);
                    assert forall|p: Pair|
                        cseq_contains(self.elem@, k as int, p) <==> (cseq_contains(
                            oldself.elem@,
                            k as int,
                            p,
                        ) || cseq_contains(other.elem@, k as int, p)) by {
                        assert(!cseq_contains(oldself.elem@, k as int, p));
                        assert(nc.so_seq().contains(p) <==> other.elem@[k as int].so_seq().contains(
                            p,
                        ));
                    }
                }
            }
            k += 1;
            proof {
                assert forall|j: int, p: Pair|
                    0 <= j < k implies (#[trigger] cseq_contains(self.elem@, j, p) <==> (
                    cseq_contains(oldself.elem@, j, p) || cseq_contains(other.elem@, j, p))) by {
                    if j < k - 1 {
                        assert(self.elem@[j] == oldelems[j]);
                        assert(cseq_contains(self.elem@, j, p) == cseq_contains(oldelems, j, p));
                    } else {
                        assert(cseq_contains(self.elem@, j, p) <==> (cseq_contains(
                            oldself.elem@,
                            j,
                            p,
                        ) || cseq_contains(other.elem@, j, p)));
                    }
                }
            }
        }
        self.recompute_size();
        proof {
            assert(k == other.elem@.len());
            assert forall|kk: int, p: Pair|
                final(self).chunk_at(kk).contains(p) <==> (oldself.chunk_at(kk).contains(p)
                    || other.chunk_at(kk).contains(p)) by {
                if 0 <= kk < k {
                    assert(cseq_contains(self.elem@, kk, p) <==> (cseq_contains(
                        oldself.elem@,
                        kk,
                        p,
                    ) || cseq_contains(other.elem@, kk, p)));
                } else {
                    if 0 <= kk < self.elem@.len() {
                        assert(self.elem@[kk] == oldself.elem@[kk]);
                    }
                }
            }
            assert forall|t: Triple|
                final(self).has_triple(t) <==> (oldself.has_triple(t) || other.has_triple(
                    t,
                )) by {
                let kk = offset_of(t.p);
                assert(final(self).chunk_at(kk).contains(Pair { s: t.s, o: t.o }) <==> (
                oldself.chunk_at(kk).contains(Pair { s: t.s, o: t.o }) || other.chunk_at(
                    kk,
                ).contains(Pair { s: t.s, o: t.o })));
            }
        }
    }
}

/// Whether chunk `j` of a chunk list holds the pair `p`.
pub open spec fn cseq_contains(cs: Seq<Chunk>, j: int, p: Pair) -> bool {
    0 <= j < cs.len() && cs[j].so_seq().contains(p)
}

/// Merge `other` into the store behind a mutable reference.
pub fn merge_into(store: &mut TripleStore, other: &TripleStore)
    requires
        old(store).wf(),
        other.wf(),
    ensures
        final(store).wf(),
        final(store).elem@.len() >= old(store).elem@.len(),
        forall|k: int, p: Pair|
            #![trigger final(store).chunk_at(k).contains(p)]
            final(store).chunk_at(k).contains(p) <==> (old(store).chunk_at(k).contains(p)
                || other.chunk_at(k).contains(p)),
        forall|t: Triple|
            #![trigger final(store).has_triple(t)]
            final(store).has_triple(t) <==> (old(store).has_triple(t) || other.has_triple(t)),
{
    store.merge(other);
}

/// Between two well-formed stores where the second holds, chunk by chunk,
/// at least the pairs of the first, the cached sizes compare likewise; and
/// equal sizes force the stores to hold exactly the same pairs.
pub proof fn lemma_store_growth(a: TripleStore, b: TripleStore)
    requires
        a.wf(),
        b.wf(),
        b.elem@.len() >= a.elem@.len(),
        forall|k: int, p: Pair|
            a.chunk_at(k).contains(p) ==> #[trigger] b.chunk_at(k).contains(p),
    ensures
        b.size >= a.size,
        a.size == b.size ==> forall|k: int| a.chunk_at(k) == b.chunk_at(k),
{
    let la = a.elem@;
    let lb = b.elem@;
    let pa = Seq::new(lb.len(), |k: int| if k < la.len() { la[k].so_seq().len() as int } else { 0 });
    let qb = lens_of(lb);
    assert forall|k: int| 0 <= k < qb.len() implies #[trigger] qb[k] >= pa[k] by {
        if k < la.len() {
            assert forall|p: Pair| la[k].so_seq().contains(p) implies lb[k].so_seq().contains(
                p,
            ) by {
                assert(a.chunk_at(k).contains(p));
                assert(b.chunk_at(k).contains(p));
            }
            lemma_sorted_subset_len(la[k].so_seq(), lb[k].so_seq());
        }
    }
    lemma_sum_pointwise(qb, pa);
    lemma_sum_lens_is_sum_ints(la);
    lemma_sum_lens_is_sum_ints(lb);
    lemma_sum_pad(lens_of(la), lb.len() as int);
    assert(pa =~= Seq::new(
        lb.len(),
        |k: int| if k < lens_of(la).len() { lens_of(la)[k] } else { 0 },
    ));
    assert(sum_ints(pa) == a.size);
    assert(sum_ints(qb) == b.size);
    if a.size == b.size {
        assert(qb == pa);
        assert forall|k: int| a.chunk_at(k) == b.chunk_at(k) by {
            if 0 <= k < la.len() {
                assert(qb[k] == pa[k]);
                assert(lb[k].so_seq().len() == la[k].so_seq().len());
                lemma_sorted_no_dup(la[k].so_seq());
                lemma_sorted_no_dup(lb[k].so_seq());
                la[k].so_seq().unique_seq_to_set();
                lb[k].so_seq().unique_seq_to_set();
                seq_to_set_is_finite(lb[k].so_seq());
                assert forall|p: Pair| la[k].so_seq().contains(p) implies lb[
                    k
                ].so_seq().contains(p) by {
                    assert(a.chunk_at(k).contains(p));
                    assert(b.chunk_at(k).contains(p));
                }
                assert(la[k].so_seq().to_set() <= lb[k].so_seq().to_set());
                lemma_subset_equality(la[k].so_seq().to_set(), lb[k].so_seq().to_set());
                assert forall|p: Pair| lb[k].so_seq().contains(p) implies la[
                    k
                ].so_seq().contains(p) by {
                    assert(lb[k].so_seq().to_set().contains(p));
                    assert(la[k].so_seq().to_set().contains(p));
                }
                lemma_sorted_unique(la[k].so_seq(), lb[k].so_seq());
                assert(a.chunk_at(k) == b.chunk_at(k));
            } else if 0 <= k < lb.len() {
                assert(qb[k] == pa[k]);
                assert(lb[k].so_seq().len() == 0);
                assert(b.chunk_at(k) =~= Seq::<Pair>::empty());
                assert(a.chunk_at(k) =~= Seq::<Pair>::empty());
            } else {
                assert(a.chunk_at(k) =~= Seq::<Pair>::empty());
                assert(b.chunk_at(k) =~= Seq::<Pair>::empty());
            }
        }
    }
}

/// Chunk-level containment follows from triple-level containment.
pub proof fn lemma_has_subset_chunks(a: TripleStore, b: TripleStore)
    requires
        a.wf(),
        b.wf(),
        forall|t: Triple| a.has_triple(t) ==> #[trigger] b.has_triple(t),
    ensures
        forall|k: int, p: Pair|
            a.chunk_at(k).contains(p) ==> #[trigger] b.chunk_at(k).contains(p),
{
    assert forall|k: int, p: Pair|
        a.chunk_at(k).contains(p) implies #[trigger] b.chunk_at(k).contains(p) by {
        assert(0 <= k < a.elem@.len()) by {
            if !(0 <= k < a.elem@.len()) {
                assert(a.chunk_at(k) =~= Seq::<Pair>::empty());
            }
        }
        let pk = prop_at_offset(k);
        assert(pk < START_INDEX);
        assert(offset_of(pk) == k);
        let t = Triple { s: p.s, p: pk, o: p.o };
        assert(a.has_triple(t));
        assert(b.has_triple(t));
    }
}

/// Two well-formed stores with equal chunk contents have equal sizes.
pub proof fn lemma_store_size_from_chunks(a: TripleStore, b: TripleStore)
    requires
        a.wf(),
        b.wf(),
        b.elem@.len() >= a.elem@.len(),
        forall|k: int| a.chunk_at(k) == b.chunk_at(k),
    ensures
        a.size == b.size,
{
    let la = a.elem@;
    let lb = b.elem@;
    let pa = Seq::new(lb.len(), |k: int| if k < la.len() { la[k].so_seq().len() as int } else { 0 });
    let qb = lens_of(lb);
    assert forall|k: int| 0 <= k < qb.len() implies #[trigger] qb[k] == pa[k] by {
        assert(a.chunk_at(k) == b.chunk_at(k));
        if k >= la.len() {
            assert(a.chunk_at(k) =~= Seq::<Pair>::empty());
        }
    }
    assert(qb =~= pa);
    lemma_sum_lens_is_sum_ints(la);
    lemma_sum_lens_is_sum_ints(lb);
    lemma_sum_pad(lens_of(la), lb.len() as int);
    assert(pa =~= Seq::new(
        lb.len(),
        |k: int| if k < lens_of(la).len() { lens_of(la)[k] } else { 0 },
    ));
}

} // verus!
