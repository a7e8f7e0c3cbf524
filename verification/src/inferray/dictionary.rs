//! The node dictionary: a bidirectional map between RDF terms (kept as
//! strings) and compact integer ids.
//!
//! Property ids are assigned downward from `START_INDEX - 1`; resource ids
//! upward from `START_INDEX + 1`.  A term first seen as a resource and
//! later used as a property is promoted: it receives a fresh property id
//! and the pair (old id, new id) is appended to the remap log.

use vstd::prelude::*;

use crate::utils::{offset_of, prop_at_offset, Pair, Triple, START_INDEX};

verus! {

broadcast use vstd::string::group_string_axioms;

/// Whether some string in `v` reads `t`.
pub open spec fn seq_has_str(v: Seq<String>, t: Seq<char>) -> bool {
    exists|i: int| 0 <= i < v.len() && (#[trigger] v[i])@ == t
}

/// See the module documentation.
pub struct NodeDictionary {
    /// Terms interned as properties; slot `j` carries id `START_INDEX - 1 - j`.
    pub properties: Vec<String>,
    /// Terms interned as resources; slot `j` carries id `START_INDEX + 1 + j`.
    pub resources: Vec<String>,
    /// Promotions: pairs of (old resource id, new property id).
    pub remapped: Vec<Pair>,
}

impl NodeDictionary {
    /// Ids strictly below this bound are property ids.
    pub const START_INDEX: u64 = START_INDEX;

    /// How many resource slots the id space admits.
    pub const RES_LIMIT: u64 = u64::MAX - START_INDEX - 1;

    /// The ids the reserved RDF, RDFS, XSD and OWL vocabulary receives
    /// when it is interned into a fresh dictionary: resources count up
    /// from `START_INDEX + 1`, properties down from `START_INDEX - 1`,
    /// in interning order.
    pub const RDFS_RESOURCE: u64 = START_INDEX + 1;

    pub const RDFS_CLASS: u64 = START_INDEX + 2;

    pub const RDFS_DATATYPE: u64 = START_INDEX + 3;

    pub const RDFS_LITERAL: u64 = START_INDEX + 4;

    pub const RDFS_CONTAINER: u64 = START_INDEX + 5;

    pub const RDF_LIST: u64 = START_INDEX + 6;

    pub const RDF_ALT: u64 = START_INDEX + 7;

    pub const RDF_BAG: u64 = START_INDEX + 8;

    pub const RDF_SEQ: u64 = START_INDEX + 9;

    pub const RDF_XML_LITERAL: u64 = START_INDEX + 10;

    pub const RDF_STATEMENT: u64 = START_INDEX + 11;

    pub const RDF_NIL: u64 = START_INDEX + 12;

    pub const XSD_NON_NEGATIVE_INTEGER: u64 = START_INDEX + 13;

    pub const XSD_STRING: u64 = START_INDEX + 14;

    pub const OWL_CLASS: u64 = START_INDEX + 15;

    pub const RDFS_DOMAIN: u64 = START_INDEX - 1;

    pub const RDFS_RANGE: u64 = START_INDEX - 2;

    pub const RDFS_SUB_CLASS_OF: u64 = START_INDEX - 3;

    pub const RDFS_SUB_PROPERTY_OF: u64 = START_INDEX - 4;

    pub const RDFS_SEE_ALSO: u64 = START_INDEX - 5;

    pub const RDFS_IS_DEFINED_BY: u64 = START_INDEX - 6;

    pub const RDFS_COMMENT: u64 = START_INDEX - 7;

    pub const RDFS_MEMBER: u64 = START_INDEX - 8;

    pub const RDFS_CONTAINER_MEMBERSHIP_PROPERTY: u64 = START_INDEX - 9;

    pub const RDFS_LABEL: u64 = START_INDEX - 10;

    pub const RDF_PROPERTY: u64 = START_INDEX - 11;

    pub const RDF_TYPE: u64 = START_INDEX - 12;

    pub const RDF_SUBJECT: u64 = START_INDEX - 13;

    pub const RDF_OBJECT: u64 = START_INDEX - 14;

    pub const RDF_PREDICATE: u64 = START_INDEX - 15;

    pub const RDF_FIRST: u64 = START_INDEX - 16;

    pub const RDF_REST: u64 = START_INDEX - 17;

    pub const RDF_VALUE: u64 = START_INDEX - 18;

    pub const RDF_1: u64 = START_INDEX - 19;

    pub const OWL_THING: u64 = START_INDEX - 20;

    pub const OWL_TRANSITIVE_PROPERTY: u64 = START_INDEX - 21;

    pub const OWL_EQUIVALENT_CLASS: u64 = START_INDEX - 22;

    pub const OWL_EQUIVALENT_PROPERTY: u64 = START_INDEX - 23;

    pub const OWL_OBJECT_PROPERTY: u64 = START_INDEX - 24;

    pub const OWL_DATATYPE_PROPERTY: u64 = START_INDEX - 25;

    pub const OWL_SAME_AS: u64 = START_INDEX - 26;

    pub const OWL_INVERSE_OF: u64 = START_INDEX - 27;

    pub const OWL_PROPERTY_DISJOINT_WITH: u64 = START_INDEX - 28;

    pub const OWL_DIFFERENT_FROM: u64 = START_INDEX - 29;

    pub const OWL_ALL_DIFFERENT: u64 = START_INDEX - 30;

    pub const OWL_ALL_DISJOINT_CLASSES: u64 = START_INDEX - 31;

    pub const OWL_ALL_VALUES_FROM: u64 = START_INDEX - 32;

    pub const OWL_ANNOTATION_PROPERTY: u64 = START_INDEX - 33;

    pub const OWL_ASSERTION_PROPERTY: u64 = START_INDEX - 34;

    pub const OWL_COMPLEMENT_OF: u64 = START_INDEX - 35;

    pub const OWL_DISJOINT_WITH: u64 = START_INDEX - 36;

    pub const OWL_DISTINCT_MEMBERS: u64 = START_INDEX - 37;

    pub const OWL_FUNCTIONAL_PROPERTY: u64 = START_INDEX - 38;

    pub const OWL_INTERSECTION_OF: u64 = START_INDEX - 39;

    pub const OWL_UNION_OF: u64 = START_INDEX - 40;

    pub const OWL_INVERSE_FUNCTIONAL_PROPERTY: u64 = START_INDEX - 41;

    pub const OWL_IRREFLEXIVE_PROPERTY: u64 = START_INDEX - 42;

    pub const OWL_MAX_CARDINALITY: u64 = START_INDEX - 43;

    pub const OWL_MEMBERS: u64 = START_INDEX - 44;

    pub const OWL_NOTHING: u64 = START_INDEX - 45;

    pub const OWL_ON_CLASS: u64 = START_INDEX - 46;

    pub const OWL_ON_PROPERTY: u64 = START_INDEX - 47;

    pub const OWL_ONE_OF: u64 = START_INDEX - 48;

    pub const OWL_PROPERTY_CHAIN_AXIOM: u64 = START_INDEX - 49;

    pub const OWL_SOME_VALUES_FROM: u64 = START_INDEX - 50;

    pub const OWL_SOURCE_INDIVIDUAL: u64 = START_INDEX - 51;

    pub const OWL_SYMMETRIC_PROPERTY: u64 = START_INDEX - 52;

    pub const OWL_TARGET_INDIVIDUAL: u64 = START_INDEX - 53;

    pub const OWL_TARGET_VALUE: u64 = START_INDEX - 54;

    pub const OWL_MAX_QUALIFIED_CARDINALITY: u64 = START_INDEX - 55;

    /// Whether `id` denotes an interned term.
    pub open spec fn valid_id(self, id: u64) -> bool {
        if id < START_INDEX {
            offset_of(id) < self.properties@.len()
        } else {
            id > START_INDEX && id - START_INDEX - 1 < self.resources@.len()
        }
    }

    /// The term a valid id stands for.
    pub open spec fn term_of(self, id: u64) -> Seq<char> {
        if id < START_INDEX {
            self.properties@[offset_of(id)]@
        } else {
            self.resources@[id - START_INDEX - 1]@
        }
    }

    /// A valid id that lookups still answer with: every property id, and
    /// every resource id whose term was not promoted to a property.
    pub open spec fn live_id(self, id: u64) -> bool {
        self.valid_id(id) && (id < START_INDEX || !seq_has_str(
            self.properties@,
            self.term_of(id),
        ))
    }

    /// Whether the remap log records a promotion of `id`.
    pub open spec fn was_remapped_spec(self, id: u64) -> bool {
        exists|i: int| 0 <= i < self.remapped@.len() && (#[trigger] self.remapped@[i]).s == id
    }

    /// A well-formed remap entry: from a valid resource id to a valid
    /// property id carrying the same term.
    pub open spec fn rm_ok(self, r: Pair) -> bool {
        &&& r.s > START_INDEX
        &&& r.s - START_INDEX - 1 < self.resources@.len()
        &&& r.o < START_INDEX
        &&& offset_of(r.o) < self.properties@.len()
        &&& self.term_of(r.o) == self.term_of(r.s)
    }

    /// The id that `id` resolves to after promotions are applied.
    pub open spec fn remap_of(self, id: u64) -> u64 {
        if self.was_remapped_spec(id) {
            let i = choose|i: int|
                0 <= i < self.remapped@.len() && (#[trigger] self.remapped@[i]).s == id;
            self.remapped@[i].o
        } else {
            id
        }
    }

    /// The dictionary invariant: terms are interned at most once per
    /// half-space, the id ranges fit the split, and the remap log records
    /// exactly the resources whose term also lives in the property space.
    pub open spec fn wf(self) -> bool {
        &&& forall|i: int, j: int|
            #![trigger self.properties@[i], self.properties@[j]]
            0 <= i < j < self.properties@.len() ==> self.properties@[i]@ != self.properties@[j]@
        &&& forall|i: int, j: int|
            #![trigger self.resources@[i], self.resources@[j]]
            0 <= i < j < self.resources@.len() ==> self.resources@[i]@ != self.resources@[j]@
        &&& self.properties@.len() <= START_INDEX
        &&& self.resources@.len() <= Self::RES_LIMIT
        &&& forall|i: int|
            0 <= i < self.remapped@.len() ==> self.rm_ok(#[trigger] self.remapped@[i])
        &&& forall|i: int, j: int|
            #![trigger self.remapped@[i], self.remapped@[j]]
            0 <= i < j < self.remapped@.len() ==> self.remapped@[i].s != self.remapped@[j].s
        &&& forall|j: int|
            0 <= j < self.resources@.len() ==> (seq_has_str(
                self.properties@,
                (#[trigger] self.resources@[j])@,
            ) ==> self.was_remapped_spec((START_INDEX + 1 + j) as u64))
    }

    /// An id together with a term that a query can still find: either the
    /// id is live and carries the term, or the remap log leads to a live
    /// property id carrying it.
    pub open spec fn resolvable(self, id: u64, t: Seq<char>) -> bool {
        (self.live_id(id) && self.term_of(id) == t) || (exists|i: int|
            0 <= i < self.remapped@.len() && (#[trigger] self.remapped@[i]).s == id && self.live_id(
                self.remapped@[i].o,
            ) && self.term_of(self.remapped@[i].o) == t)
    }

    /// The id a term lookup answers: the property slot first, then the
    /// resource slot, then nothing.
    pub open spec fn spec_index(self, t: Seq<char>) -> Option<u64> {
        if seq_has_str(self.properties@, t) {
            let j = choose|j: int| 0 <= j < self.properties@.len() && (#[trigger] self.properties@[j])@ == t;
            Some(prop_at_offset(j))
        } else if seq_has_str(self.resources@, t) {
            let j = choose|j: int| 0 <= j < self.resources@.len() && (#[trigger] self.resources@[j])@ == t;
            Some((START_INDEX + 1 + j) as u64)
        } else {
            None
        }
    }
}

/// Find a string in a vector of strings.
fn find_str(v: &Vec<String>, t: &String) -> (r: Option<usize>)
    ensures
        match r {
            Some(j) => j < v@.len() && v@[j as int]@ == t@,
            None => !seq_has_str(v@, t@),
        },
{
    let mut k: usize = 0;
    while k < v.len()
        invariant
            k <= v@.len(),
            forall|i: int| 0 <= i < k ==> (#[trigger] v@[i])@ != t@,
        decreases v@.len() - k,
    {
        if t.eq(&v[k]) {
            return Some(k);
        }
        k += 1;
    }
    None
}

impl NodeDictionary {
    /// Return the index of a given term, if any.
    pub fn get_index(&self, t: &str) -> (r: Option<u64>)
        requires
            self.wf(),
        ensures
            r == self.spec_index(t@),
            r is Some ==> self.live_id(r->Some_0) && self.term_of(r->Some_0) == t@,
    {
        let ts = t.to_owned();
        let rp = find_str(&self.properties, &ts);
        match rp {
            Some(j) => {
                let id = crate::utils::offset_to_prop_idx(j);
                proof {
                    let jj = choose|jj: int|
                        0 <= jj < self.properties@.len() && (#[trigger] self.properties@[jj])@
                            == t@;
                    assert(jj == j);
                    assert(seq_has_str(self.properties@, t@));
                }
                Some(id)
            },
            None => {
                let rr = find_str(&self.resources, &ts);
                match rr {
                    Some(j) => {
                        let id = START_INDEX + 1 + (j as u64);
                        proof {
                            let jj = choose|jj: int|
                                0 <= jj < self.resources@.len() && (#[trigger] self.resources@[jj])@
                                    == t@;
                            assert(jj == j);
                            assert(seq_has_str(self.resources@, t@));
                        }
                        Some(id)
                    },
                    None => None,
                }
            },
        }
    }

    /// Return the term associated to a given index.
    pub fn get_term(&self, index: u64) -> (r: &String)
        requires
            self.wf(),
            self.valid_id(index),
        ensures
            r@ == self.term_of(index),
    {
        if index < START_INDEX {
            &self.properties[crate::utils::prop_idx_to_offset(index)]
        } else {
            proof {
                vstd::std_specs::vec::axiom_spec_len(&self.resources);
            }
            &self.resources[(index - START_INDEX - 1) as usize]
        }
    }

    /// Intern a term as a resource, unless it is already known.
    fn add(&mut self, t: &str) -> (r: u64)
        requires
            old(self).wf(),
            old(self).resources@.len() < Self::RES_LIMIT,
        ensures
            final(self).wf(),
            final(self).properties@ == old(self).properties@,
            final(self).remapped@ == old(self).remapped@,
            old(self).resources@.len() <= final(self).resources@.len() <= old(
                self,
            ).resources@.len() + 1,
            forall|k: int|
                0 <= k < old(self).resources@.len() ==> final(self).resources@[k] == old(
                    self,
                ).resources@[k],
            final(self).live_id(r) && final(self).term_of(r) == t@,
            (r < START_INDEX) <==> seq_has_str(old(self).properties@, t@),
            forall|id: u64, tt: Seq<char>|
                old(self).resolvable(id, tt) ==> final(self).resolvable(id, tt),
            forall|id: u64|
                #![trigger old(self).valid_id(id)]
                old(self).valid_id(id) ==> final(self).valid_id(id) && final(self).term_of(id)
                    == old(self).term_of(id),
    {
        let ts = t.to_owned();
        match find_str(&self.properties, &ts) {
            Some(j) => {
                let id = crate::utils::offset_to_prop_idx(j);
                proof {
                    assert(seq_has_str(self.properties@, t@)) by {
                        assert(self.properties@[j as int]@ == t@);
                    }
                }
                id
            },
            None => {
                match find_str(&self.resources, &ts) {
                    Some(j) => {
                        let id = START_INDEX + 1 + (j as u64);
                        id
                    },
                    None => {
                        let j = self.resources.len();
                        let id = START_INDEX + 1 + (j as u64);
                        let ghost oldd = *self;
                        self.resources.push(ts);
                        proof {
                            assert forall|jj: int|
                                0 <= jj < self.resources@.len() && seq_has_str(
                                self.properties@,
                                (#[trigger] self.resources@[jj])@,
                            ) implies self.was_remapped_spec((START_INDEX + 1 + jj) as u64) by {
                                if jj < oldd.resources@.len() {
                                    assert(self.resources@[jj] == oldd.resources@[jj]);
                                    assert(seq_has_str(oldd.properties@, oldd.resources@[jj]@));
                                    assert(oldd.was_remapped_spec((START_INDEX + 1 + jj) as u64));
                                    let i = choose|i: int|
                                        0 <= i < oldd.remapped@.len() && (#[trigger] oldd.remapped@[
                                            i
                                        ]).s == (START_INDEX + 1 + jj) as u64;
                                    assert(self.remapped@[i].s == (START_INDEX + 1 + jj) as u64);
                                } else {
                                    assert(self.resources@[jj]@ == t@);
                                    assert(!seq_has_str(self.properties@, t@));
                                }
                            }
                            assert forall|id2: u64, tt: Seq<char>|
                                oldd.resolvable(id2, tt) implies final(self).resolvable(
                                id2,
                                tt,
                            ) by {}
                        }
                        id
                    },
                }
            },
        }
    }

    /// Intern a term as a property, promoting it from the resource space
    /// if needed.
    fn add_property(&mut self, t: &str) -> (r: u64)
        requires
            old(self).wf(),
            old(self).properties@.len() + 1 < START_INDEX,
        ensures
            final(self).wf(),
            final(self).resources@ == old(self).resources@,
            old(self).properties@.len() <= final(self).properties@.len() <= old(
                self,
            ).properties@.len() + 1,
            forall|k: int|
                0 <= k < old(self).properties@.len() ==> final(self).properties@[k] == old(
                    self,
                ).properties@[k],
            old(self).remapped@.len() <= final(self).remapped@.len() <= old(
                self,
            ).remapped@.len() + 1,
            forall|k: int|
                0 <= k < old(self).remapped@.len() ==> final(self).remapped@[k] == old(
                    self,
                ).remapped@[k],
            r < START_INDEX,
            final(self).live_id(r) && final(self).term_of(r) == t@,
            forall|x: Seq<char>|
                #[trigger] seq_has_str(final(self).properties@, x) ==> (seq_has_str(
                    old(self).properties@,
                    x,
                ) || x == t@),
            forall|id: u64, tt: Seq<char>|
                old(self).resolvable(id, tt) ==> final(self).resolvable(id, tt),
            forall|id: u64|
                #![trigger old(self).valid_id(id)]
                old(self).valid_id(id) ==> final(self).valid_id(id) && final(self).term_of(id)
                    == old(self).term_of(id),
    {
        let ts = t.to_owned();
        match find_str(&self.properties, &ts) {
            Some(j) => {
                let id = crate::utils::offset_to_prop_idx(j);
                id
            },
            None => {
                let old_idx = find_str(&self.resources, &ts);
                let j = self.properties.len();
                let id = crate::utils::offset_to_prop_idx(j);
                let ghost oldd = *self;
                self.properties.push(ts);
                proof {
                    assert(offset_of(id) == j);
                    assert(self.term_of(id) == t@);
                    assert forall|i1: int, j1: int|
                        #![trigger self.properties@[i1], self.properties@[j1]]
                        0 <= i1 < j1 < self.properties@.len() implies self.properties@[i1]@
                        != self.properties@[j1]@ by {
                        if j1 == self.properties@.len() - 1 {
                            assert(oldd.properties@[i1]@ != t@);
                        }
                    }
                }
                match old_idx {
                    Some(rj) => {
                        let old_id = START_INDEX + 1 + (rj as u64);
                        proof {
                            assert(!oldd.was_remapped_spec(old_id)) by {
                                if oldd.was_remapped_spec(old_id) {
                                    let i = choose|i: int|
                                        0 <= i < oldd.remapped@.len() && (#[trigger] oldd.remapped@[
                                            i
                                        ]).s == old_id;
                                    assert(oldd.rm_ok(oldd.remapped@[i]));
                                    assert(seq_has_str(
                                        oldd.properties@,
                                        oldd.resources@[rj as int]@,
                                    )) by {
                                        let po = oldd.remapped@[i].o;
                                        assert(oldd.properties@[offset_of(po)]@
                                            == oldd.resources@[rj as int]@);
                                    }
                                }
                            }
                        }
                        self.remapped.push(Pair { s: old_id, o: id });
                        proof {
                            lemma_wf_after_promote(oldd, *self, t@, rj as int, old_id, id);
                            assert forall|id2: u64, tt: Seq<char>|
                                oldd.resolvable(id2, tt) implies final(self).resolvable(
                                id2,
                                tt,
                            ) by {
                                lemma_resolvable_after_promote(
                                    oldd,
                                    *self,
                                    t@,
                                    rj as int,
                                    old_id,
                                    id,
                                    id2,
                                    tt,
                                );
                            }
                        }
                        id
                    },
                    None => {
                        proof {
                            assert forall|jj: int|
                                0 <= jj < self.resources@.len() && seq_has_str(
                                self.properties@,
                                (#[trigger] self.resources@[jj])@,
                            ) implies self.was_remapped_spec((START_INDEX + 1 + jj) as u64) by {
                                let i = choose|i: int|
                                    0 <= i < self.properties@.len()
                                        && (#[trigger] self.properties@[i])@
                                        == self.resources@[jj]@;
                                if i < oldd.properties@.len() {
                                    assert(oldd.properties@[i] == self.properties@[i]);
                                    assert(seq_has_str(oldd.properties@, oldd.resources@[jj]@));
                                    assert(oldd.was_remapped_spec((START_INDEX + 1 + jj) as u64));
                                    let w = choose|w: int|
                                        0 <= w < oldd.remapped@.len() && (#[trigger] oldd.remapped@[
                                            w
                                        ]).s == (START_INDEX + 1 + jj) as u64;
                                    assert(self.remapped@[w].s == (START_INDEX + 1 + jj) as u64);
                                } else {
                                    assert(self.properties@[i]@ == t@);
                                    assert(oldd.resources@[jj]@ != t@);
                                }
                            }
                            assert(self.live_id(id));
                            assert forall|id2: u64, tt: Seq<char>|
                                oldd.resolvable(id2, tt) implies final(self).resolvable(
                                id2,
                                tt,
                            ) by {
                                if oldd.live_id(id2) && oldd.term_of(id2) == tt {
                                    if id2 > START_INDEX {
                                        assert(oldd.resources@[id2 - START_INDEX - 1]@ != t@);
                                        assert forall|i: int|
                                            0 <= i < self.properties@.len() implies (
                                        #[trigger] self.properties@[i])@ != tt by {
                                            if i < oldd.properties@.len() {
                                                assert(!seq_has_str(oldd.properties@, tt));
                                            }
                                        }
                                        assert(self.live_id(id2));
                                    }
                                }
                            }
                        }
                        id
                    },
                }
            },
        }
    }
}

/// After a promotion the dictionary invariant still holds.
proof fn lemma_wf_after_promote(
    oldd: NodeDictionary,
    newd: NodeDictionary,
    t: Seq<char>,
    rj: int,
    old_id: u64,
    new_id: u64,
)
    requires
        oldd.wf(),
        0 <= rj < oldd.resources@.len(),
        oldd.resources@[rj]@ == t,
        !seq_has_str(oldd.properties@, t),
        !oldd.was_remapped_spec(old_id),
        old_id == (START_INDEX + 1 + rj) as u64,
        oldd.properties@.len() + 1 < START_INDEX,
        new_id == prop_at_offset(oldd.properties@.len() as int),
        newd.properties@.len() == oldd.properties@.len() + 1,
        forall|k: int|
            0 <= k < oldd.properties@.len() ==> newd.properties@[k] == oldd.properties@[k],
        newd.properties@[oldd.properties@.len() as int]@ == t,
        forall|i1: int, j1: int|
            #![trigger newd.properties@[i1], newd.properties@[j1]]
            0 <= i1 < j1 < newd.properties@.len() ==> newd.properties@[i1]@ != newd.properties@[
                j1
            ]@,
        newd.resources@ == oldd.resources@,
        newd.remapped@ == oldd.remapped@.push(Pair { s: old_id, o: new_id }),
    ensures
        newd.wf(),
        newd.live_id(new_id),
        newd.term_of(new_id) == t,
{
    assert(newd.properties@.len() <= START_INDEX);
    assert(offset_of(new_id) == oldd.properties@.len());
    assert(newd.term_of(new_id) == t);
    assert forall|i: int| 0 <= i < newd.remapped@.len() implies newd.rm_ok(
        #[trigger] newd.remapped@[i],
    ) by {
        if i < oldd.remapped@.len() {
            assert(oldd.rm_ok(oldd.remapped@[i]));
            let r = oldd.remapped@[i];
            assert(newd.properties@[offset_of(r.o)] == oldd.properties@[offset_of(r.o)]);
        } else {
            assert(newd.remapped@[i] == (Pair { s: old_id, o: new_id }));
        }
    }
    assert forall|i: int, j: int|
        #![trigger newd.remapped@[i], newd.remapped@[j]]
        0 <= i < j < newd.remapped@.len() implies newd.remapped@[i].s != newd.remapped@[j].s by {
        if j == newd.remapped@.len() - 1 {
            if newd.remapped@[i].s == old_id {
                assert(oldd.was_remapped_spec(old_id));
            }
        }
    }
    assert forall|j: int|
        0 <= j < newd.resources@.len() implies (seq_has_str(
        newd.properties@,
        (#[trigger] newd.resources@[j])@,
    ) ==> newd.was_remapped_spec((START_INDEX + 1 + j) as u64)) by {
        if seq_has_str(newd.properties@, newd.resources@[j]@) {
            let i = choose|i: int|
                0 <= i < newd.properties@.len() && (#[trigger] newd.properties@[i])@
                    == newd.resources@[j]@;
            if i < oldd.properties@.len() {
                assert(seq_has_str(oldd.properties@, oldd.resources@[j]@));
                assert(oldd.was_remapped_spec((START_INDEX + 1 + j) as u64));
                let k = choose|k: int|
                    0 <= k < oldd.remapped@.len() && (#[trigger] oldd.remapped@[k]).s == (
                    START_INDEX + 1 + j) as u64;
                assert(newd.remapped@[k].s == (START_INDEX + 1 + j) as u64);
            } else {
                // the term is the newly pushed property: it is the promoted slot
                assert(newd.resources@[j]@ == t);
                if j != rj {
                    assert(oldd.resources@[j]@ != oldd.resources@[rj]@);
                }
                assert(j == rj);
                assert(newd.remapped@[newd.remapped@.len() - 1].s == (START_INDEX + 1 + j) as u64);
            }
        }
    }
}

/// Promotion preserves resolvability of every previously resolvable pair.
proof fn lemma_resolvable_after_promote(
    oldd: NodeDictionary,
    newd: NodeDictionary,
    t: Seq<char>,
    rj: int,
    old_id: u64,
    new_id: u64,
    id2: u64,
    tt: Seq<char>,
)
    requires
        oldd.wf(),
        newd.wf(),
        0 <= rj < oldd.resources@.len(),
        oldd.resources@[rj]@ == t,
        !seq_has_str(oldd.properties@, t),
        old_id == (START_INDEX + 1 + rj) as u64,
        oldd.properties@.len() + 1 < START_INDEX,
        new_id == prop_at_offset(oldd.properties@.len() as int),
        newd.properties@.len() == oldd.properties@.len() + 1,
        forall|k: int|
            0 <= k < oldd.properties@.len() ==> newd.properties@[k] == oldd.properties@[k],
        newd.properties@[oldd.properties@.len() as int]@ == t,
        newd.resources@ == oldd.resources@,
        newd.remapped@ == oldd.remapped@.push(Pair { s: old_id, o: new_id }),
        oldd.resolvable(id2, tt),
    ensures
        newd.resolvable(id2, tt),
{
    assert(offset_of(new_id) == oldd.properties@.len());
    assert(newd.term_of(new_id) == t);
    assert(newd.live_id(new_id));
    if oldd.live_id(id2) && oldd.term_of(id2) == tt {
        if id2 < START_INDEX {
            assert(newd.term_of(id2) == oldd.term_of(id2)) by {
                assert(newd.properties@[offset_of(id2)] == oldd.properties@[offset_of(id2)]);
            }
            assert(newd.live_id(id2));
        } else {
            assert(newd.term_of(id2) == oldd.term_of(id2));
            if id2 == old_id {
                // resolve through the fresh remap entry
                assert(tt == t);
                let i = newd.remapped@.len() - 1;
                assert(newd.remapped@[i].s == id2);
                assert(newd.remapped@[i].o == new_id);
            } else {
                // still live: the only new property string is `t`
                assert forall|i: int|
                    0 <= i < newd.properties@.len() implies (#[trigger] newd.properties@[i])@
                    != tt by {
                    if i < oldd.properties@.len() {
                        assert(!seq_has_str(oldd.properties@, tt));
                        assert(oldd.properties@[i]@ != tt);
                    } else {
                        assert(newd.properties@[i]@ == t);
                        assert(oldd.resources@[id2 - START_INDEX - 1]@ == tt);
                        if tt == t {
                            assert(oldd.resources@[rj]@ == oldd.resources@[id2 - START_INDEX - 1]@);
                            assert(rj == id2 - START_INDEX - 1);
                        }
                    }
                }
                assert(newd.live_id(id2));
            }
        }
    } else {
        let i = choose|i: int|
            0 <= i < oldd.remapped@.len() && (#[trigger] oldd.remapped@[i]).s == id2 && oldd.live_id(
                oldd.remapped@[i].o,
            ) && oldd.term_of(oldd.remapped@[i].o) == tt;
        assert(newd.remapped@[i] == oldd.remapped@[i]);
        let po = oldd.remapped@[i].o;
        assert(newd.term_of(po) == oldd.term_of(po)) by {
            assert(newd.properties@[offset_of(po)] == oldd.properties@[offset_of(po)]);
        }
        assert(newd.live_id(po));
    }
}

impl NodeDictionary {
    /// Convert a term triple into an index triple, interning terms as
    /// needed.  The predicate is always a property id; for the few schema
    /// predicates that carry properties in subject or object position,
    /// those positions are interned as properties too.
    pub fn encode_triple(&mut self, s: &str, p: &str, o: &str) -> (t: Triple)
        requires
            old(self).wf(),
            old(self).properties@.len() + 3 < START_INDEX,
            old(self).resources@.len() + 2 < Self::RES_LIMIT,
        ensures
            final(self).wf(),
            final(self).properties@.len() <= old(self).properties@.len() + 3,
            final(self).resources@.len() <= old(self).resources@.len() + 2,
            t.p < START_INDEX,
            final(self).live_id(t.p) && final(self).term_of(t.p) == p@,
            final(self).valid_id(t.s) && final(self).resolvable(t.s, s@),
            final(self).valid_id(t.o) && final(self).resolvable(t.o, o@),
            (t.p == Self::RDFS_DOMAIN || t.p == Self::RDFS_RANGE) ==> t.s < START_INDEX,
            (t.p == Self::RDFS_SUB_PROPERTY_OF || t.p == Self::OWL_EQUIVALENT_PROPERTY || t.p
                == Self::OWL_INVERSE_OF) ==> (t.s < START_INDEX && t.o < START_INDEX),
            (t.p != Self::RDFS_DOMAIN && t.p != Self::RDFS_RANGE && t.p
                != Self::RDFS_SUB_PROPERTY_OF && t.p != Self::OWL_EQUIVALENT_PROPERTY && t.p
                != Self::OWL_INVERSE_OF) ==> (t.s < START_INDEX ==> (seq_has_str(
                old(self).properties@,
                s@,
            ) || s@ == p@)),
            (t.p != Self::RDFS_SUB_PROPERTY_OF && t.p != Self::OWL_EQUIVALENT_PROPERTY && t.p
                != Self::OWL_INVERSE_OF) ==> (t.o < START_INDEX ==> (seq_has_str(
                old(self).properties@,
                o@,
            ) || o@ == p@ || o@ == s@)),
            forall|x: Seq<char>|
                #[trigger] seq_has_str(final(self).properties@, x) ==> (seq_has_str(
                    old(self).properties@,
                    x,
                ) || x == p@ || ((t.p == Self::RDFS_DOMAIN || t.p == Self::RDFS_RANGE || t.p
                    == Self::RDFS_SUB_PROPERTY_OF || t.p == Self::OWL_EQUIVALENT_PROPERTY || t.p
                    == Self::OWL_INVERSE_OF) && x == s@) || ((t.p == Self::RDFS_SUB_PROPERTY_OF
                    || t.p == Self::OWL_EQUIVALENT_PROPERTY || t.p == Self::OWL_INVERSE_OF) && x
                    == o@)),
            forall|id: u64, tt: Seq<char>|
                old(self).resolvable(id, tt) ==> final(self).resolvable(id, tt),
            forall|id: u64|
                #![trigger old(self).valid_id(id)]
                old(self).valid_id(id) ==> final(self).valid_id(id) && final(self).term_of(id)
                    == old(self).term_of(id),
    {
        let ghost d0 = *old(self);
        let pi = self.add_property(p);
        let ghost d1 = *self;
        let pos = contains_prop_in_s_or_o(pi);
        let si: u64;
        let oi: u64;
        if pos == 1 {
            si = self.add_property(s);
            oi = self.add(o);
        } else if pos == 2 {
            si = self.add_property(s);
            oi = self.add_property(o);
        } else {
            si = self.add(s);
            oi = self.add(o);
        }
        let ghost d2 = *self;
        proof {
            assert(final(self).resolvable(si, s@));
            assert(final(self).resolvable(oi, o@));
            assert(final(self).live_id(pi) && final(self).term_of(pi) == p@);
            assert forall|id: u64|
                d0.valid_id(id) implies final(self).valid_id(id) && final(self).term_of(id)
                == d0.term_of(id) by {
                assert(d1.valid_id(id) && d1.term_of(id) == d0.term_of(id));
            }
        }
        Triple { s: si, p: pi, o: oi }
    }

    /// Rewrite the subject and object of every buffered triple through the
    /// remap log, so that promoted resources point at their property id.
    pub fn remap_triples(&self, triples: &mut Vec<Triple>)
        requires
            self.wf(),
        ensures
            final(triples)@.len() == old(triples)@.len(),
            forall|k: int|
                0 <= k < old(triples)@.len() ==> final(triples)@[k] == (Triple {
                    s: self.remap_of(old(triples)@[k].s),
                    p: old(triples)@[k].p,
                    o: self.remap_of(old(triples)@[k].o),
                }),
    {
        let ghost orig = triples@;
        let mut k: usize = 0;
        while k < triples.len()
            invariant
                self.wf(),
                k <= orig.len(),
                triples@.len() == orig.len(),
                forall|i: int|
                    0 <= i < k ==> triples@[i] == (Triple {
                        s: self.remap_of(orig[i].s),
                        p: orig[i].p,
                        o: self.remap_of(orig[i].o),
                    }),
                forall|i: int| k <= i < orig.len() ==> triples@[i] == orig[i],
            decreases orig.len() - k,
        {
            let t = triples[k];
            let ns = self.find_remap(t.s);
            let no = self.find_remap(t.o);
            triples[k] = Triple { s: ns, p: t.p, o: no };
            k += 1;
        }
    }

    /// The property id a promoted resource id was rewritten to, or the id
    /// itself.
    pub fn find_remap(&self, id: u64) -> (r: u64)
        requires
            self.wf(),
        ensures
            r == self.remap_of(id),
    {
        let mut k: usize = 0;
        while k < self.remapped.len()
            invariant
                self.wf(),
                k <= self.remapped@.len(),
                forall|i: int| 0 <= i < k ==> (#[trigger] self.remapped@[i]).s != id,
            decreases self.remapped@.len() - k,
        {
            if self.remapped[k].s == id {
                proof {
                    assert(self.was_remapped_spec(id));
                    let i = choose|i: int|
                        0 <= i < self.remapped@.len() && (#[trigger] self.remapped@[i]).s == id;
                    assert(i == k);
                }
                return self.remapped[k].o;
            }
            k += 1;
        }
        proof {
            assert(!self.was_remapped_spec(id));
        }
        id
    }

    /// Whether a resource index was remapped to a property index.
    pub fn was_remapped(&self, res: u64) -> (r: bool)
        requires
            self.wf(),
        ensures
            r == self.was_remapped_spec(res),
    {
        let mut k: usize = 0;
        while k < self.remapped.len()
            invariant
                k <= self.remapped@.len(),
                forall|i: int| 0 <= i < k ==> (#[trigger] self.remapped@[i]).s != res,
            decreases self.remapped@.len() - k,
        {
            if self.remapped[k].s == res {
                return true;
            }
            k += 1;
        }
        false
    }

    /// Whether `id` denotes an interned term.
    pub fn has_id(&self, id: u64) -> (r: bool)
        requires
            self.wf(),
        ensures
            r == self.valid_id(id),
    {
        if id < START_INDEX {
            crate::utils::prop_idx_to_offset(id) < self.properties.len()
        } else if id == START_INDEX {
            false
        } else {
            proof {
                vstd::std_specs::vec::axiom_spec_len(&self.resources);
            }
            id - START_INDEX - 1 < self.resources.len() as u64
        }
    }

    /// The first available resource index.
    pub fn get_res_ctr(&self) -> (r: u64)
        requires
            self.wf(),
        ensures
            r == START_INDEX + self.resources@.len(),
    {
        (self.resources.len() as u64) + START_INDEX
    }

    /// Convert a property index to an offset usable with the store's
    /// chunk array.
    pub fn prop_idx_to_offset(prop_idx: u64) -> (r: usize)
        requires
            prop_idx < START_INDEX,
        ensures
            r == offset_of(prop_idx),
    {
        crate::utils::prop_idx_to_offset(prop_idx)
    }

    /// Convert a chunk offset into a property index.
    pub fn offset_to_prop_idx(idx: usize) -> (r: u64)
        requires
            (idx as u64) < START_INDEX,
        ensures
            r == prop_at_offset(idx as int),
            r < START_INDEX,
    {
        crate::utils::offset_to_prop_idx(idx)
    }
}

/// Which positions of a triple with this predicate carry properties:
/// 1 for the subject, 2 for subject and object, 0 for neither.
pub fn contains_prop_in_s_or_o(property_index: u64) -> (r: u8)
    ensures
        (r == 1) == (property_index == NodeDictionary::RDFS_DOMAIN || property_index
            == NodeDictionary::RDFS_RANGE),
        (r == 2) == (property_index == NodeDictionary::RDFS_SUB_PROPERTY_OF || property_index
            == NodeDictionary::OWL_EQUIVALENT_PROPERTY || property_index
            == NodeDictionary::OWL_INVERSE_OF),
        r == 0 || r == 1 || r == 2,
{
    if property_index == NodeDictionary::RDFS_DOMAIN || property_index
        == NodeDictionary::RDFS_RANGE {
        1
    } else if property_index == NodeDictionary::RDFS_SUB_PROPERTY_OF || property_index
        == NodeDictionary::OWL_EQUIVALENT_PROPERTY || property_index
        == NodeDictionary::OWL_INVERSE_OF {
        2
    } else {
        0
    }
}

/// A resolvable pair leads, after the remap log is applied, to a live id
/// carrying the same term.
pub proof fn lemma_resolvable_remap(d: NodeDictionary, id: u64, t: Seq<char>)
    requires
        d.wf(),
        d.resolvable(id, t),
    ensures
        d.live_id(d.remap_of(id)),
        d.term_of(d.remap_of(id)) == t,
{
    if d.live_id(id) && d.term_of(id) == t {
        if d.was_remapped_spec(id) {
            let i = choose|i: int|
                0 <= i < d.remapped@.len() && (#[trigger] d.remapped@[i]).s == id;
            assert(d.rm_ok(d.remapped@[i]));
            assert(id > START_INDEX);
            assert(seq_has_str(d.properties@, d.term_of(id))) by {
                let po = d.remapped@[i].o;
                assert(d.properties@[offset_of(po)]@ == d.term_of(id));
            }
        }
        assert(d.remap_of(id) == id);
    } else {
        let i = choose|i: int|
            0 <= i < d.remapped@.len() && (#[trigger] d.remapped@[i]).s == id && d.live_id(
                d.remapped@[i].o,
            ) && d.term_of(d.remapped@[i].o) == t;
        assert(d.was_remapped_spec(id));
        let j = choose|j: int| 0 <= j < d.remapped@.len() && (#[trigger] d.remapped@[j]).s == id;
        assert(j == i);
    }
}

/// Looking up the term of any live id returns that id: for every property
/// id, and for every resource id that was not promoted, the dictionary's
/// two directions are mutually inverse.
pub proof fn lemma_index_of_term(d: NodeDictionary, id: u64)
    requires
        d.wf(),
        d.live_id(id),
    ensures
        d.spec_index(d.term_of(id)) == Some(id),
{
    let t = d.term_of(id);
    if id < START_INDEX {
        assert(seq_has_str(d.properties@, t)) by {
            assert(d.properties@[offset_of(id)]@ == t);
        }
        let j = choose|j: int| 0 <= j < d.properties@.len() && (#[trigger] d.properties@[j])@ == t;
        assert(j == offset_of(id));
        assert(prop_at_offset(j) == id);
    } else {
        assert(!seq_has_str(d.properties@, t));
        assert(seq_has_str(d.resources@, t)) by {
            assert(d.resources@[id - START_INDEX - 1]@ == t);
        }
        let j = choose|j: int| 0 <= j < d.resources@.len() && (#[trigger] d.resources@[j])@ == t;
        assert(j == id - START_INDEX - 1);
    }
}

/// Whether `x` reads one of the 55 reserved property IRIs.
pub open spec fn vocab_prop_term(x: Seq<char>) -> bool {
    ||| x == "http://www.w3.org/2000/01/rdf-schema#domain"@
    ||| x == "http://www.w3.org/2000/01/rdf-schema#range"@
    ||| x == "http://www.w3.org/2000/01/rdf-schema#subClassOf"@
    ||| x == "http://www.w3.org/2000/01/rdf-schema#subPropertyOf"@
    ||| x == "http://www.w3.org/2000/01/rdf-schema#seeAlso"@
    ||| x == "http://www.w3.org/2000/01/rdf-schema#isDefinedBy"@
    ||| x == "http://www.w3.org/2000/01/rdf-schema#comment"@
    ||| x == "http://www.w3.org/2000/01/rdf-schema#member"@
    ||| x == "http://www.w3.org/2000/01/rdf-schema#ContainerMembershipProperty"@
    ||| x == "http://www.w3.org/2000/01/rdf-schema#label"@
    ||| x == "http://www.w3.org/1999/02/22-rdf-syntax-ns#Property"@
    ||| x == "http://www.w3.org/1999/02/22-rdf-syntax-ns#type"@
    ||| x == "http://www.w3.org/1999/02/22-rdf-syntax-ns#subject"@
    ||| x == "http://www.w3.org/1999/02/22-rdf-syntax-ns#object"@
    ||| x == "http://www.w3.org/1999/02/22-rdf-syntax-ns#predicate"@
    ||| x == "http://www.w3.org/1999/02/22-rdf-syntax-ns#first"@
    ||| x == "http://www.w3.org/1999/02/22-rdf-syntax-ns#rest"@
    ||| x == "http://www.w3.org/1999/02/22-rdf-syntax-ns#value"@
    ||| x == "http://www.w3.org/1999/02/22-rdf-syntax-ns#_1"@
    ||| x == "http://www.w3.org/2002/07/owl#Thing"@
    ||| x == "http://www.w3.org/2002/07/owl#TransitiveProperty"@
    ||| x == "http://www.w3.org/2002/07/owl#equivalentClass"@
    ||| x == "http://www.w3.org/2002/07/owl#equivalentProperty"@
    ||| x == "http://www.w3.org/2002/07/owl#ObjectProperty"@
    ||| x == "http://www.w3.org/2002/07/owl#DatatypeProperty"@
    ||| x == "http://www.w3.org/2002/07/owl#sameAs"@
    ||| x == "http://www.w3.org/2002/07/owl#inverseOf"@
    ||| x == "http://www.w3.org/2002/07/owl#propertyDisjointWith"@
    ||| x == "http://www.w3.org/2002/07/owl#differentFrom"@
    ||| x == "http://www.w3.org/2002/07/owl#AllDifferent"@
    ||| x == "http://www.w3.org/2002/07/owl#AllDisjointClasses"@
    ||| x == "http://www.w3.org/2002/07/owl#allValuesFrom"@
    ||| x == "http://www.w3.org/2002/07/owl#AnnotationProperty"@
    ||| x == "http://www.w3.org/2002/07/owl#assertionProperty"@
    ||| x == "http://www.w3.org/2002/07/owl#complementOf"@
    ||| x == "http://www.w3.org/2002/07/owl#disjointWith"@
    ||| x == "http://www.w3.org/2002/07/owl#distinctMembers"@
    ||| x == "http://www.w3.org/2002/07/owl#FunctionalProperty"@
    ||| x == "http://www.w3.org/2002/07/owl#intersectionOf"@
    ||| x == "http://www.w3.org/2002/07/owl#unionOf"@
    ||| x == "http://www.w3.org/2002/07/owl#InverseFunctionalProperty"@
    ||| x == "http://www.w3.org/2002/07/owl#IrreflexiveProperty"@
    ||| x == "http://www.w3.org/2002/07/owl#maxCardinality"@
    ||| x == "http://www.w3.org/2002/07/owl#members"@
    ||| x == "http://www.w3.org/2002/07/owl#Nothing"@
    ||| x == "http://www.w3.org/2002/07/owl#onClass"@
    ||| x == "http://www.w3.org/2002/07/owl#onProperty"@
    ||| x == "http://www.w3.org/2002/07/owl#oneOf"@
    ||| x == "http://www.w3.org/2002/07/owl#propertyChainAxiom"@
    ||| x == "http://www.w3.org/2002/07/owl#someValuesFrom"@
    ||| x == "http://www.w3.org/2002/07/owl#sourceIndividual"@
    ||| x == "http://www.w3.org/2002/07/owl#SymmetricProperty"@
    ||| x == "http://www.w3.org/2002/07/owl#targetIndividual"@
    ||| x == "http://www.w3.org/2002/07/owl#targetValue"@
    ||| x == "http://www.w3.org/2002/07/owl#maxQualifiedCardinality"@
}

/// The reserved property vocabulary sits at its documented constant
/// ids: the dictionary's property table starts with the 55 RDF, RDFS
/// and OWL property IRIs, in interning order.
pub open spec fn vocab_props_bound(d: NodeDictionary) -> bool {
    &&& d.properties@.len() >= 55
    &&& d.term_of(NodeDictionary::RDFS_DOMAIN) == "http://www.w3.org/2000/01/rdf-schema#domain"@
    &&& d.term_of(NodeDictionary::RDFS_RANGE) == "http://www.w3.org/2000/01/rdf-schema#range"@
    &&& d.term_of(NodeDictionary::RDFS_SUB_CLASS_OF) == "http://www.w3.org/2000/01/rdf-schema#subClassOf"@
    &&& d.term_of(NodeDictionary::RDFS_SUB_PROPERTY_OF) == "http://www.w3.org/2000/01/rdf-schema#subPropertyOf"@
    &&& d.term_of(NodeDictionary::RDFS_SEE_ALSO) == "http://www.w3.org/2000/01/rdf-schema#seeAlso"@
    &&& d.term_of(NodeDictionary::RDFS_IS_DEFINED_BY) == "http://www.w3.org/2000/01/rdf-schema#isDefinedBy"@
    &&& d.term_of(NodeDictionary::RDFS_COMMENT) == "http://www.w3.org/2000/01/rdf-schema#comment"@
    &&& d.term_of(NodeDictionary::RDFS_MEMBER) == "http://www.w3.org/2000/01/rdf-schema#member"@
    &&& d.term_of(NodeDictionary::RDFS_CONTAINER_MEMBERSHIP_PROPERTY) == "http://www.w3.org/2000/01/rdf-schema#ContainerMembershipProperty"@
    &&& d.term_of(NodeDictionary::RDFS_LABEL) == "http://www.w3.org/2000/01/rdf-schema#label"@
    &&& d.term_of(NodeDictionary::RDF_PROPERTY) == "http://www.w3.org/1999/02/22-rdf-syntax-ns#Property"@
    &&& d.term_of(NodeDictionary::RDF_TYPE) == "http://www.w3.org/1999/02/22-rdf-syntax-ns#type"@
    &&& d.term_of(NodeDictionary::RDF_SUBJECT) == "http://www.w3.org/1999/02/22-rdf-syntax-ns#subject"@
    &&& d.term_of(NodeDictionary::RDF_OBJECT) == "http://www.w3.org/1999/02/22-rdf-syntax-ns#object"@
    &&& d.term_of(NodeDictionary::RDF_PREDICATE) == "http://www.w3.org/1999/02/22-rdf-syntax-ns#predicate"@
    &&& d.term_of(NodeDictionary::RDF_FIRST) == "http://www.w3.org/1999/02/22-rdf-syntax-ns#first"@
    &&& d.term_of(NodeDictionary::RDF_REST) == "http://www.w3.org/1999/02/22-rdf-syntax-ns#rest"@
    &&& d.term_of(NodeDictionary::RDF_VALUE) == "http://www.w3.org/1999/02/22-rdf-syntax-ns#value"@
    &&& d.term_of(NodeDictionary::RDF_1) == "http://www.w3.org/1999/02/22-rdf-syntax-ns#_1"@
    &&& d.term_of(NodeDictionary::OWL_THING) == "http://www.w3.org/2002/07/owl#Thing"@
    &&& d.term_of(NodeDictionary::OWL_TRANSITIVE_PROPERTY) == "http://www.w3.org/2002/07/owl#TransitiveProperty"@
    &&& d.term_of(NodeDictionary::OWL_EQUIVALENT_CLASS) == "http://www.w3.org/2002/07/owl#equivalentClass"@
    &&& d.term_of(NodeDictionary::OWL_EQUIVALENT_PROPERTY) == "http://www.w3.org/2002/07/owl#equivalentProperty"@
    &&& d.term_of(NodeDictionary::OWL_OBJECT_PROPERTY) == "http://www.w3.org/2002/07/owl#ObjectProperty"@
    &&& d.term_of(NodeDictionary::OWL_DATATYPE_PROPERTY) == "http://www.w3.org/2002/07/owl#DatatypeProperty"@
    &&& d.term_of(NodeDictionary::OWL_SAME_AS) == "http://www.w3.org/2002/07/owl#sameAs"@
    &&& d.term_of(NodeDictionary::OWL_INVERSE_OF) == "http://www.w3.org/2002/07/owl#inverseOf"@
    &&& d.term_of(NodeDictionary::OWL_PROPERTY_DISJOINT_WITH) == "http://www.w3.org/2002/07/owl#propertyDisjointWith"@
    &&& d.term_of(NodeDictionary::OWL_DIFFERENT_FROM) == "http://www.w3.org/2002/07/owl#differentFrom"@
    &&& d.term_of(NodeDictionary::OWL_ALL_DIFFERENT) == "http://www.w3.org/2002/07/owl#AllDifferent"@
    &&& d.term_of(NodeDictionary::OWL_ALL_DISJOINT_CLASSES) == "http://www.w3.org/2002/07/owl#AllDisjointClasses"@
    &&& d.term_of(NodeDictionary::OWL_ALL_VALUES_FROM) == "http://www.w3.org/2002/07/owl#allValuesFrom"@
    &&& d.term_of(NodeDictionary::OWL_ANNOTATION_PROPERTY) == "http://www.w3.org/2002/07/owl#AnnotationProperty"@
    &&& d.term_of(NodeDictionary::OWL_ASSERTION_PROPERTY) == "http://www.w3.org/2002/07/owl#assertionProperty"@
    &&& d.term_of(NodeDictionary::OWL_COMPLEMENT_OF) == "http://www.w3.org/2002/07/owl#complementOf"@
    &&& d.term_of(NodeDictionary::OWL_DISJOINT_WITH) == "http://www.w3.org/2002/07/owl#disjointWith"@
    &&& d.term_of(NodeDictionary::OWL_DISTINCT_MEMBERS) == "http://www.w3.org/2002/07/owl#distinctMembers"@
    &&& d.term_of(NodeDictionary::OWL_FUNCTIONAL_PROPERTY) == "http://www.w3.org/2002/07/owl#FunctionalProperty"@
    &&& d.term_of(NodeDictionary::OWL_INTERSECTION_OF) == "http://www.w3.org/2002/07/owl#intersectionOf"@
    &&& d.term_of(NodeDictionary::OWL_UNION_OF) == "http://www.w3.org/2002/07/owl#unionOf"@
    &&& d.term_of(NodeDictionary::OWL_INVERSE_FUNCTIONAL_PROPERTY) == "http://www.w3.org/2002/07/owl#InverseFunctionalProperty"@
    &&& d.term_of(NodeDictionary::OWL_IRREFLEXIVE_PROPERTY) == "http://www.w3.org/2002/07/owl#IrreflexiveProperty"@
    &&& d.term_of(NodeDictionary::OWL_MAX_CARDINALITY) == "http://www.w3.org/2002/07/owl#maxCardinality"@
    &&& d.term_of(NodeDictionary::OWL_MEMBERS) == "http://www.w3.org/2002/07/owl#members"@
    &&& d.term_of(NodeDictionary::OWL_NOTHING) == "http://www.w3.org/2002/07/owl#Nothing"@
    &&& d.term_of(NodeDictionary::OWL_ON_CLASS) == "http://www.w3.org/2002/07/owl#onClass"@
    &&& d.term_of(NodeDictionary::OWL_ON_PROPERTY) == "http://www.w3.org/2002/07/owl#onProperty"@
    &&& d.term_of(NodeDictionary::OWL_ONE_OF) == "http://www.w3.org/2002/07/owl#oneOf"@
    &&& d.term_of(NodeDictionary::OWL_PROPERTY_CHAIN_AXIOM) == "http://www.w3.org/2002/07/owl#propertyChainAxiom"@
    &&& d.term_of(NodeDictionary::OWL_SOME_VALUES_FROM) == "http://www.w3.org/2002/07/owl#someValuesFrom"@
    &&& d.term_of(NodeDictionary::OWL_SOURCE_INDIVIDUAL) == "http://www.w3.org/2002/07/owl#sourceIndividual"@
    &&& d.term_of(NodeDictionary::OWL_SYMMETRIC_PROPERTY) == "http://www.w3.org/2002/07/owl#SymmetricProperty"@
    &&& d.term_of(NodeDictionary::OWL_TARGET_INDIVIDUAL) == "http://www.w3.org/2002/07/owl#targetIndividual"@
    &&& d.term_of(NodeDictionary::OWL_TARGET_VALUE) == "http://www.w3.org/2002/07/owl#targetValue"@
    &&& d.term_of(NodeDictionary::OWL_MAX_QUALIFIED_CARDINALITY) == "http://www.w3.org/2002/07/owl#maxQualifiedCardinality"@
}

/// In a well-formed dictionary that binds the reserved properties,
/// looking any of their IRIs up answers the documented constant id.
pub proof fn lemma_vocab_spec_index(d: NodeDictionary)
    requires
        d.wf(),
        vocab_props_bound(d),
    ensures
        d.spec_index("http://www.w3.org/2000/01/rdf-schema#domain"@) == Some(NodeDictionary::RDFS_DOMAIN),
        d.spec_index("http://www.w3.org/2000/01/rdf-schema#range"@) == Some(NodeDictionary::RDFS_RANGE),
        d.spec_index("http://www.w3.org/2000/01/rdf-schema#subClassOf"@) == Some(NodeDictionary::RDFS_SUB_CLASS_OF),
        d.spec_index("http://www.w3.org/2000/01/rdf-schema#subPropertyOf"@) == Some(NodeDictionary::RDFS_SUB_PROPERTY_OF),
        d.spec_index("http://www.w3.org/2000/01/rdf-schema#seeAlso"@) == Some(NodeDictionary::RDFS_SEE_ALSO),
        d.spec_index("http://www.w3.org/2000/01/rdf-schema#isDefinedBy"@) == Some(NodeDictionary::RDFS_IS_DEFINED_BY),
        d.spec_index("http://www.w3.org/2000/01/rdf-schema#comment"@) == Some(NodeDictionary::RDFS_COMMENT),
        d.spec_index("http://www.w3.org/2000/01/rdf-schema#member"@) == Some(NodeDictionary::RDFS_MEMBER),
        d.spec_index("http://www.w3.org/2000/01/rdf-schema#ContainerMembershipProperty"@) == Some(NodeDictionary::RDFS_CONTAINER_MEMBERSHIP_PROPERTY),
        d.spec_index("http://www.w3.org/2000/01/rdf-schema#label"@) == Some(NodeDictionary::RDFS_LABEL),
        d.spec_index("http://www.w3.org/1999/02/22-rdf-syntax-ns#Property"@) == Some(NodeDictionary::RDF_PROPERTY),
        d.spec_index("http://www.w3.org/1999/02/22-rdf-syntax-ns#type"@) == Some(NodeDictionary::RDF_TYPE),
        d.spec_index("http://www.w3.org/1999/02/22-rdf-syntax-ns#subject"@) == Some(NodeDictionary::RDF_SUBJECT),
        d.spec_index("http://www.w3.org/1999/02/22-rdf-syntax-ns#object"@) == Some(NodeDictionary::RDF_OBJECT),
        d.spec_index("http://www.w3.org/1999/02/22-rdf-syntax-ns#predicate"@) == Some(NodeDictionary::RDF_PREDICATE),
        d.spec_index("http://www.w3.org/1999/02/22-rdf-syntax-ns#first"@) == Some(NodeDictionary::RDF_FIRST),
        d.spec_index("http://www.w3.org/1999/02/22-rdf-syntax-ns#rest"@) == Some(NodeDictionary::RDF_REST),
        d.spec_index("http://www.w3.org/1999/02/22-rdf-syntax-ns#value"@) == Some(NodeDictionary::RDF_VALUE),
        d.spec_index("http://www.w3.org/1999/02/22-rdf-syntax-ns#_1"@) == Some(NodeDictionary::RDF_1),
        d.spec_index("http://www.w3.org/2002/07/owl#Thing"@) == Some(NodeDictionary::OWL_THING),
        d.spec_index("http://www.w3.org/2002/07/owl#TransitiveProperty"@) == Some(NodeDictionary::OWL_TRANSITIVE_PROPERTY),
        d.spec_index("http://www.w3.org/2002/07/owl#equivalentClass"@) == Some(NodeDictionary::OWL_EQUIVALENT_CLASS),
        d.spec_index("http://www.w3.org/2002/07/owl#equivalentProperty"@) == Some(NodeDictionary::OWL_EQUIVALENT_PROPERTY),
        d.spec_index("http://www.w3.org/2002/07/owl#ObjectProperty"@) == Some(NodeDictionary::OWL_OBJECT_PROPERTY),
        d.spec_index("http://www.w3.org/2002/07/owl#DatatypeProperty"@) == Some(NodeDictionary::OWL_DATATYPE_PROPERTY),
        d.spec_index("http://www.w3.org/2002/07/owl#sameAs"@) == Some(NodeDictionary::OWL_SAME_AS),
        d.spec_index("http://www.w3.org/2002/07/owl#inverseOf"@) == Some(NodeDictionary::OWL_INVERSE_OF),
        d.spec_index("http://www.w3.org/2002/07/owl#propertyDisjointWith"@) == Some(NodeDictionary::OWL_PROPERTY_DISJOINT_WITH),
        d.spec_index("http://www.w3.org/2002/07/owl#differentFrom"@) == Some(NodeDictionary::OWL_DIFFERENT_FROM),
        d.spec_index("http://www.w3.org/2002/07/owl#AllDifferent"@) == Some(NodeDictionary::OWL_ALL_DIFFERENT),
        d.spec_index("http://www.w3.org/2002/07/owl#AllDisjointClasses"@) == Some(NodeDictionary::OWL_ALL_DISJOINT_CLASSES),
        d.spec_index("http://www.w3.org/2002/07/owl#allValuesFrom"@) == Some(NodeDictionary::OWL_ALL_VALUES_FROM),
        d.spec_index("http://www.w3.org/2002/07/owl#AnnotationProperty"@) == Some(NodeDictionary::OWL_ANNOTATION_PROPERTY),
        d.spec_index("http://www.w3.org/2002/07/owl#assertionProperty"@) == Some(NodeDictionary::OWL_ASSERTION_PROPERTY),
        d.spec_index("http://www.w3.org/2002/07/owl#complementOf"@) == Some(NodeDictionary::OWL_COMPLEMENT_OF),
        d.spec_index("http://www.w3.org/2002/07/owl#disjointWith"@) == Some(NodeDictionary::OWL_DISJOINT_WITH),
        d.spec_index("http://www.w3.org/2002/07/owl#distinctMembers"@) == Some(NodeDictionary::OWL_DISTINCT_MEMBERS),
        d.spec_index("http://www.w3.org/2002/07/owl#FunctionalProperty"@) == Some(NodeDictionary::OWL_FUNCTIONAL_PROPERTY),
        d.spec_index("http://www.w3.org/2002/07/owl#intersectionOf"@) == Some(NodeDictionary::OWL_INTERSECTION_OF),
        d.spec_index("http://www.w3.org/2002/07/owl#unionOf"@) == Some(NodeDictionary::OWL_UNION_OF),
        d.spec_index("http://www.w3.org/2002/07/owl#InverseFunctionalProperty"@) == Some(NodeDictionary::OWL_INVERSE_FUNCTIONAL_PROPERTY),
        d.spec_index("http://www.w3.org/2002/07/owl#IrreflexiveProperty"@) == Some(NodeDictionary::OWL_IRREFLEXIVE_PROPERTY),
        d.spec_index("http://www.w3.org/2002/07/owl#maxCardinality"@) == Some(NodeDictionary::OWL_MAX_CARDINALITY),
        d.spec_index("http://www.w3.org/2002/07/owl#members"@) == Some(NodeDictionary::OWL_MEMBERS),
        d.spec_index("http://www.w3.org/2002/07/owl#Nothing"@) == Some(NodeDictionary::OWL_NOTHING),
        d.spec_index("http://www.w3.org/2002/07/owl#onClass"@) == Some(NodeDictionary::OWL_ON_CLASS),
        d.spec_index("http://www.w3.org/2002/07/owl#onProperty"@) == Some(NodeDictionary::OWL_ON_PROPERTY),
        d.spec_index("http://www.w3.org/2002/07/owl#oneOf"@) == Some(NodeDictionary::OWL_ONE_OF),
        d.spec_index("http://www.w3.org/2002/07/owl#propertyChainAxiom"@) == Some(NodeDictionary::OWL_PROPERTY_CHAIN_AXIOM),
        d.spec_index("http://www.w3.org/2002/07/owl#someValuesFrom"@) == Some(NodeDictionary::OWL_SOME_VALUES_FROM),
        d.spec_index("http://www.w3.org/2002/07/owl#sourceIndividual"@) == Some(NodeDictionary::OWL_SOURCE_INDIVIDUAL),
        d.spec_index("http://www.w3.org/2002/07/owl#SymmetricProperty"@) == Some(NodeDictionary::OWL_SYMMETRIC_PROPERTY),
        d.spec_index("http://www.w3.org/2002/07/owl#targetIndividual"@) == Some(NodeDictionary::OWL_TARGET_INDIVIDUAL),
        d.spec_index("http://www.w3.org/2002/07/owl#targetValue"@) == Some(NodeDictionary::OWL_TARGET_VALUE),
        d.spec_index("http://www.w3.org/2002/07/owl#maxQualifiedCardinality"@) == Some(NodeDictionary::OWL_MAX_QUALIFIED_CARDINALITY),
{
    lemma_index_of_term(d, NodeDictionary::RDFS_DOMAIN);
    lemma_index_of_term(d, NodeDictionary::RDFS_RANGE);
    lemma_index_of_term(d, NodeDictionary::RDFS_SUB_CLASS_OF);
    lemma_index_of_term(d, NodeDictionary::RDFS_SUB_PROPERTY_OF);
    lemma_index_of_term(d, NodeDictionary::RDFS_SEE_ALSO);
    lemma_index_of_term(d, NodeDictionary::RDFS_IS_DEFINED_BY);
    lemma_index_of_term(d, NodeDictionary::RDFS_COMMENT);
    lemma_index_of_term(d, NodeDictionary::RDFS_MEMBER);
    lemma_index_of_term(d, NodeDictionary::RDFS_CONTAINER_MEMBERSHIP_PROPERTY);
    lemma_index_of_term(d, NodeDictionary::RDFS_LABEL);
    lemma_index_of_term(d, NodeDictionary::RDF_PROPERTY);
    lemma_index_of_term(d, NodeDictionary::RDF_TYPE);
    lemma_index_of_term(d, NodeDictionary::RDF_SUBJECT);
    lemma_index_of_term(d, NodeDictionary::RDF_OBJECT);
    lemma_index_of_term(d, NodeDictionary::RDF_PREDICATE);
    lemma_index_of_term(d, NodeDictionary::RDF_FIRST);
    lemma_index_of_term(d, NodeDictionary::RDF_REST);
    lemma_index_of_term(d, NodeDictionary::RDF_VALUE);
    lemma_index_of_term(d, NodeDictionary::RDF_1);
    lemma_index_of_term(d, NodeDictionary::OWL_THING);
    lemma_index_of_term(d, NodeDictionary::OWL_TRANSITIVE_PROPERTY);
    lemma_index_of_term(d, NodeDictionary::OWL_EQUIVALENT_CLASS);
    lemma_index_of_term(d, NodeDictionary::OWL_EQUIVALENT_PROPERTY);
    lemma_index_of_term(d, NodeDictionary::OWL_OBJECT_PROPERTY);
    lemma_index_of_term(d, NodeDictionary::OWL_DATATYPE_PROPERTY);
    lemma_index_of_term(d, NodeDictionary::OWL_SAME_AS);
    lemma_index_of_term(d, NodeDictionary::OWL_INVERSE_OF);
    lemma_index_of_term(d, NodeDictionary::OWL_PROPERTY_DISJOINT_WITH);
    lemma_index_of_term(d, NodeDictionary::OWL_DIFFERENT_FROM);
    lemma_index_of_term(d, NodeDictionary::OWL_ALL_DIFFERENT);
    lemma_index_of_term(d, NodeDictionary::OWL_ALL_DISJOINT_CLASSES);
    lemma_index_of_term(d, NodeDictionary::OWL_ALL_VALUES_FROM);
    lemma_index_of_term(d, NodeDictionary::OWL_ANNOTATION_PROPERTY);
    lemma_index_of_term(d, NodeDictionary::OWL_ASSERTION_PROPERTY);
    lemma_index_of_term(d, NodeDictionary::OWL_COMPLEMENT_OF);
    lemma_index_of_term(d, NodeDictionary::OWL_DISJOINT_WITH);
    lemma_index_of_term(d, NodeDictionary::OWL_DISTINCT_MEMBERS);
    lemma_index_of_term(d, NodeDictionary::OWL_FUNCTIONAL_PROPERTY);
    lemma_index_of_term(d, NodeDictionary::OWL_INTERSECTION_OF);
    lemma_index_of_term(d, NodeDictionary::OWL_UNION_OF);
    lemma_index_of_term(d, NodeDictionary::OWL_INVERSE_FUNCTIONAL_PROPERTY);
    lemma_index_of_term(d, NodeDictionary::OWL_IRREFLEXIVE_PROPERTY);
    lemma_index_of_term(d, NodeDictionary::OWL_MAX_CARDINALITY);
    lemma_index_of_term(d, NodeDictionary::OWL_MEMBERS);
    lemma_index_of_term(d, NodeDictionary::OWL_NOTHING);
    lemma_index_of_term(d, NodeDictionary::OWL_ON_CLASS);
    lemma_index_of_term(d, NodeDictionary::OWL_ON_PROPERTY);
    lemma_index_of_term(d, NodeDictionary::OWL_ONE_OF);
    lemma_index_of_term(d, NodeDictionary::OWL_PROPERTY_CHAIN_AXIOM);
    lemma_index_of_term(d, NodeDictionary::OWL_SOME_VALUES_FROM);
    lemma_index_of_term(d, NodeDictionary::OWL_SOURCE_INDIVIDUAL);
    lemma_index_of_term(d, NodeDictionary::OWL_SYMMETRIC_PROPERTY);
    lemma_index_of_term(d, NodeDictionary::OWL_TARGET_INDIVIDUAL);
    lemma_index_of_term(d, NodeDictionary::OWL_TARGET_VALUE);
    lemma_index_of_term(d, NodeDictionary::OWL_MAX_QUALIFIED_CARDINALITY);
}

impl NodeDictionary {
    /// Intern the reserved RDF, RDFS, XSD and OWL vocabulary at its
    /// documented constant ids.
    #[verifier::rlimit(100)]
    fn init_const(&mut self)
        requires
            old(self).properties@.len() == 0,
            old(self).resources@.len() == 0,
            old(self).remapped@.len() == 0,
        ensures
            final(self).wf(),
            final(self).properties@.len() == 55,
            final(self).resources@.len() == 15,
            final(self).remapped@.len() == 0,
            vocab_props_bound(*final(self)),
            final(self).term_of(Self::RDFS_RESOURCE) == "http://www.w3.org/2000/01/rdf-schema#Resource"@,
            final(self).term_of(Self::RDFS_CLASS) == "http://www.w3.org/2000/01/rdf-schema#Class"@,
            final(self).term_of(Self::RDFS_DATATYPE) == "http://www.w3.org/2000/01/rdf-schema#Datatype"@,
            final(self).term_of(Self::RDFS_LITERAL) == "http://www.w3.org/2000/01/rdf-schema#Literal"@,
            final(self).term_of(Self::RDFS_CONTAINER) == "http://www.w3.org/2000/01/rdf-schema#Container"@,
            final(self).term_of(Self::RDF_LIST) == "http://www.w3.org/1999/02/22-rdf-syntax-ns#List"@,
            final(self).term_of(Self::RDF_ALT) == "http://www.w3.org/1999/02/22-rdf-syntax-ns#Alt"@,
            final(self).term_of(Self::RDF_BAG) == "http://www.w3.org/1999/02/22-rdf-syntax-ns#Bag"@,
            final(self).term_of(Self::RDF_SEQ) == "http://www.w3.org/1999/02/22-rdf-syntax-ns#Seq"@,
            final(self).term_of(Self::RDF_XML_LITERAL) == "http://www.w3.org/1999/02/22-rdf-syntax-ns#XMLLiteral"@,
            final(self).term_of(Self::RDF_STATEMENT) == "http://www.w3.org/1999/02/22-rdf-syntax-ns#Statement"@,
            final(self).term_of(Self::RDF_NIL) == "http://www.w3.org/1999/02/22-rdf-syntax-ns#nil"@,
            final(self).term_of(Self::XSD_NON_NEGATIVE_INTEGER) == "http://www.w3.org/2001/XMLSchema#nonNegativeInteger"@,
            final(self).term_of(Self::XSD_STRING) == "http://www.w3.org/2001/XMLSchema#string"@,
            final(self).term_of(Self::OWL_CLASS) == "http://www.w3.org/2002/07/owl#Class"@,
            forall|j: int|
                0 <= j < 15 ==> !seq_has_str(
                    final(self).properties@,
                    (#[trigger] final(self).resources@[j])@,
                ),
    {
        self.resources.push("http://www.w3.org/2000/01/rdf-schema#Resource".to_owned());
        self.resources.push("http://www.w3.org/2000/01/rdf-schema#Class".to_owned());
        self.resources.push("http://www.w3.org/2000/01/rdf-schema#Datatype".to_owned());
        self.resources.push("http://www.w3.org/2000/01/rdf-schema#Literal".to_owned());
        self.resources.push("http://www.w3.org/2000/01/rdf-schema#Container".to_owned());
        self.resources.push("http://www.w3.org/1999/02/22-rdf-syntax-ns#List".to_owned());
        self.resources.push("http://www.w3.org/1999/02/22-rdf-syntax-ns#Alt".to_owned());
        self.resources.push("http://www.w3.org/1999/02/22-rdf-syntax-ns#Bag".to_owned());
        self.resources.push("http://www.w3.org/1999/02/22-rdf-syntax-ns#Seq".to_owned());
        self.resources.push("http://www.w3.org/1999/02/22-rdf-syntax-ns#XMLLiteral".to_owned());
        self.resources.push("http://www.w3.org/1999/02/22-rdf-syntax-ns#Statement".to_owned());
        self.resources.push("http://www.w3.org/1999/02/22-rdf-syntax-ns#nil".to_owned());
        self.resources.push("http://www.w3.org/2001/XMLSchema#nonNegativeInteger".to_owned());
        self.resources.push("http://www.w3.org/2001/XMLSchema#string".to_owned());
        self.resources.push("http://www.w3.org/2002/07/owl#Class".to_owned());
        self.properties.push("http://www.w3.org/2000/01/rdf-schema#domain".to_owned());
        self.properties.push("http://www.w3.org/2000/01/rdf-schema#range".to_owned());
        self.properties.push("http://www.w3.org/2000/01/rdf-schema#subClassOf".to_owned());
        self.properties.push("http://www.w3.org/2000/01/rdf-schema#subPropertyOf".to_owned());
        self.properties.push("http://www.w3.org/2000/01/rdf-schema#seeAlso".to_owned());
        self.properties.push("http://www.w3.org/2000/01/rdf-schema#isDefinedBy".to_owned());
        self.properties.push("http://www.w3.org/2000/01/rdf-schema#comment".to_owned());
        self.properties.push("http://www.w3.org/2000/01/rdf-schema#member".to_owned());
        self.properties.push("http://www.w3.org/2000/01/rdf-schema#ContainerMembershipProperty".to_owned());
        self.properties.push("http://www.w3.org/2000/01/rdf-schema#label".to_owned());
        self.properties.push("http://www.w3.org/1999/02/22-rdf-syntax-ns#Property".to_owned());
        self.properties.push("http://www.w3.org/1999/02/22-rdf-syntax-ns#type".to_owned());
        self.properties.push("http://www.w3.org/1999/02/22-rdf-syntax-ns#subject".to_owned());
        self.properties.push("http://www.w3.org/1999/02/22-rdf-syntax-ns#object".to_owned());
        self.properties.push("http://www.w3.org/1999/02/22-rdf-syntax-ns#predicate".to_owned());
        self.properties.push("http://www.w3.org/1999/02/22-rdf-syntax-ns#first".to_owned());
        self.properties.push("http://www.w3.org/1999/02/22-rdf-syntax-ns#rest".to_owned());
        self.properties.push("http://www.w3.org/1999/02/22-rdf-syntax-ns#value".to_owned());
        self.properties.push("http://www.w3.org/1999/02/22-rdf-syntax-ns#_1".to_owned());
        self.properties.push("http://www.w3.org/2002/07/owl#Thing".to_owned());
        self.properties.push("http://www.w3.org/2002/07/owl#TransitiveProperty".to_owned());
        self.properties.push("http://www.w3.org/2002/07/owl#equivalentClass".to_owned());
        self.properties.push("http://www.w3.org/2002/07/owl#equivalentProperty".to_owned());
        self.properties.push("http://www.w3.org/2002/07/owl#ObjectProperty".to_owned());
        self.properties.push("http://www.w3.org/2002/07/owl#DatatypeProperty".to_owned());
        self.properties.push("http://www.w3.org/2002/07/owl#sameAs".to_owned());
        self.properties.push("http://www.w3.org/2002/07/owl#inverseOf".to_owned());
        self.properties.push("http://www.w3.org/2002/07/owl#propertyDisjointWith".to_owned());
        self.properties.push("http://www.w3.org/2002/07/owl#differentFrom".to_owned());
        self.properties.push("http://www.w3.org/2002/07/owl#AllDifferent".to_owned());
        self.properties.push("http://www.w3.org/2002/07/owl#AllDisjointClasses".to_owned());
        self.properties.push("http://www.w3.org/2002/07/owl#allValuesFrom".to_owned());
        self.properties.push("http://www.w3.org/2002/07/owl#AnnotationProperty".to_owned());
        self.properties.push("http://www.w3.org/2002/07/owl#assertionProperty".to_owned());
        self.properties.push("http://www.w3.org/2002/07/owl#complementOf".to_owned());
        self.properties.push("http://www.w3.org/2002/07/owl#disjointWith".to_owned());
        self.properties.push("http://www.w3.org/2002/07/owl#distinctMembers".to_owned());
        self.properties.push("http://www.w3.org/2002/07/owl#FunctionalProperty".to_owned());
        self.properties.push("http://www.w3.org/2002/07/owl#intersectionOf".to_owned());
        self.properties.push("http://www.w3.org/2002/07/owl#unionOf".to_owned());
        self.properties.push("http://www.w3.org/2002/07/owl#InverseFunctionalProperty".to_owned());
        self.properties.push("http://www.w3.org/2002/07/owl#IrreflexiveProperty".to_owned());
        self.properties.push("http://www.w3.org/2002/07/owl#maxCardinality".to_owned());
        self.properties.push("http://www.w3.org/2002/07/owl#members".to_owned());
        self.properties.push("http://www.w3.org/2002/07/owl#Nothing".to_owned());
        self.properties.push("http://www.w3.org/2002/07/owl#onClass".to_owned());
        self.properties.push("http://www.w3.org/2002/07/owl#onProperty".to_owned());
        self.properties.push("http://www.w3.org/2002/07/owl#oneOf".to_owned());
        self.properties.push("http://www.w3.org/2002/07/owl#propertyChainAxiom".to_owned());
        self.properties.push("http://www.w3.org/2002/07/owl#someValuesFrom".to_owned());
        self.properties.push("http://www.w3.org/2002/07/owl#sourceIndividual".to_owned());
        self.properties.push("http://www.w3.org/2002/07/owl#SymmetricProperty".to_owned());
        self.properties.push("http://www.w3.org/2002/07/owl#targetIndividual".to_owned());
        self.properties.push("http://www.w3.org/2002/07/owl#targetValue".to_owned());
        self.properties.push("http://www.w3.org/2002/07/owl#maxQualifiedCardinality".to_owned());
        proof {
            reveal_strlit("http://www.w3.org/2000/01/rdf-schema#domain");
            reveal_strlit("http://www.w3.org/2000/01/rdf-schema#range");
            reveal_strlit("http://www.w3.org/2000/01/rdf-schema#subClassOf");
            reveal_strlit("http://www.w3.org/2000/01/rdf-schema#subPropertyOf");
            reveal_strlit("http://www.w3.org/2000/01/rdf-schema#seeAlso");
            reveal_strlit("http://www.w3.org/2000/01/rdf-schema#isDefinedBy");
            reveal_strlit("http://www.w3.org/2000/01/rdf-schema#comment");
            reveal_strlit("http://www.w3.org/2000/01/rdf-schema#member");
            reveal_strlit("http://www.w3.org/2000/01/rdf-schema#ContainerMembershipProperty");
            reveal_strlit("http://www.w3.org/2000/01/rdf-schema#label");
            reveal_strlit("http://www.w3.org/1999/02/22-rdf-syntax-ns#Property");
            reveal_strlit("http://www.w3.org/1999/02/22-rdf-syntax-ns#type");
            reveal_strlit("http://www.w3.org/1999/02/22-rdf-syntax-ns#subject");
            reveal_strlit("http://www.w3.org/1999/02/22-rdf-syntax-ns#object");
            reveal_strlit("http://www.w3.org/1999/02/22-rdf-syntax-ns#predicate");
            reveal_strlit("http://www.w3.org/1999/02/22-rdf-syntax-ns#first");
            reveal_strlit("http://www.w3.org/1999/02/22-rdf-syntax-ns#rest");
            reveal_strlit("http://www.w3.org/1999/02/22-rdf-syntax-ns#value");
            reveal_strlit("http://www.w3.org/1999/02/22-rdf-syntax-ns#_1");
            reveal_strlit("http://www.w3.org/2002/07/owl#Thing");
            reveal_strlit("http://www.w3.org/2002/07/owl#TransitiveProperty");
            reveal_strlit("http://www.w3.org/2002/07/owl#equivalentClass");
            reveal_strlit("http://www.w3.org/2002/07/owl#equivalentProperty");
            reveal_strlit("http://www.w3.org/2002/07/owl#ObjectProperty");
            reveal_strlit("http://www.w3.org/2002/07/owl#DatatypeProperty");
            reveal_strlit("http://www.w3.org/2002/07/owl#sameAs");
            reveal_strlit("http://www.w3.org/2002/07/owl#inverseOf");
            reveal_strlit("http://www.w3.org/2002/07/owl#propertyDisjointWith");
            reveal_strlit("http://www.w3.org/2002/07/owl#differentFrom");
            reveal_strlit("http://www.w3.org/2002/07/owl#AllDifferent");
            reveal_strlit("http://www.w3.org/2002/07/owl#AllDisjointClasses");
            reveal_strlit("http://www.w3.org/2002/07/owl#allValuesFrom");
            reveal_strlit("http://www.w3.org/2002/07/owl#AnnotationProperty");
            reveal_strlit("http://www.w3.org/2002/07/owl#assertionProperty");
            reveal_strlit("http://www.w3.org/2002/07/owl#complementOf");
            reveal_strlit("http://www.w3.org/2002/07/owl#disjointWith");
            reveal_strlit("http://www.w3.org/2002/07/owl#distinctMembers");
            reveal_strlit("http://www.w3.org/2002/07/owl#FunctionalProperty");
            reveal_strlit("http://www.w3.org/2002/07/owl#intersectionOf");
            reveal_strlit("http://www.w3.org/2002/07/owl#unionOf");
            reveal_strlit("http://www.w3.org/2002/07/owl#InverseFunctionalProperty");
            reveal_strlit("http://www.w3.org/2002/07/owl#IrreflexiveProperty");
            reveal_strlit("http://www.w3.org/2002/07/owl#maxCardinality");
            reveal_strlit("http://www.w3.org/2002/07/owl#members");
            reveal_strlit("http://www.w3.org/2002/07/owl#Nothing");
            reveal_strlit("http://www.w3.org/2002/07/owl#onClass");
            reveal_strlit("http://www.w3.org/2002/07/owl#onProperty");
            reveal_strlit("http://www.w3.org/2002/07/owl#oneOf");
            reveal_strlit("http://www.w3.org/2002/07/owl#propertyChainAxiom");
            reveal_strlit("http://www.w3.org/2002/07/owl#someValuesFrom");
            reveal_strlit("http://www.w3.org/2002/07/owl#sourceIndividual");
            reveal_strlit("http://www.w3.org/2002/07/owl#SymmetricProperty");
            reveal_strlit("http://www.w3.org/2002/07/owl#targetIndividual");
            reveal_strlit("http://www.w3.org/2002/07/owl#targetValue");
            reveal_strlit("http://www.w3.org/2002/07/owl#maxQualifiedCardinality");
            reveal_strlit("http://www.w3.org/2000/01/rdf-schema#Resource");
            reveal_strlit("http://www.w3.org/2000/01/rdf-schema#Class");
            reveal_strlit("http://www.w3.org/2000/01/rdf-schema#Datatype");
            reveal_strlit("http://www.w3.org/2000/01/rdf-schema#Literal");
            reveal_strlit("http://www.w3.org/2000/01/rdf-schema#Container");
            reveal_strlit("http://www.w3.org/1999/02/22-rdf-syntax-ns#List");
            reveal_strlit("http://www.w3.org/1999/02/22-rdf-syntax-ns#Alt");
            reveal_strlit("http://www.w3.org/1999/02/22-rdf-syntax-ns#Bag");
            reveal_strlit("http://www.w3.org/1999/02/22-rdf-syntax-ns#Seq");
            reveal_strlit("http://www.w3.org/1999/02/22-rdf-syntax-ns#XMLLiteral");
            reveal_strlit("http://www.w3.org/1999/02/22-rdf-syntax-ns#Statement");
            reveal_strlit("http://www.w3.org/1999/02/22-rdf-syntax-ns#nil");
            reveal_strlit("http://www.w3.org/2001/XMLSchema#nonNegativeInteger");
            reveal_strlit("http://www.w3.org/2001/XMLSchema#string");
            reveal_strlit("http://www.w3.org/2002/07/owl#Class");
            assert("http://www.w3.org/1999/02/22-rdf-syntax-ns#Alt"@.len() == 46);
            assert("http://www.w3.org/1999/02/22-rdf-syntax-ns#Bag"@.len() == 46);
            assert("http://www.w3.org/1999/02/22-rdf-syntax-ns#List"@.len() == 47);
            assert("http://www.w3.org/1999/02/22-rdf-syntax-ns#Property"@.len() == 51);
            assert("http://www.w3.org/1999/02/22-rdf-syntax-ns#Seq"@.len() == 46);
            assert("http://www.w3.org/1999/02/22-rdf-syntax-ns#Statement"@.len() == 52);
            assert("http://www.w3.org/1999/02/22-rdf-syntax-ns#XMLLiteral"@.len() == 53);
            assert("http://www.w3.org/1999/02/22-rdf-syntax-ns#_1"@.len() == 45);
            assert("http://www.w3.org/1999/02/22-rdf-syntax-ns#first"@.len() == 48);
            assert("http://www.w3.org/1999/02/22-rdf-syntax-ns#nil"@.len() == 46);
            assert("http://www.w3.org/1999/02/22-rdf-syntax-ns#object"@.len() == 49);
            assert("http://www.w3.org/1999/02/22-rdf-syntax-ns#predicate"@.len() == 52);
            assert("http://www.w3.org/1999/02/22-rdf-syntax-ns#rest"@.len() == 47);
            assert("http://www.w3.org/1999/02/22-rdf-syntax-ns#subject"@.len() == 50);
            assert("http://www.w3.org/1999/02/22-rdf-syntax-ns#type"@.len() == 47);
            assert("http://www.w3.org/1999/02/22-rdf-syntax-ns#value"@.len() == 48);
            assert("http://www.w3.org/2000/01/rdf-schema#Class"@.len() == 42);
            assert("http://www.w3.org/2000/01/rdf-schema#Container"@.len() == 46);
            assert("http://www.w3.org/2000/01/rdf-schema#ContainerMembershipProperty"@.len() == 64);
            assert("http://www.w3.org/2000/01/rdf-schema#Datatype"@.len() == 45);
            assert("http://www.w3.org/2000/01/rdf-schema#Literal"@.len() == 44);
            assert("http://www.w3.org/2000/01/rdf-schema#Resource"@.len() == 45);
            assert("http://www.w3.org/2000/01/rdf-schema#comment"@.len() == 44);
            assert("http://www.w3.org/2000/01/rdf-schema#domain"@.len() == 43);
            assert("http://www.w3.org/2000/01/rdf-schema#isDefinedBy"@.len() == 48);
            assert("http://www.w3.org/2000/01/rdf-schema#label"@.len() == 42);
            assert("http://www.w3.org/2000/01/rdf-schema#member"@.len() == 43);
            assert("http://www.w3.org/2000/01/rdf-schema#range"@.len() == 42);
            assert("http://www.w3.org/2000/01/rdf-schema#seeAlso"@.len() == 44);
            assert("http://www.w3.org/2000/01/rdf-schema#subClassOf"@.len() == 47);
            assert("http://www.w3.org/2000/01/rdf-schema#subPropertyOf"@.len() == 50);
            assert("http://www.w3.org/2001/XMLSchema#nonNegativeInteger"@.len() == 51);
            assert("http://www.w3.org/2001/XMLSchema#string"@.len() == 39);
            assert("http://www.w3.org/2002/07/owl#AllDifferent"@.len() == 42);
            assert("http://www.w3.org/2002/07/owl#AllDisjointClasses"@.len() == 48);
            assert("http://www.w3.org/2002/07/owl#AnnotationProperty"@.len() == 48);
            assert("http://www.w3.org/2002/07/owl#Class"@.len() == 35);
            assert("http://www.w3.org/2002/07/owl#DatatypeProperty"@.len() == 46);
            assert("http://www.w3.org/2002/07/owl#FunctionalProperty"@.len() == 48);
            assert("http://www.w3.org/2002/07/owl#InverseFunctionalProperty"@.len() == 55);
            assert("http://www.w3.org/2002/07/owl#IrreflexiveProperty"@.len() == 49);
            assert("http://www.w3.org/2002/07/owl#Nothing"@.len() == 37);
            assert("http://www.w3.org/2002/07/owl#ObjectProperty"@.len() == 44);
            assert("http://www.w3.org/2002/07/owl#SymmetricProperty"@.len() == 47);
            assert("http://www.w3.org/2002/07/owl#Thing"@.len() == 35);
            assert("http://www.w3.org/2002/07/owl#TransitiveProperty"@.len() == 48);
            assert("http://www.w3.org/2002/07/owl#allValuesFrom"@.len() == 43);
            assert("http://www.w3.org/2002/07/owl#assertionProperty"@.len() == 47);
            assert("http://www.w3.org/2002/07/owl#complementOf"@.len() == 42);
            assert("http://www.w3.org/2002/07/owl#differentFrom"@.len() == 43);
            assert("http://www.w3.org/2002/07/owl#disjointWith"@.len() == 42);
            assert("http://www.w3.org/2002/07/owl#distinctMembers"@.len() == 45);
            assert("http://www.w3.org/2002/07/owl#equivalentClass"@.len() == 45);
            assert("http://www.w3.org/2002/07/owl#equivalentProperty"@.len() == 48);
            assert("http://www.w3.org/2002/07/owl#intersectionOf"@.len() == 44);
            assert("http://www.w3.org/2002/07/owl#inverseOf"@.len() == 39);
            assert("http://www.w3.org/2002/07/owl#maxCardinality"@.len() == 44);
            assert("http://www.w3.org/2002/07/owl#maxQualifiedCardinality"@.len() == 53);
            assert("http://www.w3.org/2002/07/owl#members"@.len() == 37);
            assert("http://www.w3.org/2002/07/owl#onClass"@.len() == 37);
            assert("http://www.w3.org/2002/07/owl#onProperty"@.len() == 40);
            assert("http://www.w3.org/2002/07/owl#oneOf"@.len() == 35);
            assert("http://www.w3.org/2002/07/owl#propertyChainAxiom"@.len() == 48);
            assert("http://www.w3.org/2002/07/owl#propertyDisjointWith"@.len() == 50);
            assert("http://www.w3.org/2002/07/owl#sameAs"@.len() == 36);
            assert("http://www.w3.org/2002/07/owl#someValuesFrom"@.len() == 44);
            assert("http://www.w3.org/2002/07/owl#sourceIndividual"@.len() == 46);
            assert("http://www.w3.org/2002/07/owl#targetIndividual"@.len() == 46);
            assert("http://www.w3.org/2002/07/owl#targetValue"@.len() == 41);
            assert("http://www.w3.org/2002/07/owl#unionOf"@.len() == 37);
            assert("http://www.w3.org/1999/02/22-rdf-syntax-ns#Alt"@[18] == '1');
            assert("http://www.w3.org/1999/02/22-rdf-syntax-ns#Alt"@[43] == 'A');
            assert("http://www.w3.org/1999/02/22-rdf-syntax-ns#Bag"@[18] == '1');
            assert("http://www.w3.org/1999/02/22-rdf-syntax-ns#Bag"@[43] == 'B');
            assert("http://www.w3.org/1999/02/22-rdf-syntax-ns#List"@[18] == '1');
            assert("http://www.w3.org/1999/02/22-rdf-syntax-ns#List"@[43] == 'L');
            assert("http://www.w3.org/1999/02/22-rdf-syntax-ns#Property"@[18] == '1');
            assert("http://www.w3.org/1999/02/22-rdf-syntax-ns#Seq"@[18] == '1');
            assert("http://www.w3.org/1999/02/22-rdf-syntax-ns#Seq"@[43] == 'S');
            assert("http://www.w3.org/1999/02/22-rdf-syntax-ns#Statement"@[43] == 'S');
            assert("http://www.w3.org/1999/02/22-rdf-syntax-ns#XMLLiteral"@[18] == '1');
            assert("http://www.w3.org/1999/02/22-rdf-syntax-ns#_1"@[18] == '1');
            assert("http://www.w3.org/1999/02/22-rdf-syntax-ns#first"@[18] == '1');
            assert("http://www.w3.org/1999/02/22-rdf-syntax-ns#first"@[43] == 'f');
            assert("http://www.w3.org/1999/02/22-rdf-syntax-ns#nil"@[18] == '1');
            assert("http://www.w3.org/1999/02/22-rdf-syntax-ns#nil"@[43] == 'n');
            assert("http://www.w3.org/1999/02/22-rdf-syntax-ns#object"@[18] == '1');
            assert("http://www.w3.org/1999/02/22-rdf-syntax-ns#predicate"@[43] == 'p');
            assert("http://www.w3.org/1999/02/22-rdf-syntax-ns#rest"@[18] == '1');
            assert("http://www.w3.org/1999/02/22-rdf-syntax-ns#rest"@[43] == 'r');
            assert("http://www.w3.org/1999/02/22-rdf-syntax-ns#subject"@[18] == '1');
            assert("http://www.w3.org/1999/02/22-rdf-syntax-ns#type"@[18] == '1');
            assert("http://www.w3.org/1999/02/22-rdf-syntax-ns#type"@[43] == 't');
            assert("http://www.w3.org/1999/02/22-rdf-syntax-ns#value"@[18] == '1');
            assert("http://www.w3.org/1999/02/22-rdf-syntax-ns#value"@[43] == 'v');
            assert("http://www.w3.org/2000/01/rdf-schema#Class"@[21] == '0');
            assert("http://www.w3.org/2000/01/rdf-schema#Class"@[37] == 'C');
            assert("http://www.w3.org/2000/01/rdf-schema#Container"@[18] == '2');
            assert("http://www.w3.org/2000/01/rdf-schema#Container"@[21] == '0');
            assert("http://www.w3.org/2000/01/rdf-schema#Datatype"@[18] == '2');
            assert("http://www.w3.org/2000/01/rdf-schema#Datatype"@[21] == '0');
            assert("http://www.w3.org/2000/01/rdf-schema#Datatype"@[37] == 'D');
            assert("http://www.w3.org/2000/01/rdf-schema#Literal"@[21] == '0');
            assert("http://www.w3.org/2000/01/rdf-schema#Literal"@[37] == 'L');
            assert("http://www.w3.org/2000/01/rdf-schema#Resource"@[18] == '2');
            assert("http://www.w3.org/2000/01/rdf-schema#Resource"@[21] == '0');
            assert("http://www.w3.org/2000/01/rdf-schema#Resource"@[37] == 'R');
            assert("http://www.w3.org/2000/01/rdf-schema#comment"@[21] == '0');
            assert("http://www.w3.org/2000/01/rdf-schema#comment"@[37] == 'c');
            assert("http://www.w3.org/2000/01/rdf-schema#domain"@[21] == '0');
            assert("http://www.w3.org/2000/01/rdf-schema#domain"@[37] == 'd');
            assert("http://www.w3.org/2000/01/rdf-schema#isDefinedBy"@[18] == '2');
            assert("http://www.w3.org/2000/01/rdf-schema#isDefinedBy"@[21] == '0');
            assert("http://www.w3.org/2000/01/rdf-schema#label"@[21] == '0');
            assert("http://www.w3.org/2000/01/rdf-schema#label"@[37] == 'l');
            assert("http://www.w3.org/2000/01/rdf-schema#member"@[21] == '0');
            assert("http://www.w3.org/2000/01/rdf-schema#member"@[37] == 'm');
            assert("http://www.w3.org/2000/01/rdf-schema#range"@[21] == '0');
            assert("http://www.w3.org/2000/01/rdf-schema#range"@[37] == 'r');
            assert("http://www.w3.org/2000/01/rdf-schema#seeAlso"@[21] == '0');
            assert("http://www.w3.org/2000/01/rdf-schema#seeAlso"@[37] == 's');
            assert("http://www.w3.org/2000/01/rdf-schema#subClassOf"@[18] == '2');
            assert("http://www.w3.org/2000/01/rdf-schema#subClassOf"@[21] == '0');
            assert("http://www.w3.org/2000/01/rdf-schema#subPropertyOf"@[18] == '2');
            assert("http://www.w3.org/2000/01/rdf-schema#subPropertyOf"@[21] == '0');
            assert("http://www.w3.org/2001/XMLSchema#nonNegativeInteger"@[18] == '2');
            assert("http://www.w3.org/2001/XMLSchema#string"@[21] == '1');
            assert("http://www.w3.org/2002/07/owl#AllDifferent"@[21] == '2');
            assert("http://www.w3.org/2002/07/owl#AllDifferent"@[30] == 'A');
            assert("http://www.w3.org/2002/07/owl#AllDisjointClasses"@[18] == '2');
            assert("http://www.w3.org/2002/07/owl#AllDisjointClasses"@[21] == '2');
            assert("http://www.w3.org/2002/07/owl#AllDisjointClasses"@[30] == 'A');
            assert("http://www.w3.org/2002/07/owl#AllDisjointClasses"@[31] == 'l');
            assert("http://www.w3.org/2002/07/owl#AnnotationProperty"@[18] == '2');
            assert("http://www.w3.org/2002/07/owl#AnnotationProperty"@[21] == '2');
            assert("http://www.w3.org/2002/07/owl#AnnotationProperty"@[30] == 'A');
            assert("http://www.w3.org/2002/07/owl#AnnotationProperty"@[31] == 'n');
            assert("http://www.w3.org/2002/07/owl#Class"@[30] == 'C');
            assert("http://www.w3.org/2002/07/owl#DatatypeProperty"@[18] == '2');
            assert("http://www.w3.org/2002/07/owl#DatatypeProperty"@[21] == '2');
            assert("http://www.w3.org/2002/07/owl#DatatypeProperty"@[30] == 'D');
            assert("http://www.w3.org/2002/07/owl#FunctionalProperty"@[18] == '2');
            assert("http://www.w3.org/2002/07/owl#FunctionalProperty"@[21] == '2');
            assert("http://www.w3.org/2002/07/owl#FunctionalProperty"@[30] == 'F');
            assert("http://www.w3.org/2002/07/owl#IrreflexiveProperty"@[18] == '2');
            assert("http://www.w3.org/2002/07/owl#Nothing"@[30] == 'N');
            assert("http://www.w3.org/2002/07/owl#ObjectProperty"@[21] == '2');
            assert("http://www.w3.org/2002/07/owl#ObjectProperty"@[30] == 'O');
            assert("http://www.w3.org/2002/07/owl#SymmetricProperty"@[18] == '2');
            assert("http://www.w3.org/2002/07/owl#SymmetricProperty"@[21] == '2');
            assert("http://www.w3.org/2002/07/owl#SymmetricProperty"@[30] == 'S');
            assert("http://www.w3.org/2002/07/owl#Thing"@[30] == 'T');
            assert("http://www.w3.org/2002/07/owl#TransitiveProperty"@[18] == '2');
            assert("http://www.w3.org/2002/07/owl#TransitiveProperty"@[21] == '2');
            assert("http://www.w3.org/2002/07/owl#TransitiveProperty"@[30] == 'T');
            assert("http://www.w3.org/2002/07/owl#allValuesFrom"@[21] == '2');
            assert("http://www.w3.org/2002/07/owl#allValuesFrom"@[30] == 'a');
            assert("http://www.w3.org/2002/07/owl#assertionProperty"@[18] == '2');
            assert("http://www.w3.org/2002/07/owl#assertionProperty"@[21] == '2');
            assert("http://www.w3.org/2002/07/owl#assertionProperty"@[30] == 'a');
            assert("http://www.w3.org/2002/07/owl#complementOf"@[21] == '2');
            assert("http://www.w3.org/2002/07/owl#complementOf"@[30] == 'c');
            assert("http://www.w3.org/2002/07/owl#differentFrom"@[21] == '2');
            assert("http://www.w3.org/2002/07/owl#differentFrom"@[30] == 'd');
            assert("http://www.w3.org/2002/07/owl#disjointWith"@[21] == '2');
            assert("http://www.w3.org/2002/07/owl#disjointWith"@[30] == 'd');
            assert("http://www.w3.org/2002/07/owl#distinctMembers"@[18] == '2');
            assert("http://www.w3.org/2002/07/owl#distinctMembers"@[21] == '2');
            assert("http://www.w3.org/2002/07/owl#distinctMembers"@[30] == 'd');
            assert("http://www.w3.org/2002/07/owl#equivalentClass"@[18] == '2');
            assert("http://www.w3.org/2002/07/owl#equivalentClass"@[21] == '2');
            assert("http://www.w3.org/2002/07/owl#equivalentClass"@[30] == 'e');
            assert("http://www.w3.org/2002/07/owl#equivalentProperty"@[18] == '2');
            assert("http://www.w3.org/2002/07/owl#equivalentProperty"@[21] == '2');
            assert("http://www.w3.org/2002/07/owl#equivalentProperty"@[30] == 'e');
            assert("http://www.w3.org/2002/07/owl#intersectionOf"@[21] == '2');
            assert("http://www.w3.org/2002/07/owl#intersectionOf"@[30] == 'i');
            assert("http://www.w3.org/2002/07/owl#inverseOf"@[21] == '2');
            assert("http://www.w3.org/2002/07/owl#maxCardinality"@[21] == '2');
            assert("http://www.w3.org/2002/07/owl#maxCardinality"@[30] == 'm');
            assert("http://www.w3.org/2002/07/owl#maxQualifiedCardinality"@[18] == '2');
            assert("http://www.w3.org/2002/07/owl#members"@[30] == 'm');
            assert("http://www.w3.org/2002/07/owl#onClass"@[30] == 'o');
            assert("http://www.w3.org/2002/07/owl#oneOf"@[30] == 'o');
            assert("http://www.w3.org/2002/07/owl#propertyChainAxiom"@[18] == '2');
            assert("http://www.w3.org/2002/07/owl#propertyChainAxiom"@[21] == '2');
            assert("http://www.w3.org/2002/07/owl#propertyChainAxiom"@[30] == 'p');
            assert("http://www.w3.org/2002/07/owl#propertyDisjointWith"@[18] == '2');
            assert("http://www.w3.org/2002/07/owl#propertyDisjointWith"@[21] == '2');
            assert("http://www.w3.org/2002/07/owl#someValuesFrom"@[21] == '2');
            assert("http://www.w3.org/2002/07/owl#someValuesFrom"@[30] == 's');
            assert("http://www.w3.org/2002/07/owl#sourceIndividual"@[18] == '2');
            assert("http://www.w3.org/2002/07/owl#sourceIndividual"@[21] == '2');
            assert("http://www.w3.org/2002/07/owl#sourceIndividual"@[30] == 's');
            assert("http://www.w3.org/2002/07/owl#targetIndividual"@[18] == '2');
            assert("http://www.w3.org/2002/07/owl#targetIndividual"@[21] == '2');
            assert("http://www.w3.org/2002/07/owl#targetIndividual"@[30] == 't');
            assert("http://www.w3.org/2002/07/owl#unionOf"@[30] == 'u');
            assert(self.properties@[0]@ == "http://www.w3.org/2000/01/rdf-schema#domain"@);
            assert(self.properties@[1]@ == "http://www.w3.org/2000/01/rdf-schema#range"@);
            assert(self.properties@[2]@ == "http://www.w3.org/2000/01/rdf-schema#subClassOf"@);
            assert(self.properties@[3]@ == "http://www.w3.org/2000/01/rdf-schema#subPropertyOf"@);
            assert(self.properties@[4]@ == "http://www.w3.org/2000/01/rdf-schema#seeAlso"@);
            assert(self.properties@[5]@ == "http://www.w3.org/2000/01/rdf-schema#isDefinedBy"@);
            assert(self.properties@[6]@ == "http://www.w3.org/2000/01/rdf-schema#comment"@);
            assert(self.properties@[7]@ == "http://www.w3.org/2000/01/rdf-schema#member"@);
            assert(self.properties@[8]@ == "http://www.w3.org/2000/01/rdf-schema#ContainerMembershipProperty"@);
            assert(self.properties@[9]@ == "http://www.w3.org/2000/01/rdf-schema#label"@);
            assert(self.properties@[10]@ == "http://www.w3.org/1999/02/22-rdf-syntax-ns#Property"@);
            assert(self.properties@[11]@ == "http://www.w3.org/1999/02/22-rdf-syntax-ns#type"@);
            assert(self.properties@[12]@ == "http://www.w3.org/1999/02/22-rdf-syntax-ns#subject"@);
            assert(self.properties@[13]@ == "http://www.w3.org/1999/02/22-rdf-syntax-ns#object"@);
            assert(self.properties@[14]@ == "http://www.w3.org/1999/02/22-rdf-syntax-ns#predicate"@);
            assert(self.properties@[15]@ == "http://www.w3.org/1999/02/22-rdf-syntax-ns#first"@);
            assert(self.properties@[16]@ == "http://www.w3.org/1999/02/22-rdf-syntax-ns#rest"@);
            assert(self.properties@[17]@ == "http://www.w3.org/1999/02/22-rdf-syntax-ns#value"@);
            assert(self.properties@[18]@ == "http://www.w3.org/1999/02/22-rdf-syntax-ns#_1"@);
            assert(self.properties@[19]@ == "http://www.w3.org/2002/07/owl#Thing"@);
            assert(self.properties@[20]@ == "http://www.w3.org/2002/07/owl#TransitiveProperty"@);
            assert(self.properties@[21]@ == "http://www.w3.org/2002/07/owl#equivalentClass"@);
            assert(self.properties@[22]@ == "http://www.w3.org/2002/07/owl#equivalentProperty"@);
            assert(self.properties@[23]@ == "http://www.w3.org/2002/07/owl#ObjectProperty"@);
            assert(self.properties@[24]@ == "http://www.w3.org/2002/07/owl#DatatypeProperty"@);
            assert(self.properties@[25]@ == "http://www.w3.org/2002/07/owl#sameAs"@);
            assert(self.properties@[26]@ == "http://www.w3.org/2002/07/owl#inverseOf"@);
            assert(self.properties@[27]@ == "http://www.w3.org/2002/07/owl#propertyDisjointWith"@);
            assert(self.properties@[28]@ == "http://www.w3.org/2002/07/owl#differentFrom"@);
            assert(self.properties@[29]@ == "http://www.w3.org/2002/07/owl#AllDifferent"@);
            assert(self.properties@[30]@ == "http://www.w3.org/2002/07/owl#AllDisjointClasses"@);
            assert(self.properties@[31]@ == "http://www.w3.org/2002/07/owl#allValuesFrom"@);
            assert(self.properties@[32]@ == "http://www.w3.org/2002/07/owl#AnnotationProperty"@);
            assert(self.properties@[33]@ == "http://www.w3.org/2002/07/owl#assertionProperty"@);
            assert(self.properties@[34]@ == "http://www.w3.org/2002/07/owl#complementOf"@);
            assert(self.properties@[35]@ == "http://www.w3.org/2002/07/owl#disjointWith"@);
            assert(self.properties@[36]@ == "http://www.w3.org/2002/07/owl#distinctMembers"@);
            assert(self.properties@[37]@ == "http://www.w3.org/2002/07/owl#FunctionalProperty"@);
            assert(self.properties@[38]@ == "http://www.w3.org/2002/07/owl#intersectionOf"@);
            assert(self.properties@[39]@ == "http://www.w3.org/2002/07/owl#unionOf"@);
            assert(self.properties@[40]@ == "http://www.w3.org/2002/07/owl#InverseFunctionalProperty"@);
            assert(self.properties@[41]@ == "http://www.w3.org/2002/07/owl#IrreflexiveProperty"@);
            assert(self.properties@[42]@ == "http://www.w3.org/2002/07/owl#maxCardinality"@);
            assert(self.properties@[43]@ == "http://www.w3.org/2002/07/owl#members"@);
            assert(self.properties@[44]@ == "http://www.w3.org/2002/07/owl#Nothing"@);
            assert(self.properties@[45]@ == "http://www.w3.org/2002/07/owl#onClass"@);
            assert(self.properties@[46]@ == "http://www.w3.org/2002/07/owl#onProperty"@);
            assert(self.properties@[47]@ == "http://www.w3.org/2002/07/owl#oneOf"@);
            assert(self.properties@[48]@ == "http://www.w3.org/2002/07/owl#propertyChainAxiom"@);
            assert(self.properties@[49]@ == "http://www.w3.org/2002/07/owl#someValuesFrom"@);
            assert(self.properties@[50]@ == "http://www.w3.org/2002/07/owl#sourceIndividual"@);
            assert(self.properties@[51]@ == "http://www.w3.org/2002/07/owl#SymmetricProperty"@);
            assert(self.properties@[52]@ == "http://www.w3.org/2002/07/owl#targetIndividual"@);
            assert(self.properties@[53]@ == "http://www.w3.org/2002/07/owl#targetValue"@);
            assert(self.properties@[54]@ == "http://www.w3.org/2002/07/owl#maxQualifiedCardinality"@);
            assert(self.resources@[0]@ == "http://www.w3.org/2000/01/rdf-schema#Resource"@);
            assert(self.resources@[1]@ == "http://www.w3.org/2000/01/rdf-schema#Class"@);
            assert(self.resources@[2]@ == "http://www.w3.org/2000/01/rdf-schema#Datatype"@);
            assert(self.resources@[3]@ == "http://www.w3.org/2000/01/rdf-schema#Literal"@);
            assert(self.resources@[4]@ == "http://www.w3.org/2000/01/rdf-schema#Container"@);
            assert(self.resources@[5]@ == "http://www.w3.org/1999/02/22-rdf-syntax-ns#List"@);
            assert(self.resources@[6]@ == "http://www.w3.org/1999/02/22-rdf-syntax-ns#Alt"@);
            assert(self.resources@[7]@ == "http://www.w3.org/1999/02/22-rdf-syntax-ns#Bag"@);
            assert(self.resources@[8]@ == "http://www.w3.org/1999/02/22-rdf-syntax-ns#Seq"@);
            assert(self.resources@[9]@ == "http://www.w3.org/1999/02/22-rdf-syntax-ns#XMLLiteral"@);
            assert(self.resources@[10]@ == "http://www.w3.org/1999/02/22-rdf-syntax-ns#Statement"@);
            assert(self.resources@[11]@ == "http://www.w3.org/1999/02/22-rdf-syntax-ns#nil"@);
            assert(self.resources@[12]@ == "http://www.w3.org/2001/XMLSchema#nonNegativeInteger"@);
            assert(self.resources@[13]@ == "http://www.w3.org/2001/XMLSchema#string"@);
            assert(self.resources@[14]@ == "http://www.w3.org/2002/07/owl#Class"@);
            assert forall|i: int, j: int|
                #![trigger self.properties@[i], self.properties@[j]]
                0 <= i < j < self.properties@.len() implies self.properties@[i]@
                != self.properties@[j]@ by {}
            assert forall|i: int, j: int|
                #![trigger self.resources@[i], self.resources@[j]]
                0 <= i < j < self.resources@.len() implies self.resources@[i]@
                != self.resources@[j]@ by {}
            assert forall|i: int, j: int|
                #![trigger self.properties@[i], self.resources@[j]]
                0 <= i < self.properties@.len() && 0 <= j < self.resources@.len()
                implies self.properties@[i]@ != self.resources@[j]@ by {}
            assert forall|j: int|
                0 <= j < self.resources@.len() && seq_has_str(
                self.properties@,
                (#[trigger] self.resources@[j])@,
            ) implies self.was_remapped_spec((START_INDEX + 1 + j) as u64) by {
                let i = choose|i: int|
                    0 <= i < self.properties@.len() && (#[trigger] self.properties@[i])@
                        == self.resources@[j]@;
            }
            assert forall|j: int|
                0 <= j < 15 && seq_has_str(
                self.properties@,
                (#[trigger] self.resources@[j])@,
            ) implies false by {
                let i = choose|i: int|
                    0 <= i < self.properties@.len() && (#[trigger] self.properties@[i])@
                        == self.resources@[j]@;
            }
            assert(self.wf());
        }
    }

    /// A dictionary holding exactly the reserved vocabulary, each term
    /// at its documented constant id, with an empty remap log.
    #[verifier::rlimit(50)]
    pub fn new() -> (d: NodeDictionary)
        ensures
            d.wf(),
            d.properties@.len() == 55,
            d.resources@.len() == 15,
            d.remapped@.len() == 0,
            vocab_props_bound(d),
            forall|x: Seq<char>|
                #[trigger] seq_has_str(d.properties@, x) ==> vocab_prop_term(x),
            d.term_of(Self::RDFS_RESOURCE) == "http://www.w3.org/2000/01/rdf-schema#Resource"@,
            d.term_of(Self::RDFS_CLASS) == "http://www.w3.org/2000/01/rdf-schema#Class"@,
            d.term_of(Self::RDFS_DATATYPE) == "http://www.w3.org/2000/01/rdf-schema#Datatype"@,
            d.term_of(Self::RDFS_LITERAL) == "http://www.w3.org/2000/01/rdf-schema#Literal"@,
            d.term_of(Self::RDFS_CONTAINER) == "http://www.w3.org/2000/01/rdf-schema#Container"@,
            d.term_of(Self::RDF_LIST) == "http://www.w3.org/1999/02/22-rdf-syntax-ns#List"@,
            d.term_of(Self::RDF_ALT) == "http://www.w3.org/1999/02/22-rdf-syntax-ns#Alt"@,
            d.term_of(Self::RDF_BAG) == "http://www.w3.org/1999/02/22-rdf-syntax-ns#Bag"@,
            d.term_of(Self::RDF_SEQ) == "http://www.w3.org/1999/02/22-rdf-syntax-ns#Seq"@,
            d.term_of(Self::RDF_XML_LITERAL) == "http://www.w3.org/1999/02/22-rdf-syntax-ns#XMLLiteral"@,
            d.term_of(Self::RDF_STATEMENT) == "http://www.w3.org/1999/02/22-rdf-syntax-ns#Statement"@,
            d.term_of(Self::RDF_NIL) == "http://www.w3.org/1999/02/22-rdf-syntax-ns#nil"@,
            d.term_of(Self::XSD_NON_NEGATIVE_INTEGER) == "http://www.w3.org/2001/XMLSchema#nonNegativeInteger"@,
            d.term_of(Self::XSD_STRING) == "http://www.w3.org/2001/XMLSchema#string"@,
            d.term_of(Self::OWL_CLASS) == "http://www.w3.org/2002/07/owl#Class"@,
            d.spec_index("http://www.w3.org/2000/01/rdf-schema#domain"@) == Some(Self::RDFS_DOMAIN),
            d.spec_index("http://www.w3.org/2000/01/rdf-schema#range"@) == Some(Self::RDFS_RANGE),
            d.spec_index("http://www.w3.org/2000/01/rdf-schema#subClassOf"@) == Some(Self::RDFS_SUB_CLASS_OF),
            d.spec_index("http://www.w3.org/2000/01/rdf-schema#subPropertyOf"@) == Some(Self::RDFS_SUB_PROPERTY_OF),
            d.spec_index("http://www.w3.org/2000/01/rdf-schema#seeAlso"@) == Some(Self::RDFS_SEE_ALSO),
            d.spec_index("http://www.w3.org/2000/01/rdf-schema#isDefinedBy"@) == Some(Self::RDFS_IS_DEFINED_BY),
            d.spec_index("http://www.w3.org/2000/01/rdf-schema#comment"@) == Some(Self::RDFS_COMMENT),
            d.spec_index("http://www.w3.org/2000/01/rdf-schema#member"@) == Some(Self::RDFS_MEMBER),
            d.spec_index("http://www.w3.org/2000/01/rdf-schema#ContainerMembershipProperty"@) == Some(Self::RDFS_CONTAINER_MEMBERSHIP_PROPERTY),
            d.spec_index("http://www.w3.org/2000/01/rdf-schema#label"@) == Some(Self::RDFS_LABEL),
            d.spec_index("http://www.w3.org/1999/02/22-rdf-syntax-ns#Property"@) == Some(Self::RDF_PROPERTY),
            d.spec_index("http://www.w3.org/1999/02/22-rdf-syntax-ns#type"@) == Some(Self::RDF_TYPE),
            d.spec_index("http://www.w3.org/1999/02/22-rdf-syntax-ns#subject"@) == Some(Self::RDF_SUBJECT),
            d.spec_index("http://www.w3.org/1999/02/22-rdf-syntax-ns#object"@) == Some(Self::RDF_OBJECT),
            d.spec_index("http://www.w3.org/1999/02/22-rdf-syntax-ns#predicate"@) == Some(Self::RDF_PREDICATE),
            d.spec_index("http://www.w3.org/1999/02/22-rdf-syntax-ns#first"@) == Some(Self::RDF_FIRST),
            d.spec_index("http://www.w3.org/1999/02/22-rdf-syntax-ns#rest"@) == Some(Self::RDF_REST),
            d.spec_index("http://www.w3.org/1999/02/22-rdf-syntax-ns#value"@) == Some(Self::RDF_VALUE),
            d.spec_index("http://www.w3.org/1999/02/22-rdf-syntax-ns#_1"@) == Some(Self::RDF_1),
            d.spec_index("http://www.w3.org/2002/07/owl#Thing"@) == Some(Self::OWL_THING),
            d.spec_index("http://www.w3.org/2002/07/owl#TransitiveProperty"@) == Some(Self::OWL_TRANSITIVE_PROPERTY),
            d.spec_index("http://www.w3.org/2002/07/owl#equivalentClass"@) == Some(Self::OWL_EQUIVALENT_CLASS),
            d.spec_index("http://www.w3.org/2002/07/owl#equivalentProperty"@) == Some(Self::OWL_EQUIVALENT_PROPERTY),
            d.spec_index("http://www.w3.org/2002/07/owl#ObjectProperty"@) == Some(Self::OWL_OBJECT_PROPERTY),
            d.spec_index("http://www.w3.org/2002/07/owl#DatatypeProperty"@) == Some(Self::OWL_DATATYPE_PROPERTY),
            d.spec_index("http://www.w3.org/2002/07/owl#sameAs"@) == Some(Self::OWL_SAME_AS),
            d.spec_index("http://www.w3.org/2002/07/owl#inverseOf"@) == Some(Self::OWL_INVERSE_OF),
            d.spec_index("http://www.w3.org/2002/07/owl#propertyDisjointWith"@) == Some(Self::OWL_PROPERTY_DISJOINT_WITH),
            d.spec_index("http://www.w3.org/2002/07/owl#differentFrom"@) == Some(Self::OWL_DIFFERENT_FROM),
            d.spec_index("http://www.w3.org/2002/07/owl#AllDifferent"@) == Some(Self::OWL_ALL_DIFFERENT),
            d.spec_index("http://www.w3.org/2002/07/owl#AllDisjointClasses"@) == Some(Self::OWL_ALL_DISJOINT_CLASSES),
            d.spec_index("http://www.w3.org/2002/07/owl#allValuesFrom"@) == Some(Self::OWL_ALL_VALUES_FROM),
            d.spec_index("http://www.w3.org/2002/07/owl#AnnotationProperty"@) == Some(Self::OWL_ANNOTATION_PROPERTY),
            d.spec_index("http://www.w3.org/2002/07/owl#assertionProperty"@) == Some(Self::OWL_ASSERTION_PROPERTY),
            d.spec_index("http://www.w3.org/2002/07/owl#complementOf"@) == Some(Self::OWL_COMPLEMENT_OF),
            d.spec_index("http://www.w3.org/2002/07/owl#disjointWith"@) == Some(Self::OWL_DISJOINT_WITH),
            d.spec_index("http://www.w3.org/2002/07/owl#distinctMembers"@) == Some(Self::OWL_DISTINCT_MEMBERS),
            d.spec_index("http://www.w3.org/2002/07/owl#FunctionalProperty"@) == Some(Self::OWL_FUNCTIONAL_PROPERTY),
            d.spec_index("http://www.w3.org/2002/07/owl#intersectionOf"@) == Some(Self::OWL_INTERSECTION_OF),
            d.spec_index("http://www.w3.org/2002/07/owl#unionOf"@) == Some(Self::OWL_UNION_OF),
            d.spec_index("http://www.w3.org/2002/07/owl#InverseFunctionalProperty"@) == Some(Self::OWL_INVERSE_FUNCTIONAL_PROPERTY),
            d.spec_index("http://www.w3.org/2002/07/owl#IrreflexiveProperty"@) == Some(Self::OWL_IRREFLEXIVE_PROPERTY),
            d.spec_index("http://www.w3.org/2002/07/owl#maxCardinality"@) == Some(Self::OWL_MAX_CARDINALITY),
            d.spec_index("http://www.w3.org/2002/07/owl#members"@) == Some(Self::OWL_MEMBERS),
            d.spec_index("http://www.w3.org/2002/07/owl#Nothing"@) == Some(Self::OWL_NOTHING),
            d.spec_index("http://www.w3.org/2002/07/owl#onClass"@) == Some(Self::OWL_ON_CLASS),
            d.spec_index("http://www.w3.org/2002/07/owl#onProperty"@) == Some(Self::OWL_ON_PROPERTY),
            d.spec_index("http://www.w3.org/2002/07/owl#oneOf"@) == Some(Self::OWL_ONE_OF),
            d.spec_index("http://www.w3.org/2002/07/owl#propertyChainAxiom"@) == Some(Self::OWL_PROPERTY_CHAIN_AXIOM),
            d.spec_index("http://www.w3.org/2002/07/owl#someValuesFrom"@) == Some(Self::OWL_SOME_VALUES_FROM),
            d.spec_index("http://www.w3.org/2002/07/owl#sourceIndividual"@) == Some(Self::OWL_SOURCE_INDIVIDUAL),
            d.spec_index("http://www.w3.org/2002/07/owl#SymmetricProperty"@) == Some(Self::OWL_SYMMETRIC_PROPERTY),
            d.spec_index("http://www.w3.org/2002/07/owl#targetIndividual"@) == Some(Self::OWL_TARGET_INDIVIDUAL),
            d.spec_index("http://www.w3.org/2002/07/owl#targetValue"@) == Some(Self::OWL_TARGET_VALUE),
            d.spec_index("http://www.w3.org/2002/07/owl#maxQualifiedCardinality"@) == Some(Self::OWL_MAX_QUALIFIED_CARDINALITY),
            d.spec_index("http://www.w3.org/2000/01/rdf-schema#Resource"@) == Some(Self::RDFS_RESOURCE),
            d.spec_index("http://www.w3.org/2000/01/rdf-schema#Class"@) == Some(Self::RDFS_CLASS),
            d.spec_index("http://www.w3.org/2000/01/rdf-schema#Datatype"@) == Some(Self::RDFS_DATATYPE),
            d.spec_index("http://www.w3.org/2000/01/rdf-schema#Literal"@) == Some(Self::RDFS_LITERAL),
            d.spec_index("http://www.w3.org/2000/01/rdf-schema#Container"@) == Some(Self::RDFS_CONTAINER),
            d.spec_index("http://www.w3.org/1999/02/22-rdf-syntax-ns#List"@) == Some(Self::RDF_LIST),
            d.spec_index("http://www.w3.org/1999/02/22-rdf-syntax-ns#Alt"@) == Some(Self::RDF_ALT),
            d.spec_index("http://www.w3.org/1999/02/22-rdf-syntax-ns#Bag"@) == Some(Self::RDF_BAG),
            d.spec_index("http://www.w3.org/1999/02/22-rdf-syntax-ns#Seq"@) == Some(Self::RDF_SEQ),
            d.spec_index("http://www.w3.org/1999/02/22-rdf-syntax-ns#XMLLiteral"@) == Some(Self::RDF_XML_LITERAL),
            d.spec_index("http://www.w3.org/1999/02/22-rdf-syntax-ns#Statement"@) == Some(Self::RDF_STATEMENT),
            d.spec_index("http://www.w3.org/1999/02/22-rdf-syntax-ns#nil"@) == Some(Self::RDF_NIL),
            d.spec_index("http://www.w3.org/2001/XMLSchema#nonNegativeInteger"@) == Some(Self::XSD_NON_NEGATIVE_INTEGER),
            d.spec_index("http://www.w3.org/2001/XMLSchema#string"@) == Some(Self::XSD_STRING),
            d.spec_index("http://www.w3.org/2002/07/owl#Class"@) == Some(Self::OWL_CLASS),
    {
        let mut d = NodeDictionary {
            properties: Vec::new(),
            resources: Vec::new(),
            remapped: Vec::new(),
        };
        d.init_const();
        proof {
            lemma_vocab_spec_index(d);
            assert forall|x: Seq<char>|
                #[trigger] seq_has_str(d.properties@, x) implies vocab_prop_term(x) by {
                let i = choose|i: int|
                    0 <= i < d.properties@.len() && (#[trigger] d.properties@[i])@ == x;
                assert(d.term_of(prop_at_offset(i)) == d.properties@[i]@);
            }
            assert(d.live_id(Self::RDFS_RESOURCE)) by {
                assert(d.resources@[0]@ == d.term_of(Self::RDFS_RESOURCE));
            }
            lemma_index_of_term(d, Self::RDFS_RESOURCE);
            assert(d.live_id(Self::RDFS_CLASS)) by {
                assert(d.resources@[1]@ == d.term_of(Self::RDFS_CLASS));
            }
            lemma_index_of_term(d, Self::RDFS_CLASS);
            assert(d.live_id(Self::RDFS_DATATYPE)) by {
                assert(d.resources@[2]@ == d.term_of(Self::RDFS_DATATYPE));
            }
            lemma_index_of_term(d, Self::RDFS_DATATYPE);
            assert(d.live_id(Self::RDFS_LITERAL)) by {
                assert(d.resources@[3]@ == d.term_of(Self::RDFS_LITERAL));
            }
            lemma_index_of_term(d, Self::RDFS_LITERAL);
            assert(d.live_id(Self::RDFS_CONTAINER)) by {
                assert(d.resources@[4]@ == d.term_of(Self::RDFS_CONTAINER));
            }
            lemma_index_of_term(d, Self::RDFS_CONTAINER);
            assert(d.live_id(Self::RDF_LIST)) by {
                assert(d.resources@[5]@ == d.term_of(Self::RDF_LIST));
            }
            lemma_index_of_term(d, Self::RDF_LIST);
            assert(d.live_id(Self::RDF_ALT)) by {
                assert(d.resources@[6]@ == d.term_of(Self::RDF_ALT));
            }
            lemma_index_of_term(d, Self::RDF_ALT);
            assert(d.live_id(Self::RDF_BAG)) by {
                assert(d.resources@[7]@ == d.term_of(Self::RDF_BAG));
            }
            lemma_index_of_term(d, Self::RDF_BAG);
            assert(d.live_id(Self::RDF_SEQ)) by {
                assert(d.resources@[8]@ == d.term_of(Self::RDF_SEQ));
            }
            lemma_index_of_term(d, Self::RDF_SEQ);
            assert(d.live_id(Self::RDF_XML_LITERAL)) by {
                assert(d.resources@[9]@ == d.term_of(Self::RDF_XML_LITERAL));
            }
            lemma_index_of_term(d, Self::RDF_XML_LITERAL);
            assert(d.live_id(Self::RDF_STATEMENT)) by {
                assert(d.resources@[10]@ == d.term_of(Self::RDF_STATEMENT));
            }
            lemma_index_of_term(d, Self::RDF_STATEMENT);
            assert(d.live_id(Self::RDF_NIL)) by {
                assert(d.resources@[11]@ == d.term_of(Self::RDF_NIL));
            }
            lemma_index_of_term(d, Self::RDF_NIL);
            assert(d.live_id(Self::XSD_NON_NEGATIVE_INTEGER)) by {
                assert(d.resources@[12]@ == d.term_of(Self::XSD_NON_NEGATIVE_INTEGER));
            }
            lemma_index_of_term(d, Self::XSD_NON_NEGATIVE_INTEGER);
            assert(d.live_id(Self::XSD_STRING)) by {
                assert(d.resources@[13]@ == d.term_of(Self::XSD_STRING));
            }
            lemma_index_of_term(d, Self::XSD_STRING);
            assert(d.live_id(Self::OWL_CLASS)) by {
                assert(d.resources@[14]@ == d.term_of(Self::OWL_CLASS));
            }
            lemma_index_of_term(d, Self::OWL_CLASS);
        }
        d
    }
}

/// The reserved property bindings survive any dictionary step that
/// keeps every valid id at its term.
pub proof fn lemma_vocab_bound_preserved(d1: NodeDictionary, d2: NodeDictionary)
    requires
        vocab_props_bound(d1),
        forall|id: u64|
            #![trigger d2.term_of(id)]
            d1.valid_id(id) ==> d2.valid_id(id) && d2.term_of(id) == d1.term_of(id),
    ensures
        vocab_props_bound(d2),
{
    assert(d2.term_of(NodeDictionary::RDFS_DOMAIN) == d1.term_of(NodeDictionary::RDFS_DOMAIN)) by {
        assert(d1.valid_id(NodeDictionary::RDFS_DOMAIN));
    }
    assert(d2.term_of(NodeDictionary::RDFS_RANGE) == d1.term_of(NodeDictionary::RDFS_RANGE)) by {
        assert(d1.valid_id(NodeDictionary::RDFS_RANGE));
    }
    assert(d2.term_of(NodeDictionary::RDFS_SUB_CLASS_OF) == d1.term_of(NodeDictionary::RDFS_SUB_CLASS_OF)) by {
        assert(d1.valid_id(NodeDictionary::RDFS_SUB_CLASS_OF));
    }
    assert(d2.term_of(NodeDictionary::RDFS_SUB_PROPERTY_OF) == d1.term_of(NodeDictionary::RDFS_SUB_PROPERTY_OF)) by {
        assert(d1.valid_id(NodeDictionary::RDFS_SUB_PROPERTY_OF));
    }
    assert(d2.term_of(NodeDictionary::RDFS_SEE_ALSO) == d1.term_of(NodeDictionary::RDFS_SEE_ALSO)) by {
        assert(d1.valid_id(NodeDictionary::RDFS_SEE_ALSO));
    }
    assert(d2.term_of(NodeDictionary::RDFS_IS_DEFINED_BY) == d1.term_of(NodeDictionary::RDFS_IS_DEFINED_BY)) by {
        assert(d1.valid_id(NodeDictionary::RDFS_IS_DEFINED_BY));
    }
    assert(d2.term_of(NodeDictionary::RDFS_COMMENT) == d1.term_of(NodeDictionary::RDFS_COMMENT)) by {
        assert(d1.valid_id(NodeDictionary::RDFS_COMMENT));
    }
    assert(d2.term_of(NodeDictionary::RDFS_MEMBER) == d1.term_of(NodeDictionary::RDFS_MEMBER)) by {
        assert(d1.valid_id(NodeDictionary::RDFS_MEMBER));
    }
    assert(d2.term_of(NodeDictionary::RDFS_CONTAINER_MEMBERSHIP_PROPERTY) == d1.term_of(NodeDictionary::RDFS_CONTAINER_MEMBERSHIP_PROPERTY)) by {
        assert(d1.valid_id(NodeDictionary::RDFS_CONTAINER_MEMBERSHIP_PROPERTY));
    }
    assert(d2.term_of(NodeDictionary::RDFS_LABEL) == d1.term_of(NodeDictionary::RDFS_LABEL)) by {
        assert(d1.valid_id(NodeDictionary::RDFS_LABEL));
    }
    assert(d2.term_of(NodeDictionary::RDF_PROPERTY) == d1.term_of(NodeDictionary::RDF_PROPERTY)) by {
        assert(d1.valid_id(NodeDictionary::RDF_PROPERTY));
    }
    assert(d2.term_of(NodeDictionary::RDF_TYPE) == d1.term_of(NodeDictionary::RDF_TYPE)) by {
        assert(d1.valid_id(NodeDictionary::RDF_TYPE));
    }
    assert(d2.term_of(NodeDictionary::RDF_SUBJECT) == d1.term_of(NodeDictionary::RDF_SUBJECT)) by {
        assert(d1.valid_id(NodeDictionary::RDF_SUBJECT));
    }
    assert(d2.term_of(NodeDictionary::RDF_OBJECT) == d1.term_of(NodeDictionary::RDF_OBJECT)) by {
        assert(d1.valid_id(NodeDictionary::RDF_OBJECT));
    }
    assert(d2.term_of(NodeDictionary::RDF_PREDICATE) == d1.term_of(NodeDictionary::RDF_PREDICATE)) by {
        assert(d1.valid_id(NodeDictionary::RDF_PREDICATE));
    }
    assert(d2.term_of(NodeDictionary::RDF_FIRST) == d1.term_of(NodeDictionary::RDF_FIRST)) by {
        assert(d1.valid_id(NodeDictionary::RDF_FIRST));
    }
    assert(d2.term_of(NodeDictionary::RDF_REST) == d1.term_of(NodeDictionary::RDF_REST)) by {
        assert(d1.valid_id(NodeDictionary::RDF_REST));
    }
    assert(d2.term_of(NodeDictionary::RDF_VALUE) == d1.term_of(NodeDictionary::RDF_VALUE)) by {
        assert(d1.valid_id(NodeDictionary::RDF_VALUE));
    }
    assert(d2.term_of(NodeDictionary::RDF_1) == d1.term_of(NodeDictionary::RDF_1)) by {
        assert(d1.valid_id(NodeDictionary::RDF_1));
    }
    assert(d2.term_of(NodeDictionary::OWL_THING) == d1.term_of(NodeDictionary::OWL_THING)) by {
        assert(d1.valid_id(NodeDictionary::OWL_THING));
    }
    assert(d2.term_of(NodeDictionary::OWL_TRANSITIVE_PROPERTY) == d1.term_of(NodeDictionary::OWL_TRANSITIVE_PROPERTY)) by {
        assert(d1.valid_id(NodeDictionary::OWL_TRANSITIVE_PROPERTY));
    }
    assert(d2.term_of(NodeDictionary::OWL_EQUIVALENT_CLASS) == d1.term_of(NodeDictionary::OWL_EQUIVALENT_CLASS)) by {
        assert(d1.valid_id(NodeDictionary::OWL_EQUIVALENT_CLASS));
    }
    assert(d2.term_of(NodeDictionary::OWL_EQUIVALENT_PROPERTY) == d1.term_of(NodeDictionary::OWL_EQUIVALENT_PROPERTY)) by {
        assert(d1.valid_id(NodeDictionary::OWL_EQUIVALENT_PROPERTY));
    }
    assert(d2.term_of(NodeDictionary::OWL_OBJECT_PROPERTY) == d1.term_of(NodeDictionary::OWL_OBJECT_PROPERTY)) by {
        assert(d1.valid_id(NodeDictionary::OWL_OBJECT_PROPERTY));
    }
    assert(d2.term_of(NodeDictionary::OWL_DATATYPE_PROPERTY) == d1.term_of(NodeDictionary::OWL_DATATYPE_PROPERTY)) by {
        assert(d1.valid_id(NodeDictionary::OWL_DATATYPE_PROPERTY));
    }
    assert(d2.term_of(NodeDictionary::OWL_SAME_AS) == d1.term_of(NodeDictionary::OWL_SAME_AS)) by {
        assert(d1.valid_id(NodeDictionary::OWL_SAME_AS));
    }
    assert(d2.term_of(NodeDictionary::OWL_INVERSE_OF) == d1.term_of(NodeDictionary::OWL_INVERSE_OF)) by {
        assert(d1.valid_id(NodeDictionary::OWL_INVERSE_OF));
    }
    assert(d2.term_of(NodeDictionary::OWL_PROPERTY_DISJOINT_WITH) == d1.term_of(NodeDictionary::OWL_PROPERTY_DISJOINT_WITH)) by {
        assert(d1.valid_id(NodeDictionary::OWL_PROPERTY_DISJOINT_WITH));
    }
    assert(d2.term_of(NodeDictionary::OWL_DIFFERENT_FROM) == d1.term_of(NodeDictionary::OWL_DIFFERENT_FROM)) by {
        assert(d1.valid_id(NodeDictionary::OWL_DIFFERENT_FROM));
    }
    assert(d2.term_of(NodeDictionary::OWL_ALL_DIFFERENT) == d1.term_of(NodeDictionary::OWL_ALL_DIFFERENT)) by {
        assert(d1.valid_id(NodeDictionary::OWL_ALL_DIFFERENT));
    }
    assert(d2.term_of(NodeDictionary::OWL_ALL_DISJOINT_CLASSES) == d1.term_of(NodeDictionary::OWL_ALL_DISJOINT_CLASSES)) by {
        assert(d1.valid_id(NodeDictionary::OWL_ALL_DISJOINT_CLASSES));
    }
    assert(d2.term_of(NodeDictionary::OWL_ALL_VALUES_FROM) == d1.term_of(NodeDictionary::OWL_ALL_VALUES_FROM)) by {
        assert(d1.valid_id(NodeDictionary::OWL_ALL_VALUES_FROM));
    }
    assert(d2.term_of(NodeDictionary::OWL_ANNOTATION_PROPERTY) == d1.term_of(NodeDictionary::OWL_ANNOTATION_PROPERTY)) by {
        assert(d1.valid_id(NodeDictionary::OWL_ANNOTATION_PROPERTY));
    }
    assert(d2.term_of(NodeDictionary::OWL_ASSERTION_PROPERTY) == d1.term_of(NodeDictionary::OWL_ASSERTION_PROPERTY)) by {
        assert(d1.valid_id(NodeDictionary::OWL_ASSERTION_PROPERTY));
    }
    assert(d2.term_of(NodeDictionary::OWL_COMPLEMENT_OF) == d1.term_of(NodeDictionary::OWL_COMPLEMENT_OF)) by {
        assert(d1.valid_id(NodeDictionary::OWL_COMPLEMENT_OF));
    }
    assert(d2.term_of(NodeDictionary::OWL_DISJOINT_WITH) == d1.term_of(NodeDictionary::OWL_DISJOINT_WITH)) by {
        assert(d1.valid_id(NodeDictionary::OWL_DISJOINT_WITH));
    }
    assert(d2.term_of(NodeDictionary::OWL_DISTINCT_MEMBERS) == d1.term_of(NodeDictionary::OWL_DISTINCT_MEMBERS)) by {
        assert(d1.valid_id(NodeDictionary::OWL_DISTINCT_MEMBERS));
    }
    assert(d2.term_of(NodeDictionary::OWL_FUNCTIONAL_PROPERTY) == d1.term_of(NodeDictionary::OWL_FUNCTIONAL_PROPERTY)) by {
        assert(d1.valid_id(NodeDictionary::OWL_FUNCTIONAL_PROPERTY));
    }
    assert(d2.term_of(NodeDictionary::OWL_INTERSECTION_OF) == d1.term_of(NodeDictionary::OWL_INTERSECTION_OF)) by {
        assert(d1.valid_id(NodeDictionary::OWL_INTERSECTION_OF));
    }
    assert(d2.term_of(NodeDictionary::OWL_UNION_OF) == d1.term_of(NodeDictionary::OWL_UNION_OF)) by {
        assert(d1.valid_id(NodeDictionary::OWL_UNION_OF));
    }
    assert(d2.term_of(NodeDictionary::OWL_INVERSE_FUNCTIONAL_PROPERTY) == d1.term_of(NodeDictionary::OWL_INVERSE_FUNCTIONAL_PROPERTY)) by {
        assert(d1.valid_id(NodeDictionary::OWL_INVERSE_FUNCTIONAL_PROPERTY));
    }
    assert(d2.term_of(NodeDictionary::OWL_IRREFLEXIVE_PROPERTY) == d1.term_of(NodeDictionary::OWL_IRREFLEXIVE_PROPERTY)) by {
        assert(d1.valid_id(NodeDictionary::OWL_IRREFLEXIVE_PROPERTY));
    }
    assert(d2.term_of(NodeDictionary::OWL_MAX_CARDINALITY) == d1.term_of(NodeDictionary::OWL_MAX_CARDINALITY)) by {
        assert(d1.valid_id(NodeDictionary::OWL_MAX_CARDINALITY));
    }
    assert(d2.term_of(NodeDictionary::OWL_MEMBERS) == d1.term_of(NodeDictionary::OWL_MEMBERS)) by {
        assert(d1.valid_id(NodeDictionary::OWL_MEMBERS));
    }
    assert(d2.term_of(NodeDictionary::OWL_NOTHING) == d1.term_of(NodeDictionary::OWL_NOTHING)) by {
        assert(d1.valid_id(NodeDictionary::OWL_NOTHING));
    }
    assert(d2.term_of(NodeDictionary::OWL_ON_CLASS) == d1.term_of(NodeDictionary::OWL_ON_CLASS)) by {
        assert(d1.valid_id(NodeDictionary::OWL_ON_CLASS));
    }
    assert(d2.term_of(NodeDictionary::OWL_ON_PROPERTY) == d1.term_of(NodeDictionary::OWL_ON_PROPERTY)) by {
        assert(d1.valid_id(NodeDictionary::OWL_ON_PROPERTY));
    }
    assert(d2.term_of(NodeDictionary::OWL_ONE_OF) == d1.term_of(NodeDictionary::OWL_ONE_OF)) by {
        assert(d1.valid_id(NodeDictionary::OWL_ONE_OF));
    }
    assert(d2.term_of(NodeDictionary::OWL_PROPERTY_CHAIN_AXIOM) == d1.term_of(NodeDictionary::OWL_PROPERTY_CHAIN_AXIOM)) by {
        assert(d1.valid_id(NodeDictionary::OWL_PROPERTY_CHAIN_AXIOM));
    }
    assert(d2.term_of(NodeDictionary::OWL_SOME_VALUES_FROM) == d1.term_of(NodeDictionary::OWL_SOME_VALUES_FROM)) by {
        assert(d1.valid_id(NodeDictionary::OWL_SOME_VALUES_FROM));
    }
    assert(d2.term_of(NodeDictionary::OWL_SOURCE_INDIVIDUAL) == d1.term_of(NodeDictionary::OWL_SOURCE_INDIVIDUAL)) by {
        assert(d1.valid_id(NodeDictionary::OWL_SOURCE_INDIVIDUAL));
    }
    assert(d2.term_of(NodeDictionary::OWL_SYMMETRIC_PROPERTY) == d1.term_of(NodeDictionary::OWL_SYMMETRIC_PROPERTY)) by {
        assert(d1.valid_id(NodeDictionary::OWL_SYMMETRIC_PROPERTY));
    }
    assert(d2.term_of(NodeDictionary::OWL_TARGET_INDIVIDUAL) == d1.term_of(NodeDictionary::OWL_TARGET_INDIVIDUAL)) by {
        assert(d1.valid_id(NodeDictionary::OWL_TARGET_INDIVIDUAL));
    }
    assert(d2.term_of(NodeDictionary::OWL_TARGET_VALUE) == d1.term_of(NodeDictionary::OWL_TARGET_VALUE)) by {
        assert(d1.valid_id(NodeDictionary::OWL_TARGET_VALUE));
    }
    assert(d2.term_of(NodeDictionary::OWL_MAX_QUALIFIED_CARDINALITY) == d1.term_of(NodeDictionary::OWL_MAX_QUALIFIED_CARDINALITY)) by {
        assert(d1.valid_id(NodeDictionary::OWL_MAX_QUALIFIED_CARDINALITY));
    }
    assert(d2.valid_id(NodeDictionary::OWL_MAX_QUALIFIED_CARDINALITY));
    assert(d2.properties@.len() >= 55);
}

/// Whether the dictionary answers `x` with a property id.
pub open spec fn prop_indexed(d: NodeDictionary, x: Seq<char>) -> bool {
    match d.spec_index(x) {
        Some(id) => id < START_INDEX,
        None => false,
    }
}

/// A term that answers with a property id keeps answering with the same
/// id across any dictionary step that keeps every valid id at its term.
pub proof fn lemma_prop_index_stable(d1: NodeDictionary, d2: NodeDictionary, x: Seq<char>)
    requires
        d1.wf(),
        d2.wf(),
        forall|id: u64|
            #![trigger d1.valid_id(id)]
            d1.valid_id(id) ==> d2.valid_id(id) && d2.term_of(id) == d1.term_of(id),
        prop_indexed(d1, x),
    ensures
        d2.spec_index(x) == d1.spec_index(x),
{
    assert(seq_has_str(d1.properties@, x));
    let j = choose|j: int| 0 <= j < d1.properties@.len() && (#[trigger] d1.properties@[j])@ == x;
    let pid = prop_at_offset(j);
    assert(d1.spec_index(x) == Some(pid));
    assert(offset_of(pid) == j);
    assert(d1.term_of(pid) == x);
    assert(d1.valid_id(pid));
    assert(d2.term_of(pid) == x && d2.valid_id(pid));
    assert(d2.live_id(pid));
    lemma_index_of_term(d2, pid);
}

} // verus!
