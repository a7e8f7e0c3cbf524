//! The inference graph: a node dictionary and a triple store, wired to the
//! saturation engine and to a term-level query interface.

use vstd::prelude::*;

use crate::closure::{lemma_reachable_monotone, reach, reachable};
use crate::inferray::dictionary::{lemma_index_of_term, seq_has_str, lemma_prop_index_stable, lemma_resolvable_remap, lemma_vocab_bound_preserved, lemma_vocab_spec_index, prop_indexed, vocab_prop_term, vocab_props_bound, NodeDictionary};
use crate::inferray::store::{lemma_store_growth, merge_into, TripleStore};
use crate::rules::engine::{process_rules, rules_closed};
use crate::rules::other_rules::type_all_resources;
use crate::rules::profiles::{is_rdfs_plus_profile, is_rdfs_profile, is_rhodf_profile, ClosureProfile, RuleProfile};
use crate::rules::zeta_rules::typed_subjects;
use crate::utils::{
    offset_of, pairs_contain, prop_at_offset, prop_idx_to_offset, Pair, Triple, START_INDEX,
};

verus! {

/// A triple of RDF terms, each held as its textual form.
pub struct TermTriple {
    pub s: String,
    pub p: String,
    pub o: String,
}

/// Whether `p` is a predicate whose subjects are encoded as properties.
pub open spec fn term_carries_prop_subject(p: Seq<char>) -> bool {
    ||| p == "http://www.w3.org/2000/01/rdf-schema#domain"@
    ||| p == "http://www.w3.org/2000/01/rdf-schema#range"@
}

/// Whether `p` is a predicate whose subjects and objects are encoded as
/// properties.
pub open spec fn term_carries_prop_both(p: Seq<char>) -> bool {
    ||| p == "http://www.w3.org/2000/01/rdf-schema#subPropertyOf"@
    ||| p == "http://www.w3.org/2002/07/owl#equivalentProperty"@
    ||| p == "http://www.w3.org/2002/07/owl#inverseOf"@
}

/// Whether the term triple `tt` uses `x` in a property position: as its
/// predicate, or as a subject or object that the predicate's schema
/// class encodes as a property.
pub open spec fn position_use_at(tt: TermTriple, x: Seq<char>) -> bool {
    ||| tt.p@ == x
    ||| ((term_carries_prop_subject(tt.p@) || term_carries_prop_both(tt.p@)) && tt.s@ == x)
    ||| (term_carries_prop_both(tt.p@) && tt.o@ == x)
}

/// Whether some input triple uses `x` in a property position.
pub open spec fn prop_position_use(inputs: Seq<TermTriple>, x: Seq<char>) -> bool {
    exists|j: int| 0 <= j < inputs.len() && position_use_at(#[trigger] inputs[j], x)
}

/// The inference graph.
pub struct InfGraph {
    pub dictionary: NodeDictionary,
    pub store: TripleStore,
}

impl InfGraph {
    /// The graph invariant: both components are well formed.
    pub open spec fn wf(self) -> bool {
        self.dictionary.wf() && self.store.wf()
    }

    /// Whether the graph holds the triple written with these three terms.
    pub open spec fn term_triple_held(self, ts: Seq<char>, tp: Seq<char>, to: Seq<char>) -> bool {
        holds_terms(self.dictionary, self.store, ts, tp, to)
    }

    /// Whether every id of `t` denotes an interned term.
    pub open spec fn ids_valid(self, t: Triple) -> bool {
        self.dictionary.valid_id(t.s) && self.dictionary.valid_id(t.p) && self.dictionary.valid_id(
            t.o,
        )
    }

    /// Whether `tt` is the textual form of the id triple `t`.
    pub open spec fn decodes_to(self, t: Triple, tt: TermTriple) -> bool {
        tt.s@ == self.dictionary.term_of(t.s) && tt.p@ == self.dictionary.term_of(t.p) && tt.o@
            == self.dictionary.term_of(t.o)
    }

    /// Borrow the dictionary.
    pub fn dict(&self) -> (r: &NodeDictionary)
        ensures
            r == self.dictionary,
    {
        &self.dictionary
    }

    /// Borrow the store.
    pub fn store(&self) -> (r: &TripleStore)
        ensures
            r == self.store,
    {
        &self.store
    }

    /// The total number of triples (explicit and inferred).
    pub fn size(&self) -> (r: u128)
        ensures
            r == self.store.size,
    {
        self.store.size()
    }

    /// Merge triples from another store, with no reasoning involved.
    pub fn merge_store(&mut self, other: TripleStore)
        requires
            old(self).wf(),
            other.wf(),
        ensures
            final(self).wf(),
            final(self).dictionary == old(self).dictionary,
            final(self).store.elem@.len() >= old(self).store.elem@.len(),
            forall|t: Triple|
                #![trigger final(self).store.has_triple(t)]
                final(self).store.has_triple(t) <==> (old(self).store.has_triple(t)
                    || other.has_triple(t)),
    {
        merge_into(&mut self.store, &other);
    }

    /// Build an unprocessed graph from a buffer of term triples: intern
    /// every term, rewrite promoted resource ids, and load the store.
    /// Every input triple can be found again.  The bound on the buffer
    /// size keeps the property id space from running out: each triple
    /// interns at most three new terms.
    #[verifier::rlimit(100)]
    pub fn new_unprocessed(triples: &Vec<TermTriple>) -> (g: InfGraph)
        requires
            triples@.len() < 1_000_000_000,
        ensures
            g.wf(),
            vocab_props_bound(g.dictionary),
            forall|i: int|
                0 <= i < triples@.len() ==> g.term_triple_held(
                    (#[trigger] triples@[i]).s@,
                    triples@[i].p@,
                    triples@[i].o@,
                ),
            forall|x: Seq<char>|
                #[trigger] seq_has_str(g.dictionary.properties@, x) ==> (vocab_prop_term(x)
                    || prop_position_use(triples@, x)),
            forall|i: int|
                0 <= i < triples@.len() ==> {
                    let tt = #[trigger] triples@[i];
                    &&& ((term_carries_prop_subject(tt.p@) || term_carries_prop_both(tt.p@))
                        ==> prop_indexed(g.dictionary, tt.s@))
                    &&& (term_carries_prop_both(tt.p@) ==> prop_indexed(g.dictionary, tt.o@))
                },
    {
        let mut dictionary = NodeDictionary::new();
        let mut encoded: Vec<Triple> = Vec::new();
        let mut k: usize = 0;
        while k < triples.len()
            invariant
                k <= triples@.len(),
                triples@.len() < 1_000_000_000,
                dictionary.wf(),
                vocab_props_bound(dictionary),
                dictionary.properties@.len() <= 55 + 3 * k,
                dictionary.resources@.len() <= 15 + 2 * k,
                encoded@.len() == k,
                forall|x: Seq<char>|
                    #[trigger] seq_has_str(dictionary.properties@, x) ==> (vocab_prop_term(x)
                        || exists|j: int|
                        0 <= j < k && position_use_at(#[trigger] triples@[j], x)),
                forall|i: int|
                    0 <= i < k ==> {
                        let tt = #[trigger] triples@[i];
                        &&& ((term_carries_prop_subject(tt.p@) || term_carries_prop_both(tt.p@))
                            ==> prop_indexed(dictionary, tt.s@))
                        &&& (term_carries_prop_both(tt.p@) ==> prop_indexed(dictionary, tt.o@))
                    },
                forall|i: int|
                    0 <= i < k ==> {
                        let e = #[trigger] encoded@[i];
                        &&& e.p < START_INDEX
                        &&& dictionary.live_id(e.p)
                        &&& dictionary.term_of(e.p) == triples@[i].p@
                        &&& dictionary.resolvable(e.s, triples@[i].s@)
                        &&& dictionary.resolvable(e.o, triples@[i].o@)
                    },
            decreases triples@.len() - k,
        {
            let t = &triples[k];
            let ghost olddict = dictionary;
            let it = dictionary.encode_triple(t.s.as_str(), t.p.as_str(), t.o.as_str());
            encoded.push(it);
            k += 1;
            proof {
                assert forall|id: u64| #![trigger dictionary.term_of(id)]
                    olddict.valid_id(id) implies dictionary.valid_id(id) && dictionary.term_of(id)
                    == olddict.term_of(id) by {
                    assert(olddict.valid_id(id));
                }
                lemma_vocab_bound_preserved(olddict, dictionary);
                // which terms the property table may have gained
                assert forall|x: Seq<char>|
                    #[trigger] seq_has_str(dictionary.properties@, x) implies (vocab_prop_term(x)
                        || exists|j: int|
                        0 <= j < k && position_use_at(#[trigger] triples@[j], x)) by {
                    let tt = triples@[k - 1];
                    if seq_has_str(olddict.properties@, x) {
                        if !vocab_prop_term(x) {
                            let j = choose|j: int|
                                0 <= j < k - 1 && position_use_at(#[trigger] triples@[j], x);
                            assert(position_use_at(triples@[j], x));
                        }
                    } else {
                        if it.p == NodeDictionary::RDFS_DOMAIN || it.p == NodeDictionary::RDFS_RANGE
                            || it.p == NodeDictionary::RDFS_SUB_PROPERTY_OF || it.p
                            == NodeDictionary::OWL_EQUIVALENT_PROPERTY || it.p
                            == NodeDictionary::OWL_INVERSE_OF {
                            assert(term_carries_prop_subject(tt.p@) || term_carries_prop_both(
                                tt.p@,
                            )) by {
                                assert(dictionary.term_of(it.p) == tt.p@);
                            }
                            if it.p == NodeDictionary::RDFS_SUB_PROPERTY_OF || it.p
                                == NodeDictionary::OWL_EQUIVALENT_PROPERTY || it.p
                                == NodeDictionary::OWL_INVERSE_OF {
                                assert(term_carries_prop_both(tt.p@)) by {
                                    assert(dictionary.term_of(it.p) == tt.p@);
                                }
                            }
                        }
                        assert(position_use_at(triples@[k - 1], x));
                    }
                }
                // terms in schema positions answer with property ids
                assert forall|i: int|
                    0 <= i < k implies {
                    let tt = #[trigger] triples@[i];
                    &&& ((term_carries_prop_subject(tt.p@) || term_carries_prop_both(tt.p@))
                        ==> prop_indexed(dictionary, tt.s@))
                    &&& (term_carries_prop_both(tt.p@) ==> prop_indexed(dictionary, tt.o@))
                } by {
                    let tt = triples@[i];
                    if i < k - 1 {
                        if term_carries_prop_subject(tt.p@) || term_carries_prop_both(tt.p@) {
                            lemma_prop_index_stable(olddict, dictionary, tt.s@);
                        }
                        if term_carries_prop_both(tt.p@) {
                            lemma_prop_index_stable(olddict, dictionary, tt.o@);
                        }
                    } else {
                        if term_carries_prop_subject(tt.p@) || term_carries_prop_both(tt.p@) {
                            lemma_vocab_spec_index(dictionary);
                            lemma_index_of_term(dictionary, it.p);
                            assert(it.p == NodeDictionary::RDFS_DOMAIN || it.p
                                == NodeDictionary::RDFS_RANGE || it.p
                                == NodeDictionary::RDFS_SUB_PROPERTY_OF || it.p
                                == NodeDictionary::OWL_EQUIVALENT_PROPERTY || it.p
                                == NodeDictionary::OWL_INVERSE_OF);
                            assert(it.s < START_INDEX);
                            assert(dictionary.live_id(it.s) && dictionary.term_of(it.s)
                                == tt.s@) by {
                                if !(dictionary.live_id(it.s) && dictionary.term_of(it.s)
                                    == tt.s@) {
                                    let w = choose|w: int|
                                        0 <= w < dictionary.remapped@.len()
                                            && (#[trigger] dictionary.remapped@[w]).s == it.s
                                            && dictionary.live_id(dictionary.remapped@[w].o)
                                            && dictionary.term_of(dictionary.remapped@[w].o)
                                            == tt.s@;
                                    assert(dictionary.rm_ok(dictionary.remapped@[w]));
                                }
                            }
                            lemma_index_of_term(dictionary, it.s);
                            if term_carries_prop_both(tt.p@) {
                                assert(it.o < START_INDEX);
                                assert(dictionary.live_id(it.o) && dictionary.term_of(it.o)
                                    == tt.o@) by {
                                    if !(dictionary.live_id(it.o) && dictionary.term_of(it.o)
                                        == tt.o@) {
                                        let w = choose|w: int|
                                            0 <= w < dictionary.remapped@.len()
                                                && (#[trigger] dictionary.remapped@[w]).s == it.o
                                                && dictionary.live_id(dictionary.remapped@[w].o)
                                                && dictionary.term_of(dictionary.remapped@[w].o)
                                                == tt.o@;
                                        assert(dictionary.rm_ok(dictionary.remapped@[w]));
                                    }
                                }
                                lemma_index_of_term(dictionary, it.o);
                            }
                        }
                    }
                }
                assert forall|i: int|
                    0 <= i < k implies {
                    let e = #[trigger] encoded@[i];
                    &&& e.p < START_INDEX
                    &&& dictionary.live_id(e.p)
                    &&& dictionary.term_of(e.p) == triples@[i].p@
                    &&& dictionary.resolvable(e.s, triples@[i].s@)
                    &&& dictionary.resolvable(e.o, triples@[i].o@)
                } by {
                    if i < k - 1 {
                        let e = encoded@[i];
                        assert(olddict.resolvable(e.s, triples@[i].s@));
                        assert(olddict.resolvable(e.o, triples@[i].o@));
                        assert(olddict.live_id(e.p) && olddict.term_of(e.p) == triples@[i].p@);
                        assert(dictionary.resolvable(e.p, triples@[i].p@)) by {
                            assert(olddict.resolvable(e.p, triples@[i].p@));
                        }
                        assert(dictionary.live_id(e.p)) by {
                            assert(e.p < START_INDEX);
                            assert(dictionary.valid_id(e.p));
                        }
                        assert(dictionary.term_of(e.p) == olddict.term_of(e.p));
                    }
                }
            }
        }
        dictionary.remap_triples(&mut encoded);
        proof {
            assert forall|i: int|
                0 <= i < encoded@.len() implies (#[trigger] encoded@[i]).p < START_INDEX by {}
        }
        let store = TripleStore::new(encoded);
        let g = InfGraph { dictionary, store };
        proof {
            assert forall|i: int|
                0 <= i < triples@.len() implies g.term_triple_held(
                (#[trigger] triples@[i]).s@,
                triples@[i].p@,
                triples@[i].o@,
            ) by {
                let e = encoded@[i];
                lemma_resolvable_remap(g.dictionary, e.s, triples@[i].s@);
                lemma_resolvable_remap(g.dictionary, e.o, triples@[i].o@);
                let rs = g.dictionary.remap_of(e.s);
                let ro = g.dictionary.remap_of(e.o);
                lemma_index_of_term(g.dictionary, rs);
                lemma_index_of_term(g.dictionary, g.dictionary.remap_of(e.o));
                lemma_index_of_term(g.dictionary, e.p);
                assert(g.store.has_triple(Triple { s: rs, p: e.p, o: ro })) by {
                    assert(encoded@.contains(encoded@[i]));
                }
            }
        }
        g
    }

    /// Build a graph and saturate it under the given profile.
    pub fn new(triples: &Vec<TermTriple>, profile: &RuleProfile) -> (g: InfGraph)
        requires
            triples@.len() < 1_000_000_000,
        ensures
            g.wf(),
            vocab_props_bound(g.dictionary),
            forall|i: int|
                0 <= i < triples@.len() ==> g.term_triple_held(
                    (#[trigger] triples@[i]).s@,
                    triples@[i].p@,
                    triples@[i].o@,
                ),
            forall|x: Seq<char>|
                #[trigger] seq_has_str(g.dictionary.properties@, x) ==> (vocab_prop_term(x)
                    || prop_position_use(triples@, x)),
            forall|i: int|
                0 <= i < triples@.len() ==> {
                    let tt = #[trigger] triples@[i];
                    &&& ((term_carries_prop_subject(tt.p@) || term_carries_prop_both(tt.p@))
                        ==> prop_indexed(g.dictionary, tt.s@))
                    &&& (term_carries_prop_both(tt.p@) ==> prop_indexed(g.dictionary, tt.o@))
                },
            saturated_from(g, *profile, triples@),
            profile.after_rules ==> (forall|t: Triple|
                crate::rules::other_rules::tar_sem(g.dictionary, t)
                    ==> #[trigger] g.store.has_triple(t)),
    {
        let mut g = InfGraph::new_unprocessed(triples);
        let ghost g0 = g;
        g.process(profile);
        proof {
            let mid = choose|mid: TripleStore|
                #[trigger] rules_closed(profile.rules.rules@, mid) && saturation_mid(
                    g0.store,
                    g.store,
                    *profile,
                    mid,
                );
            assert forall|i: int|
                0 <= i < triples@.len() implies holds_terms(
                g.dictionary,
                g0.store,
                (#[trigger] triples@[i]).s@,
                triples@[i].p@,
                triples@[i].o@,
            ) by {
                assert(g0.term_triple_held(triples@[i].s@, triples@[i].p@, triples@[i].o@));
            }
            assert(saturation_mid(g0.store, g.store, *profile, mid));
            assert(saturated_from(g, *profile, triples@));
        }
        g
    }

    /// Build a graph with the RDFS rule profile.
    pub fn new_rdfs(triples: &Vec<TermTriple>) -> (g: InfGraph)
        requires
            triples@.len() < 1_000_000_000,
        ensures
            g.wf(),
            vocab_props_bound(g.dictionary),
            forall|i: int|
                0 <= i < triples@.len() ==> g.term_triple_held(
                    (#[trigger] triples@[i]).s@,
                    triples@[i].p@,
                    triples@[i].o@,
                ),
            forall|x: Seq<char>|
                #[trigger] seq_has_str(g.dictionary.properties@, x) ==> (vocab_prop_term(x)
                    || prop_position_use(triples@, x)),
            forall|i: int|
                0 <= i < triples@.len() ==> {
                    let tt = #[trigger] triples@[i];
                    &&& ((term_carries_prop_subject(tt.p@) || term_carries_prop_both(tt.p@))
                        ==> prop_indexed(g.dictionary, tt.s@))
                    &&& (term_carries_prop_both(tt.p@) ==> prop_indexed(g.dictionary, tt.o@))
                },
            exists|p: RuleProfile|
                #[trigger] saturated_from(g, p, triples@) && is_rdfs_profile(p),
            forall|t: Triple|
                crate::rules::other_rules::tar_sem(g.dictionary, t)
                    ==> #[trigger] g.store.has_triple(t),
    {
        let profile = RuleProfile::RDFS();
        let g = InfGraph::new(triples, &profile);
        proof {
            assert(saturated_from(g, profile, triples@) && is_rdfs_profile(profile));
        }
        g
    }

    /// Build a graph with the rho-df rule profile.
    pub fn new_rhodf(triples: &Vec<TermTriple>) -> (g: InfGraph)
        requires
            triples@.len() < 1_000_000_000,
        ensures
            g.wf(),
            vocab_props_bound(g.dictionary),
            forall|i: int|
                0 <= i < triples@.len() ==> g.term_triple_held(
                    (#[trigger] triples@[i]).s@,
                    triples@[i].p@,
                    triples@[i].o@,
                ),
            forall|x: Seq<char>|
                #[trigger] seq_has_str(g.dictionary.properties@, x) ==> (vocab_prop_term(x)
                    || prop_position_use(triples@, x)),
            forall|i: int|
                0 <= i < triples@.len() ==> {
                    let tt = #[trigger] triples@[i];
                    &&& ((term_carries_prop_subject(tt.p@) || term_carries_prop_both(tt.p@))
                        ==> prop_indexed(g.dictionary, tt.s@))
                    &&& (term_carries_prop_both(tt.p@) ==> prop_indexed(g.dictionary, tt.o@))
                },
            exists|p: RuleProfile|
                #[trigger] saturated_from(g, p, triples@) && is_rhodf_profile(p),
    {
        let profile = RuleProfile::RhoDF();
        let g = InfGraph::new(triples, &profile);
        proof {
            assert(saturated_from(g, profile, triples@) && is_rhodf_profile(profile));
        }
        g
    }

    /// Build a graph with the RDFS-Plus rule profile.
    pub fn new_rdfs_plus(triples: &Vec<TermTriple>) -> (g: InfGraph)
        requires
            triples@.len() < 1_000_000_000,
        ensures
            g.wf(),
            vocab_props_bound(g.dictionary),
            forall|i: int|
                0 <= i < triples@.len() ==> g.term_triple_held(
                    (#[trigger] triples@[i]).s@,
                    triples@[i].p@,
                    triples@[i].o@,
                ),
            forall|x: Seq<char>|
                #[trigger] seq_has_str(g.dictionary.properties@, x) ==> (vocab_prop_term(x)
                    || prop_position_use(triples@, x)),
            forall|i: int|
                0 <= i < triples@.len() ==> {
                    let tt = #[trigger] triples@[i];
                    &&& ((term_carries_prop_subject(tt.p@) || term_carries_prop_both(tt.p@))
                        ==> prop_indexed(g.dictionary, tt.s@))
                    &&& (term_carries_prop_both(tt.p@) ==> prop_indexed(g.dictionary, tt.o@))
                },
            exists|p: RuleProfile|
                #[trigger] saturated_from(g, p, triples@) && is_rdfs_plus_profile(p),
            forall|t: Triple|
                crate::rules::other_rules::tar_sem(g.dictionary, t)
                    ==> #[trigger] g.store.has_triple(t),
    {
        let profile = RuleProfile::RDFSPlus();
        let g = InfGraph::new(triples, &profile);
        proof {
            assert(saturated_from(g, profile, triples@) && is_rdfs_plus_profile(profile));
        }
        g
    }

    /// The property ids declared transitive.
    fn get_tr_idx(&self) -> (r: Vec<u64>)
        requires
            self.store.wf(),
            self.store.all_os(),
        ensures
            forall|q: u64|
                #[trigger] r@.contains(q) <==> (self.store.chunk_at(
                    offset_of(NodeDictionary::RDF_TYPE),
                ).contains(Pair { s: q, o: NodeDictionary::OWL_TRANSITIVE_PROPERTY }) && q
                    < START_INDEX),
    {
        let qs = typed_subjects(&self.store, NodeDictionary::OWL_TRANSITIVE_PROPERTY);
        let mut r: Vec<u64> = Vec::new();
        let mut k: usize = 0;
        while k < qs.len()
            invariant
                k <= qs@.len(),
                forall|q: u64|
                    #[trigger] qs@.contains(q) <==> self.store.chunk_at(
                        offset_of(NodeDictionary::RDF_TYPE),
                    ).contains(Pair { s: q, o: NodeDictionary::OWL_TRANSITIVE_PROPERTY }),
                forall|q: u64|
                    #[trigger] r@.contains(q) ==> (qs@.contains(q) && q < START_INDEX),
                forall|kk: int|
                    0 <= kk < k && (#[trigger] qs@[kk]) < START_INDEX ==> r@.contains(qs@[kk]),
            decreases qs@.len() - k,
        {
            let q = qs[k];
            if q < START_INDEX {
                proof {
                    crate::utils::lemma_push_contains(r@, q);
                    assert(qs@.contains(qs@[k as int]));
                }
                r.push(q);
            }
            k += 1;
        }
        proof {
            assert forall|q: u64|
                #[trigger] r@.contains(q) <==> (self.store.chunk_at(
                    offset_of(NodeDictionary::RDF_TYPE),
                ).contains(Pair { s: q, o: NodeDictionary::OWL_TRANSITIVE_PROPERTY }) && q
                    < START_INDEX) by {
                if self.store.chunk_at(offset_of(NodeDictionary::RDF_TYPE)).contains(
                    Pair { s: q, o: NodeDictionary::OWL_TRANSITIVE_PROPERTY },
                ) && q < START_INDEX {
                    assert(qs@.contains(q));
                    let kk = choose|kk: int| 0 <= kk < qs@.len() && qs@[kk] == q;
                    assert(r@.contains(qs@[kk]));
                }
            }
        }
        r
    }

    /// Run the transitive closures the profile asks for: afterwards,
    /// every pair reachable over an enabled predicate's old pair set is
    /// held under that predicate.
    fn compute_transitive_closures(&mut self, profile: &ClosureProfile)
        requires
            old(self).wf(),
        ensures
            final(self).wf(),
            final(self).dictionary == old(self).dictionary,
            final(self).store.elem@.len() >= old(self).store.elem@.len(),
            forall|t: Triple|
                old(self).store.has_triple(t) ==> #[trigger] final(self).store.has_triple(t),
            profile.on_sco ==> (forall|x: u64, y: u64|
                reachable(
                    old(self).store.chunk_at(offset_of(NodeDictionary::RDFS_SUB_CLASS_OF)),
                    x,
                    y,
                ) ==> #[trigger] final(self).store.has_triple(
                    Triple { s: x, p: NodeDictionary::RDFS_SUB_CLASS_OF, o: y },
                )),
            profile.on_spo ==> (forall|x: u64, y: u64|
                reachable(
                    old(self).store.chunk_at(offset_of(NodeDictionary::RDFS_SUB_PROPERTY_OF)),
                    x,
                    y,
                ) ==> #[trigger] final(self).store.has_triple(
                    Triple { s: x, p: NodeDictionary::RDFS_SUB_PROPERTY_OF, o: y },
                )),
            profile.on_sa ==> (forall|x: u64, y: u64|
                reachable(old(self).store.chunk_at(offset_of(NodeDictionary::OWL_SAME_AS)), x, y)
                    ==> #[trigger] final(self).store.has_triple(
                    Triple { s: x, p: NodeDictionary::OWL_SAME_AS, o: y },
                )),
            profile.on_trp ==> (forall|q: u64, x: u64, y: u64|
                (q < START_INDEX && old(self).store.has_triple(
                    Triple {
                        s: q,
                        p: NodeDictionary::RDF_TYPE,
                        o: NodeDictionary::OWL_TRANSITIVE_PROPERTY,
                    },
                ) && reachable(old(self).store.chunk_at(offset_of(q)), x, y))
                    ==> #[trigger] final(self).store.has_triple(Triple { s: x, p: q, o: y })),
    {
        let ghost s0 = *old(self);
        if profile.on_sco {
            self.closure_on(NodeDictionary::RDFS_SUB_CLASS_OF);
        }
        proof {
            if profile.on_sco {
                assert forall|x: u64, y: u64|
                    reachable(
                        s0.store.chunk_at(offset_of(NodeDictionary::RDFS_SUB_CLASS_OF)),
                        x,
                        y,
                    ) implies #[trigger] self.store.has_triple(
                    Triple { s: x, p: NodeDictionary::RDFS_SUB_CLASS_OF, o: y },
                ) by {}
            }
        }
        let ghost s1 = *self;
        if profile.on_spo {
            proof {
                crate::inferray::store::lemma_has_subset_chunks(s0.store, self.store);
            }
            self.closure_on(NodeDictionary::RDFS_SUB_PROPERTY_OF);
            proof {
                assert forall|x: u64, y: u64|
                    reachable(
                        s0.store.chunk_at(offset_of(NodeDictionary::RDFS_SUB_PROPERTY_OF)),
                        x,
                        y,
                    ) implies #[trigger] self.store.has_triple(
                    Triple { s: x, p: NodeDictionary::RDFS_SUB_PROPERTY_OF, o: y },
                ) by {
                    lemma_reachable_monotone(
                        s0.store.chunk_at(offset_of(NodeDictionary::RDFS_SUB_PROPERTY_OF)),
                        s1.store.chunk_at(offset_of(NodeDictionary::RDFS_SUB_PROPERTY_OF)),
                        x,
                        y,
                    );
                }
            }
        }
        let ghost s2 = *self;
        if profile.on_sa {
            proof {
                crate::inferray::store::lemma_has_subset_chunks(s0.store, self.store);
            }
            self.closure_on(NodeDictionary::OWL_SAME_AS);
            proof {
                assert forall|x: u64, y: u64|
                    reachable(
                        s0.store.chunk_at(offset_of(NodeDictionary::OWL_SAME_AS)),
                        x,
                        y,
                    ) implies #[trigger] self.store.has_triple(
                    Triple { s: x, p: NodeDictionary::OWL_SAME_AS, o: y },
                ) by {
                    lemma_reachable_monotone(
                        s0.store.chunk_at(offset_of(NodeDictionary::OWL_SAME_AS)),
                        s2.store.chunk_at(offset_of(NodeDictionary::OWL_SAME_AS)),
                        x,
                        y,
                    );
                }
            }
        }
        if profile.on_trp {
            self.store.ensure_all_os();
            proof {
                assert forall|t: Triple|
                    s0.store.has_triple(t) implies #[trigger] self.store.has_triple(t) by {}
            }
            let trs = self.get_tr_idx();
            proof {
                crate::inferray::store::lemma_has_subset_chunks(s0.store, self.store);
                assert forall|q: u64|
                    (q < START_INDEX && s0.store.has_triple(
                        Triple {
                            s: q,
                            p: NodeDictionary::RDF_TYPE,
                            o: NodeDictionary::OWL_TRANSITIVE_PROPERTY,
                        },
                    )) implies #[trigger] trs@.contains(q) by {
                    assert(self.store.chunk_at(offset_of(NodeDictionary::RDF_TYPE)).contains(
                        Pair { s: q, o: NodeDictionary::OWL_TRANSITIVE_PROPERTY },
                    ));
                }
            }
            let ghost s3 = *self;
            let mut k: usize = 0;
            while k < trs.len()
                invariant
                    k <= trs@.len(),
                    self.dictionary == old(self).dictionary,
                    self.dictionary.wf(),
                    self.store.wf(),
                    self.store.elem@.len() >= old(self).store.elem@.len(),
                    s0.store.wf(),
                    forall|q: u64| #[trigger] trs@.contains(q) ==> q < START_INDEX,
                    forall|t: Triple|
                        s3.store.has_triple(t) ==> #[trigger] self.store.has_triple(t),
                    forall|t: Triple|
                        old(self).store.has_triple(t) ==> #[trigger] s3.store.has_triple(t),
                    forall|t: Triple|
                        s0.store.has_triple(t) ==> #[trigger] s3.store.has_triple(t),
                    forall|kk: int, x: u64, y: u64|
                        (0 <= kk < k && reachable(
                            s0.store.chunk_at(offset_of(#[trigger] trs@[kk])),
                            x,
                            y,
                        )) ==> #[trigger] self.store.has_triple(
                            Triple { s: x, p: trs@[kk], o: y },
                        ),
                decreases trs@.len() - k,
            {
                proof {
                    assert(trs@.contains(trs@[k as int]));
                    assert forall|t: Triple|
                        s0.store.has_triple(t) implies #[trigger] self.store.has_triple(t) by {
                        assert(s3.store.has_triple(t));
                    }
                    crate::inferray::store::lemma_has_subset_chunks(s0.store, self.store);
                }
                let ghost sk = *self;
                self.closure_on(trs[k]);
                proof {
                    assert forall|x: u64, y: u64|
                        reachable(
                            s0.store.chunk_at(offset_of(trs@[k as int])),
                            x,
                            y,
                        ) implies #[trigger] self.store.has_triple(
                        Triple { s: x, p: trs@[k as int], o: y },
                    ) by {
                        lemma_reachable_monotone(
                            s0.store.chunk_at(offset_of(trs@[k as int])),
                            sk.store.chunk_at(offset_of(trs@[k as int])),
                            x,
                            y,
                        );
                    }
                }
                k += 1;
            }
            proof {
                assert forall|q: u64, x: u64, y: u64|
                    (q < START_INDEX && s0.store.has_triple(
                        Triple {
                            s: q,
                            p: NodeDictionary::RDF_TYPE,
                            o: NodeDictionary::OWL_TRANSITIVE_PROPERTY,
                        },
                    ) && reachable(s0.store.chunk_at(offset_of(q)), x, y))
                    implies #[trigger] self.store.has_triple(Triple { s: x, p: q, o: y }) by {
                    assert(trs@.contains(q));
                    let kk = choose|kk: int| 0 <= kk < trs@.len() && trs@[kk] == q;
                    assert(reachable(s0.store.chunk_at(offset_of(trs@[kk])), x, y));
                }
            }
        }
    }

    /// Replace one predicate's pairs by their transitive closure; every
    /// pair stays present, as a path of one edge.
    fn closure_on(&mut self, p: u64)
        requires
            old(self).wf(),
            p < START_INDEX,
        ensures
            final(self).wf(),
            final(self).dictionary == old(self).dictionary,
            final(self).store.elem@.len() == old(self).store.elem@.len(),
            forall|t: Triple|
                old(self).store.has_triple(t) ==> #[trigger] final(self).store.has_triple(t),
            forall|x: u64, y: u64|
                reachable(old(self).store.chunk_at(offset_of(p)), x, y)
                    ==> #[trigger] final(self).store.has_triple(Triple { s: x, p: p, o: y }),
    {
        self.store.transitive_closure(p);
        proof {
            assert forall|t: Triple|
                old(self).store.has_triple(t) implies #[trigger] final(self).store.has_triple(
                t,
            ) by {
                if t.p == p {
                    assert(reach(old(self).store.chunk_at(offset_of(p)), t.s, t.o, 1)) by {
                        assert(old(self).store.chunk_at(offset_of(p)).contains(
                            Pair { s: t.s, o: t.o },
                        ));
                    }
                    assert(reachable(old(self).store.chunk_at(offset_of(p)), t.s, t.o));
                }
            }
        }
    }

    /// Inject the fixed RDF and RDFS axiomatic triples.
    fn init_axiomatic_triples(&mut self)
        requires
            old(self).wf(),
        ensures
            final(self).wf(),
            final(self).dictionary == old(self).dictionary,
            final(self).store.elem@.len() >= old(self).store.elem@.len(),
            forall|t: Triple|
                #![trigger final(self).store.has_triple(t)]
                final(self).store.has_triple(t) <==> (old(self).store.has_triple(t)
                    || axiomatic_triples().contains(t)),
    {
        let ax = build_axiomatic_triples();
        let delta = TripleStore::new(ax);
        let ghost d = delta;
        merge_into(&mut self.store, &delta);
        proof {
            assert forall|t: Triple|
                final(self).store.has_triple(t) <==> (old(self).store.has_triple(t)
                    || axiomatic_triples().contains(t)) by {
                assert(final(self).store.has_triple(t) <==> (old(self).store.has_triple(t)
                    || d.has_triple(t)));
            }
        }
    }

    /// Saturate the graph under a rule profile: run the requested
    /// closures, the before-rules once, the axioms if asked for, the rule
    /// set to a fixed point, and the finalize pass.  Every triple held
    /// before is still held, so the size never decreases; the enabled
    /// closures, the axiomatic table and the rules' fixed point are all
    /// reflected in an intermediate store below the result, and the
    /// finalize pass types every interned resource.
    pub fn process(&mut self, profile: &RuleProfile)
        requires
            old(self).wf(),
        ensures
            final(self).wf(),
            final(self).dictionary == old(self).dictionary,
            forall|t: Triple|
                old(self).store.has_triple(t) ==> #[trigger] final(self).store.has_triple(t),
            final(self).store.size >= old(self).store.size,
            forall|a: Seq<char>, b: Seq<char>, c: Seq<char>|
                #[trigger] old(self).term_triple_held(a, b, c) ==> final(self).term_triple_held(
                    a,
                    b,
                    c,
                ),
            !profile.after_rules ==> rules_closed(profile.rules.rules@, final(self).store),
            exists|mid: TripleStore|
                #[trigger] rules_closed(profile.rules.rules@, mid) && saturation_mid(
                    old(self).store,
                    final(self).store,
                    *profile,
                    mid,
                ),
            profile.after_rules ==> (forall|t: Triple|
                crate::rules::other_rules::tar_sem(old(self).dictionary, t)
                    ==> #[trigger] final(self).store.has_triple(t)),
    {
        self.compute_transitive_closures(&profile.cl_profile);
        let ghost g1 = *self;
        process_rules(&profile.before_rules, &mut self.store);
        let ghost g2 = *self;
        if profile.axiomatic_triples {
            self.init_axiomatic_triples();
        }
        let ghost g3 = *self;
        profile.rules.process(&mut self.store);
        let ghost g4 = *self;
        if profile.after_rules {
            let out = type_all_resources(&self.dictionary);
            let delta = TripleStore::new(out);
            merge_into(&mut self.store, &delta);
        }
        proof {
            if !profile.after_rules {
                assert(final(self).store == g4.store);
            }
            assert(final(self).store.elem@.len() >= old(self).store.elem@.len());
            assert forall|t: Triple|
                old(self).store.has_triple(t) implies #[trigger] final(self).store.has_triple(
                t,
            ) by {
                assert(g1.store.has_triple(t));
                assert(g2.store.has_triple(t));
                assert(g3.store.has_triple(t));
                assert(g4.store.has_triple(t));
            }
            crate::inferray::store::lemma_has_subset_chunks(
                old(self).store,
                final(self).store,
            );
            lemma_store_growth(old(self).store, final(self).store);
            assert forall|a: Seq<char>, b: Seq<char>, c: Seq<char>|
                #[trigger] old(self).term_triple_held(a, b, c) implies final(self).term_triple_held(
                a,
                b,
                c,
            ) by {}
            // the post-fixpoint store is the saturation waypoint
            assert(rules_closed(profile.rules.rules@, g4.store) && saturation_mid(
                old(self).store,
                final(self).store,
                *profile,
                g4.store,
            )) by {
                assert forall|t: Triple|
                    old(self).store.has_triple(t) implies #[trigger] g4.store.has_triple(t) by {
                    assert(g1.store.has_triple(t));
                    assert(g2.store.has_triple(t));
                    assert(g3.store.has_triple(t));
                }
                if profile.axiomatic_triples {
                    assert forall|t: Triple|
                        axiomatic_triples().contains(t) implies #[trigger] g4.store.has_triple(
                        t,
                    ) by {
                        assert(g3.store.has_triple(t));
                    }
                }
                assert forall|t: Triple|
                    g1.store.has_triple(t) implies #[trigger] g4.store.has_triple(t) by {
                    assert(g2.store.has_triple(t));
                    assert(g3.store.has_triple(t));
                }
            }
            if profile.after_rules {
                assert forall|t: Triple|
                    crate::rules::other_rules::tar_sem(old(self).dictionary, t)
                    implies #[trigger] final(self).store.has_triple(t) by {}
            }
        }
    }

    /// Containment test: whether the graph holds the triple written with
    /// these three terms.
    pub fn contains(&self, s: &str, p: &str, o: &str) -> (r: bool)
        requires
            self.wf(),
        ensures
            r == self.term_triple_held(s@, p@, o@),
    {
        let si = match self.dictionary.get_index(s) {
            Some(v) => v,
            None => {
                return false;
            },
        };
        let pi = match self.dictionary.get_index(p) {
            Some(v) => v,
            None => {
                return false;
            },
        };
        let oi = match self.dictionary.get_index(o) {
            Some(v) => v,
            None => {
                return false;
            },
        };
        if pi >= START_INDEX {
            return false;
        }
        let off = prop_idx_to_offset(pi);
        if off >= self.store.elem().len() {
            return false;
        }
        pairs_contain(self.store.elem()[off].so(), Pair { s: si, o: oi })
    }
}

/// Whether the store `st` holds the triple written with these three
/// terms, as the dictionary `d` reads them.
pub open spec fn holds_terms(
    d: NodeDictionary,
    st: TripleStore,
    ts: Seq<char>,
    tp: Seq<char>,
    to: Seq<char>,
) -> bool {
    match (d.spec_index(ts), d.spec_index(tp), d.spec_index(to)) {
        (Some(si), Some(pi), Some(oi)) => st.has_triple(Triple { s: si, p: pi, o: oi }),
        _ => false,
    }
}

/// A saturation waypoint: a store that holds the input triples, the
/// enabled closures and (if asked for) the axiomatic table, is closed
/// under the profile's rules, and lies below the final store.
pub open spec fn saturation_mid(
    s0: TripleStore,
    s1: TripleStore,
    profile: RuleProfile,
    mid: TripleStore,
) -> bool {
    &&& mid.wf()
    &&& rules_closed(profile.rules.rules@, mid)
    &&& forall|t: Triple| s0.has_triple(t) ==> #[trigger] mid.has_triple(t)
    &&& (profile.axiomatic_triples ==> forall|t: Triple|
        axiomatic_triples().contains(t) ==> #[trigger] mid.has_triple(t))
    &&& (profile.cl_profile.on_sco ==> forall|x: u64, y: u64|
        reachable(s0.chunk_at(offset_of(NodeDictionary::RDFS_SUB_CLASS_OF)), x, y)
            ==> #[trigger] mid.has_triple(
            Triple { s: x, p: NodeDictionary::RDFS_SUB_CLASS_OF, o: y },
        ))
    &&& (profile.cl_profile.on_spo ==> forall|x: u64, y: u64|
        reachable(s0.chunk_at(offset_of(NodeDictionary::RDFS_SUB_PROPERTY_OF)), x, y)
            ==> #[trigger] mid.has_triple(
            Triple { s: x, p: NodeDictionary::RDFS_SUB_PROPERTY_OF, o: y },
        ))
    &&& (profile.cl_profile.on_sa ==> forall|x: u64, y: u64|
        reachable(s0.chunk_at(offset_of(NodeDictionary::OWL_SAME_AS)), x, y)
            ==> #[trigger] mid.has_triple(Triple { s: x, p: NodeDictionary::OWL_SAME_AS, o: y }))
    &&& (profile.cl_profile.on_trp ==> forall|q: u64, x: u64, y: u64|
        (q < START_INDEX && s0.has_triple(
            Triple {
                s: q,
                p: NodeDictionary::RDF_TYPE,
                o: NodeDictionary::OWL_TRANSITIVE_PROPERTY,
            },
        ) && reachable(s0.chunk_at(offset_of(q)), x, y)) ==> #[trigger] mid.has_triple(
            Triple { s: x, p: q, o: y },
        ))
    &&& forall|t: Triple| #[trigger] mid.has_triple(t) ==> s1.has_triple(t)
}

/// The graph is a saturation of the given inputs under the profile:
/// some base store holds every input triple, and some waypoint store
/// above it carries the profile's closures, axioms and rule fixed point,
/// all below the graph's own store.
pub open spec fn saturated_from(g: InfGraph, profile: RuleProfile, inputs: Seq<TermTriple>) -> bool {
    exists|base: TripleStore, mid: TripleStore|
        #![trigger saturation_mid(base, g.store, profile, mid)]
        {
            &&& (forall|i: int|
                0 <= i < inputs.len() ==> holds_terms(
                    g.dictionary,
                    base,
                    (#[trigger] inputs[i]).s@,
                    inputs[i].p@,
                    inputs[i].o@,
                ))
            &&& saturation_mid(base, g.store, profile, mid)
        }
}

/// Whether an optional filter accepts an id.
pub open spec fn filter_accepts(f: Option<u64>, v: u64) -> bool {
    match f {
        Some(x) => x == v,
        None => true,
    }
}

impl InfGraph {
    /// A returned row decodes some held triple that passes the filters.
    pub open spec fn query_row_ok(
        self,
        fs: Option<u64>,
        fp: Option<u64>,
        fo: Option<u64>,
        tt: TermTriple,
    ) -> bool {
        exists|t: Triple|
            #![trigger self.decodes_to(t, tt)]
            {
                &&& self.store.has_triple(t)
                &&& self.ids_valid(t)
                &&& filter_accepts(fs, t.s)
                &&& filter_accepts(fp, t.p)
                &&& filter_accepts(fo, t.o)
                &&& self.decodes_to(t, tt)
            }
    }

    /// Some row of `r` decodes the id triple `t`.
    pub open spec fn has_row(self, r: Seq<TermTriple>, t: Triple) -> bool {
        exists|i: int| #![trigger r[i]] 0 <= i < r.len() && self.decodes_to(t, r[i])
    }

    /// Every held triple that passes the filters and denotes interned
    /// terms appears among the rows.
    pub open spec fn query_complete(
        self,
        fs: Option<u64>,
        fp: Option<u64>,
        fo: Option<u64>,
        r: Seq<TermTriple>,
    ) -> bool {
        forall|t: Triple|
            (#[trigger] self.store.has_triple(t) && self.ids_valid(t) && filter_accepts(fs, t.s)
                && filter_accepts(fp, t.p) && filter_accepts(fo, t.o)) ==> self.has_row(r, t)
    }
}

proof fn lemma_row_kept(g: InfGraph, t: Triple, r1: Seq<TermTriple>, r2: Seq<TermTriple>)
    requires
        r1.len() <= r2.len(),
        forall|i: int| 0 <= i < r1.len() ==> r2[i] == r1[i],
        g.has_row(r1, t),
    ensures
        g.has_row(r2, t),
{
    let i = choose|i: int| #![trigger r1[i]] 0 <= i < r1.len() && g.decodes_to(t, r1[i]);
    assert(r2[i] == r1[i]);
}

impl InfGraph {
    /// Enumerate, as term triples, every held triple whose ids pass the
    /// given subject, predicate and object filters and denote interned
    /// terms.
    fn triples_filtered(&self, fs: Option<u64>, fp: Option<u64>, fo: Option<u64>) -> (r: Vec<
        TermTriple,
    >)
        requires
            self.wf(),
        ensures
            forall|i: int|
                #![trigger r@[i]]
                0 <= i < r@.len() ==> self.query_row_ok(fs, fp, fo, r@[i]),
            self.query_complete(fs, fp, fo, r@),
    {
        let mut r: Vec<TermTriple> = Vec::new();
        let n = self.store.elem().len();
        let mut k: usize = 0;
        while k < n
            invariant
                k <= n,
                n == self.store.elem@.len(),
                self.wf(),
                forall|i: int|
                    #![trigger r@[i]]
                    0 <= i < r@.len() ==> self.query_row_ok(fs, fp, fo, r@[i]),
                forall|t: Triple|
                    (#[trigger] self.store.has_triple(t) && self.ids_valid(t) && filter_accepts(
                        fs,
                        t.s,
                    ) && filter_accepts(fp, t.p) && filter_accepts(fo, t.o) && offset_of(t.p)
                        < k) ==> self.has_row(r@, t),
            decreases n - k,
        {
            let pk = crate::utils::offset_to_prop_idx(k);
            let skip = match fp {
                Some(x) => x != pk,
                None => false,
            };
            if !skip && self.dictionary.has_id(pk) {
                let so = self.store.elem()[k].so();
                let mut j: usize = 0;
                while j < so.len()
                    invariant
                        j <= so@.len(),
                        k < n,
                        n == self.store.elem@.len(),
                        self.wf(),
                        pk == prop_at_offset(k as int),
                        pk < START_INDEX,
                        self.dictionary.valid_id(pk),
                        filter_accepts(fp, pk),
                        so@ == self.store.chunk_at(k as int),
                        forall|i: int|
                            #![trigger r@[i]]
                            0 <= i < r@.len() ==> self.query_row_ok(fs, fp, fo, r@[i]),
                        forall|t: Triple|
                            (#[trigger] self.store.has_triple(t) && self.ids_valid(t)
                                && filter_accepts(fs, t.s) && filter_accepts(fp, t.p)
                                && filter_accepts(fo, t.o) && offset_of(t.p) < k)
                                ==> self.has_row(r@, t),
                        forall|jj: int|
                            0 <= jj < j ==> {
                                let q = #[trigger] so@[jj];
                                (filter_accepts(fs, q.s) && filter_accepts(fo, q.o)
                                    && self.dictionary.valid_id(q.s) && self.dictionary.valid_id(
                                    q.o,
                                )) ==> self.has_row(r@, Triple { s: q.s, p: pk, o: q.o })
                            },
                    decreases so@.len() - j,
                {
                    let q = so[j];
                    let fs_ok = match fs {
                        Some(x) => x == q.s,
                        None => true,
                    };
                    let fo_ok = match fo {
                        Some(x) => x == q.o,
                        None => true,
                    };
                    if fs_ok && fo_ok && self.dictionary.has_id(q.s) && self.dictionary.has_id(
                        q.o,
                    ) {
                        let tt = TermTriple {
                            s: self.dictionary.get_term(q.s).clone(),
                            p: self.dictionary.get_term(pk).clone(),
                            o: self.dictionary.get_term(q.o).clone(),
                        };
                        let ghost t = Triple { s: q.s, p: pk, o: q.o };
                        let ghost oldr = r@;
                        proof {
                            assert(so@.contains(so@[j as int]));
                            assert(self.store.has_triple(t)) by {
                                assert(offset_of(pk) == k);
                            }
                            assert(self.decodes_to(t, tt));
                        }
                        r.push(tt);
                        proof {
                            assert forall|i: int|
                                #![trigger r@[i]]
                                0 <= i < r@.len() implies self.query_row_ok(fs, fp, fo, r@[i]) by {
                                if i < oldr.len() {
                                    assert(r@[i] == oldr[i]);
                                } else {
                                    assert(r@[i] == tt);
                                    assert(self.query_row_ok(fs, fp, fo, tt)) by {
                                        assert(self.decodes_to(t, tt));
                                    }
                                }
                            }
                            assert forall|t2: Triple|
                                (#[trigger] self.store.has_triple(t2) && self.ids_valid(t2)
                                    && filter_accepts(fs, t2.s) && filter_accepts(fp, t2.p)
                                    && filter_accepts(fo, t2.o) && offset_of(t2.p) < k)
                                    implies self.has_row(r@, t2) by {
                                lemma_row_kept(*self, t2, oldr, r@);
                            }
                            assert forall|jj: int|
                                0 <= jj < j + 1 implies {
                                let q2 = #[trigger] so@[jj];
                                (filter_accepts(fs, q2.s) && filter_accepts(fo, q2.o)
                                    && self.dictionary.valid_id(q2.s) && self.dictionary.valid_id(
                                    q2.o,
                                )) ==> self.has_row(r@, Triple { s: q2.s, p: pk, o: q2.o })
                            } by {
                                if jj < j {
                                    let q2 = so@[jj];
                                    if filter_accepts(fs, q2.s) && filter_accepts(fo, q2.o)
                                        && self.dictionary.valid_id(q2.s)
                                        && self.dictionary.valid_id(q2.o) {
                                        lemma_row_kept(
                                            *self,
                                            Triple { s: q2.s, p: pk, o: q2.o },
                                            oldr,
                                            r@,
                                        );
                                    }
                                } else {
                                    assert(self.decodes_to(t, r@[r@.len() - 1]));
                                }
                            }
                        }
                    }
                    j += 1;
                }
            }
            k += 1;
            proof {
                assert forall|t: Triple|
                    (#[trigger] self.store.has_triple(t) && self.ids_valid(t) && filter_accepts(
                        fs,
                        t.s,
                    ) && filter_accepts(fp, t.p) && filter_accepts(fo, t.o) && offset_of(t.p)
                        < k) implies self.has_row(r@, t) by {
                    if offset_of(t.p) == k - 1 {
                        assert(t.p == prop_at_offset(k - 1));
                        assert(self.store.chunk_at(k - 1).contains(Pair { s: t.s, o: t.o }));
                        let jj = choose|jj: int|
                            0 <= jj < self.store.chunk_at(k - 1).len()
                                && (#[trigger] self.store.chunk_at(k - 1)[jj]) == (Pair {
                                s: t.s,
                                o: t.o,
                            });
                    }
                }
            }
        }
        proof {
            assert forall|t: Triple|
                (#[trigger] self.store.has_triple(t) && self.ids_valid(t) && filter_accepts(
                    fs,
                    t.s,
                ) && filter_accepts(fp, t.p) && filter_accepts(fo, t.o)) implies self.has_row(
                r@,
                t,
            ) by {
                assert(offset_of(t.p) < n) by {
                    if offset_of(t.p) >= n {
                        assert(self.store.chunk_at(offset_of(t.p)) =~= Seq::<Pair>::empty());
                    }
                }
            }
        }
        r
    }

    /// Enumerate all triples.
    pub fn triples(&self) -> (r: Vec<TermTriple>)
        requires
            self.wf(),
        ensures
            forall|i: int|
                #![trigger r@[i]]
                0 <= i < r@.len() ==> self.query_row_ok(None, None, None, r@[i]),
            self.query_complete(None, None, None, r@),
    {
        self.triples_filtered(None, None, None)
    }

    /// Enumerate the triples with the given subject.
    pub fn triples_with_s(&self, s: &str) -> (r: Vec<TermTriple>)
        requires
            self.wf(),
        ensures
            self.dictionary.spec_index(s@) is Some ==> forall|i: int|
                #![trigger r@[i]]
                0 <= i < r@.len() ==> self.query_row_ok(
                    self.dictionary.spec_index(s@),
                    None,
                    None,
                    r@[i],
                ),
            self.dictionary.spec_index(s@) is Some ==> self.query_complete(
                self.dictionary.spec_index(s@),
                None,
                None,
                r@,
            ),
            self.dictionary.spec_index(s@) is None ==> r@.len() == 0,
    {
        match self.dictionary.get_index(s) {
            Some(si) => self.triples_filtered(Some(si), None, None),
            None => Vec::new(),
        }
    }

    /// Enumerate the triples with the given predicate.
    pub fn triples_with_p(&self, p: &str) -> (r: Vec<TermTriple>)
        requires
            self.wf(),
        ensures
            self.dictionary.spec_index(p@) is Some ==> forall|i: int|
                #![trigger r@[i]]
                0 <= i < r@.len() ==> self.query_row_ok(
                    None,
                    self.dictionary.spec_index(p@),
                    None,
                    r@[i],
                ),
            self.dictionary.spec_index(p@) is Some ==> self.query_complete(
                None,
                self.dictionary.spec_index(p@),
                None,
                r@,
            ),
            self.dictionary.spec_index(p@) is None ==> r@.len() == 0,
    {
        match self.dictionary.get_index(p) {
            Some(pi) => self.triples_filtered(None, Some(pi), None),
            None => Vec::new(),
        }
    }

    /// Enumerate the triples with the given object.
    pub fn triples_with_o(&self, o: &str) -> (r: Vec<TermTriple>)
        requires
            self.wf(),
        ensures
            self.dictionary.spec_index(o@) is Some ==> forall|i: int|
                #![trigger r@[i]]
                0 <= i < r@.len() ==> self.query_row_ok(
                    None,
                    None,
                    self.dictionary.spec_index(o@),
                    r@[i],
                ),
            self.dictionary.spec_index(o@) is Some ==> self.query_complete(
                None,
                None,
                self.dictionary.spec_index(o@),
                r@,
            ),
            self.dictionary.spec_index(o@) is None ==> r@.len() == 0,
    {
        match self.dictionary.get_index(o) {
            Some(oi) => self.triples_filtered(None, None, Some(oi)),
            None => Vec::new(),
        }
    }

    /// Enumerate the triples with the given subject and predicate.
    pub fn triples_with_sp(&self, s: &str, p: &str) -> (r: Vec<TermTriple>)
        requires
            self.wf(),
        ensures
            (self.dictionary.spec_index(s@) is Some && self.dictionary.spec_index(p@) is Some)
                ==> self.query_complete(
                self.dictionary.spec_index(s@),
                self.dictionary.spec_index(p@),
                None,
                r@,
            ),
            (self.dictionary.spec_index(s@) is Some && self.dictionary.spec_index(p@) is Some)
                ==> forall|i: int|
                #![trigger r@[i]]
                0 <= i < r@.len() ==> self.query_row_ok(
                    self.dictionary.spec_index(s@),
                    self.dictionary.spec_index(p@),
                    None,
                    r@[i],
                ),
            (self.dictionary.spec_index(s@) is None || self.dictionary.spec_index(p@) is None)
                ==> r@.len() == 0,
    {
        match (self.dictionary.get_index(s), self.dictionary.get_index(p)) {
            (Some(si), Some(pi)) => self.triples_filtered(Some(si), Some(pi), None),
            _ => Vec::new(),
        }
    }

    /// Enumerate the triples with the given subject and object.
    pub fn triples_with_so(&self, s: &str, o: &str) -> (r: Vec<TermTriple>)
        requires
            self.wf(),
        ensures
            (self.dictionary.spec_index(s@) is Some && self.dictionary.spec_index(o@) is Some)
                ==> self.query_complete(
                self.dictionary.spec_index(s@),
                None,
                self.dictionary.spec_index(o@),
                r@,
            ),
            (self.dictionary.spec_index(s@) is Some && self.dictionary.spec_index(o@) is Some)
                ==> forall|i: int|
                #![trigger r@[i]]
                0 <= i < r@.len() ==> self.query_row_ok(
                    self.dictionary.spec_index(s@),
                    None,
                    self.dictionary.spec_index(o@),
                    r@[i],
                ),
            (self.dictionary.spec_index(s@) is None || self.dictionary.spec_index(o@) is None)
                ==> r@.len() == 0,
    {
        match (self.dictionary.get_index(s), self.dictionary.get_index(o)) {
            (Some(si), Some(oi)) => self.triples_filtered(Some(si), None, Some(oi)),
            _ => Vec::new(),
        }
    }

    /// Enumerate the triples with the given predicate and object.
    pub fn triples_with_po(&self, p: &str, o: &str) -> (r: Vec<TermTriple>)
        requires
            self.wf(),
        ensures
            (self.dictionary.spec_index(p@) is Some && self.dictionary.spec_index(o@) is Some)
                ==> self.query_complete(
                None,
                self.dictionary.spec_index(p@),
                self.dictionary.spec_index(o@),
                r@,
            ),
            (self.dictionary.spec_index(p@) is Some && self.dictionary.spec_index(o@) is Some)
                ==> forall|i: int|
                #![trigger r@[i]]
                0 <= i < r@.len() ==> self.query_row_ok(
                    None,
                    self.dictionary.spec_index(p@),
                    self.dictionary.spec_index(o@),
                    r@[i],
                ),
            (self.dictionary.spec_index(p@) is None || self.dictionary.spec_index(o@) is None)
                ==> r@.len() == 0,
    {
        match (self.dictionary.get_index(p), self.dictionary.get_index(o)) {
            (Some(pi), Some(oi)) => self.triples_filtered(None, Some(pi), Some(oi)),
            _ => Vec::new(),
        }
    }

    /// The three-part query: zero or one matching triple.
    pub fn triples_with_spo(&self, s: &str, p: &str, o: &str) -> (r: Vec<TermTriple>)
        requires
            self.wf(),
        ensures
            r@.len() <= 1,
            r@.len() == 1 <==> self.term_triple_held(s@, p@, o@),
            r@.len() == 1 ==> (r@[0].s@ == s@ && r@[0].p@ == p@ && r@[0].o@ == o@),
    {
        if self.contains(s, p, o) {
            let mut r: Vec<TermTriple> = Vec::new();
            r.push(TermTriple { s: s.to_owned(), p: p.to_owned(), o: o.to_owned() });
            r
        } else {
            Vec::new()
        }
    }
}

/// The fixed RDF and RDFS axiomatic triples.
pub open spec fn axiomatic_triples() -> Seq<Triple> {
    seq![
        Triple { s: NodeDictionary::RDF_TYPE, p: NodeDictionary::RDF_TYPE, o: NodeDictionary::RDF_PROPERTY },
        Triple { s: NodeDictionary::RDF_SUBJECT, p: NodeDictionary::RDF_TYPE, o: NodeDictionary::RDF_PROPERTY },
        Triple { s: NodeDictionary::RDF_PREDICATE, p: NodeDictionary::RDF_TYPE, o: NodeDictionary::RDF_PROPERTY },
        Triple { s: NodeDictionary::RDF_OBJECT, p: NodeDictionary::RDF_TYPE, o: NodeDictionary::RDF_PROPERTY },
        Triple { s: NodeDictionary::RDF_FIRST, p: NodeDictionary::RDF_TYPE, o: NodeDictionary::RDF_PROPERTY },
        Triple { s: NodeDictionary::RDF_REST, p: NodeDictionary::RDF_TYPE, o: NodeDictionary::RDF_PROPERTY },
        Triple { s: NodeDictionary::RDF_VALUE, p: NodeDictionary::RDF_TYPE, o: NodeDictionary::RDF_PROPERTY },
        Triple { s: NodeDictionary::RDF_1, p: NodeDictionary::RDF_TYPE, o: NodeDictionary::RDF_PROPERTY },
        Triple { s: NodeDictionary::RDF_NIL, p: NodeDictionary::RDF_TYPE, o: NodeDictionary::RDF_LIST },
        Triple { s: NodeDictionary::RDF_TYPE, p: NodeDictionary::RDFS_DOMAIN, o: NodeDictionary::RDFS_RESOURCE },
        Triple { s: NodeDictionary::RDFS_DOMAIN, p: NodeDictionary::RDFS_DOMAIN, o: NodeDictionary::RDF_PROPERTY },
        Triple { s: NodeDictionary::RDFS_RANGE, p: NodeDictionary::RDFS_DOMAIN, o: NodeDictionary::RDF_PROPERTY },
        Triple { s: NodeDictionary::RDFS_SUB_CLASS_OF, p: NodeDictionary::RDFS_DOMAIN, o: NodeDictionary::RDF_PROPERTY },
        Triple { s: NodeDictionary::RDFS_SUB_PROPERTY_OF, p: NodeDictionary::RDFS_DOMAIN, o: NodeDictionary::RDF_PROPERTY },
        Triple { s: NodeDictionary::RDF_SUBJECT, p: NodeDictionary::RDFS_DOMAIN, o: NodeDictionary::RDF_STATEMENT },
        Triple { s: NodeDictionary::RDF_PREDICATE, p: NodeDictionary::RDFS_DOMAIN, o: NodeDictionary::RDF_STATEMENT },
        Triple { s: NodeDictionary::RDF_OBJECT, p: NodeDictionary::RDFS_DOMAIN, o: NodeDictionary::RDF_STATEMENT },
        Triple { s: NodeDictionary::RDFS_MEMBER, p: NodeDictionary::RDFS_DOMAIN, o: NodeDictionary::RDFS_RESOURCE },
        Triple { s: NodeDictionary::RDF_FIRST, p: NodeDictionary::RDFS_DOMAIN, o: NodeDictionary::RDF_LIST },
        Triple { s: NodeDictionary::RDF_REST, p: NodeDictionary::RDFS_DOMAIN, o: NodeDictionary::RDF_LIST },
        Triple { s: NodeDictionary::RDFS_SEE_ALSO, p: NodeDictionary::RDFS_DOMAIN, o: NodeDictionary::RDFS_RESOURCE },
        Triple { s: NodeDictionary::RDFS_IS_DEFINED_BY, p: NodeDictionary::RDFS_DOMAIN, o: NodeDictionary::RDFS_RESOURCE },
        Triple { s: NodeDictionary::RDFS_COMMENT, p: NodeDictionary::RDFS_DOMAIN, o: NodeDictionary::RDFS_RESOURCE },
        Triple { s: NodeDictionary::RDFS_LABEL, p: NodeDictionary::RDFS_DOMAIN, o: NodeDictionary::RDFS_RESOURCE },
        Triple { s: NodeDictionary::RDF_VALUE, p: NodeDictionary::RDFS_DOMAIN, o: NodeDictionary::RDFS_RESOURCE },
        Triple { s: NodeDictionary::RDF_TYPE, p: NodeDictionary::RDFS_RANGE, o: NodeDictionary::RDFS_CLASS },
        Triple { s: NodeDictionary::RDFS_DOMAIN, p: NodeDictionary::RDFS_RANGE, o: NodeDictionary::RDFS_CLASS },
        Triple { s: NodeDictionary::RDFS_RANGE, p: NodeDictionary::RDFS_RANGE, o: NodeDictionary::RDFS_CLASS },
        Triple { s: NodeDictionary::RDFS_SUB_CLASS_OF, p: NodeDictionary::RDFS_RANGE, o: NodeDictionary::RDFS_CLASS },
        Triple { s: NodeDictionary::RDFS_SUB_PROPERTY_OF, p: NodeDictionary::RDFS_RANGE, o: NodeDictionary::RDF_PROPERTY },
        Triple { s: NodeDictionary::RDF_SUBJECT, p: NodeDictionary::RDFS_RANGE, o: NodeDictionary::RDFS_RESOURCE },
        Triple { s: NodeDictionary::RDF_PREDICATE, p: NodeDictionary::RDFS_RANGE, o: NodeDictionary::RDFS_RESOURCE },
        Triple { s: NodeDictionary::RDF_OBJECT, p: NodeDictionary::RDFS_RANGE, o: NodeDictionary::RDFS_RESOURCE },
        Triple { s: NodeDictionary::RDFS_MEMBER, p: NodeDictionary::RDFS_RANGE, o: NodeDictionary::RDFS_RESOURCE },
        Triple { s: NodeDictionary::RDF_FIRST, p: NodeDictionary::RDFS_RANGE, o: NodeDictionary::RDFS_RESOURCE },
        Triple { s: NodeDictionary::RDF_REST, p: NodeDictionary::RDFS_RANGE, o: NodeDictionary::RDF_LIST },
        Triple { s: NodeDictionary::RDFS_SEE_ALSO, p: NodeDictionary::RDFS_RANGE, o: NodeDictionary::RDFS_RESOURCE },
        Triple { s: NodeDictionary::RDFS_IS_DEFINED_BY, p: NodeDictionary::RDFS_RANGE, o: NodeDictionary::RDFS_RESOURCE },
        Triple { s: NodeDictionary::RDFS_COMMENT, p: NodeDictionary::RDFS_RANGE, o: NodeDictionary::RDFS_LITERAL },
        Triple { s: NodeDictionary::RDFS_LABEL, p: NodeDictionary::RDFS_RANGE, o: NodeDictionary::RDFS_LITERAL },
        Triple { s: NodeDictionary::RDF_VALUE, p: NodeDictionary::RDFS_RANGE, o: NodeDictionary::RDFS_RESOURCE },
        Triple { s: NodeDictionary::RDF_ALT, p: NodeDictionary::RDFS_SUB_CLASS_OF, o: NodeDictionary::RDFS_CONTAINER },
        Triple { s: NodeDictionary::RDF_BAG, p: NodeDictionary::RDFS_SUB_CLASS_OF, o: NodeDictionary::RDFS_CONTAINER },
        Triple { s: NodeDictionary::RDF_SEQ, p: NodeDictionary::RDFS_SUB_CLASS_OF, o: NodeDictionary::RDFS_CONTAINER },
        Triple { s: NodeDictionary::RDFS_CONTAINER_MEMBERSHIP_PROPERTY, p: NodeDictionary::RDFS_SUB_CLASS_OF, o: NodeDictionary::RDF_PROPERTY },
        Triple { s: NodeDictionary::RDF_1, p: NodeDictionary::RDF_TYPE, o: NodeDictionary::RDFS_CONTAINER_MEMBERSHIP_PROPERTY },
        Triple { s: NodeDictionary::RDF_1, p: NodeDictionary::RDFS_DOMAIN, o: NodeDictionary::RDFS_RESOURCE },
        Triple { s: NodeDictionary::RDF_1, p: NodeDictionary::RDFS_RANGE, o: NodeDictionary::RDFS_RESOURCE },
        Triple { s: NodeDictionary::RDFS_IS_DEFINED_BY, p: NodeDictionary::RDFS_SUB_PROPERTY_OF, o: NodeDictionary::RDFS_SEE_ALSO },
        Triple { s: NodeDictionary::RDF_XML_LITERAL, p: NodeDictionary::RDF_TYPE, o: NodeDictionary::RDFS_DATATYPE },
        Triple { s: NodeDictionary::RDF_XML_LITERAL, p: NodeDictionary::RDFS_SUB_CLASS_OF, o: NodeDictionary::RDFS_LITERAL },
        Triple { s: NodeDictionary::RDFS_DATATYPE, p: NodeDictionary::RDFS_SUB_CLASS_OF, o: NodeDictionary::RDFS_CLASS },
        Triple { s: NodeDictionary::XSD_NON_NEGATIVE_INTEGER, p: NodeDictionary::RDF_TYPE, o: NodeDictionary::RDFS_DATATYPE },
        Triple { s: NodeDictionary::XSD_STRING, p: NodeDictionary::RDF_TYPE, o: NodeDictionary::RDFS_DATATYPE },
        Triple { s: NodeDictionary::RDF_TYPE, p: NodeDictionary::RDFS_SUB_PROPERTY_OF, o: NodeDictionary::RDF_TYPE },
        Triple { s: NodeDictionary::RDFS_DOMAIN, p: NodeDictionary::RDFS_SUB_PROPERTY_OF, o: NodeDictionary::RDFS_DOMAIN },
        Triple { s: NodeDictionary::RDFS_RANGE, p: NodeDictionary::RDFS_SUB_PROPERTY_OF, o: NodeDictionary::RDFS_RANGE },
        Triple { s: NodeDictionary::RDFS_SUB_PROPERTY_OF, p: NodeDictionary::RDFS_SUB_PROPERTY_OF, o: NodeDictionary::RDFS_SUB_PROPERTY_OF },
        Triple { s: NodeDictionary::RDFS_SUB_CLASS_OF, p: NodeDictionary::RDFS_SUB_PROPERTY_OF, o: NodeDictionary::RDFS_SUB_CLASS_OF },
    ]
}

/// Build the axiomatic triple table.
#[verifier::rlimit(100)]
fn build_axiomatic_triples() -> (r: Vec<Triple>)
    ensures
        r@ == axiomatic_triples(),
        forall|i: int| 0 <= i < r@.len() ==> (#[trigger] r@[i]).p < START_INDEX,
{
    let mut r: Vec<Triple> = Vec::new();
    r.push(Triple { s: NodeDictionary::RDF_TYPE, p: NodeDictionary::RDF_TYPE, o: NodeDictionary::RDF_PROPERTY });
    r.push(Triple { s: NodeDictionary::RDF_SUBJECT, p: NodeDictionary::RDF_TYPE, o: NodeDictionary::RDF_PROPERTY });
    r.push(Triple { s: NodeDictionary::RDF_PREDICATE, p: NodeDictionary::RDF_TYPE, o: NodeDictionary::RDF_PROPERTY });
    r.push(Triple { s: NodeDictionary::RDF_OBJECT, p: NodeDictionary::RDF_TYPE, o: NodeDictionary::RDF_PROPERTY });
    r.push(Triple { s: NodeDictionary::RDF_FIRST, p: NodeDictionary::RDF_TYPE, o: NodeDictionary::RDF_PROPERTY });
    r.push(Triple { s: NodeDictionary::RDF_REST, p: NodeDictionary::RDF_TYPE, o: NodeDictionary::RDF_PROPERTY });
    r.push(Triple { s: NodeDictionary::RDF_VALUE, p: NodeDictionary::RDF_TYPE, o: NodeDictionary::RDF_PROPERTY });
    r.push(Triple { s: NodeDictionary::RDF_1, p: NodeDictionary::RDF_TYPE, o: NodeDictionary::RDF_PROPERTY });
    r.push(Triple { s: NodeDictionary::RDF_NIL, p: NodeDictionary::RDF_TYPE, o: NodeDictionary::RDF_LIST });
    r.push(Triple { s: NodeDictionary::RDF_TYPE, p: NodeDictionary::RDFS_DOMAIN, o: NodeDictionary::RDFS_RESOURCE });
    r.push(Triple { s: NodeDictionary::RDFS_DOMAIN, p: NodeDictionary::RDFS_DOMAIN, o: NodeDictionary::RDF_PROPERTY });
    r.push(Triple { s: NodeDictionary::RDFS_RANGE, p: NodeDictionary::RDFS_DOMAIN, o: NodeDictionary::RDF_PROPERTY });
    r.push(Triple { s: NodeDictionary::RDFS_SUB_CLASS_OF, p: NodeDictionary::RDFS_DOMAIN, o: NodeDictionary::RDF_PROPERTY });
    r.push(Triple { s: NodeDictionary::RDFS_SUB_PROPERTY_OF, p: NodeDictionary::RDFS_DOMAIN, o: NodeDictionary::RDF_PROPERTY });
    r.push(Triple { s: NodeDictionary::RDF_SUBJECT, p: NodeDictionary::RDFS_DOMAIN, o: NodeDictionary::RDF_STATEMENT });
    r.push(Triple { s: NodeDictionary::RDF_PREDICATE, p: NodeDictionary::RDFS_DOMAIN, o: NodeDictionary::RDF_STATEMENT });
    r.push(Triple { s: NodeDictionary::RDF_OBJECT, p: NodeDictionary::RDFS_DOMAIN, o: NodeDictionary::RDF_STATEMENT });
    r.push(Triple { s: NodeDictionary::RDFS_MEMBER, p: NodeDictionary::RDFS_DOMAIN, o: NodeDictionary::RDFS_RESOURCE });
    r.push(Triple { s: NodeDictionary::RDF_FIRST, p: NodeDictionary::RDFS_DOMAIN, o: NodeDictionary::RDF_LIST });
    r.push(Triple { s: NodeDictionary::RDF_REST, p: NodeDictionary::RDFS_DOMAIN, o: NodeDictionary::RDF_LIST });
    r.push(Triple { s: NodeDictionary::RDFS_SEE_ALSO, p: NodeDictionary::RDFS_DOMAIN, o: NodeDictionary::RDFS_RESOURCE });
    r.push(Triple { s: NodeDictionary::RDFS_IS_DEFINED_BY, p: NodeDictionary::RDFS_DOMAIN, o: NodeDictionary::RDFS_RESOURCE });
    r.push(Triple { s: NodeDictionary::RDFS_COMMENT, p: NodeDictionary::RDFS_DOMAIN, o: NodeDictionary::RDFS_RESOURCE });
    r.push(Triple { s: NodeDictionary::RDFS_LABEL, p: NodeDictionary::RDFS_DOMAIN, o: NodeDictionary::RDFS_RESOURCE });
    r.push(Triple { s: NodeDictionary::RDF_VALUE, p: NodeDictionary::RDFS_DOMAIN, o: NodeDictionary::RDFS_RESOURCE });
    r.push(Triple { s: NodeDictionary::RDF_TYPE, p: NodeDictionary::RDFS_RANGE, o: NodeDictionary::RDFS_CLASS });
    r.push(Triple { s: NodeDictionary::RDFS_DOMAIN, p: NodeDictionary::RDFS_RANGE, o: NodeDictionary::RDFS_CLASS });
    r.push(Triple { s: NodeDictionary::RDFS_RANGE, p: NodeDictionary::RDFS_RANGE, o: NodeDictionary::RDFS_CLASS });
    r.push(Triple { s: NodeDictionary::RDFS_SUB_CLASS_OF, p: NodeDictionary::RDFS_RANGE, o: NodeDictionary::RDFS_CLASS });
    r.push(Triple { s: NodeDictionary::RDFS_SUB_PROPERTY_OF, p: NodeDictionary::RDFS_RANGE, o: NodeDictionary::RDF_PROPERTY });
    r.push(Triple { s: NodeDictionary::RDF_SUBJECT, p: NodeDictionary::RDFS_RANGE, o: NodeDictionary::RDFS_RESOURCE });
    r.push(Triple { s: NodeDictionary::RDF_PREDICATE, p: NodeDictionary::RDFS_RANGE, o: NodeDictionary::RDFS_RESOURCE });
    r.push(Triple { s: NodeDictionary::RDF_OBJECT, p: NodeDictionary::RDFS_RANGE, o: NodeDictionary::RDFS_RESOURCE });
    r.push(Triple { s: NodeDictionary::RDFS_MEMBER, p: NodeDictionary::RDFS_RANGE, o: NodeDictionary::RDFS_RESOURCE });
    r.push(Triple { s: NodeDictionary::RDF_FIRST, p: NodeDictionary::RDFS_RANGE, o: NodeDictionary::RDFS_RESOURCE });
    r.push(Triple { s: NodeDictionary::RDF_REST, p: NodeDictionary::RDFS_RANGE, o: NodeDictionary::RDF_LIST });
    r.push(Triple { s: NodeDictionary::RDFS_SEE_ALSO, p: NodeDictionary::RDFS_RANGE, o: NodeDictionary::RDFS_RESOURCE });
    r.push(Triple { s: NodeDictionary::RDFS_IS_DEFINED_BY, p: NodeDictionary::RDFS_RANGE, o: NodeDictionary::RDFS_RESOURCE });
    r.push(Triple { s: NodeDictionary::RDFS_COMMENT, p: NodeDictionary::RDFS_RANGE, o: NodeDictionary::RDFS_LITERAL });
    r.push(Triple { s: NodeDictionary::RDFS_LABEL, p: NodeDictionary::RDFS_RANGE, o: NodeDictionary::RDFS_LITERAL });
    r.push(Triple { s: NodeDictionary::RDF_VALUE, p: NodeDictionary::RDFS_RANGE, o: NodeDictionary::RDFS_RESOURCE });
    r.push(Triple { s: NodeDictionary::RDF_ALT, p: NodeDictionary::RDFS_SUB_CLASS_OF, o: NodeDictionary::RDFS_CONTAINER });
    r.push(Triple { s: NodeDictionary::RDF_BAG, p: NodeDictionary::RDFS_SUB_CLASS_OF, o: NodeDictionary::RDFS_CONTAINER });
    r.push(Triple { s: NodeDictionary::RDF_SEQ, p: NodeDictionary::RDFS_SUB_CLASS_OF, o: NodeDictionary::RDFS_CONTAINER });
    r.push(Triple { s: NodeDictionary::RDFS_CONTAINER_MEMBERSHIP_PROPERTY, p: NodeDictionary::RDFS_SUB_CLASS_OF, o: NodeDictionary::RDF_PROPERTY });
    r.push(Triple { s: NodeDictionary::RDF_1, p: NodeDictionary::RDF_TYPE, o: NodeDictionary::RDFS_CONTAINER_MEMBERSHIP_PROPERTY });
    r.push(Triple { s: NodeDictionary::RDF_1, p: NodeDictionary::RDFS_DOMAIN, o: NodeDictionary::RDFS_RESOURCE });
    r.push(Triple { s: NodeDictionary::RDF_1, p: NodeDictionary::RDFS_RANGE, o: NodeDictionary::RDFS_RESOURCE });
    r.push(Triple { s: NodeDictionary::RDFS_IS_DEFINED_BY, p: NodeDictionary::RDFS_SUB_PROPERTY_OF, o: NodeDictionary::RDFS_SEE_ALSO });
    r.push(Triple { s: NodeDictionary::RDF_XML_LITERAL, p: NodeDictionary::RDF_TYPE, o: NodeDictionary::RDFS_DATATYPE });
    r.push(Triple { s: NodeDictionary::RDF_XML_LITERAL, p: NodeDictionary::RDFS_SUB_CLASS_OF, o: NodeDictionary::RDFS_LITERAL });
    r.push(Triple { s: NodeDictionary::RDFS_DATATYPE, p: NodeDictionary::RDFS_SUB_CLASS_OF, o: NodeDictionary::RDFS_CLASS });
    r.push(Triple { s: NodeDictionary::XSD_NON_NEGATIVE_INTEGER, p: NodeDictionary::RDF_TYPE, o: NodeDictionary::RDFS_DATATYPE });
    r.push(Triple { s: NodeDictionary::XSD_STRING, p: NodeDictionary::RDF_TYPE, o: NodeDictionary::RDFS_DATATYPE });
    r.push(Triple { s: NodeDictionary::RDF_TYPE, p: NodeDictionary::RDFS_SUB_PROPERTY_OF, o: NodeDictionary::RDF_TYPE });
    r.push(Triple { s: NodeDictionary::RDFS_DOMAIN, p: NodeDictionary::RDFS_SUB_PROPERTY_OF, o: NodeDictionary::RDFS_DOMAIN });
    r.push(Triple { s: NodeDictionary::RDFS_RANGE, p: NodeDictionary::RDFS_SUB_PROPERTY_OF, o: NodeDictionary::RDFS_RANGE });
    r.push(Triple { s: NodeDictionary::RDFS_SUB_PROPERTY_OF, p: NodeDictionary::RDFS_SUB_PROPERTY_OF, o: NodeDictionary::RDFS_SUB_PROPERTY_OF });
    r.push(Triple { s: NodeDictionary::RDFS_SUB_CLASS_OF, p: NodeDictionary::RDFS_SUB_PROPERTY_OF, o: NodeDictionary::RDFS_SUB_CLASS_OF });
    proof {
        assert(r@ =~= axiomatic_triples());
    }
    r
}

} // verus!
