//! Tests for the transitive closure, the dictionary, the store, and the
//! saturation invariants.

use inferrust::{graph_tc, InfGraph, NodeDictionary, Pair, RuleProfile, TermTriple, Triple, TripleStore};

fn pairs(v: &[(u64, u64)]) -> Vec<Pair> {
    v.iter().map(|&(s, o)| Pair { s, o }).collect()
}

fn t(s: &str, p: &str, o: &str) -> TermTriple {
    TermTriple { s: s.to_string(), p: p.to_string(), o: o.to_string() }
}

#[test]
fn closure_of_a_chain() {
    let edges = pairs(&[(1, 2), (2, 3)]);
    let closed = graph_tc(&edges);
    assert!(closed.contains(&Pair { s: 1, o: 2 }));
    assert!(closed.contains(&Pair { s: 2, o: 3 }));
    assert!(closed.contains(&Pair { s: 1, o: 3 }));
    // no reflexive pairs without a cycle
    assert!(!closed.contains(&Pair { s: 1, o: 1 }));
    assert_eq!(closed.len(), 3);
}

#[test]
fn closure_of_a_cycle() {
    let edges = pairs(&[(1, 2), (2, 1)]);
    let closed = graph_tc(&edges);
    // nodes on a cycle reach themselves
    assert!(closed.contains(&Pair { s: 1, o: 1 }));
    assert!(closed.contains(&Pair { s: 2, o: 2 }));
    assert!(closed.contains(&Pair { s: 1, o: 2 }));
    assert!(closed.contains(&Pair { s: 2, o: 1 }));
}

#[test]
fn closure_of_empty() {
    let edges: Vec<Pair> = Vec::new();
    assert!(graph_tc(&edges).is_empty());
}

#[test]
fn dictionary_is_inverse() {
    let mut d = NodeDictionary::new();
    let enc = d.encode_triple(
        "http://example.org/bart",
        "http://example.org/mother",
        "http://example.org/marge",
    );
    // property ids sit below the boundary, resources above it
    assert!(enc.p < NodeDictionary::START_INDEX);
    assert!(enc.s > NodeDictionary::START_INDEX);
    assert!(enc.o > NodeDictionary::START_INDEX);
    let ps = d.get_term(enc.p).clone();
    let ss = d.get_term(enc.s).clone();
    let os = d.get_term(enc.o).clone();
    assert_eq!(d.get_index(&ps), Some(enc.p));
    assert_eq!(d.get_index(&ss), Some(enc.s));
    assert_eq!(d.get_index(&os), Some(enc.o));
    assert_eq!(d.get_index("http://example.org/unknown"), None);
}

#[test]
fn dictionary_promotes_resources() {
    let mut d = NodeDictionary::new();
    // :p is first seen as an object, then used as a predicate
    let first = d.encode_triple("http://example.org/s", "http://example.org/q", "http://example.org/p");
    let second = d.encode_triple("http://example.org/a", "http://example.org/p", "http://example.org/b");
    assert!(first.o > NodeDictionary::START_INDEX);
    assert!(second.p < NodeDictionary::START_INDEX);
    assert!(d.was_remapped(first.o));
    // the lookup now answers with the property id
    assert_eq!(d.get_index("http://example.org/p"), Some(second.p));
}

#[test]
fn store_holds_and_merges() {
    let p = NodeDictionary::RDF_TYPE;
    let a = NodeDictionary::START_INDEX + 100;
    let b = NodeDictionary::START_INDEX + 101;
    let st1 = TripleStore::new(vec![Triple { s: a, p, o: b }]);
    let mut st2 = TripleStore::new(vec![Triple { s: b, p, o: a }]);
    assert_eq!(st1.size(), 1);
    st2.merge(&st1);
    assert_eq!(st2.size(), 2);
    // every chunk stays sorted and duplicate-free
    for c in st2.elem() {
        assert!(c.is_sorted());
    }
    // merging the same triples again changes nothing
    st2.merge(&st1);
    assert_eq!(st2.size(), 2);
}

#[test]
fn graph_round_trip() {
    let input = vec![
        t("http://example.org/a", "http://example.org/p", "http://example.org/b"),
        t("http://example.org/c", "http://example.org/p", "http://example.org/d"),
    ];
    let g = InfGraph::new_unprocessed(&input);
    for tr in &input {
        assert!(g.contains(&tr.s, &tr.p, &tr.o));
    }
    assert!(!g.contains("http://example.org/b", "http://example.org/p", "http://example.org/a"));
}

#[test]
fn size_is_monotone_across_passes() {
    let input = vec![
        t(
            "http://example.org/mother",
            "http://www.w3.org/2000/01/rdf-schema#domain",
            "http://example.org/Person",
        ),
        t("http://example.org/bart", "http://example.org/mother", "http://example.org/marge"),
    ];
    let mut g = InfGraph::new_unprocessed(&input);
    let s0 = g.size();
    g.process(&RuleProfile::RhoDF());
    let s1 = g.size();
    assert!(s1 >= s0);
    g.process(&RuleProfile::RhoDF());
    let s2 = g.size();
    assert!(s2 >= s1);
}

#[test]
fn saturation_reaches_a_fixed_point() {
    let input = vec![
        t(
            "http://example.org/mother",
            "http://www.w3.org/2000/01/rdf-schema#domain",
            "http://example.org/Person",
        ),
        t("http://example.org/bart", "http://example.org/mother", "http://example.org/marge"),
    ];
    let mut g = InfGraph::new_unprocessed(&input);
    g.process(&RuleProfile::RhoDF());
    let s1 = g.size();
    // the resource-typing before-rule sees its own output as new
    // statements once, so a second pass may still grow the store; after
    // that, repeated passes change nothing
    g.process(&RuleProfile::RhoDF());
    let s2 = g.size();
    assert!(s2 >= s1);
    g.process(&RuleProfile::RhoDF());
    assert_eq!(g.size(), s2);
}

#[test]
fn profiles_are_named() {
    assert_eq!(RuleProfile::RDFS().name(), "RDFS");
    assert_eq!(RuleProfile::RhoDF().name(), "RHODF");
    assert_eq!(RuleProfile::RDFSPlus().name(), "RDFSPLUS");
}

#[test]
fn queries_by_term() {
    let input = vec![
        t("http://example.org/a", "http://example.org/p", "http://example.org/b"),
        t("http://example.org/a", "http://example.org/q", "http://example.org/c"),
        t("http://example.org/d", "http://example.org/p", "http://example.org/b"),
    ];
    let g = InfGraph::new_unprocessed(&input);
    assert_eq!(g.triples().len(), 3);
    assert_eq!(g.triples_with_s("http://example.org/a").len(), 2);
    assert_eq!(g.triples_with_p("http://example.org/p").len(), 2);
    assert_eq!(g.triples_with_o("http://example.org/b").len(), 2);
    assert_eq!(
        g.triples_with_sp("http://example.org/a", "http://example.org/p").len(),
        1
    );
    assert_eq!(
        g.triples_with_so("http://example.org/a", "http://example.org/b").len(),
        1
    );
    assert_eq!(
        g.triples_with_po("http://example.org/p", "http://example.org/b").len(),
        2
    );
    let hit = g.triples_with_spo(
        "http://example.org/a",
        "http://example.org/p",
        "http://example.org/b",
    );
    assert_eq!(hit.len(), 1);
    assert_eq!(hit[0].s, "http://example.org/a");
    assert!(g
        .triples_with_spo("http://example.org/b", "http://example.org/p", "http://example.org/a")
        .is_empty());
    assert!(g.triples_with_s("http://example.org/nothere").is_empty());
}

#[test]
fn chunk_operations() {
    let mut c = inferrust::Chunk::from_pairs(pairs(&[(3, 1), (1, 2), (3, 1)]));
    assert_eq!(c.so(), &pairs(&[(1, 2), (3, 1)]));
    assert_eq!(c.len(), 2);
    assert!(!c.is_empty());
    assert!(c.is_sorted());
    c.add_pairs(&pairs(&[(2, 2), (1, 2)]));
    assert_eq!(c.so(), &pairs(&[(1, 2), (2, 2), (3, 1)]));
    let other = inferrust::Chunk::from_pairs(pairs(&[(0, 9), (2, 2)]));
    c.merge(other);
    assert_eq!(c.so(), &pairs(&[(0, 9), (1, 2), (2, 2), (3, 1)]));
    c.ensure_os();
    assert_eq!(c.os(), &pairs(&[(1, 3), (2, 1), (2, 2), (9, 0)]));
    let e = inferrust::Chunk::empty();
    assert!(e.is_empty());
}

#[test]
fn store_low_level_insertion() {
    let mut st = TripleStore::new(Vec::new());
    assert_eq!(st.size(), 0);
    let p = NodeDictionary::RDF_TYPE;
    let off = NodeDictionary::prop_idx_to_offset(p);
    st.ensure_prop(off);
    st.add_triple_raw(NodeDictionary::START_INDEX + 7, off, NodeDictionary::START_INDEX + 8);
    assert_eq!(st.size(), 1);
    // a duplicate insertion leaves the store unchanged
    st.add_triple_raw(NodeDictionary::START_INDEX + 7, off, NodeDictionary::START_INDEX + 8);
    assert_eq!(st.size(), 1);
    st.add_all(vec![vec![Triple {
        s: NodeDictionary::START_INDEX + 9,
        p,
        o: NodeDictionary::START_INDEX + 8,
    }]]);
    assert_eq!(st.size(), 2);
    assert_eq!(NodeDictionary::offset_to_prop_idx(off), p);
}

#[test]
fn dictionary_counters() {
    let mut d = NodeDictionary::new();
    let before = d.get_res_ctr();
    d.encode_triple("http://example.org/x", "http://example.org/p", "http://example.org/y");
    assert_eq!(d.get_res_ctr(), before + 2);
    assert!(!d.was_remapped(before + 1));
}

#[test]
fn saturating_the_empty_graph() {
    let empty: Vec<TermTriple> = Vec::new();
    let mut g = InfGraph::new_unprocessed(&empty);
    assert_eq!(g.size(), 0);
    g.process(&RuleProfile::RhoDF());
    assert_eq!(g.size(), 0);
    // RDFS-Plus runs the finalize pass, which types each of the fifteen
    // reserved vocabulary resources as rdfs:Resource
    let g2 = InfGraph::new_rdfs_plus(&empty);
    assert_eq!(g2.size(), 15);
}

#[test]
fn axiomatic_triples_are_injected() {
    let empty: Vec<TermTriple> = Vec::new();
    let g = InfGraph::new_rdfs(&empty);
    // the RDFS profile injects the fixed axiomatic table
    assert!(g.contains(
        "http://www.w3.org/1999/02/22-rdf-syntax-ns#type",
        "http://www.w3.org/1999/02/22-rdf-syntax-ns#type",
        "http://www.w3.org/1999/02/22-rdf-syntax-ns#Property",
    ));
    assert!(g.contains(
        "http://www.w3.org/2000/01/rdf-schema#isDefinedBy",
        "http://www.w3.org/2000/01/rdf-schema#subPropertyOf",
        "http://www.w3.org/2000/01/rdf-schema#seeAlso",
    ));
    assert!(g.size() > 0);
}

#[test]
fn duplicate_inputs_collapse() {
    let input = vec![
        t("http://example.org/a", "http://example.org/p", "http://example.org/b"),
        t("http://example.org/a", "http://example.org/p", "http://example.org/b"),
        t("http://example.org/c", "http://example.org/p", "http://example.org/b"),
    ];
    let g = InfGraph::new_unprocessed(&input);
    assert_eq!(g.size(), 2);
}
