//! Saturation tests: one per rule, plus combined scenarios.

use inferrust::{InfGraph, RuleProfile, TermTriple};

fn ex(n: &str) -> String {
    format!("http://example.org/{}", n)
}

fn s_ns(n: &str) -> String {
    format!("http://schema.org/{}", n)
}

fn rdf(n: &str) -> String {
    format!("http://www.w3.org/1999/02/22-rdf-syntax-ns#{}", n)
}

fn rdfs(n: &str) -> String {
    format!("http://www.w3.org/2000/01/rdf-schema#{}", n)
}

fn owl(n: &str) -> String {
    format!("http://www.w3.org/2002/07/owl#{}", n)
}

fn t(s: &str, p: &str, o: &str) -> TermTriple {
    TermTriple { s: s.to_string(), p: p.to_string(), o: o.to_string() }
}

/// Saturate `input` under each profile and check that the input and the
/// expected triples are all contained.
fn check_infer(input: Vec<TermTriple>, expected: Vec<TermTriple>, profiles: Vec<RuleProfile>) {
    for profile in &profiles {
        let g = InfGraph::new(&input, profile);
        for tr in &input {
            assert!(
                g.contains(&tr.s, &tr.p, &tr.o),
                "profile {}: missing input triple {} {} {}",
                profile.name(),
                tr.s,
                tr.p,
                tr.o
            );
        }
        for tr in &expected {
            assert!(
                g.contains(&tr.s, &tr.p, &tr.o),
                "profile {}: missing inferred triple {} {} {}",
                profile.name(),
                tr.s,
                tr.p,
                tr.o
            );
        }
    }
}

#[test]
fn cax_eqc1() {
    check_infer(
        vec![
            t(&ex("Person"), &owl("equivalentClass"), &s_ns("Person")),
            t(&ex("bart"), &rdf("type"), &ex("Person")),
        ],
        vec![t(&ex("bart"), &rdf("type"), &s_ns("Person"))],
        vec![RuleProfile::RDFSPlus()],
    );
}

#[test]
fn cax_eqc2() {
    check_infer(
        vec![
            t(&ex("Person"), &owl("equivalentClass"), &s_ns("Person")),
            t(&ex("bart"), &rdf("type"), &s_ns("Person")),
        ],
        vec![t(&ex("bart"), &rdf("type"), &ex("Person"))],
        vec![RuleProfile::RDFSPlus()],
    );
}

#[test]
fn eq_rep_o() {
    check_infer(
        vec![
            t(&ex("o1"), &owl("sameAs"), &ex("o2")),
            t(&ex("s1"), &ex("p1"), &ex("o1")),
        ],
        vec![t(&ex("s1"), &ex("p1"), &ex("o2"))],
        vec![RuleProfile::RDFSPlus()],
    );
}

#[test]
fn eq_rep_s() {
    check_infer(
        vec![
            t(&ex("s1"), &owl("sameAs"), &ex("s2")),
            t(&ex("s1"), &ex("p1"), &ex("o1")),
        ],
        vec![t(&ex("s2"), &ex("p1"), &ex("o1"))],
        vec![RuleProfile::RDFSPlus()],
    );
}

#[test]
fn eq_sym() {
    check_infer(
        vec![t(&ex("o1"), &owl("sameAs"), &ex("o2"))],
        vec![t(&ex("o2"), &owl("sameAs"), &ex("o1"))],
        vec![RuleProfile::RDFSPlus()],
    );
}

#[test]
fn eq_trans() {
    check_infer(
        vec![
            t(&ex("o1"), &owl("sameAs"), &ex("o2")),
            t(&ex("o2"), &owl("sameAs"), &ex("o3")),
        ],
        vec![t(&ex("o1"), &owl("sameAs"), &ex("o3"))],
        vec![RuleProfile::RDFSPlus()],
    );
}

#[test]
fn prp_dom() {
    check_infer(
        vec![
            t(&ex("mother"), &rdfs("domain"), &ex("Person")),
            t(&ex("bart"), &ex("mother"), &ex("marge")),
        ],
        vec![t(&ex("bart"), &rdf("type"), &ex("Person"))],
        vec![RuleProfile::RDFS(), RuleProfile::RhoDF(), RuleProfile::RDFSPlus()],
    );
}

#[test]
fn prp_eqp1() {
    check_infer(
        vec![
            t(&ex("parent"), &owl("equivalentProperty"), &s_ns("parent")),
            t(&ex("bart"), &ex("parent"), &ex("marge")),
        ],
        vec![t(&ex("bart"), &s_ns("parent"), &ex("marge"))],
        vec![RuleProfile::RDFSPlus()],
    );
}

#[test]
fn prp_eqp2() {
    check_infer(
        vec![
            t(&ex("parent"), &owl("equivalentProperty"), &s_ns("parent")),
            t(&ex("bart"), &s_ns("parent"), &ex("marge")),
        ],
        vec![t(&ex("bart"), &ex("parent"), &ex("marge"))],
        vec![RuleProfile::RDFSPlus()],
    );
}

#[test]
fn prp_fp() {
    check_infer(
        vec![
            t(&ex("mother"), &rdf("type"), &owl("FunctionalProperty")),
            t(&ex("bart"), &ex("mother"), &ex("marge")),
            t(
                &ex("bart"),
                &ex("mother"),
                "http://dbpedia.org/page/Marge_Simpson",
            ),
        ],
        vec![
            t(
                &ex("marge"),
                &owl("sameAs"),
                "http://dbpedia.org/page/Marge_Simpson",
            ),
            t(
                "http://dbpedia.org/page/Marge_Simpson",
                &owl("sameAs"),
                &ex("marge"),
            ),
        ],
        vec![RuleProfile::RDFSPlus()],
    );
}

#[test]
fn prp_ifp() {
    check_infer(
        vec![
            t(&ex("ssn"), &rdf("type"), &owl("InverseFunctionalProperty")),
            t(&ex("marge"), &ex("ssn"), "simpsons-marge-1234"),
            t(
                "https://en.wikipedia.org/wiki/Marge_Simpson",
                &ex("ssn"),
                "simpsons-marge-1234",
            ),
        ],
        vec![
            t(
                &ex("marge"),
                &owl("sameAs"),
                "https://en.wikipedia.org/wiki/Marge_Simpson",
            ),
            t(
                "https://en.wikipedia.org/wiki/Marge_Simpson",
                &owl("sameAs"),
                &ex("marge"),
            ),
        ],
        vec![RuleProfile::RDFSPlus()],
    );
}

#[test]
fn prp_inv1() {
    check_infer(
        vec![
            t(&ex("parent"), &owl("inverseOf"), &ex("child")),
            t(&ex("bart"), &ex("parent"), &ex("marge")),
        ],
        vec![t(&ex("marge"), &ex("child"), &ex("bart"))],
        vec![RuleProfile::RDFSPlus()],
    );
}

#[test]
fn prp_inv2() {
    check_infer(
        vec![
            t(&ex("parent"), &owl("inverseOf"), &ex("child")),
            t(&ex("marge"), &ex("child"), &ex("bart")),
        ],
        vec![t(&ex("bart"), &ex("parent"), &ex("marge"))],
        vec![RuleProfile::RDFSPlus()],
    );
}

#[test]
fn prp_rng() {
    check_infer(
        vec![
            t(&ex("mother"), &rdfs("range"), &ex("Woman")),
            t(&ex("bart"), &ex("mother"), &ex("marge")),
        ],
        vec![t(&ex("marge"), &rdf("type"), &ex("Woman"))],
        vec![RuleProfile::RDFS(), RuleProfile::RhoDF(), RuleProfile::RDFSPlus()],
    );
}

#[test]
fn prp_spo1() {
    check_infer(
        vec![
            t(&ex("mother"), &rdfs("subPropertyOf"), &ex("parent")),
            t(&ex("bart"), &ex("mother"), &ex("marge")),
        ],
        vec![t(&ex("bart"), &ex("parent"), &ex("marge"))],
        vec![RuleProfile::RDFS(), RuleProfile::RhoDF(), RuleProfile::RDFSPlus()],
    );
}

#[test]
fn prp_symp() {
    check_infer(
        vec![
            t(&ex("related"), &rdf("type"), &owl("SymmetricProperty")),
            t(&ex("bart"), &ex("related"), &ex("marge")),
        ],
        vec![t(&ex("marge"), &ex("related"), &ex("bart"))],
        vec![RuleProfile::RDFSPlus()],
    );
}

#[test]
fn prp_trp() {
    check_infer(
        vec![
            t(&ex("ancestor"), &rdf("type"), &owl("TransitiveProperty")),
            t(&ex("bart"), &ex("ancestor"), &ex("marge")),
            t(&ex("bart"), &ex("ancestor"), &ex("clancy")),
        ],
        vec![t(&ex("bart"), &ex("ancestor"), &ex("clancy"))],
        vec![RuleProfile::RDFSPlus()],
    );
}

#[test]
fn scm_dom1() {
    check_infer(
        vec![
            t(&ex("mother"), &rdfs("domain"), &ex("Woman")),
            t(&ex("Woman"), &rdfs("subClassOf"), &ex("Person")),
        ],
        vec![t(&ex("mother"), &rdfs("domain"), &ex("Person"))],
        vec![RuleProfile::RDFS(), RuleProfile::RDFSPlus()],
    );
}

#[test]
fn scm_dom2() {
    check_infer(
        vec![
            t(&ex("parent"), &rdfs("domain"), &ex("Person")),
            t(&ex("mother"), &rdfs("subPropertyOf"), &ex("parent")),
        ],
        vec![t(&ex("mother"), &rdfs("domain"), &ex("Person"))],
        vec![RuleProfile::RDFS(), RuleProfile::RhoDF(), RuleProfile::RDFSPlus()],
    );
}

#[test]
fn scm_eqc1() {
    check_infer(
        vec![t(&ex("Person"), &owl("equivalentClass"), &s_ns("Person"))],
        vec![
            t(&ex("Person"), &rdfs("subClassOf"), &s_ns("Person")),
            t(&s_ns("Person"), &rdfs("subClassOf"), &ex("Person")),
        ],
        vec![RuleProfile::RDFSPlus()],
    );
}

#[test]
fn scm_eqc2() {
    check_infer(
        vec![
            t(&ex("Person"), &rdfs("subClassOf"), &s_ns("Person")),
            t(&s_ns("Person"), &rdfs("subClassOf"), &ex("Person")),
        ],
        vec![t(&ex("Person"), &owl("equivalentClass"), &s_ns("Person"))],
        vec![RuleProfile::RDFSPlus()],
    );
}

#[test]
fn scm_eqp1() {
    check_infer(
        vec![t(&ex("parent"), &owl("equivalentProperty"), &s_ns("parent"))],
        vec![
            t(&ex("parent"), &rdfs("subPropertyOf"), &s_ns("parent")),
            t(&s_ns("parent"), &rdfs("subPropertyOf"), &ex("parent")),
        ],
        vec![RuleProfile::RDFSPlus()],
    );
}

#[test]
fn scm_eqp2() {
    check_infer(
        vec![
            t(&ex("parent"), &rdfs("subPropertyOf"), &s_ns("parent")),
            t(&s_ns("parent"), &rdfs("subPropertyOf"), &ex("parent")),
        ],
        vec![t(&ex("parent"), &owl("equivalentProperty"), &s_ns("parent"))],
        vec![RuleProfile::RDFSPlus()],
    );
}

#[test]
fn scm_rng1() {
    check_infer(
        vec![
            t(&ex("daughter"), &rdfs("range"), &ex("Woman")),
            t(&ex("Woman"), &rdfs("subClassOf"), &ex("Person")),
        ],
        vec![t(&ex("daughter"), &rdfs("range"), &ex("Person"))],
        vec![RuleProfile::RDFS(), RuleProfile::RDFSPlus()],
    );
}

#[test]
fn scm_rng2() {
    check_infer(
        vec![
            t(&ex("child"), &rdfs("range"), &ex("Person")),
            t(&ex("daughter"), &rdfs("subPropertyOf"), &ex("child")),
        ],
        vec![t(&ex("daughter"), &rdfs("range"), &ex("Person"))],
        vec![RuleProfile::RDFS(), RuleProfile::RhoDF(), RuleProfile::RDFSPlus()],
    );
}

#[test]
fn scm_sco() {
    check_infer(
        vec![
            t(&ex("Boy"), &rdfs("subClassOf"), &ex("Man")),
            t(&ex("Man"), &rdfs("subClassOf"), &ex("Person")),
        ],
        vec![t(&ex("Boy"), &rdfs("subClassOf"), &ex("Person"))],
        vec![RuleProfile::RDFS(), RuleProfile::RhoDF(), RuleProfile::RDFSPlus()],
    );
}

#[test]
fn scm_spo() {
    check_infer(
        vec![
            t(&ex("mother"), &rdfs("subPropertyOf"), &ex("parent")),
            t(&ex("parent"), &rdfs("subPropertyOf"), &ex("related")),
        ],
        vec![t(&ex("mother"), &rdfs("subPropertyOf"), &ex("related"))],
        vec![RuleProfile::RDFS(), RuleProfile::RhoDF(), RuleProfile::RDFSPlus()],
    );
}

#[test]
fn cax_sco_p_scm_sco() {
    check_infer(
        vec![
            t(&ex("Boy"), &rdfs("subClassOf"), &ex("Man")),
            t(&ex("Man"), &rdfs("subClassOf"), &ex("Person")),
            t(&ex("bart"), &rdf("type"), &ex("Boy")),
        ],
        vec![
            t(&ex("Boy"), &rdfs("subClassOf"), &ex("Person")),
            t(&ex("bart"), &rdf("type"), &ex("Man")),
            t(&ex("bart"), &rdf("type"), &ex("Person")),
        ],
        vec![RuleProfile::RDFS(), RuleProfile::RhoDF(), RuleProfile::RDFSPlus()],
    );
}

#[test]
fn cax_sco_p_prp_rng() {
    check_infer(
        vec![
            t(&ex("mother"), &rdfs("range"), &ex("Woman")),
            t(&ex("Woman"), &rdfs("subClassOf"), &ex("Person")),
            t(&ex("bart"), &ex("mother"), &ex("marge")),
        ],
        vec![
            t(&ex("marge"), &rdf("type"), &ex("Woman")),
            t(&ex("marge"), &rdf("type"), &ex("Person")),
        ],
        vec![RuleProfile::RDFS(), RuleProfile::RhoDF(), RuleProfile::RDFSPlus()],
    );
}

#[test]
fn eq_mix() {
    check_infer(
        vec![
            t(&ex("clark"), &owl("sameAs"), &ex("superman")),
            t(&ex("superman"), &owl("sameAs"), &ex("manofsteal")),
            t(&ex("manofsteal"), &rdf("type"), &ex("FlyingCreature")),
            t(&ex("lex"), &ex("hates"), &ex("manofsteal")),
        ],
        vec![
            t(&ex("clark"), &rdf("type"), &ex("FlyingCreature")),
            t(&ex("lex"), &ex("hates"), &ex("clark")),
        ],
        vec![RuleProfile::RDFSPlus()],
    );
}

#[test]
fn scm_trans_p_scm_spo() {
    check_infer(
        vec![
            t(&ex("parent"), &rdfs("subPropertyOf"), &ex("ancestor")),
            t(&ex("ancestor"), &rdf("type"), &owl("TransitiveProperty")),
            t(&ex("bart"), &ex("parent"), &ex("marge")),
            t(&ex("marge"), &ex("parent"), &ex("clancy")),
        ],
        vec![t(&ex("bart"), &ex("ancestor"), &ex("clancy"))],
        vec![RuleProfile::RDFSPlus()],
    );
}

#[test]
fn rich_ontology_hacked() {
    check_infer(
        vec![
            t(&ex("Person"), &rdf("type"), &owl("Class")),
            t(&ex("Male"), &rdfs("subClassOf"), &ex("Person")),
            t(&ex("Female"), &rdfs("subClassOf"), &ex("Person")),
            t(&ex("Child"), &rdfs("subClassOf"), &ex("Person")),
            t(&ex("Adult"), &rdfs("subClassOf"), &ex("Person")),
            t(&ex("Boy"), &rdfs("subClassOf"), &ex("Male")),
            t(&ex("Boy"), &rdfs("subClassOf"), &ex("Child")),
            t(&ex("Girl"), &rdfs("subClassOf"), &ex("Female")),
            t(&ex("Girl"), &rdfs("subClassOf"), &ex("Child")),
            t(&ex("Man"), &rdfs("subClassOf"), &ex("Male")),
            t(&ex("Man"), &rdfs("subClassOf"), &ex("Adult")),
            t(&ex("Woman"), &rdfs("subClassOf"), &ex("Female")),
            t(&ex("Woman"), &rdfs("subClassOf"), &ex("Aduly")),
            t(&ex("related"), &rdf("type"), &owl("TransitiveProperty")),
            t(&ex("related"), &rdf("type"), &owl("SymmetricProperty")),
            t(&ex("related"), &rdfs("domain"), &ex("Person")),
            t(&ex("related"), &rdfs("range"), &ex("Person")),
            t(&ex("ancestor"), &rdf("type"), &owl("TransitiveProperty")),
            t(&ex("ancestor"), &rdfs("subPropertyOf"), &ex("related")),
            t(&ex("parent"), &rdfs("subPropertyOf"), &ex("ancestor")),
            t(&ex("parent"), &owl("inverseOf"), &ex("child")),
            t(&ex("mother"), &rdf("type"), &owl("FunctionalProperty")),
            t(&ex("mother"), &rdfs("subPropertyOf"), &ex("parent")),
            t(&ex("mother"), &rdfs("range"), &ex("Female")),
            t(&ex("son"), &rdfs("subPropertyOf"), &ex("child")),
            t(&ex("son"), &rdfs("range"), &ex("Male")),
            t(&ex("daughter"), &rdfs("subPropertyOf"), &ex("child")),
            t(&ex("daughter"), &rdfs("range"), &ex("Female")),
            t(&ex("bart"), &rdf("type"), &ex("Boy")),
            t(&ex("bart"), &ex("father"), &ex("homer")),
            t(&ex("bart"), &ex("mother"), &ex("marge")),
            t(&ex("lisa"), &rdf("type"), &ex("Girl")),
            t(&ex("lisa"), &ex("father"), &ex("homer")),
            t(&ex("lisa"), &ex("mother"), &ex("marge")),
            t(&ex("marge"), &ex("father"), &ex("clancy")),
            t(&ex("marge"), &ex("mother"), &ex("jackie")),
        ],
        vec![
            t(&ex("mother"), &rdfs("subPropertyOf"), &ex("ancestor")),
            t(&ex("marge"), &rdf("type"), &ex("Female")),
            t(&ex("marge"), &ex("child"), &ex("bart")),
            t(&ex("bart"), &ex("ancestor"), &ex("jackie")),
            t(&ex("bart"), &ex("related"), &ex("lisa")),
        ],
        vec![RuleProfile::RDFSPlus()],
    );
}
