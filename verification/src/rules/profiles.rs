//! The rule profiles: which closures, rules and extras a saturation run
//! applies.

#![allow(non_snake_case)]

use vstd::prelude::*;

use crate::rules::engine::{FixPointRuleSet, RuleId};

verus! {

/// Which predicates receive a transitive-closure pass.
pub struct ClosureProfile {
    pub on_sa: bool,
    pub on_sco: bool,
    pub on_spo: bool,
    pub on_trp: bool,
}

/// A named bundle of rule choices.
pub struct RuleProfile {
    pub cl_profile: ClosureProfile,
    pub axiomatic_triples: bool,
    pub before_rules: Vec<RuleId>,
    pub rules: FixPointRuleSet,
    pub after_rules: bool,
    pub name: String,
}

/// The RDFS profile: axioms on, subclass and subproperty closures, the
/// RDFS rule set, the trivial typing rules up front, and the finalize
/// pass.
pub open spec fn is_rdfs_profile(r: RuleProfile) -> bool {
    &&& !r.cl_profile.on_sa && r.cl_profile.on_sco && r.cl_profile.on_spo && !r.cl_profile.on_trp
    &&& r.axiomatic_triples
    &&& r.before_rules@ == seq![
        RuleId::Rdfs4,
        RuleId::Rdfs6,
        RuleId::Rdfs8,
        RuleId::Rdfs10,
        RuleId::Rdfs12,
        RuleId::Rdfs13,
    ]
    &&& r.rules.rules@ == seq![
        RuleId::CaxSco,
        RuleId::ScmDom1,
        RuleId::ScmDom2,
        RuleId::ScmRng1,
        RuleId::ScmRng2,
        RuleId::PrpDom,
        RuleId::PrpRng,
        RuleId::PrpSpo1,
    ]
    &&& r.after_rules
    &&& r.name@ == "RDFS"@
}

/// The rho-df profile: no axioms, subclass and subproperty closures, the
/// reduced rule set, and no finalize pass.
pub open spec fn is_rhodf_profile(r: RuleProfile) -> bool {
    &&& !r.cl_profile.on_sa && r.cl_profile.on_sco && r.cl_profile.on_spo && !r.cl_profile.on_trp
    &&& !r.axiomatic_triples
    &&& r.before_rules@ == seq![RuleId::Rdfs4]
    &&& r.rules.rules@ == seq![
        RuleId::CaxSco,
        RuleId::ScmDom2,
        RuleId::ScmRng2,
        RuleId::PrpDom,
        RuleId::PrpRng,
        RuleId::PrpSpo1,
    ]
    &&& !r.after_rules
    &&& r.name@ == "RHODF"@
}

/// The RDFS-Plus profile: every closure, the full rule set, and the
/// finalize pass.
pub open spec fn is_rdfs_plus_profile(r: RuleProfile) -> bool {
    &&& r.cl_profile.on_sa && r.cl_profile.on_sco && r.cl_profile.on_spo && r.cl_profile.on_trp
    &&& !r.axiomatic_triples
    &&& r.before_rules@ == seq![RuleId::Rdfs4, RuleId::ScmDpOp, RuleId::ScmCls]
    &&& r.rules.rules@ == seq![
        RuleId::CaxSco,
        RuleId::CaxEqc1,
        RuleId::ScmDom1,
        RuleId::ScmDom2,
        RuleId::ScmRng1,
        RuleId::ScmRng2,
        RuleId::ScmScoEqc2,
        RuleId::ScmSpoEqp2,
        RuleId::ScmEqc1,
        RuleId::ScmEqp1,
        RuleId::PrpInv12,
        RuleId::PrpEqp12,
        RuleId::PrpDom,
        RuleId::PrpRng,
        RuleId::PrpSpo1,
        RuleId::PrpSymp,
        RuleId::EqTrans,
        RuleId::SameAs,
        RuleId::PrpFp,
        RuleId::PrpIfp,
        RuleId::PrpTrp,
    ]
    &&& r.after_rules
    &&& r.name@ == "RDFSPLUS"@
}

impl RuleProfile {
    /// The standard rule set for RDF Schema.
    pub fn RDFS() -> (r: RuleProfile)
        ensures
            is_rdfs_profile(r),
            !r.cl_profile.on_sa && r.cl_profile.on_sco && r.cl_profile.on_spo
                && !r.cl_profile.on_trp,
            r.axiomatic_triples,
            r.before_rules@ == seq![
                RuleId::Rdfs4,
                RuleId::Rdfs6,
                RuleId::Rdfs8,
                RuleId::Rdfs10,
                RuleId::Rdfs12,
                RuleId::Rdfs13,
            ],
            r.rules.rules@ == seq![
                RuleId::CaxSco,
                RuleId::ScmDom1,
                RuleId::ScmDom2,
                RuleId::ScmRng1,
                RuleId::ScmRng2,
                RuleId::PrpDom,
                RuleId::PrpRng,
                RuleId::PrpSpo1,
            ],
            r.after_rules,
            r.name@ == "RDFS"@,
    {
        let mut before: Vec<RuleId> = Vec::new();
        before.push(RuleId::Rdfs4);
        before.push(RuleId::Rdfs6);
        before.push(RuleId::Rdfs8);
        before.push(RuleId::Rdfs10);
        before.push(RuleId::Rdfs12);
        before.push(RuleId::Rdfs13);
        let mut rules: Vec<RuleId> = Vec::new();
        rules.push(RuleId::CaxSco);
        rules.push(RuleId::ScmDom1);
        rules.push(RuleId::ScmDom2);
        rules.push(RuleId::ScmRng1);
        rules.push(RuleId::ScmRng2);
        rules.push(RuleId::PrpDom);
        rules.push(RuleId::PrpRng);
        rules.push(RuleId::PrpSpo1);
        proof {
            assert(before@ =~= seq![
                RuleId::Rdfs4,
                RuleId::Rdfs6,
                RuleId::Rdfs8,
                RuleId::Rdfs10,
                RuleId::Rdfs12,
                RuleId::Rdfs13,
            ]);
            assert(rules@ =~= seq![
                RuleId::CaxSco,
                RuleId::ScmDom1,
                RuleId::ScmDom2,
                RuleId::ScmRng1,
                RuleId::ScmRng2,
                RuleId::PrpDom,
                RuleId::PrpRng,
                RuleId::PrpSpo1,
            ]);
        }
        RuleProfile {
            cl_profile: ClosureProfile { on_sa: false, on_sco: true, on_spo: true, on_trp: false },
            axiomatic_triples: true,
            before_rules: before,
            rules: FixPointRuleSet { rules },
            after_rules: true,
            name: "RDFS".to_owned(),
        }
    }

    /// The rho-df subset of RDFS: faster, with no significant loss of
    /// expressivity.
    pub fn RhoDF() -> (r: RuleProfile)
        ensures
            is_rhodf_profile(r),
            !r.cl_profile.on_sa && r.cl_profile.on_sco && r.cl_profile.on_spo
                && !r.cl_profile.on_trp,
            !r.axiomatic_triples,
            r.before_rules@ == seq![RuleId::Rdfs4],
            r.rules.rules@ == seq![
                RuleId::CaxSco,
                RuleId::ScmDom2,
                RuleId::ScmRng2,
                RuleId::PrpDom,
                RuleId::PrpRng,
                RuleId::PrpSpo1,
            ],
            !r.after_rules,
            r.name@ == "RHODF"@,
    {
        let mut before: Vec<RuleId> = Vec::new();
        before.push(RuleId::Rdfs4);
        let mut rules: Vec<RuleId> = Vec::new();
        rules.push(RuleId::CaxSco);
        rules.push(RuleId::ScmDom2);
        rules.push(RuleId::ScmRng2);
        rules.push(RuleId::PrpDom);
        rules.push(RuleId::PrpRng);
        rules.push(RuleId::PrpSpo1);
        proof {
            assert(before@ =~= seq![RuleId::Rdfs4]);
            assert(rules@ =~= seq![
                RuleId::CaxSco,
                RuleId::ScmDom2,
                RuleId::ScmRng2,
                RuleId::PrpDom,
                RuleId::PrpRng,
                RuleId::PrpSpo1,
            ]);
        }
        RuleProfile {
            cl_profile: ClosureProfile { on_sa: false, on_sco: true, on_spo: true, on_trp: false },
            axiomatic_triples: false,
            before_rules: before,
            rules: FixPointRuleSet { rules },
            after_rules: false,
            name: "RHODF".to_owned(),
        }
    }

    /// RDFS-Plus: RDFS extended with equality, inverse, symmetric,
    /// functional and transitive property reasoning.
    pub fn RDFSPlus() -> (r: RuleProfile)
        ensures
            is_rdfs_plus_profile(r),
            r.cl_profile.on_sa && r.cl_profile.on_sco && r.cl_profile.on_spo
                && r.cl_profile.on_trp,
            !r.axiomatic_triples,
            r.before_rules@ == seq![RuleId::Rdfs4, RuleId::ScmDpOp, RuleId::ScmCls],
            r.rules.rules@ == seq![
                RuleId::CaxSco,
                RuleId::CaxEqc1,
                RuleId::ScmDom1,
                RuleId::ScmDom2,
                RuleId::ScmRng1,
                RuleId::ScmRng2,
                RuleId::ScmScoEqc2,
                RuleId::ScmSpoEqp2,
                RuleId::ScmEqc1,
                RuleId::ScmEqp1,
                RuleId::PrpInv12,
                RuleId::PrpEqp12,
                RuleId::PrpDom,
                RuleId::PrpRng,
                RuleId::PrpSpo1,
                RuleId::PrpSymp,
                RuleId::EqTrans,
                RuleId::SameAs,
                RuleId::PrpFp,
                RuleId::PrpIfp,
                RuleId::PrpTrp,
            ],
            r.after_rules,
            r.name@ == "RDFSPLUS"@,
    {
        let mut before: Vec<RuleId> = Vec::new();
        before.push(RuleId::Rdfs4);
        before.push(RuleId::ScmDpOp);
        before.push(RuleId::ScmCls);
        let mut rules: Vec<RuleId> = Vec::new();
        rules.push(RuleId::CaxSco);
        rules.push(RuleId::CaxEqc1);
        rules.push(RuleId::ScmDom1);
        rules.push(RuleId::ScmDom2);
        rules.push(RuleId::ScmRng1);
        rules.push(RuleId::ScmRng2);
        rules.push(RuleId::ScmScoEqc2);
        rules.push(RuleId::ScmSpoEqp2);
        rules.push(RuleId::ScmEqc1);
        rules.push(RuleId::ScmEqp1);
        rules.push(RuleId::PrpInv12);
        rules.push(RuleId::PrpEqp12);
        rules.push(RuleId::PrpDom);
        rules.push(RuleId::PrpRng);
        rules.push(RuleId::PrpSpo1);
        rules.push(RuleId::PrpSymp);
        rules.push(RuleId::EqTrans);
        rules.push(RuleId::SameAs);
        rules.push(RuleId::PrpFp);
        rules.push(RuleId::PrpIfp);
        rules.push(RuleId::PrpTrp);
        proof {
            assert(before@ =~= seq![RuleId::Rdfs4, RuleId::ScmDpOp, RuleId::ScmCls]);
            assert(rules@ =~= seq![
                RuleId::CaxSco,
                RuleId::CaxEqc1,
                RuleId::ScmDom1,
                RuleId::ScmDom2,
                RuleId::ScmRng1,
                RuleId::ScmRng2,
                RuleId::ScmScoEqc2,
                RuleId::ScmSpoEqp2,
                RuleId::ScmEqc1,
                RuleId::ScmEqp1,
                RuleId::PrpInv12,
                RuleId::PrpEqp12,
                RuleId::PrpDom,
                RuleId::PrpRng,
                RuleId::PrpSpo1,
                RuleId::PrpSymp,
                RuleId::EqTrans,
                RuleId::SameAs,
                RuleId::PrpFp,
                RuleId::PrpIfp,
                RuleId::PrpTrp,
            ]);
        }
        RuleProfile {
            cl_profile: ClosureProfile { on_sa: true, on_sco: true, on_spo: true, on_trp: true },
            axiomatic_triples: false,
            before_rules: before,
            rules: FixPointRuleSet { rules },
            after_rules: true,
            name: "RDFSPLUS".to_owned(),
        }
    }

    /// The name of this rule profile.
    pub fn name(&self) -> (r: &str)
        ensures
            r@ == self.name@,
    {
        self.name.as_str()
    }
}

} // verus!
