//! The reasoner core: rule functions, rule sets, and rule profiles.

pub(crate) mod alpha_rules;
pub(crate) mod beta_rules;
pub(crate) mod delta_rules;
pub(crate) mod engine;
pub(crate) mod gamma_rules;
pub(crate) mod other_rules;
pub(crate) mod profiles;
pub(crate) mod same_as_rules;
pub(crate) mod zeta_rules;

pub use self::alpha_rules::{CAX_EQC1, CAX_SCO, SCM_DOM1, SCM_DOM2, SCM_RNG1, SCM_RNG2};
pub use self::beta_rules::{SCM_EQC1, SCM_EQP1, SCM_SCO_EQC2, SCM_SPO_EQP2};
pub use self::delta_rules::{PRP_EQP_1_2, PRP_INV_1_2};
pub use self::engine::{apply_rule, join_pairs, process_rules, FixPointRuleSet, JoinRow, RuleId};
pub use self::gamma_rules::{EQ_TRANS, PRP_DOM, PRP_RNG, PRP_SPO1, PRP_SYMP};
pub use self::other_rules::{type_all_resources, PRP_FP, PRP_IFP, PRP_TRP};
pub use self::profiles::{is_rdfs_plus_profile, is_rdfs_profile, is_rhodf_profile, ClosureProfile, RuleProfile};
pub use self::same_as_rules::SAME_AS;
pub use self::zeta_rules::{RDFS10, RDFS12, RDFS13, RDFS4, RDFS6, RDFS8, SCM_CLS, SCM_DP_OP};
