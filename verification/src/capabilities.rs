use vstd::prelude::*;
use crate::endpoint::{CapabilitiesConfig, Targets, TargetsConfig};

verus! {

/// A resolved set of named targets: everything, nothing, or an explicit
/// list of names.
#[derive(Debug, PartialEq)]
pub enum TargetSet {
    All,
    Empty,
    Listed(Vec<String>),
}

/// One capability's allow and deny sides after resolution. The deny side is
/// applied by the engine after the allow side.
#[derive(Debug, PartialEq)]
pub struct TargetRule {
    pub allow: TargetSet,
    pub deny: TargetSet,
}

/// The strongly-typed capability set handed to the engine at connect time:
/// feature switches plus allow/deny rules for callable functions and for
/// outbound network targets.
#[derive(Debug, PartialEq)]
pub struct Capabilities {
    pub scripting: bool,
    pub guest_access: bool,
    pub live_query_notifications: bool,
    pub functions: TargetRule,
    pub network_targets: TargetRule,
}

/// The baseline policy: no scripting, no guest access, no live-query
/// notifications, every function callable, no network target reachable.
pub open spec fn spec_default_capabilities() -> Capabilities {
    Capabilities {
        scripting: false,
        guest_access: false,
        live_query_notifications: false,
        functions: TargetRule { allow: TargetSet::All, deny: TargetSet::Empty },
        network_targets: TargetRule { allow: TargetSet::Empty, deny: TargetSet::Empty },
    }
}

/// The fully permissive policy.
pub open spec fn spec_all_capabilities() -> Capabilities {
    Capabilities {
        scripting: true,
        guest_access: true,
        live_query_notifications: true,
        functions: TargetRule { allow: TargetSet::All, deny: TargetSet::Empty },
        network_targets: TargetRule { allow: TargetSet::All, deny: TargetSet::Empty },
    }
}

/// The allow side a boolean or explicit list resolves to.
pub open spec fn spec_resolve_targets_config(t: TargetsConfig) -> TargetSet {
    match t {
        TargetsConfig::Bool(true) => TargetSet::All,
        TargetsConfig::Bool(false) => TargetSet::Empty,
        TargetsConfig::Array(xs) => TargetSet::Listed(xs),
    }
}

/// How one target sub-policy rewrites a rule: a boolean or a list sets the
/// allow side and leaves the deny side as it was; an allow/deny object sets
/// each side that it names.
pub open spec fn spec_apply_targets(rule: TargetRule, t: Targets) -> TargetRule {
    match t {
        Targets::Bool(true) => TargetRule { allow: TargetSet::All, deny: rule.deny },
        Targets::Bool(false) => TargetRule { allow: TargetSet::Empty, deny: rule.deny },
        Targets::Array(xs) => TargetRule { allow: TargetSet::Listed(xs), deny: rule.deny },
        Targets::Config { allow, deny } => {
            let after_allow = match allow {
                Option::Some(a) => TargetRule {
                    allow: spec_resolve_targets_config(a),
                    deny: rule.deny,
                },
                Option::None => rule,
            };
            match deny {
                Option::Some(d) => TargetRule {
                    allow: after_allow.allow,
                    deny: spec_resolve_targets_config(d),
                },
                Option::None => after_allow,
            }
        },
    }
}

/// The capability set a host policy resolves to. A blanket `true` grants
/// everything; a blanket `false` is the baseline with no function callable;
/// a structured policy rewrites the baseline field by field, the absent
/// fields keeping their baseline value.
pub open spec fn spec_resolve_capabilities(config: CapabilitiesConfig) -> Capabilities {
    match config {
        CapabilitiesConfig::Bool(true) => spec_all_capabilities(),
        CapabilitiesConfig::Bool(false) => Capabilities {
            scripting: false,
            guest_access: false,
            live_query_notifications: false,
            functions: TargetRule { allow: TargetSet::Empty, deny: TargetSet::Empty },
            network_targets: TargetRule { allow: TargetSet::Empty, deny: TargetSet::Empty },
        },
        CapabilitiesConfig::Capabilities {
            scripting,
            guest_access,
            live_query_notifications,
            functions,
            network_targets,
        } => {
            let base = spec_default_capabilities();
            Capabilities {
                scripting: match scripting {
                    Option::Some(b) => b,
                    Option::None => base.scripting,
                },
                guest_access: match guest_access {
                    Option::Some(b) => b,
                    Option::None => base.guest_access,
                },
                live_query_notifications: match live_query_notifications {
                    Option::Some(b) => b,
                    Option::None => base.live_query_notifications,
                },
                functions: match functions {
                    Option::Some(t) => spec_apply_targets(base.functions, t),
                    Option::None => base.functions,
                },
                network_targets: match network_targets {
                    Option::Some(t) => spec_apply_targets(base.network_targets, t),
                    Option::None => base.network_targets,
                },
            }
        },
    }
}

impl Capabilities {
    /// The baseline policy the engine starts from.
    pub fn default_set() -> (r: Capabilities)
        ensures
            r == spec_default_capabilities(),
    {
        Capabilities {
            scripting: false,
            guest_access: false,
            live_query_notifications: false,
            functions: TargetRule { allow: TargetSet::All, deny: TargetSet::Empty },
            network_targets: TargetRule { allow: TargetSet::Empty, deny: TargetSet::Empty },
        }
    }

    /// The fully permissive policy.
    pub fn all_set() -> (r: Capabilities)
        ensures
            r == spec_all_capabilities(),
    {
        Capabilities {
            scripting: true,
            guest_access: true,
            live_query_notifications: true,
            functions: TargetRule { allow: TargetSet::All, deny: TargetSet::Empty },
            network_targets: TargetRule { allow: TargetSet::All, deny: TargetSet::Empty },
        }
    }
}

fn resolve_targets_config(t: TargetsConfig) -> (r: TargetSet)
    ensures
        r == spec_resolve_targets_config(t),
{
    match t {
        TargetsConfig::Bool(b) => {
            if b {
                TargetSet::All
            } else {
                TargetSet::Empty
            }
        },
        TargetsConfig::Array(xs) => TargetSet::Listed(xs),
    }
}

fn apply_targets(rule: TargetRule, t: Targets) -> (r: TargetRule)
    ensures
        r == spec_apply_targets(rule, t),
{
    match t {
        Targets::Bool(b) => {
            if b {
                TargetRule { allow: TargetSet::All, deny: rule.deny }
            } else {
                TargetRule { allow: TargetSet::Empty, deny: rule.deny }
            }
        },
        Targets::Array(xs) => TargetRule { allow: TargetSet::Listed(xs), deny: rule.deny },
        Targets::Config { allow, deny } => {
            let mut out = rule;
            if let Option::Some(a) = allow {
                out = TargetRule { allow: resolve_targets_config(a), deny: out.deny };
            }
            if let Option::Some(d) = deny {
                out = TargetRule { allow: out.allow, deny: resolve_targets_config(d) };
            }
            out
        },
    }
}

/// Resolves a host capability policy into the capability set the engine is
/// configured with: the allow sides are applied first, the deny sides
/// after, and each sub-policy independently resolves to everything, nothing
/// or an explicit name list.
pub fn resolve_capabilities(config: CapabilitiesConfig) -> (r: Capabilities)
    ensures
        r == spec_resolve_capabilities(config),
{
    match config {
        CapabilitiesConfig::Bool(b) => {
            if b {
                Capabilities::all_set()
            } else {
                Capabilities {
                    scripting: false,
                    guest_access: false,
                    live_query_notifications: false,
                    functions: TargetRule { allow: TargetSet::Empty, deny: TargetSet::Empty },
                    network_targets: TargetRule {
                        allow: TargetSet::Empty,
                        deny: TargetSet::Empty,
                    },
                }
            }
        },
        CapabilitiesConfig::Capabilities {
            scripting,
            guest_access,
            live_query_notifications,
            functions,
            network_targets,
        } => {
            let scripting_on = match scripting {
                Option::Some(b) => b,
                Option::None => false,
            };
            let guest_access_on = match guest_access {
                Option::Some(b) => b,
                Option::None => false,
            };
            let live_query_on = match live_query_notifications {
                Option::Some(b) => b,
                Option::None => false,
            };
            let functions_rule = match functions {
                Option::Some(t) => apply_targets(
                    TargetRule { allow: TargetSet::All, deny: TargetSet::Empty },
                    t,
                ),
                Option::None => TargetRule { allow: TargetSet::All, deny: TargetSet::Empty },
            };
            let network_rule = match network_targets {
                Option::Some(t) => apply_targets(
                    TargetRule { allow: TargetSet::Empty, deny: TargetSet::Empty },
                    t,
                ),
                Option::None => TargetRule { allow: TargetSet::Empty, deny: TargetSet::Empty },
            };
            Capabilities {
                scripting: scripting_on,
                guest_access: guest_access_on,
                live_query_notifications: live_query_on,
                functions: functions_rule,
                network_targets: network_rule,
            }
        },
    }
}

} // verus!
