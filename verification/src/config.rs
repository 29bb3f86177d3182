//! The rule set as loaded by the program, with the switches that the
//! environment may override.

use vstd::prelude::*;

use crate::rules::{ConfigView, RuleTable, default_config};
use crate::text::{lowercase, same_text, spec_lowercase};

verus! {

/// The value that a missing `normalize_urls` entry takes.
pub fn default_true() -> (r: bool)
    ensures
        r,
{
    true
}

/// A rule set: parameters removed everywhere, per-domain rules, and switches.
#[derive(Debug)]
pub struct Config {
    pub global_params: Vec<String>,
    pub domain_rules: RuleTable,
    pub whitelist_domains: Vec<String>,
    pub custom_patterns: Vec<String>,
    pub strip_fragments: bool,
    pub normalize_urls: bool,
    pub aggressive_mode: bool,
}

impl View for Config {
    type V = ConfigView;

    open spec fn view(&self) -> ConfigView {
        ConfigView {
            global_params: self.global_params.deep_view(),
            domain_rules: self.domain_rules@,
            whitelist_domains: self.whitelist_domains.deep_view(),
            custom_patterns: self.custom_patterns.deep_view(),
            strip_fragments: self.strip_fragments,
            normalize_urls: self.normalize_urls,
            aggressive_mode: self.aggressive_mode,
        }
    }
}

impl Default for Config {
    /// The built-in rule set.
    fn default() -> (r: Self)
        ensures
            r@ == default_config(),
    {
        let d = <crate::rules::Config as Default>::default();
        Config {
            global_params: d.global_params,
            domain_rules: d.domain_rules,
            whitelist_domains: d.whitelist_domains,
            custom_patterns: d.custom_patterns,
            strip_fragments: d.strip_fragments,
            normalize_urls: d.normalize_urls,
            aggressive_mode: d.aggressive_mode,
        }
    }
}

/// Whether an override value switches a flag on: `1`, or `true` in any case.
pub open spec fn flag_value(v: Seq<char>) -> bool {
    v == "1"@ || spec_lowercase(v) == "true"@
}

/// Whether an override value switches a flag on: `1`, or `true` in any case.
pub fn parse_flag(v: &str) -> (r: bool)
    ensures
        r == flag_value(v@),
{
    if same_text(v, "1") {
        return true;
    }
    let lower = lowercase(v);
    same_text(lower.as_str(), "true")
}

impl Config {
    /// Applies the override values given for aggressive mode and for
    /// fragment stripping (each one only where given); the rest stays.
    pub fn apply_env_overrides(&mut self, aggressive: Option<&str>, strip_fragments: Option<&str>)
        ensures
            final(self).aggressive_mode == match aggressive {
                Some(v) => flag_value(v@),
                None => old(self).aggressive_mode,
            },
            final(self).strip_fragments == match strip_fragments {
                Some(v) => flag_value(v@),
                None => old(self).strip_fragments,
            },
            final(self).global_params == old(self).global_params,
            final(self).domain_rules == old(self).domain_rules,
            final(self).whitelist_domains == old(self).whitelist_domains,
            final(self).custom_patterns == old(self).custom_patterns,
            final(self).normalize_urls == old(self).normalize_urls,
    {
        if let Some(v) = aggressive {
            self.aggressive_mode = parse_flag(v);
        }
        if let Some(v) = strip_fragments {
            self.strip_fragments = parse_flag(v);
        }
    }
}

} // verus!
