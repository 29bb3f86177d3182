use clipscrub::config::{default_true, parse_flag, Config};
use clipscrub::rules::{Config as RulesConfig, DomainRule, RuleTable};

fn owned(items: &[&str]) -> Vec<String> {
    items.iter().map(|s| s.to_string()).collect()
}

#[test]
fn domain_rule_builders() {
    let r = DomainRule::new();
    assert!(r.params.is_empty() && r.keep_only.is_none() && r.strip_path_patterns.is_none());
    let r = DomainRule::new().block(&["a", "b"]).block(&["c"]);
    assert_eq!(r.params, owned(&["a", "b", "c"]));
    let r = r.allow_only(&["v"]).allow_only(&["t", "u"]);
    assert_eq!(r.keep_only, Some(owned(&["t", "u"])));
    let r = r.strip_path(&["x"]).strip_path(&["y"]);
    assert_eq!(r.strip_path_patterns, Some(owned(&["x", "y"])));
    assert_eq!(r.params, owned(&["a", "b", "c"]));
}

#[test]
fn rule_table_reads_back_what_was_set() {
    let mut t = RuleTable::new();
    assert_eq!(t.len(), 0);
    assert!(t.get("a.com").is_none());
    t.insert("a.com".to_string(), DomainRule::new().block(&["x"]));
    t.insert("b.com".to_string(), DomainRule::new().block(&["y"]));
    assert_eq!(t.len(), 2);
    assert_eq!(t.get("a.com").unwrap().params, owned(&["x"]));
    t.insert("a.com".to_string(), DomainRule::new().block(&["z"]));
    assert_eq!(t.len(), 2);
    assert_eq!(t.get("a.com").unwrap().params, owned(&["z"]));
    assert_eq!(t.get("b.com").unwrap().params, owned(&["y"]));
    assert_eq!(t.domains(), owned(&["a.com", "b.com"]));
}

#[test]
fn default_rule_set() {
    let c = RulesConfig::default();
    assert_eq!(c.global_params.len(), 65);
    assert_eq!(c.global_params[0], "utm_source");
    assert_eq!(c.global_params[64], "__cf_chl_rt_tk");
    assert_eq!(c.domain_rules.len(), 12);
    assert!(c.whitelist_domains.is_empty());
    assert_eq!(c.custom_patterns, owned(&[r"^_[a-z]{2,4}$", r"^(ttclid|twclkid|li_fat_id)$"]));
    assert!(!c.strip_fragments && c.normalize_urls && !c.aggressive_mode);
    let yt = c.domain_rules.get("youtube.com").unwrap();
    assert_eq!(yt.keep_only, Some(owned(&["v", "t", "list", "index"])));
    let amazon = c.domain_rules.get("amazon.com").unwrap();
    assert_eq!(amazon.strip_path_patterns, Some(owned(&[r"/ref=[^/\?]*"])));
    assert_eq!(amazon.params.len(), 18);
    assert!(c.domain_rules.get("example.com").is_none());
    let loaded = Config::default();
    assert_eq!(loaded.global_params, c.global_params);
    assert_eq!(loaded.domain_rules.domains(), c.domain_rules.domains());
}

#[test]
fn normalize_defaults_to_true() {
    assert!(default_true());
}

#[test]
fn environment_overrides() {
    assert!(parse_flag("1"));
    assert!(parse_flag("TRUE"));
    assert!(parse_flag("True"));
    assert!(!parse_flag("0"));
    assert!(!parse_flag("yes"));
    let mut c = Config::default();
    c.apply_env_overrides(Some("true"), None);
    assert!(c.aggressive_mode && !c.strip_fragments);
    c.apply_env_overrides(Some("no"), Some("1"));
    assert!(!c.aggressive_mode && c.strip_fragments);
    c.apply_env_overrides(None, None);
    assert!(!c.aggressive_mode && c.strip_fragments);
}
