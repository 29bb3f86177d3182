//! Each call into the `url` and `regex` crates, observed through the public
//! functions that make it.

use std::sync::Arc;

use clipscrub::config::Config;
use clipscrub::rules::DomainRule;
use clipscrub::url_cleaner::{UrlCleaner, matches_custom_pattern};
use clipscrub::web_url::WebUrl;

fn cleaner() -> UrlCleaner {
    UrlCleaner::new(Arc::new(Config::default()))
}

#[test]
fn url_parse_normalizes_serialization() {
    let u = WebUrl::parse("https://Example.COM:443/a b?x=1#f").unwrap();
    assert_eq!(u.as_string(), "https://example.com/a%20b?x=1#f");
    assert!(WebUrl::parse("no scheme here").is_none());
}

#[test]
fn host_is_read_from_the_url() {
    let u = WebUrl::parse("https://News.Example.COM/x").unwrap();
    assert_eq!(cleaner().extract_domain(&u), "example.com");
}

#[test]
fn path_is_read_and_set() {
    let rule = DomainRule::new().strip_path(&["/tracking"]);
    let mut u = WebUrl::parse("https://example.com/a/tracking/b?x=1#f").unwrap();
    assert!(cleaner().process_path_rules(&mut u, &rule));
    assert_eq!(u.as_string(), "https://example.com/a/b?x=1#f");
}

#[test]
fn query_is_decoded_and_rewritten() {
    let r = cleaner().scrub("https://example.com/p?name=a%20b+c&fbclid=1#f");
    assert_eq!(
        r,
        Some(("https://example.com/p?name=a+b+c#f".to_string(), vec!["fbclid".to_string()], "example.com".to_string()))
    );
}

#[test]
fn query_is_removed_when_empty() {
    let r = cleaner().scrub("https://example.com/p?gclid=1#f");
    assert_eq!(
        r,
        Some(("https://example.com/p#f".to_string(), vec!["gclid".to_string()], "example.com".to_string()))
    );
}

#[test]
fn fragment_is_read_and_removed() {
    let mut config = Config::default();
    config.strip_fragments = true;
    let c = UrlCleaner::new(Arc::new(config));
    assert_eq!(
        c.scrub("https://example.com/p?q=1#section"),
        Some(("https://example.com/p?q=1".to_string(), vec![], "example.com".to_string()))
    );
}

#[test]
fn regex_compile_match_and_replace() {
    let c = cleaner();
    assert!(c.matches_regex("caat", "a+"));
    assert!(!c.matches_regex("cot", "a+"));
    assert!(!c.matches_regex("caat", "("));
    assert!(matches_custom_pattern("li_fat_id", &["^(ttclid|twclkid|li_fat_id)$".to_string()]));
    let rule = DomainRule::new().strip_path(&["a+"]);
    let mut u = WebUrl::parse("https://example.com/caatab").unwrap();
    assert!(c.process_path_rules(&mut u, &rule));
    assert_eq!(u.as_string(), "https://example.com/ctb");
}
