use std::sync::Arc;

use clipscrub::config::Config;
use clipscrub::rules::DomainRule;
use clipscrub::url_cleaner::{matches_custom_pattern, scrub_url, try_scrub_url, UrlCleaner};
use clipscrub::web_url::WebUrl;

fn cleaner() -> UrlCleaner {
    UrlCleaner::new(Arc::new(Config::default()))
}

fn owned(items: &[&str]) -> Vec<String> {
    items.iter().map(|s| s.to_string()).collect()
}

#[test]
fn removes_utm_source_from_readme_example() {
    let r = cleaner().scrub("https://example.com?utm_source=test");
    assert_eq!(
        r,
        Some(("https://example.com/".to_string(), owned(&["utm_source"]), "example.com".to_string()))
    );
}

#[test]
fn youtube_keeps_only_allowed_parameters() {
    let r = cleaner().scrub("https://www.youtube.com/watch?v=abc&si=xyz&t=10&feature=share");
    assert_eq!(
        r,
        Some((
            "https://www.youtube.com/watch?v=abc&t=10".to_string(),
            owned(&["si", "feature"]),
            "youtube.com".to_string()
        ))
    );
}

#[test]
fn amazon_strips_ref_path_and_tag() {
    let r = cleaner().scrub("https://www.amazon.com/dp/B000/ref=sr_1_1?tag=foo&keywords=x");
    assert_eq!(
        r,
        Some((
            "https://www.amazon.com/dp/B000?keywords=x".to_string(),
            owned(&["tag"]),
            "amazon.com".to_string()
        ))
    );
}

#[test]
fn custom_pattern_removes_short_underscore_names() {
    let r = cleaner().scrub("https://example.org/?_abc=1&q=2");
    assert_eq!(
        r,
        Some(("https://example.org/?q=2".to_string(), owned(&["_abc"]), "example.org".to_string()))
    );
}

#[test]
fn parameter_names_compare_case_insensitively() {
    let r = cleaner().scrub("https://example.com/?UTM_Source=x&id=5");
    assert_eq!(
        r,
        Some(("https://example.com/?id=5".to_string(), owned(&["UTM_Source"]), "example.com".to_string()))
    );
}

#[test]
fn whitelisted_domain_is_left_alone() {
    let mut config = Config::default();
    config.whitelist_domains = vec!["example.com".to_string()];
    let c = UrlCleaner::new(Arc::new(config));
    assert_eq!(c.scrub("https://example.com/?utm_source=x"), None);
}

#[test]
fn fragments_are_stripped_when_asked() {
    let mut config = Config::default();
    config.strip_fragments = true;
    let c = UrlCleaner::new(Arc::new(config));
    assert_eq!(
        c.scrub("https://example.com/a#frag"),
        Some(("https://example.com/a".to_string(), vec![], "example.com".to_string()))
    );
}

#[test]
fn trailing_question_mark_is_dropped() {
    let mut config = Config::default();
    config.strip_fragments = true;
    let c = UrlCleaner::new(Arc::new(config));
    assert_eq!(
        c.scrub("https://example.com/?#top"),
        Some(("https://example.com/".to_string(), vec![], "example.com".to_string()))
    );
}

#[test]
fn fragments_stay_by_default() {
    assert_eq!(cleaner().scrub("https://example.com/a#frag"), None);
}

#[test]
fn aggressive_mode_removes_suspicious_names() {
    let mut config = Config::default();
    config.aggressive_mode = true;
    let c = UrlCleaner::new(Arc::new(config));
    assert_eq!(
        c.scrub("https://example.com/?mytrackid=9&page=2"),
        Some(("https://example.com/?page=2".to_string(), owned(&["mytrackid"]), "example.com".to_string()))
    );
    assert_eq!(cleaner().scrub("https://example.com/?mytrackid=9&page=2"), None);
}

#[test]
fn clean_links_give_none() {
    assert_eq!(cleaner().scrub("https://example.com/page?q=rust"), None);
}

#[test]
fn non_links_give_none() {
    assert_eq!(cleaner().scrub("not a link"), None);
    assert_eq!(cleaner().scrub("ftp://example.com/?utm_source=x"), None);
    assert_eq!(cleaner().scrub("httpfoo"), None);
    assert_eq!(cleaner().scrub(""), None);
}

#[test]
fn surrounding_white_space_is_trimmed() {
    assert_eq!(
        cleaner().scrub("  https://example.com/?gclid=1 \n"),
        Some(("https://example.com/".to_string(), owned(&["gclid"]), "example.com".to_string()))
    );
}

#[test]
fn cleaning_a_cleaned_link_changes_nothing() {
    let c = cleaner();
    let (once, _, _) = c
        .scrub("https://www.youtube.com/watch?v=abc&si=xyz&t=10&feature=share")
        .unwrap();
    assert_eq!(c.scrub(&once), None);
}

#[test]
fn free_scrub_agrees_with_cleaner() {
    let config = Config::default();
    let input = "https://www.reddit.com/r/rust/?share_id=1&sort=new";
    assert_eq!(scrub_url(input, &config), cleaner().scrub(input));
    assert_eq!(
        scrub_url(input, &config),
        Some(("https://www.reddit.com/r/rust/?sort=new".to_string(), owned(&["share_id"]), "reddit.com".to_string()))
    );
}

#[test]
fn custom_pattern_matching() {
    let patterns = owned(&[r"^_[a-z]{2,4}$", "("]);
    assert!(matches_custom_pattern("_ab", &patterns));
    assert!(!matches_custom_pattern("_abcdef", &patterns));
    assert!(!matches_custom_pattern("x", &owned(&["("])));
    let c = cleaner();
    assert!(c.matches_custom_pattern("ttclid"));
    assert!(!c.matches_custom_pattern("page"));
}

#[test]
fn regex_matching_through_cleaner() {
    let c = cleaner();
    assert!(c.matches_regex("abc", "b"));
    assert!(!c.matches_regex("abc", "z"));
    assert!(!c.matches_regex("abc", "("));
}

#[test]
fn filter_splits_pairs() {
    let c = cleaner();
    let pairs = vec![
        ("utm_source".to_string(), "x".to_string()),
        ("q".to_string(), "1".to_string()),
        ("fbclid".to_string(), "y".to_string()),
    ];
    let (kept, removed) = c.filter_query_params(&pairs, "example.com", None);
    assert_eq!(kept, vec![("q".to_string(), "1".to_string())]);
    assert_eq!(removed, owned(&["utm_source", "fbclid"]));
    let rule = DomainRule::new().allow_only(&["utm_source"]);
    let (kept, removed) = c.filter_query_params(&pairs, "example.com", Some(&rule));
    assert_eq!(kept, vec![("utm_source".to_string(), "x".to_string())]);
    assert_eq!(removed, owned(&["q", "fbclid"]));
}

#[test]
fn path_rules_cut_matches() {
    let c = cleaner();
    let rule = DomainRule::new().strip_path(&[r"/ref=[^/\?]*"]);
    let mut u = WebUrl::parse("https://www.amazon.com/x/ref=abc").unwrap();
    assert!(c.process_path_rules(&mut u, &rule));
    assert_eq!(u.as_string(), "https://www.amazon.com/x");
    let mut v = WebUrl::parse("https://www.amazon.com/x").unwrap();
    assert!(!c.process_path_rules(&mut v, &rule));
    assert!(!c.process_path_rules(&mut v, &DomainRule::new()));
    assert_eq!(v.as_string(), "https://www.amazon.com/x");
}

#[test]
fn extract_domain_takes_last_two_labels() {
    let c = cleaner();
    let u = WebUrl::parse("https://a.b.example.co.uk/x").unwrap();
    assert_eq!(c.extract_domain(&u), "co.uk");
    let v = WebUrl::parse("http://localhost:8080/").unwrap();
    assert_eq!(c.extract_domain(&v), "localhost");
    let w = WebUrl::parse("mailto:someone@example.com").unwrap();
    assert_eq!(c.extract_domain(&w), "");
}

#[test]
fn checked_cleaning_agrees_with_cleaning() {
    let config = Config::default();
    let c = cleaner();
    for input in [
        "https://example.com?utm_source=test",
        "https://www.amazon.com/dp/B000/ref=sr_1_1?tag=foo&keywords=x",
        "https://example.com/page?q=rust",
        "not a link",
        "https://example.com/?fbclid=1&gclid=2",
    ] {
        assert_eq!(c.try_scrub(input), Ok(c.scrub(input)));
        assert_eq!(try_scrub_url(input, &config), Ok(scrub_url(input, &config)));
    }
}

#[test]
fn aggressive_mode_only_adds_removals() {
    let mut config = Config::default();
    config.aggressive_mode = true;
    let aggressive = UrlCleaner::new(Arc::new(config));
    let input = "https://example.com/?mytracker=1&id=2";
    assert_eq!(cleaner().scrub(input), None);
    assert_eq!(
        aggressive.scrub(input),
        Some(("https://example.com/?id=2".to_string(), owned(&["mytracker"]), "example.com".to_string()))
    );
    let input = "https://example.com/?utm_source=a&mycampaign=3&q=1";
    let (_, before, _) = cleaner().scrub(input).unwrap();
    let (_, after, _) = aggressive.scrub(input).unwrap();
    assert_eq!(before, owned(&["utm_source"]));
    assert_eq!(after, owned(&["utm_source", "mycampaign"]));
}

#[test]
fn cleaning_twice_with_fragments_stripped_changes_nothing() {
    let mut config = Config::default();
    config.strip_fragments = true;
    let c = UrlCleaner::new(Arc::new(config));
    let (once, _, _) = c.scrub("https://example.com/a?utm_medium=x&k=v#part").unwrap();
    assert_eq!(once, "https://example.com/a?k=v");
    assert_eq!(c.scrub(&once), None);
}

#[test]
fn checked_path_rules_agree_with_path_rules() {
    let c = cleaner();
    let rule = DomainRule::new().strip_path(&[r"/ref=[^/\?]*"]);
    let mut u = WebUrl::parse("https://www.amazon.com/x/ref=abc?k=1#f").unwrap();
    assert_eq!(c.try_process_path_rules(&mut u, &rule), Ok(true));
    assert_eq!(u.as_string(), "https://www.amazon.com/x?k=1#f");
    assert_eq!(c.try_process_path_rules(&mut u, &rule), Ok(false));
    assert_eq!(u.as_string(), "https://www.amazon.com/x?k=1#f");
}
