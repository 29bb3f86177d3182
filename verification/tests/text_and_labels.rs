use clipscrub::text::{chars_of, contains_chars, decimal_string, join_first, same_text, starts_with_chars, trim_white_space, utf8_len_upto};
use clipscrub::ui::{age_label, removed_label, removed_summary};
use clipscrub::url_cleaner::{domain_of_host, has_suspicious_piece, is_whitelisted};

fn owned(items: &[&str]) -> Vec<String> {
    items.iter().map(|s| s.to_string()).collect()
}

#[test]
fn trims_unicode_white_space() {
    assert_eq!(trim_white_space("\t hi there \n"), "hi there");
    assert_eq!(trim_white_space("\u{3000}x\u{a0}"), "x");
    assert_eq!(trim_white_space("   "), "");
    assert_eq!(trim_white_space(""), "");
    let once = trim_white_space("  a b  ");
    assert_eq!(trim_white_space(once), once);
}

#[test]
fn char_helpers() {
    assert_eq!(chars_of("héllo"), vec!['h', 'é', 'l', 'l', 'o']);
    assert!(same_text("abc", "abc"));
    assert!(!same_text("abc", "abd"));
    assert!(!same_text("abc", "ab"));
    assert!(starts_with_chars(&chars_of("https://x"), &chars_of("http")));
    assert!(!starts_with_chars(&chars_of("htt"), &chars_of("http")));
    assert!(contains_chars(&chars_of("mytrackid"), &chars_of("track")));
    assert!(contains_chars(&chars_of("abc"), &chars_of("")));
    assert!(!contains_chars(&chars_of("abc"), &chars_of("abcd")));
}

#[test]
fn domains_of_hosts() {
    assert_eq!(domain_of_host("a.b.example.com"), "example.com");
    assert_eq!(domain_of_host("example.com"), "example.com");
    assert_eq!(domain_of_host("localhost"), "localhost");
    assert_eq!(domain_of_host("example.com."), "com.");
    assert_eq!(domain_of_host(domain_of_host("x.y.z.io").as_str()), "z.io");
}

#[test]
fn whitelist_and_suspicious_pieces() {
    assert!(is_whitelisted(&owned(&["ample"]), "example.com"));
    assert!(!is_whitelisted(&owned(&["other.com"]), "example.com"));
    assert!(!is_whitelisted(&vec![], "example.com"));
    assert!(has_suspicious_piece("affid"));
    assert!(has_suspicious_piece("xpartnery"));
    assert!(!has_suspicious_piece("page"));
}

#[test]
fn numbers_and_joins() {
    assert_eq!(decimal_string(0), "0");
    assert_eq!(decimal_string(1234), "1234");
    assert_eq!(decimal_string(u64::MAX), u64::MAX.to_string());
    let items = owned(&["a", "b", "c"]);
    assert_eq!(join_first(&items, 3, ", "), "a, b, c");
    assert_eq!(join_first(&items, 1, ", "), "a");
    assert_eq!(join_first(&items, 0, ", "), "");
}

#[test]
fn age_labels() {
    assert_eq!(age_label(0), "0s");
    assert_eq!(age_label(59), "59s");
    assert_eq!(age_label(60), "1m");
    assert_eq!(age_label(3599), "59m");
    assert_eq!(age_label(3600), "1h");
    assert_eq!(age_label(7322), "2h");
}

#[test]
fn removed_parameter_labels() {
    assert_eq!(removed_summary(&owned(&["a", "b", "c", "d"])), "a, b, c, +1 more");
    assert_eq!(removed_summary(&owned(&["a", "b"])), "a, b");
    assert_eq!(removed_summary(&vec![]), "");
    assert_eq!(removed_label(&vec![]), "No params");
    assert_eq!(removed_label(&owned(&["a", "b", "c", "d"])), "-4 params");
    assert_eq!(removed_label(&owned(&["x", "y"])), "-x, y");
}

#[test]
fn utf8_lengths_up_to_a_limit() {
    assert_eq!(utf8_len_upto("", 0), Some(0));
    assert_eq!(utf8_len_upto("abc", 3), Some(3));
    assert_eq!(utf8_len_upto("abc", 2), None);
    let mixed = "h\u{e9}\u{20ac}\u{1d11e}";
    assert_eq!(mixed.len(), 10);
    assert_eq!(utf8_len_upto(mixed, 100), Some(10));
    assert_eq!(utf8_len_upto(mixed, 10), Some(10));
    assert_eq!(utf8_len_upto(mixed, 9), None);
}
