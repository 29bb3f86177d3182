use std::sync::Arc;
use std::time::Instant;

use clipscrub::config::Config;
use clipscrub::stats::{push_recent_event, record_clean, CleanEvent, DomainCounts, Stats, MAX_EVENTS};
use clipscrub::ui::{key_for_char, Key, KeyEffect, ViewState};
use clipscrub::url_cleaner::UrlCleaner;
use clipscrub::worker::{TextOutcome, WorkerState, MAX_BACKOFF_MS};

fn event(n: usize) -> CleanEvent {
    CleanEvent {
        original: format!("o{}", n),
        cleaned: format!("c{}", n),
        domain: "d".to_string(),
        removed_params: vec![],
        timestamp: Instant::now(),
    }
}

#[test]
fn recent_events_are_capped_newest_first() {
    let mut events = Vec::new();
    for n in 0..(MAX_EVENTS + 5) {
        push_recent_event(&mut events, event(n));
    }
    assert_eq!(events.len(), MAX_EVENTS);
    assert_eq!(events[0].original, format!("o{}", MAX_EVENTS + 4));
    assert_eq!(events[MAX_EVENTS - 1].original, "o5");
}

#[test]
fn stats_record_events() {
    let mut s = Stats::default();
    s.record_event("https://a.com/?utm_source=x", "https://a.com/", "a.com", &["utm_source".to_string()]);
    s.record_event("https://b.com/?x=1&gclid=2", "https://b.com/?x=1", "b.com", &["gclid".to_string()]);
    s.record_event("https://a.com/p?fbclid=1&ref=2", "https://a.com/p", "a.com", &["fbclid".to_string(), "ref".to_string()]);
    assert_eq!(s.total_cleaned, 3);
    assert_eq!(s.params_removed, 4);
    assert_eq!(s.bytes_saved, 13 + 8 + 15);
    assert_eq!(s.domains.get("a.com"), 2);
    assert_eq!(s.domains.get("b.com"), 1);
    assert_eq!(s.domains.get("c.com"), 0);
    assert_eq!(s.domains.len(), 2);
    let per_domain: u64 = s.domains.top_domains(usize::MAX).iter().map(|p| p.1).sum();
    assert_eq!(per_domain, s.total_cleaned);
}

#[test]
fn top_domains_most_counted_first() {
    let mut d = DomainCounts::new();
    for name in ["x.com", "y.com", "y.com", "z.com", "z.com", "z.com", "w.com", "w.com"] {
        d.bump(name);
    }
    assert_eq!(
        d.top_domains(10),
        vec![
            ("z.com".to_string(), 3),
            ("y.com".to_string(), 2),
            ("w.com".to_string(), 2),
            ("x.com".to_string(), 1)
        ]
    );
    assert_eq!(d.top_domains(1), vec![("z.com".to_string(), 3)]);
    assert!(d.top_domains(0).is_empty());
}

#[test]
fn worker_backoff_grows_and_resets() {
    let mut w = WorkerState::new();
    assert_eq!(w.poll_delay_ms(), 250);
    w.clipboard_failed();
    assert_eq!(w.error_backoff(), 500);
    for _ in 0..20 {
        w.clipboard_failed();
    }
    assert_eq!(w.error_backoff(), MAX_BACKOFF_MS);
    assert_eq!(w.poll_delay_ms(), 5250);
    w.clipboard_opened();
    assert_eq!(w.error_backoff(), 0);
}

#[test]
fn worker_decides_on_text() {
    let cleaner = UrlCleaner::new(Arc::new(Config::default()));
    let mut w = WorkerState::new();
    assert!(matches!(w.on_text(&cleaner, "hello".to_string()), TextOutcome::Leave));
    assert_eq!(w.last_content(), "hello");
    assert!(matches!(w.on_text(&cleaner, "hello".to_string()), TextOutcome::Leave));
    assert!(matches!(w.on_text(&cleaner, "https://example.com/ok".to_string()), TextOutcome::Leave));
    assert_eq!(w.last_content(), "https://example.com/ok");
    match w.on_text(&cleaner, "https://example.com/?utm_source=x".to_string()) {
        TextOutcome::Replace { cleaned, removed, domain } => {
            assert_eq!(cleaned, "https://example.com/");
            assert_eq!(removed, vec!["utm_source".to_string()]);
            assert_eq!(domain, "example.com");
            assert_eq!(w.last_content(), "https://example.com/ok");
            w.replaced(cleaned);
        }
        _ => panic!("expected a replacement"),
    }
    assert_eq!(w.last_content(), "https://example.com/");
    assert!(matches!(w.on_text(&cleaner, "httpx://nope".to_string()), TextOutcome::Leave));
    assert_eq!(w.last_content(), "httpx://nope");
}

#[test]
fn keys_map_to_actions() {
    assert_eq!(key_for_char('q'), Key::Quit);
    assert_eq!(key_for_char('?'), Key::ToggleHelp);
    assert_eq!(key_for_char(' '), Key::TogglePause);
    assert_eq!(key_for_char('p'), Key::TogglePause);
    assert_eq!(key_for_char('k'), Key::ScrollUp);
    assert_eq!(key_for_char('j'), Key::ScrollDown);
    assert_eq!(key_for_char('g'), Key::ScrollTop);
    assert_eq!(key_for_char('c'), Key::ClearEvents);
    assert_eq!(key_for_char('x'), Key::Other);
}

#[test]
fn view_state_handles_keys() {
    let mut v = ViewState::new();
    assert_eq!(v.handle_key(Key::NextTab), KeyEffect::Redraw);
    assert_eq!(v.selected_tab, 1);
    v.handle_key(Key::NextTab);
    v.handle_key(Key::NextTab);
    assert_eq!(v.selected_tab, 0);
    v.handle_key(Key::ScrollUp);
    assert_eq!(v.scroll_state, 0);
    v.handle_key(Key::ScrollDown);
    v.handle_key(Key::ScrollDown);
    assert_eq!(v.scroll_state, 2);
    v.handle_key(Key::ScrollUp);
    assert_eq!(v.scroll_state, 1);
    assert_eq!(v.handle_key(Key::TogglePause), KeyEffect::PauseChanged(true));
    assert_eq!(v.handle_key(Key::TogglePause), KeyEffect::PauseChanged(false));
    v.handle_key(Key::ToggleHelp);
    assert!(v.show_help);
    assert_eq!(v.handle_key(Key::ClearEvents), KeyEffect::ClearEvents);
    assert_eq!(v.scroll_state, 0);
    v.handle_key(Key::ScrollDown);
    v.handle_key(Key::ScrollTop);
    assert_eq!(v.scroll_state, 0);
    let before = v;
    assert_eq!(v.handle_key(Key::Quit), KeyEffect::Quit);
    assert_eq!(v, before);
}

#[test]
fn non_press_events_change_nothing() {
    let mut v = ViewState::new();
    v.handle_key(Key::NextTab);
    let before = v;
    for key in [Key::NextTab, Key::TogglePause, Key::ToggleHelp, Key::ScrollDown, Key::Quit, Key::ClearEvents] {
        assert_eq!(v.handle_event(key, false), KeyEffect::Redraw);
        assert_eq!(v, before);
    }
    assert_eq!(v.handle_event(Key::TogglePause, true), KeyEffect::PauseChanged(true));
    assert!(v.paused);
    assert_eq!(v.handle_event(Key::NextTab, true), KeyEffect::Redraw);
    assert_eq!(v.selected_tab, 2);
}

#[test]
fn tab_stays_below_three_and_cycles() {
    let mut v = ViewState::new();
    let mut seen = Vec::new();
    for _ in 0..7 {
        v.handle_key(Key::NextTab);
        assert!(v.selected_tab < 3);
        seen.push(v.selected_tab);
    }
    assert_eq!(seen, vec![1, 2, 0, 1, 2, 0, 1]);
    let tab = v.selected_tab;
    for key in [Key::ScrollDown, Key::ScrollUp, Key::ScrollTop, Key::ToggleHelp, Key::TogglePause, Key::ClearEvents, Key::Other] {
        v.handle_key(key);
        assert_eq!(v.selected_tab, tab);
    }
}

#[test]
fn records_stay_consistent() {
    let mut events: Vec<CleanEvent> = Vec::new();
    let mut stats = Stats::new();
    for n in 0..(MAX_EVENTS + 5) {
        push_recent_event(&mut events, event(n));
        stats.record_event("https://a.com/?x=1", "https://a.com/", if n % 2 == 0 { "a.com" } else { "b.com" }, &[]);
        assert!(events.len() <= MAX_EVENTS);
        assert!(events.len() as u64 <= stats.total_cleaned);
        assert_eq!(stats.domains.get("a.com") + stats.domains.get("b.com"), stats.total_cleaned);
        assert_eq!(events[0].original, format!("o{}", n));
    }
    events.clear();
    assert!(events.len() as u64 <= stats.total_cleaned);
}

#[test]
fn record_clean_keeps_records_together() {
    let mut events: Vec<CleanEvent> = Vec::new();
    let mut stats = Stats::new();
    for n in 0..(MAX_EVENTS + 3) {
        let evt = CleanEvent {
            original: "https://a.com/?utm_source=x".to_string(),
            cleaned: "https://a.com/".to_string(),
            domain: if n % 3 == 0 { "a.com" } else { "b.com" }.to_string(),
            removed_params: vec!["utm_source".to_string()],
            timestamp: Instant::now(),
        };
        record_clean(&mut events, &mut stats, evt);
        assert_eq!(stats.total_cleaned, n as u64 + 1);
        assert_eq!(stats.params_removed, n as u64 + 1);
        assert_eq!(stats.bytes_saved, 13 * (n as u64 + 1));
        assert_eq!(events.len(), (n + 1).min(MAX_EVENTS));
        assert!(events.len() as u64 <= stats.total_cleaned);
        assert_eq!(stats.domains.get("a.com") + stats.domains.get("b.com"), stats.total_cleaned);
    }
}

#[test]
fn backoff_after_n_failures() {
    let mut w = WorkerState::new();
    for n in 1..=14u64 {
        w.clipboard_failed();
        assert_eq!(w.error_backoff(), (500 * n).min(5000));
        assert_eq!(w.poll_delay_ms(), 250 + (500 * n).min(5000));
    }
    w.clipboard_opened();
    assert_eq!(w.poll_delay_ms(), 250);
}
