//! The decisions of the clipboard watcher: how long to wait before the next
//! look, how clipboard failures back off, and what to do with new text.

use vstd::prelude::*;

use crate::text::{chars_of, has_prefix, starts_with_chars, trim_white_space, trimmed};
use crate::url_cleaner::{UrlCleaner, scrub_fits, scrub_spec};

verus! {

/// The pause between two looks at the clipboard, before any back-off.
pub const BASE_DELAY_MS: u64 = 250;

/// How much each failure to open the clipboard adds to the pause.
pub const BACKOFF_STEP_MS: u64 = 500;

/// The largest back-off.
pub const MAX_BACKOFF_MS: u64 = 5000;

/// What the watcher remembers between looks.
pub struct WorkerState {
    last_content: String,
    error_backoff: u64,
}

/// What to do with text read from the clipboard.
pub enum TextOutcome {
    /// Nothing: the text is what was last seen, or not a link to clean.
    Leave,
    /// Put the cleaned link on the clipboard (and record it).
    Replace { cleaned: String, removed: Vec<String>, domain: String },
    /// The link is too long for the `url` crate to edit safely (see
    /// `scrub_fits`): an edit could overflow its byte offsets, where it
    /// panics.
    TooLong,
}

/// Whether text (trimmed) looks like a web link.
pub open spec fn looks_like_link(txt: Seq<char>) -> bool {
    has_prefix(trimmed(txt), "http://"@) || has_prefix(trimmed(txt), "https://"@)
}

/// The back-off after one more failure to open the clipboard: one step
/// more, up to `MAX_BACKOFF_MS`.
pub open spec fn backoff_after_failure(b: u64) -> u64 {
    if b + BACKOFF_STEP_MS <= MAX_BACKOFF_MS {
        (b + BACKOFF_STEP_MS) as u64
    } else {
        MAX_BACKOFF_MS
    }
}

/// The back-off after `n` failures in a row, counted from the start or from
/// the last time the clipboard opened (which resets it to zero).
pub open spec fn backoff_after(n: nat) -> u64
    decreases n,
{
    if n == 0 {
        0
    } else {
        backoff_after_failure(backoff_after((n - 1) as nat))
    }
}

/// After `n` failures in a row the back-off is `min(500 * n, 5000)`, so the
/// pause before the next look is `250 + min(500 * n, 5000)` milliseconds:
/// never under 250 and never over 5250.
pub proof fn lemma_backoff_after_failures(n: nat)
    ensures
        backoff_after(n) == if BACKOFF_STEP_MS * n <= MAX_BACKOFF_MS {
            BACKOFF_STEP_MS * n
        } else {
            MAX_BACKOFF_MS as int
        },
        BASE_DELAY_MS <= BASE_DELAY_MS + backoff_after(n) <= BASE_DELAY_MS + MAX_BACKOFF_MS,
    decreases n,
{
    if n > 0 {
        lemma_backoff_after_failures((n - 1) as nat);
    }
}

impl WorkerState {
    #[verifier::type_invariant]
    closed spec fn backoff_capped(&self) -> bool {
        self.error_backoff <= MAX_BACKOFF_MS
    }

    /// The clipboard text last seen or written.
    pub closed spec fn last_seen(&self) -> Seq<char> {
        self.last_content@
    }

    /// The extra pause after failures to open the clipboard.
    pub closed spec fn backoff(&self) -> u64 {
        self.error_backoff
    }

    /// A watcher that has seen nothing and has no back-off.
    pub fn new() -> (r: Self)
        ensures
            r.last_seen() == Seq::<char>::empty(),
            r.backoff() == 0,
    {
        WorkerState { last_content: String::new(), error_backoff: 0 }
    }

    /// The clipboard text last seen or written.
    pub fn last_content(&self) -> (r: &str)
        ensures
            r@ == self.last_seen(),
    {
        self.last_content.as_str()
    }

    /// The extra pause after failures to open the clipboard; never more than
    /// `MAX_BACKOFF_MS`.
    pub fn error_backoff(&self) -> (r: u64)
        ensures
            r == self.backoff(),
            r <= MAX_BACKOFF_MS,
    {
        proof {
            use_type_invariant(self);
        }
        self.error_backoff
    }

    /// The pause before the next look.
    pub fn poll_delay_ms(&self) -> (r: u64)
        ensures
            r == BASE_DELAY_MS + self.backoff(),
    {
        proof {
            use_type_invariant(self);
        }
        BASE_DELAY_MS + self.error_backoff
    }

    /// The clipboard opened: the back-off ends.
    pub fn clipboard_opened(&mut self)
        ensures
            final(self).backoff() == 0,
            final(self).last_seen() == old(self).last_seen(),
    {
        self.error_backoff = 0;
    }

    /// The clipboard did not open: the back-off grows by one step, up to
    /// `MAX_BACKOFF_MS`.
    pub fn clipboard_failed(&mut self)
        ensures
            final(self).backoff() == backoff_after_failure(old(self).backoff()),
            final(self).last_seen() == old(self).last_seen(),
    {
        proof {
            use_type_invariant(&*self);
        }
        let grown = self.error_backoff + BACKOFF_STEP_MS;
        self.error_backoff = if grown <= MAX_BACKOFF_MS {
            grown
        } else {
            MAX_BACKOFF_MS
        };
    }

    /// Decides on text read from the clipboard. Text seen last time is left
    /// alone; text that is not a link is remembered and left; a link that
    /// cleaning changes is to be replaced (remembered only once written, by
    /// `replaced`); any other link is remembered and left. A link too long
    /// for the `url` crate to edit gives `TooLong` and changes nothing.
    pub fn on_text(&mut self, cleaner: &UrlCleaner, txt: String) -> (r: TextOutcome)
        ensures
            txt@ == old(self).last_seen() ==> r is Leave && final(self).last_seen()
                == old(self).last_seen(),
            txt@ != old(self).last_seen() && !looks_like_link(txt@) ==> r is Leave
                && final(self).last_seen() == txt@,
            txt@ != old(self).last_seen() && looks_like_link(txt@) && !scrub_fits(
                cleaner.config_view(),
                txt@,
            ) ==> r is TooLong && final(self).last_seen() == old(self).last_seen(),
            txt@ != old(self).last_seen() && looks_like_link(txt@) && scrub_fits(
                cleaner.config_view(),
                txt@,
            ) ==> match scrub_spec(
                cleaner.config_view(),
                txt@,
            ) {
                Some((c, rm, d)) => if c != txt@ {
                    &&& r matches TextOutcome::Replace { cleaned, removed, domain }
                    &&& cleaned@ == c
                    &&& removed.deep_view() == rm
                    &&& domain@ == d
                    &&& final(self).last_seen() == old(self).last_seen()
                } else {
                    r is Leave && final(self).last_seen() == txt@
                },
                None => r is Leave && final(self).last_seen() == txt@,
            },
            final(self).backoff() == old(self).backoff(),
    {
        proof {
            use_type_invariant(&*self);
        }
        if txt == self.last_content {
            return TextOutcome::Leave;
        }
        let t = chars_of(trim_white_space(txt.as_str()));
        let http = chars_of("http://");
        let https = chars_of("https://");
        if !starts_with_chars(&t, &http) && !starts_with_chars(&t, &https) {
            self.last_content = txt;
            return TextOutcome::Leave;
        }
        match cleaner.try_scrub(txt.as_str()) {
            Ok(Some((cleaned, removed, domain))) => {
                if cleaned != txt {
                    TextOutcome::Replace { cleaned, removed, domain }
                } else {
                    self.last_content = txt;
                    TextOutcome::Leave
                }
            },
            Ok(None) => {
                self.last_content = txt;
                TextOutcome::Leave
            },
            Err(_) => TextOutcome::TooLong,
        }
    }

    /// The cleaned link is on the clipboard: remember it.
    pub fn replaced(&mut self, cleaned: String)
        ensures
            final(self).last_seen() == cleaned@,
            final(self).backoff() == old(self).backoff(),
    {
        proof {
            use_type_invariant(&*self);
        }
        self.last_content = cleaned;
    }
}

/// Both `http://` and `https://` links are links to the watcher, and nothing
/// else is: text is a link exactly where, trimmed, it starts with one of the
/// two.
pub proof fn lemma_link_schemes(txt: Seq<char>)
    ensures
        has_prefix(trimmed(txt), "http://"@) ==> looks_like_link(txt),
        has_prefix(trimmed(txt), "https://"@) ==> looks_like_link(txt),
        looks_like_link(txt) ==> has_prefix(trimmed(txt), "http://"@) || has_prefix(
            trimmed(txt),
            "https://"@,
        ),
{
}

} // verus!
