//! The cleaning of one link: which domain it belongs to, which of its query
//! parameters are tracking junk, which path pieces go, and what is left.

use std::sync::Arc;
use vstd::prelude::*;
use vstd::string::*;

use crate::config::Config;
use crate::pattern::{
    Pattern, compile_pattern, spec_regex_compiles, spec_regex_is_match, spec_regex_replace_all,
};
use crate::rules::{ConfigView, DomainRule, DomainRuleView, default_config};
use crate::text::{
    chars_of, contains_chars, has_infix, has_prefix, lowercase, spec_lowercase, starts_with_chars,
    trim_white_space, trimmed,
};
use crate::web_url::{
    WebUrl, pairs_view, parse_url, replace_query_fits, set_path_fits, spec_url_fragment, spec_url_host, spec_url_parse, spec_url_path,
    spec_url_query_pairs, spec_url_replace_query_pairs, spec_url_set_fragment, spec_url_set_path,
    spec_url_set_query,
};

verus! {

broadcast use vstd::string::group_string_axioms;

// ---------------------------------------------------------------------------
// Domains
// ---------------------------------------------------------------------------

/// The last index before `end` at which `s` holds `c`, or -1.
pub open spec fn last_index_of(s: Seq<char>, c: char, end: int) -> int
    decreases end,
{
    if end <= 0 {
        -1
    } else if s[end - 1] == c {
        end - 1
    } else {
        last_index_of(s, c, end - 1)
    }
}

/// The last two dot-separated labels of a host (the whole host where it has
/// fewer than two labels).
pub open spec fn registrable_domain(host: Seq<char>) -> Seq<char> {
    let last = last_index_of(host, '.', host.len() as int);
    if last < 0 {
        host
    } else {
        host.subrange(last_index_of(host, '.', last) + 1, host.len() as int)
    }
}

/// The domain a link is filed under: that of its host, or empty without one.
pub open spec fn domain_of(host: Option<Seq<char>>) -> Seq<char> {
    match host {
        Some(h) => registrable_domain(h),
        None => Seq::empty(),
    }
}

proof fn lemma_last_index_of(s: Seq<char>, c: char, end: int)
    requires
        0 <= end <= s.len(),
    ensures
        -1 <= last_index_of(s, c, end) < end,
        last_index_of(s, c, end) >= 0 ==> s[last_index_of(s, c, end)] == c,
        forall|k: int| last_index_of(s, c, end) < k < end ==> s[k] != c,
    decreases end,
{
    if end > 0 && s[end - 1] != c {
        lemma_last_index_of(s, c, end - 1);
    }
}

proof fn lemma_last_index_of_subrange(s: Seq<char>, c: char, start: int, e: int)
    requires
        0 <= start <= s.len(),
        0 <= e <= s.len() - start,
    ensures
        last_index_of(s.subrange(start, s.len() as int), c, e) == if last_index_of(s, c, start + e)
            >= start {
            last_index_of(s, c, start + e) - start
        } else {
            -1
        },
    decreases e,
{
    let t = s.subrange(start, s.len() as int);
    if e > 0 {
        assert(t[e - 1] == s[start + e - 1]);
        lemma_last_index_of_subrange(s, c, start, e - 1);
        lemma_last_index_of(s, c, start + e - 1);
    } else {
        lemma_last_index_of(s, c, start);
    }
}

/// The domain of a host is a suffix of the host, and taking the domain of a
/// domain changes nothing.
pub proof fn lemma_domain_suffix_idempotent(host: Seq<char>)
    ensures
        host.len() >= registrable_domain(host).len(),
        host.subrange(host.len() - registrable_domain(host).len(), host.len() as int)
            == registrable_domain(host),
        registrable_domain(registrable_domain(host)) == registrable_domain(host),
{
    let n = host.len() as int;
    lemma_last_index_of(host, '.', n);
    let last = last_index_of(host, '.', n);
    if last >= 0 {
        lemma_last_index_of(host, '.', last);
        let start = last_index_of(host, '.', last) + 1;
        let r = host.subrange(start, n);
        assert(host.subrange(n - r.len(), n) =~= r);
        lemma_last_index_of_subrange(host, '.', start, n - start);
        let rl = last_index_of(r, '.', r.len() as int);
        assert(rl == last - start);
        lemma_last_index_of_subrange(host, '.', start, rl);
        lemma_last_index_of(host, '.', start + rl);
        assert(last_index_of(r, '.', rl) == -1);
        assert(r.subrange(0, r.len() as int) =~= r);
    } else {
        assert(host.subrange(0, n) =~= host);
    }
}

/// The last index before `end` at which `s` holds `c`, or `None`.
fn find_last(s: &Vec<char>, c: char, end: usize) -> (r: Option<usize>)
    requires
        end <= s.len(),
    ensures
        match r {
            Some(i) => last_index_of(s@, c, end as int) == i,
            None => last_index_of(s@, c, end as int) == -1,
        },
{
    let mut j: usize = end;
    while j > 0
        invariant
            j <= end <= s.len(),
            last_index_of(s@, c, j as int) == last_index_of(s@, c, end as int),
        decreases j,
    {
        if s[j - 1] == c {
            return Some(j - 1);
        }
        j = j - 1;
    }
    None
}

/// The last two dot-separated labels of a host (the whole host where it has
/// fewer than two labels).
pub fn domain_of_host(host: &str) -> (r: String)
    ensures
        r@ == registrable_domain(host@),
{
    let cs = chars_of(host);
    let n = cs.len();
    match find_last(&cs, '.', n) {
        None => host.to_owned(),
        Some(last) => {
            proof {
                lemma_last_index_of(host@, '.', n as int);
                lemma_last_index_of(host@, '.', last as int);
            }
            let start = match find_last(&cs, '.', last) {
                Some(i) => i + 1,
                None => 0,
            };
            host.substring_char(start, n).to_owned()
        },
    }
}

/// The domain a link is filed under: that of its host, or empty without one.
pub fn extract_domain(url: &WebUrl) -> (r: String)
    ensures
        r@ == domain_of(spec_url_host(url@)),
{
    match url.host_str() {
        Some(h) => domain_of_host(h.as_str()),
        None => String::new(),
    }
}

/// Whether some whitelist entry occurs in the domain.
pub open spec fn whitelisted(list: Seq<Seq<char>>, domain: Seq<char>) -> bool {
    exists|i: int| 0 <= i < list.len() && has_infix(domain, #[trigger] list[i])
}

/// Whether some whitelist entry occurs in the domain.
pub fn is_whitelisted(list: &Vec<String>, domain: &str) -> (r: bool)
    ensures
        r == whitelisted(list.deep_view(), domain@),
{
    let d = chars_of(domain);
    let mut i: usize = 0;
    while i < list.len()
        invariant
            d@ == domain@,
            i <= list.len(),
            forall|j: int| 0 <= j < i ==> !has_infix(domain@, #[trigger] list.deep_view()[j]),
        decreases list.len() - i,
    {
        let entry = chars_of(list[i].as_str());
        if contains_chars(&d, &entry) {
            assert(list.deep_view()[i as int] == entry@);
            return true;
        }
        i = i + 1;
    }
    false
}

// ---------------------------------------------------------------------------
// Query parameters
// ---------------------------------------------------------------------------

/// Whether some name in `names`, lowercased, equals `lk`.
pub open spec fn lower_in(names: Seq<Seq<char>>, lk: Seq<char>) -> bool {
    exists|i: int| 0 <= i < names.len() && spec_lowercase(#[trigger] names[i]) == lk
}

/// Whether some pattern of the list compiles and matches `param`.
pub open spec fn matches_custom(patterns: Seq<Seq<char>>, param: Seq<char>) -> bool {
    exists|i: int|
        0 <= i < patterns.len() && spec_regex_compiles(#[trigger] patterns[i])
            && spec_regex_is_match(patterns[i], param)
}

/// Name pieces that aggressive mode treats as tracking.
pub open spec fn suspicious_words() -> Seq<Seq<char>> {
    seq!["track"@, "click"@, "ref"@, "campaign"@, "source"@, "aff"@, "partner"@]
}

/// Whether a lowercased name holds one of the suspicious pieces.
pub open spec fn is_suspicious(lk: Seq<char>) -> bool {
    exists|i: int| 0 <= i < suspicious_words().len() && has_infix(lk, #[trigger] suspicious_words()[i])
}

/// Whether the rules that hold on every domain mark the lowercased name `lk`.
pub open spec fn globally_tracking(cfg: ConfigView, lk: Seq<char>) -> bool {
    ||| lower_in(cfg.global_params, lk)
    ||| matches_custom(cfg.custom_patterns, lk)
    ||| cfg.aggressive_mode && is_suspicious(lk)
}

/// Whether the parameter named `key` is removed, under the rule set and the
/// domain's rule: an allow list decides alone; otherwise the domain's own
/// parameters, then the global ones, the patterns and aggressive mode.
pub open spec fn should_remove(cfg: ConfigView, rule: Option<DomainRuleView>, key: Seq<char>) -> bool {
    let lk = spec_lowercase(key);
    match rule {
        Some(r) => match r.keep_only {
            Some(keep) => !lower_in(keep, lk),
            None => lower_in(r.params, lk) || globally_tracking(cfg, lk),
        },
        None => globally_tracking(cfg, lk),
    }
}

/// The pairs that stay, in order.
pub open spec fn kept_pairs(
    cfg: ConfigView,
    rule: Option<DomainRuleView>,
    pairs: Seq<(Seq<char>, Seq<char>)>,
) -> Seq<(Seq<char>, Seq<char>)>
    decreases pairs.len(),
{
    if pairs.len() == 0 {
        Seq::empty()
    } else {
        let prev = kept_pairs(cfg, rule, pairs.drop_last());
        if should_remove(cfg, rule, pairs.last().0) {
            prev
        } else {
            prev.push(pairs.last())
        }
    }
}

/// The names of the pairs that go, in order.
pub open spec fn removed_keys(
    cfg: ConfigView,
    rule: Option<DomainRuleView>,
    pairs: Seq<(Seq<char>, Seq<char>)>,
) -> Seq<Seq<char>>
    decreases pairs.len(),
{
    if pairs.len() == 0 {
        Seq::empty()
    } else {
        let prev = removed_keys(cfg, rule, pairs.drop_last());
        if should_remove(cfg, rule, pairs.last().0) {
            prev.push(pairs.last().0)
        } else {
            prev
        }
    }
}

/// An optional borrowed rule as a plain value.
pub open spec fn rule_view(rule: Option<&DomainRule>) -> Option<DomainRuleView> {
    match rule {
        Some(r) => Some(r@),
        None => None,
    }
}

/// The patterns of `custom` are exactly those of `patterns` that compile.
pub open spec fn compiled_from(patterns: Seq<Seq<char>>, custom: Seq<Pattern>) -> bool {
    &&& forall|j: int|
        0 <= j < custom.len() ==> spec_regex_compiles(#[trigger] custom[j]@) && patterns.contains(
            custom[j]@,
        )
    &&& forall|i: int|
        0 <= i < patterns.len() && spec_regex_compiles(#[trigger] patterns[i]) ==> exists|j: int|
            0 <= j < custom.len() && custom[j]@ == patterns[i]
}

/// The characters of each string in a list.
pub open spec fn texts(s: Seq<String>) -> Seq<Seq<char>> {
    Seq::new(s.len(), |i: int| s[i]@)
}

/// Compiles each pattern; keeps those that compile.
pub fn compile_all(patterns: &[String]) -> (r: Vec<Pattern>)
    ensures
        compiled_from(texts(patterns@), r@),
{
    let ghost ps = texts(patterns@);
    let mut out: Vec<Pattern> = Vec::new();
    let mut i: usize = 0;
    while i < patterns.len()
        invariant
            ps == texts(patterns@),
            i <= patterns.len(),
            forall|j: int|
                0 <= j < out@.len() ==> spec_regex_compiles(#[trigger] out@[j]@) && ps.contains(
                    out@[j]@,
                ),
            forall|k: int|
                0 <= k < i && spec_regex_compiles(#[trigger] ps[k]) ==> exists|j: int|
                    0 <= j < out@.len() && out@[j]@ == ps[k],
        decreases patterns.len() - i,
    {
        let ghost old_out = out@;
        match compile_pattern(patterns[i].as_str()) {
            Some(p) => {
                proof {
                    assert(ps[i as int] == p@);
                }
                out.push(p);
                proof {
                    assert(out@[out@.len() - 1]@ == ps[i as int]);
                    assert forall|k: int|
                        0 <= k < i + 1 && spec_regex_compiles(#[trigger] ps[k]) implies exists|j: int|
                        0 <= j < out@.len() && out@[j]@ == ps[k] by {
                        if k < i {
                            let j = choose|j: int| 0 <= j < old_out.len() && old_out[j]@ == ps[k];
                            assert(out@[j] == old_out[j]);
                        } else {
                            assert(out@[out@.len() - 1]@ == ps[k]);
                        }
                    }
                }
            },
            None => {},
        }
        i = i + 1;
    }
    out
}

/// Whether some compiled pattern matches `param`.
fn any_pattern_matches(custom: &Vec<Pattern>, param: &str) -> (r: bool)
    ensures
        r == exists|j: int| 0 <= j < custom@.len() && spec_regex_is_match(#[trigger] custom@[j]@, param@),
{
    let mut j: usize = 0;
    while j < custom.len()
        invariant
            j <= custom.len(),
            forall|k: int| 0 <= k < j ==> !spec_regex_is_match(#[trigger] custom@[k]@, param@),
        decreases custom.len() - j,
    {
        if custom[j].is_match(param) {
            return true;
        }
        j = j + 1;
    }
    false
}

proof fn lemma_compiled_match(patterns: Seq<Seq<char>>, custom: Seq<Pattern>, param: Seq<char>)
    requires
        compiled_from(patterns, custom),
    ensures
        (exists|j: int| 0 <= j < custom.len() && spec_regex_is_match(#[trigger] custom[j]@, param))
            == matches_custom(patterns, param),
{
    if exists|j: int| 0 <= j < custom.len() && spec_regex_is_match(#[trigger] custom[j]@, param) {
        let j = choose|j: int| 0 <= j < custom.len() && spec_regex_is_match(#[trigger] custom[j]@, param);
        assert(spec_regex_compiles(custom[j]@));
        assert(patterns.contains(custom[j]@));
        let i = choose|i: int| 0 <= i < patterns.len() && patterns[i] == custom[j]@;
        assert(spec_regex_compiles(patterns[i]) && spec_regex_is_match(patterns[i], param));
    }
    if matches_custom(patterns, param) {
        let i = choose|i: int|
            0 <= i < patterns.len() && spec_regex_compiles(#[trigger] patterns[i])
                && spec_regex_is_match(patterns[i], param);
        let j = choose|j: int| 0 <= j < custom.len() && custom[j]@ == patterns[i];
        assert(spec_regex_is_match(custom[j]@, param));
    }
}

/// Whether some pattern of the list compiles and matches `param`.
pub fn matches_custom_pattern(param: &str, patterns: &[String]) -> (r: bool)
    ensures
        r == matches_custom(texts(patterns@), param@),
{
    let custom = compile_all(patterns);
    proof {
        lemma_compiled_match(texts(patterns@), custom@, param@);
    }
    any_pattern_matches(&custom, param)
}

/// Whether some name in `names`, lowercased, equals `lk`.
fn any_lower_eq(names: &Vec<String>, lk: &String) -> (r: bool)
    ensures
        r == lower_in(names.deep_view(), lk@),
{
    let mut i: usize = 0;
    while i < names.len()
        invariant
            i <= names.len(),
            forall|j: int| 0 <= j < i ==> spec_lowercase(#[trigger] names.deep_view()[j]) != lk@,
        decreases names.len() - i,
    {
        let l = lowercase(names[i].as_str());
        if l == *lk {
            assert(spec_lowercase(names.deep_view()[i as int]) == lk@);
            return true;
        }
        i = i + 1;
    }
    false
}

/// Whether a lowercased name holds one of the suspicious pieces.
pub fn has_suspicious_piece(lk: &str) -> (r: bool)
    ensures
        r == is_suspicious(lk@),
{
    let words: [&str; 7] = ["track", "click", "ref", "campaign", "source", "aff", "partner"];
    let text = chars_of(lk);
    let mut i: usize = 0;
    while i < 7
        invariant
            text@ == lk@,
            words@ == seq!["track", "click", "ref", "campaign", "source", "aff", "partner"],
            i <= 7,
            forall|j: int| 0 <= j < i ==> !has_infix(lk@, #[trigger] suspicious_words()[j]),
        decreases 7 - i,
    {
        let w = chars_of(words[i]);
        assert(w@ == suspicious_words()[i as int]);
        if contains_chars(&text, &w) {
            return true;
        }
        i = i + 1;
    }
    false
}

/// Whether the rules that hold on every domain mark the lowercased name.
fn globally_tracking_exec(config: &Config, custom: &Vec<Pattern>, lk: &String) -> (r: bool)
    requires
        compiled_from(config@.custom_patterns, custom@),
    ensures
        r == globally_tracking(config@, lk@),
{
    if any_lower_eq(&config.global_params, lk) {
        return true;
    }
    proof {
        lemma_compiled_match(config@.custom_patterns, custom@, lk@);
    }
    if any_pattern_matches(custom, lk.as_str()) {
        return true;
    }
    config.aggressive_mode && has_suspicious_piece(lk.as_str())
}

/// Whether the parameter named `key` is removed.
fn should_remove_key(
    config: &Config,
    custom: &Vec<Pattern>,
    rule: Option<&DomainRule>,
    key: &String,
) -> (r: bool)
    requires
        compiled_from(config@.custom_patterns, custom@),
    ensures
        r == should_remove(config@, rule_view(rule), key@),
{
    let lk = lowercase(key.as_str());
    match rule {
        Some(r) => match &r.keep_only {
            Some(keep) => !any_lower_eq(keep, &lk),
            None => any_lower_eq(&r.params, &lk) || globally_tracking_exec(config, custom, &lk),
        },
        None => globally_tracking_exec(config, custom, &lk),
    }
}

/// Splits the pairs into those that stay and the names of those that go.
fn filter_pairs(
    config: &Config,
    custom: &Vec<Pattern>,
    current_query: &[(String, String)],
    rule: Option<&DomainRule>,
) -> (r: (Vec<(String, String)>, Vec<String>))
    requires
        compiled_from(config@.custom_patterns, custom@),
    ensures
        pairs_view(r.0@) == kept_pairs(config@, rule_view(rule), pairs_view(current_query@)),
        r.1.deep_view() == removed_keys(config@, rule_view(rule), pairs_view(current_query@)),
{
    let ghost pairs = pairs_view(current_query@);
    let ghost rv = rule_view(rule);
    let mut new_query: Vec<(String, String)> = Vec::new();
    let mut removed: Vec<String> = Vec::new();
    let mut i: usize = 0;
    while i < current_query.len()
        invariant
            compiled_from(config@.custom_patterns, custom@),
            pairs == pairs_view(current_query@),
            rv == rule_view(rule),
            i <= current_query@.len(),
            pairs_view(new_query@) == kept_pairs(config@, rv, pairs.take(i as int)),
            removed.deep_view() == removed_keys(config@, rv, pairs.take(i as int)),
        decreases current_query@.len() - i,
    {
        let k = &current_query[i].0;
        let v = &current_query[i].1;
        let remove = should_remove_key(config, custom, rule, k);
        proof {
            assert(pairs.take(i + 1).drop_last() =~= pairs.take(i as int));
            assert(pairs.take(i + 1).last() == pairs[i as int]);
        }
        if remove {
            let ghost before = removed.deep_view();
            removed.push(k.clone());
            proof {
                assert(removed.deep_view() =~= before.push(k@));
            }
        } else {
            let ghost before = pairs_view(new_query@);
            new_query.push((k.clone(), v.clone()));
            proof {
                assert(pairs_view(new_query@) =~= before.push((k@, v@)));
            }
        }
        i = i + 1;
    }
    proof {
        assert(pairs.take(current_query@.len() as int) =~= pairs);
    }
    (new_query, removed)
}

// ---------------------------------------------------------------------------
// Paths
// ---------------------------------------------------------------------------

/// The path after cutting out, pattern by pattern, every match of each
/// pattern that compiles and matches; and whether anything was cut.
pub open spec fn stripped_path(patterns: Seq<Seq<char>>, path: Seq<char>) -> (Seq<char>, bool)
    decreases patterns.len(),
{
    if patterns.len() == 0 {
        (path, false)
    } else {
        let (p, changed) = stripped_path(patterns.drop_last(), path);
        let pat = patterns.last();
        if spec_regex_compiles(pat) && spec_regex_is_match(pat, p) {
            (spec_regex_replace_all(pat, p, Seq::empty()), true)
        } else {
            (p, changed)
        }
    }
}

/// The URL after a rule's path patterns, and whether the path changed.
pub open spec fn path_stage(rule: DomainRuleView, url: Seq<char>) -> (Seq<char>, bool) {
    match rule.strip_path_patterns {
        None => (url, false),
        Some(ps) => {
            let (np, changed) = stripped_path(ps, spec_url_path(url));
            if changed {
                (spec_url_set_path(url, np), true)
            } else {
                (url, false)
            }
        },
    }
}

/// Whether the `url` crate can set the path that a rule's patterns leave
/// (see `set_path_fits`); always so where the path stays.
pub open spec fn path_stage_fits(rule: DomainRuleView, url: Seq<char>) -> bool {
    match rule.strip_path_patterns {
        None => true,
        Some(ps) => {
            let (np, changed) = stripped_path(ps, spec_url_path(url));
            changed ==> set_path_fits(url, np)
        },
    }
}

/// A link whose cleaning needs an edit that could push a byte offset of the
/// `url` crate past `u32` (see `set_path_fits`, `replace_query_fits`; the
/// crate panics there); such a link is not cleaned.
#[derive(Clone, Copy, Debug, PartialEq, Eq)]
pub struct LinkTooLong;

/// Cuts out of `path`, pattern by pattern, every match of each pattern that
/// compiles and matches; returns the new path and whether anything was cut.
fn strip_path(patterns: &Vec<String>, path: &String) -> (r: (String, bool))
    ensures
        (r.0@, r.1) == stripped_path(patterns.deep_view(), path@),
{
    let ghost ps = patterns.deep_view();
    let mut new_path = path.clone();
    let mut changed = false;
    let mut i: usize = 0;
    while i < patterns.len()
        invariant
            ps == patterns.deep_view(),
            i <= patterns.len(),
            (new_path@, changed) == stripped_path(ps.take(i as int), path@),
        decreases patterns.len() - i,
    {
        proof {
            assert(ps.take(i + 1).drop_last() =~= ps.take(i as int));
            assert(ps.take(i + 1).last() == ps[i as int]);
        }
        match compile_pattern(patterns[i].as_str()) {
            Some(p) => {
                if p.is_match(new_path.as_str()) {
                    new_path = p.replace_all(new_path.as_str(), "");
                    proof {
                        reveal_strlit("");
                        assert(""@ =~= Seq::<char>::empty());
                    }
                    changed = true;
                }
            },
            None => {},
        }
        i = i + 1;
    }
    proof {
        assert(ps.take(patterns.len() as int) =~= ps);
    }
    (new_path, changed)
}

/// Runs a rule's path patterns over the path of `parsed`; returns whether
/// the path changed, or `LinkTooLong` (with `parsed` unchanged) where the new
/// path cannot be set.
fn strip_path_with(parsed: &mut WebUrl, rule: &DomainRule) -> (r: Result<bool, LinkTooLong>)
    ensures
        r is Ok <==> path_stage_fits(rule@, old(parsed)@),
        r matches Ok(b) ==> (final(parsed)@, b) == path_stage(rule@, old(parsed)@),
        r is Err ==> final(parsed)@ == old(parsed)@,
{
    match &rule.strip_path_patterns {
        None => Ok(false),
        Some(patterns) => {
            let path0 = parsed.path();
            let (new_path, changed) = strip_path(patterns, &path0);
            if changed {
                if !parsed.can_set_path(new_path.as_str()) {
                    return Err(LinkTooLong);
                }
                parsed.set_path(new_path.as_str());
            }
            Ok(changed)
        },
    }
}

// ---------------------------------------------------------------------------
// Whole links
// ---------------------------------------------------------------------------

/// The rule of a domain, if the rule set has one.
pub open spec fn rule_for(cfg: ConfigView, domain: Seq<char>) -> Option<DomainRuleView> {
    if cfg.domain_rules.contains_key(domain) {
        Some(cfg.domain_rules[domain])
    } else {
        None
    }
}

/// The URL after its query parameters are filtered, and the names removed.
/// Where nothing goes the URL stays; where everything goes the query is
/// dropped; otherwise the query is rewritten from the pairs that stay.
pub open spec fn query_stage(cfg: ConfigView, rule: Option<DomainRuleView>, url: Seq<char>) -> (
    Seq<char>,
    Seq<Seq<char>>,
) {
    let pairs = spec_url_query_pairs(url);
    let kept = kept_pairs(cfg, rule, pairs);
    let removed = removed_keys(cfg, rule, pairs);
    if removed.len() == 0 {
        (url, Seq::empty())
    } else if kept.len() == 0 {
        (spec_url_set_query(url, None), removed)
    } else {
        (spec_url_replace_query_pairs(url, kept), removed)
    }
}

/// Whether the `url` crate can write the query that filtering leaves (see
/// `replace_query_fits`); always so where the query stays or goes whole.
pub open spec fn query_stage_fits(cfg: ConfigView, rule: Option<DomainRuleView>, url: Seq<char>) -> bool {
    let pairs = spec_url_query_pairs(url);
    let kept = kept_pairs(cfg, rule, pairs);
    let removed = removed_keys(cfg, rule, pairs);
    removed.len() > 0 && kept.len() > 0 ==> replace_query_fits(url, kept)
}

/// The URL after the fragment rule, and whether it dropped a fragment.
pub open spec fn fragment_stage(cfg: ConfigView, url: Seq<char>) -> (Seq<char>, bool) {
    if cfg.strip_fragments && spec_url_fragment(url) is Some {
        (spec_url_set_fragment(url, None), true)
    } else {
        (url, false)
    }
}

/// A serialization without one trailing `?`.
pub open spec fn without_trailing_question(s: Seq<char>) -> Seq<char> {
    if s.len() > 0 && s.last() == '?' {
        s.drop_last()
    } else {
        s
    }
}

/// What cleaning a link gives: `None` where the input (trimmed) does not
/// start with `http`, does not parse, belongs to a whitelisted domain, or
/// needs no change; otherwise the cleaned link, the names of the removed
/// parameters, and the link's domain.
pub open spec fn scrub_spec(cfg: ConfigView, input: Seq<char>) -> Option<
    (Seq<char>, Seq<Seq<char>>, Seq<char>),
> {
    let t = trimmed(input);
    if !has_prefix(t, "http"@) {
        None
    } else {
        match spec_url_parse(t) {
            None => None,
            Some(u0) => {
                let domain = domain_of(spec_url_host(u0));
                if whitelisted(cfg.whitelist_domains, domain) {
                    None
                } else {
                    let rule = rule_for(cfg, domain);
                    let (u1, path_changed) = match rule {
                        Some(r) => path_stage(r, u0),
                        None => (u0, false),
                    };
                    let (u2, removed) = query_stage(cfg, rule, u1);
                    let (u3, fragment_dropped) = fragment_stage(cfg, u2);
                    if !path_changed && removed.len() == 0 && !fragment_dropped {
                        None
                    } else {
                        Some((without_trailing_question(u3), removed, domain))
                    }
                }
            },
        }
    }
}

/// Whether every edit that cleaning `input` makes stays within the byte
/// bounds under which the `url` crate's `u32` offsets are sure to fit
/// (`set_path_fits`, `replace_query_fits`); every link on which the `url`
/// crate would panic fails it.
pub open spec fn scrub_fits(cfg: ConfigView, input: Seq<char>) -> bool {
    let t = trimmed(input);
    if !has_prefix(t, "http"@) {
        true
    } else {
        match spec_url_parse(t) {
            None => true,
            Some(u0) => {
                let domain = domain_of(spec_url_host(u0));
                if whitelisted(cfg.whitelist_domains, domain) {
                    true
                } else {
                    let rule = rule_for(cfg, domain);
                    match rule {
                        Some(r) => path_stage_fits(r, u0) && query_stage_fits(
                            cfg,
                            rule,
                            path_stage(r, u0).0,
                        ),
                        None => query_stage_fits(cfg, rule, u0),
                    }
                }
            },
        }
    }
}

/// Drops one trailing `?`.
fn drop_trailing_question(s: String) -> (r: String)
    ensures
        r@ == without_trailing_question(s@),
{
    let n = s.as_str().unicode_len();
    if n > 0 && s.as_str().get_char(n - 1) == '?' {
        s.as_str().substring_char(0, n - 1).to_owned()
    } else {
        s
    }
}

/// Cleans one link under a rule set whose patterns are compiled in `custom`;
/// `LinkTooLong` where an edit cannot be made.
fn scrub_core(config: &Config, custom: &Vec<Pattern>, input: &str) -> (r: Result<
    Option<(String, Vec<String>, String)>,
    LinkTooLong,
>)
    requires
        compiled_from(config@.custom_patterns, custom@),
    ensures
        r is Ok <==> scrub_fits(config@, input@),
        r matches Ok(x) ==> x.deep_view() == scrub_spec(config@, input@),
{
    let trimmed_input = trim_white_space(input);
    let t = chars_of(trimmed_input);
    let http = chars_of("http");
    if !starts_with_chars(&t, &http) {
        return Ok(None);
    }
    let mut parsed = match parse_url(trimmed_input) {
        Some(u) => u,
        None => return Ok(None),
    };
    let ghost u0 = parsed@;
    let domain = extract_domain(&parsed);
    if is_whitelisted(&config.whitelist_domains, domain.as_str()) {
        return Ok(None);
    }
    let mut removed: Vec<String> = Vec::new();
    let mut modified = false;
    let domain_rule = config.domain_rules.get(domain.as_str());
    proof {
        assert(rule_view(domain_rule) == rule_for(config@, domain@));
    }
    match domain_rule {
        Some(rule) => {
            match strip_path_with(&mut parsed, rule) {
                Ok(changed) => {
                    if changed {
                        modified = true;
                    }
                },
                Err(e) => return Err(e),
            }
        },
        None => {},
    }
    let ghost u1 = parsed@;
    proof {
        assert((u1, modified) == match rule_for(config@, domain@) {
            Some(r) => path_stage(r, u0),
            None => (u0, false),
        });
    }
    let current_query = parsed.query_pairs();
    if current_query.len() > 0 {
        let (new_query, query_removed) = filter_pairs(
            config,
            custom,
            current_query.as_slice(),
            domain_rule,
        );
        if query_removed.len() > 0 {
            if new_query.len() == 0 {
                parsed.clear_query();
            } else {
                if !parsed.can_replace_query_pairs(&new_query) {
                    return Err(LinkTooLong);
                }
                parsed.replace_query_pairs(&new_query);
            }
            removed = query_removed;
            modified = true;
        }
    } else {
        proof {
            assert(spec_url_query_pairs(u1) =~= Seq::empty());
        }
    }
    let ghost u2 = parsed@;
    proof {
        assert((u2, removed.deep_view()) == query_stage(config@, rule_for(config@, domain@), u1));
    }
    if config.strip_fragments {
        if parsed.fragment().is_some() {
            parsed.clear_fragment();
            modified = true;
        }
    }
    if !modified {
        return Ok(None);
    }
    let result = drop_trailing_question(parsed.as_string());
    Ok(Some((result, removed, domain)))
}

/// Cleans one link under `config` (compiling its patterns for this call).
/// Links on which the `url` crate could overflow its byte offsets (see
/// `scrub_fits`) are left out; `try_scrub_url` checks for them.
pub fn scrub_url(input: &str, config: &Config) -> (r: Option<(String, Vec<String>, String)>)
    requires
        scrub_fits(config@, input@),
    ensures
        r.deep_view() == scrub_spec(config@, input@),
{
    let custom = compile_all(config.custom_patterns.as_slice());
    proof {
        assert(texts(config.custom_patterns@) =~= config@.custom_patterns);
    }
    match scrub_core(config, &custom, input) {
        Ok(r) => r,
        Err(_) => {
            proof {
                assert(false);
            }
            None
        },
    }
}

/// Cleans one link under `config` where the `url` crate can make the edits;
/// `LinkTooLong` (and nothing cleaned) where it cannot.
pub fn try_scrub_url(input: &str, config: &Config) -> (r: Result<
    Option<(String, Vec<String>, String)>,
    LinkTooLong,
>)
    ensures
        r is Err <==> !scrub_fits(config@, input@),
        r matches Ok(x) ==> x.deep_view() == scrub_spec(config@, input@),
{
    let custom = compile_all(config.custom_patterns.as_slice());
    proof {
        assert(texts(config.custom_patterns@) =~= config@.custom_patterns);
    }
    scrub_core(config, &custom, input)
}

/// Cleans links under one rule set, with its patterns compiled once.
pub struct UrlCleaner {
    config: Arc<Config>,
    custom: Vec<Pattern>,
}

impl UrlCleaner {
    /// The rule set the cleaner applies.
    pub closed spec fn config_view(&self) -> ConfigView {
        self.config@
    }

    #[verifier::type_invariant]
    closed spec fn wf(&self) -> bool {
        compiled_from(self.config@.custom_patterns, self.custom@)
    }

    /// A cleaner for the rule set `config`.
    pub fn new(config: Arc<Config>) -> (r: Self)
        ensures
            r.config_view() == config@,
    {
        let custom = compile_all(config.custom_patterns.as_slice());
        proof {
            assert(texts(config.custom_patterns@) =~= config@.custom_patterns);
        }
        UrlCleaner { config, custom }
    }

    /// Cleans one link; see `scrub_spec`. Links on which the `url` crate
    /// could overflow its byte offsets (see `scrub_fits`) are left out;
    /// `try_scrub` checks for them.
    pub fn scrub(&self, input: &str) -> (r: Option<(String, Vec<String>, String)>)
        requires
            scrub_fits(self.config_view(), input@),
        ensures
            r.deep_view() == scrub_spec(self.config_view(), input@),
    {
        proof {
            use_type_invariant(self);
        }
        match scrub_core(&self.config, &self.custom, input) {
            Ok(r) => r,
            Err(_) => {
                proof {
                    assert(false);
                }
                None
            },
        }
    }

    /// Cleans one link where the `url` crate can make the edits;
    /// `LinkTooLong` (and nothing cleaned) where it cannot.
    pub fn try_scrub(&self, input: &str) -> (r: Result<
        Option<(String, Vec<String>, String)>,
        LinkTooLong,
    >)
        ensures
            r is Err <==> !scrub_fits(self.config_view(), input@),
            r matches Ok(x) ==> x.deep_view() == scrub_spec(self.config_view(), input@),
    {
        proof {
            use_type_invariant(self);
        }
        scrub_core(&self.config, &self.custom, input)
    }

    /// Runs a rule's path patterns over the path of `parsed`; returns whether
    /// the path changed (see `path_stage`). URLs on which the `url` crate
    /// could not set the new path are left out (see `path_stage_fits`).
    pub fn process_path_rules(&self, parsed: &mut WebUrl, rule: &DomainRule) -> (r: bool)
        requires
            path_stage_fits(rule@, old(parsed)@),
        ensures
            (final(parsed)@, r) == path_stage(rule@, old(parsed)@),
    {
        match strip_path_with(parsed, rule) {
            Ok(changed) => changed,
            Err(_) => {
                proof {
                    assert(false);
                }
                false
            },
        }
    }

    /// Runs a rule's path patterns over the path of `parsed` where the `url`
    /// crate can set the new path: returns whether the path changed, or
    /// `LinkTooLong` (and `parsed` unchanged) where it cannot.
    pub fn try_process_path_rules(&self, parsed: &mut WebUrl, rule: &DomainRule) -> (r: Result<
        bool,
        LinkTooLong,
    >)
        ensures
            r is Err <==> !path_stage_fits(rule@, old(parsed)@),
            r matches Ok(b) ==> (final(parsed)@, b) == path_stage(rule@, old(parsed)@),
            r is Err ==> final(parsed)@ == old(parsed)@,
    {
        strip_path_with(parsed, rule)
    }

    /// Splits query pairs into those that stay and the names of those that go.
    pub fn filter_query_params(
        &self,
        current_query: &[(String, String)],
        _domain: &str,
        rule: Option<&DomainRule>,
    ) -> (r: (Vec<(String, String)>, Vec<String>))
        ensures
            pairs_view(r.0@) == kept_pairs(self.config_view(), rule_view(rule), pairs_view(current_query@)),
            r.1.deep_view() == removed_keys(self.config_view(), rule_view(rule), pairs_view(current_query@)),
    {
        proof {
            use_type_invariant(self);
        }
        filter_pairs(&self.config, &self.custom, current_query, rule)
    }

    /// The domain a link is filed under.
    pub fn extract_domain(&self, url: &WebUrl) -> (r: String)
        ensures
            r@ == domain_of(spec_url_host(url@)),
    {
        extract_domain(url)
    }

    /// Whether `pattern` compiles and matches `text`.
    pub fn matches_regex(&self, text: &str, pattern: &str) -> (r: bool)
        ensures
            r == (spec_regex_compiles(pattern@) && spec_regex_is_match(pattern@, text@)),
    {
        match compile_pattern(pattern) {
            Some(p) => p.is_match(text),
            None => false,
        }
    }

    /// Whether some pattern of the rule set compiles and matches `param`.
    pub fn matches_custom_pattern(&self, param: &str) -> (r: bool)
        ensures
            r == matches_custom(self.config_view().custom_patterns, param@),
    {
        proof {
            use_type_invariant(self);
            lemma_compiled_match(self.config@.custom_patterns, self.custom@, param@);
        }
        any_pattern_matches(&self.custom, param)
    }
}

// ---------------------------------------------------------------------------
// Laws
// ---------------------------------------------------------------------------

/// Filtering splits the pairs: every pair either stays or gives its name to
/// the removed list; no kept pair is one the rules remove, and every removed
/// name is one they remove.
pub proof fn lemma_filter_partition(
    cfg: ConfigView,
    rule: Option<DomainRuleView>,
    pairs: Seq<(Seq<char>, Seq<char>)>,
)
    ensures
        kept_pairs(cfg, rule, pairs).len() + removed_keys(cfg, rule, pairs).len() == pairs.len(),
        forall|i: int|
            0 <= i < kept_pairs(cfg, rule, pairs).len() ==> !should_remove(
                cfg,
                rule,
                #[trigger] kept_pairs(cfg, rule, pairs)[i].0,
            ),
        forall|i: int|
            0 <= i < removed_keys(cfg, rule, pairs).len() ==> should_remove(
                cfg,
                rule,
                #[trigger] removed_keys(cfg, rule, pairs)[i],
            ),
    decreases pairs.len(),
{
    if pairs.len() > 0 {
        lemma_filter_partition(cfg, rule, pairs.drop_last());
        let k0 = kept_pairs(cfg, rule, pairs.drop_last());
        let r0 = removed_keys(cfg, rule, pairs.drop_last());
        let k = kept_pairs(cfg, rule, pairs);
        let r = removed_keys(cfg, rule, pairs);
        assert forall|i: int| 0 <= i < k.len() implies !should_remove(cfg, rule, #[trigger] k[i].0) by {
            if i < k0.len() {
                assert(k[i] == k0[i]);
            }
        }
        assert forall|i: int| 0 <= i < r.len() implies should_remove(cfg, rule, #[trigger] r[i]) by {
            if i < r0.len() {
                assert(r[i] == r0[i]);
            }
        }
    }
}

/// Filtering is idempotent: filtering the pairs that stayed keeps all of
/// them and removes nothing.
pub proof fn lemma_filter_idempotent(
    cfg: ConfigView,
    rule: Option<DomainRuleView>,
    pairs: Seq<(Seq<char>, Seq<char>)>,
)
    ensures
        kept_pairs(cfg, rule, kept_pairs(cfg, rule, pairs)) == kept_pairs(cfg, rule, pairs),
        removed_keys(cfg, rule, kept_pairs(cfg, rule, pairs)) == Seq::<Seq<char>>::empty(),
    decreases pairs.len(),
{
    if pairs.len() > 0 {
        lemma_filter_idempotent(cfg, rule, pairs.drop_last());
        let k0 = kept_pairs(cfg, rule, pairs.drop_last());
        if !should_remove(cfg, rule, pairs.last().0) {
            assert(k0.push(pairs.last()).drop_last() =~= k0);
        }
    }
}

/// On a domain with an allow list, every parameter that stays is on the list
/// (compared in lowercase), whatever the global rules say.
pub proof fn lemma_allow_list_bounds_kept(
    cfg: ConfigView,
    rule: DomainRuleView,
    pairs: Seq<(Seq<char>, Seq<char>)>,
)
    requires
        rule.keep_only is Some,
    ensures
        forall|i: int|
            0 <= i < kept_pairs(cfg, Some(rule), pairs).len() ==> lower_in(
                rule.keep_only->0,
                spec_lowercase(#[trigger] kept_pairs(cfg, Some(rule), pairs)[i].0),
            ),
{
    lemma_filter_partition(cfg, Some(rule), pairs);
}

/// On a domain with an allow list, a parameter on the list (compared in
/// lowercase) always stays, whatever the global rules say.
pub proof fn lemma_allowed_param_kept(cfg: ConfigView, rule: DomainRuleView, key: Seq<char>)
    requires
        rule.keep_only matches Some(keep) && lower_in(keep, spec_lowercase(key)),
    ensures
        !should_remove(cfg, Some(rule), key),
{
}

/// A parameter listed globally is removed wherever the domain has no allow
/// list.
pub proof fn lemma_global_param_removed(
    cfg: ConfigView,
    rule: Option<DomainRuleView>,
    key: Seq<char>,
)
    requires
        lower_in(cfg.global_params, spec_lowercase(key)),
        !(rule matches Some(r) && r.keep_only is Some),
    ensures
        should_remove(cfg, rule, key),
{
}

/// Text that (trimmed) does not start with `http` is never cleaned.
pub proof fn lemma_scrub_needs_http(cfg: ConfigView, input: Seq<char>)
    requires
        !has_prefix(trimmed(input), "http"@),
    ensures
        scrub_spec(cfg, input) is None,
{
}

/// Links on a whitelisted domain are never cleaned.
pub proof fn lemma_scrub_spares_whitelist(cfg: ConfigView, input: Seq<char>)
    requires
        spec_url_parse(trimmed(input)) matches Some(u) && whitelisted(
            cfg.whitelist_domains,
            domain_of(spec_url_host(u)),
        ),
    ensures
        scrub_spec(cfg, input) is None,
{
}

/// Every parameter that cleaning reports as removed is one the rules remove
/// on the link's domain.
pub proof fn lemma_scrub_removes_only_tracking(cfg: ConfigView, input: Seq<char>)
    ensures
        match scrub_spec(cfg, input) {
            Some((_, removed, domain)) => forall|i: int|
                0 <= i < removed.len() ==> should_remove(
                    cfg,
                    rule_for(cfg, domain),
                    #[trigger] removed[i],
                ),
            None => true,
        },
{
    let t = trimmed(input);
    if has_prefix(t, "http"@) && spec_url_parse(t) is Some {
        let u0 = spec_url_parse(t)->0;
        let domain = domain_of(spec_url_host(u0));
        let rule = rule_for(cfg, domain);
        let u1 = match rule {
            Some(r) => path_stage(r, u0).0,
            None => u0,
        };
        lemma_filter_partition(cfg, rule, spec_url_query_pairs(u1));
    }
}

/// `a` is `b` with some items left out: the items of `a` occur in `b` in the
/// same order.
pub open spec fn is_subsequence<A>(a: Seq<A>, b: Seq<A>) -> bool
    decreases b.len(),
{
    if a.len() == 0 {
        true
    } else if b.len() == 0 {
        false
    } else if a.last() == b.last() {
        is_subsequence(a.drop_last(), b.drop_last())
    } else {
        is_subsequence(a, b.drop_last())
    }
}

proof fn lemma_subsequence_push<A>(a: Seq<A>, b: Seq<A>, x: A)
    requires
        is_subsequence(a, b),
    ensures
        is_subsequence(a, b.push(x)),
    decreases b.len(), 1int,
{
    assert(b.push(x).drop_last() =~= b);
    if a.len() > 0 && a.last() == x {
        lemma_subsequence_drop_last(a, b);
    }
}

proof fn lemma_subsequence_drop_last<A>(a: Seq<A>, b: Seq<A>)
    requires
        a.len() > 0,
        is_subsequence(a, b),
    ensures
        is_subsequence(a.drop_last(), b),
    decreases b.len(), 0int,
{
    assert(b.drop_last().push(b.last()) =~= b);
    if a.last() == b.last() {
        lemma_subsequence_push(a.drop_last(), b.drop_last(), b.last());
    } else {
        lemma_subsequence_drop_last(a, b.drop_last());
        lemma_subsequence_push(a.drop_last(), b.drop_last(), b.last());
    }
}

proof fn lemma_subsequence_len<A>(a: Seq<A>, b: Seq<A>)
    requires
        is_subsequence(a, b),
    ensures
        a.len() <= b.len(),
    decreases b.len(),
{
    if a.len() > 0 {
        if a.last() == b.last() {
            lemma_subsequence_len(a.drop_last(), b.drop_last());
        } else {
            lemma_subsequence_len(a, b.drop_last());
        }
    }
}

/// The rule set `cfg` with aggressive mode on.
pub open spec fn with_aggressive(cfg: ConfigView) -> ConfigView {
    ConfigView { aggressive_mode: true, ..cfg }
}

/// Turning aggressive mode on only adds removals: a parameter removed
/// before is still removed, and the names removed from a list of pairs
/// before are still removed, in the same order, among the new ones.
pub proof fn lemma_aggressive_adds_removals(
    cfg: ConfigView,
    rule: Option<DomainRuleView>,
    pairs: Seq<(Seq<char>, Seq<char>)>,
)
    ensures
        forall|key: Seq<char>|
            should_remove(cfg, rule, key) ==> #[trigger] should_remove(
                with_aggressive(cfg),
                rule,
                key,
            ),
        is_subsequence(
            removed_keys(cfg, rule, pairs),
            removed_keys(with_aggressive(cfg), rule, pairs),
        ),
    decreases pairs.len(),
{
    let c2 = with_aggressive(cfg);
    if pairs.len() > 0 {
        lemma_aggressive_adds_removals(cfg, rule, pairs.drop_last());
        let p1 = removed_keys(cfg, rule, pairs.drop_last());
        let p2 = removed_keys(c2, rule, pairs.drop_last());
        let k = pairs.last().0;
        if should_remove(cfg, rule, k) {
            assert(p1.push(k).drop_last() =~= p1);
            assert(p2.push(k).drop_last() =~= p2);
        } else if should_remove(c2, rule, k) {
            lemma_subsequence_push(p1, p2, k);
        }
    }
}

/// Turning aggressive mode on only adds removals to the cleaning of a link:
/// a link that was cleaned is still cleaned, on the same domain, and the
/// parameters it lost before are still reported removed, in the same order,
/// among the new ones.
pub proof fn lemma_scrub_aggressive_adds_removals(cfg: ConfigView, input: Seq<char>)
    ensures
        scrub_spec(cfg, input) matches Some((_, rm1, d1)) ==> scrub_spec(
            with_aggressive(cfg),
            input,
        ) matches Some((_, rm2, d2)) && d2 == d1 && is_subsequence(rm1, rm2),
{
    let c2 = with_aggressive(cfg);
    let t = trimmed(input);
    if has_prefix(t, "http"@) && spec_url_parse(t) is Some {
        let u0 = spec_url_parse(t)->0;
        let domain = domain_of(spec_url_host(u0));
        let rule = rule_for(cfg, domain);
        assert(rule_for(c2, domain) == rule);
        let u1 = match rule {
            Some(r) => path_stage(r, u0).0,
            None => u0,
        };
        let pairs = spec_url_query_pairs(u1);
        lemma_aggressive_adds_removals(cfg, rule, pairs);
        lemma_subsequence_len(removed_keys(cfg, rule, pairs), removed_keys(c2, rule, pairs));
    }
}

/// The query pairs that stay when `input` is cleaned: those of the link after
/// its domain's path rule, filtered (meaningful where the input parses).
pub open spec fn pairs_left(cfg: ConfigView, input: Seq<char>) -> Seq<(Seq<char>, Seq<char>)> {
    let u0 = spec_url_parse(trimmed(input))->0;
    let rule = rule_for(cfg, domain_of(spec_url_host(u0)));
    let u1 = match rule {
        Some(r) => path_stage(r, u0).0,
        None => u0,
    };
    kept_pairs(cfg, rule, spec_url_query_pairs(u1))
}

/// Cleaning a cleaned link changes nothing, as far as the rules decide:
/// where the cleaned link `r` reads back as a link on the same domain whose
/// query pairs are the ones that stayed, whose path the domain's patterns
/// leave alone and which has no fragment to strip, cleaning `r` gives
/// `None`.
pub proof fn lemma_scrub_idempotent(
    cfg: ConfigView,
    input: Seq<char>,
    r: Seq<char>,
    removed: Seq<Seq<char>>,
    domain: Seq<char>,
    u: Seq<char>,
)
    requires
        scrub_spec(cfg, input) == Some((r, removed, domain)),
        has_prefix(trimmed(r), "http"@),
        spec_url_parse(trimmed(r)) == Some(u),
        domain_of(spec_url_host(u)) == domain,
        spec_url_query_pairs(u) == pairs_left(cfg, input),
        rule_for(cfg, domain) matches Some(rl) ==> !path_stage(rl, u).1,
        !(cfg.strip_fragments && spec_url_fragment(u) is Some),
    ensures
        scrub_spec(cfg, r) is None,
{
    let rule = rule_for(cfg, domain);
    let u0 = spec_url_parse(trimmed(input))->0;
    let u1 = match rule {
        Some(rl) => path_stage(rl, u0).0,
        None => u0,
    };
    lemma_filter_idempotent(cfg, rule, spec_url_query_pairs(u1));
}

/// Cleaning reports every change it makes. For an `http` link that parses
/// and is not whitelisted: where the domain's path patterns change the path,
/// where some query parameter is marked for removal, or where a fragment is
/// stripped, cleaning gives a result, on the link's domain, naming exactly
/// the parameters marked for removal (in their order in the link).
pub proof fn lemma_scrub_reports_changes(cfg: ConfigView, input: Seq<char>, u0: Seq<char>)
    requires
        has_prefix(trimmed(input), "http"@),
        spec_url_parse(trimmed(input)) == Some(u0),
        !whitelisted(cfg.whitelist_domains, domain_of(spec_url_host(u0))),
    ensures
        ({
            let domain = domain_of(spec_url_host(u0));
            let rule = rule_for(cfg, domain);
            let u1 = match rule {
                Some(r) => path_stage(r, u0).0,
                None => u0,
            };
            let marked = removed_keys(cfg, rule, spec_url_query_pairs(u1));
            let path_cut = rule matches Some(r) && path_stage(r, u0).1;
            &&& path_cut ==> scrub_spec(cfg, input) is Some
            &&& marked.len() > 0 ==> scrub_spec(cfg, input) is Some
            &&& cfg.strip_fragments && spec_url_fragment(
                query_stage(cfg, rule, u1).0,
            ) is Some ==> scrub_spec(cfg, input) is Some
            &&& scrub_spec(cfg, input) matches Some((_, removed, d)) ==> d == domain && removed
                == marked
        }),
{
}

/// Rule entries are compared with parameter names case-insensitively on
/// both sides: a parameter whose name equals a domain's blocked entry up to
/// case is removed on that domain (without an allow list); one that equals a
/// global entry up to case is removed wherever the domain has no allow list;
/// one that equals an allow-list entry up to case stays.
pub proof fn lemma_rule_entries_match_any_case(
    cfg: ConfigView,
    rule: DomainRuleView,
    entry: Seq<char>,
    key: Seq<char>,
)
    requires
        spec_lowercase(entry) == spec_lowercase(key),
    ensures
        rule.keep_only is None && rule.params.contains(entry) ==> should_remove(cfg, Some(rule), key),
        cfg.global_params.contains(entry) && rule.keep_only is None ==> should_remove(
            cfg,
            Some(rule),
            key,
        ),
        cfg.global_params.contains(entry) ==> should_remove(cfg, None, key),
        rule.keep_only matches Some(keep) && keep.contains(entry) ==> !should_remove(
            cfg,
            Some(rule),
            key,
        ),
{
    if rule.params.contains(entry) {
        let i = choose|i: int| 0 <= i < rule.params.len() && rule.params[i] == entry;
        assert(spec_lowercase(rule.params[i]) == spec_lowercase(key));
    }
    if cfg.global_params.contains(entry) {
        let i = choose|i: int| 0 <= i < cfg.global_params.len() && cfg.global_params[i] == entry;
        assert(spec_lowercase(cfg.global_params[i]) == spec_lowercase(key));
    }
    if let Some(keep) = rule.keep_only {
        if keep.contains(entry) {
            let i = choose|i: int| 0 <= i < keep.len() && keep[i] == entry;
            assert(spec_lowercase(keep[i]) == spec_lowercase(key));
        }
    }
}

/// A name removed by a rule is removed whatever its case, and an allow-list
/// entry keeps its parameter whatever the case of either.
pub proof fn lemma_rule_entry_removed(cfg: ConfigView, rule: DomainRuleView, key: Seq<char>)
    ensures
        rule.keep_only is None && rule.params.contains(key) ==> should_remove(cfg, Some(rule), key),
        rule.keep_only matches Some(keep) && keep.contains(key) ==> !should_remove(
            cfg,
            Some(rule),
            key,
        ),
        cfg.global_params.contains(key) ==> should_remove(cfg, None, key),
{
    lemma_rule_entries_match_any_case(cfg, rule, key, key);
}

/// The built-in rule set removes the share and affiliate parameters of the
/// big sites: `s` and `t` on Twitter and X; `tag`, `linkCode` and `linkId` on
/// Amazon, where `/ref=...` path pieces are cut too; `utm_source`, `fbclid`
/// and `gclid` on any site without a rule; and YouTube keeps the video `v`.
pub proof fn lemma_builtin_rules()
    ensures
        should_remove(default_config(), rule_for(default_config(), "twitter.com"@), "s"@),
        should_remove(default_config(), rule_for(default_config(), "twitter.com"@), "t"@),
        should_remove(default_config(), rule_for(default_config(), "x.com"@), "s"@),
        should_remove(default_config(), rule_for(default_config(), "x.com"@), "t"@),
        should_remove(default_config(), rule_for(default_config(), "amazon.com"@), "tag"@),
        should_remove(default_config(), rule_for(default_config(), "amazon.com"@), "linkCode"@),
        should_remove(default_config(), rule_for(default_config(), "amazon.com"@), "linkId"@),
        rule_for(default_config(), "amazon.com"@) matches Some(r) && r.strip_path_patterns == Some(
            seq![r"/ref=[^/\?]*"@],
        ),
        !should_remove(default_config(), rule_for(default_config(), "youtube.com"@), "v"@),
        should_remove(default_config(), None, "utm_source"@),
        should_remove(default_config(), None, "fbclid"@),
        should_remove(default_config(), None, "gclid"@),
{
    reveal_strlit("youtube.com");
    reveal_strlit("twitter.com");
    reveal_strlit("x.com");
    reveal_strlit("amazon.com");
    reveal_strlit("facebook.com");
    reveal_strlit("instagram.com");
    reveal_strlit("tiktok.com");
    reveal_strlit("linkedin.com");
    reveal_strlit("reddit.com");
    reveal_strlit("spotify.com");
    reveal_strlit("ebay.com");
    reveal_strlit("aliexpress.com");
    assert("youtube.com"@ != "twitter.com"@) by { assert("youtube.com"@[0] != "twitter.com"@[0] || "youtube.com"@.len() != "twitter.com"@.len()); }
    assert("youtube.com"@ != "x.com"@) by { assert("youtube.com"@[0] != "x.com"@[0] || "youtube.com"@.len() != "x.com"@.len()); }
    assert("youtube.com"@ != "amazon.com"@) by { assert("youtube.com"@[0] != "amazon.com"@[0] || "youtube.com"@.len() != "amazon.com"@.len()); }
    assert("youtube.com"@ != "facebook.com"@) by { assert("youtube.com"@[0] != "facebook.com"@[0] || "youtube.com"@.len() != "facebook.com"@.len()); }
    assert("youtube.com"@ != "instagram.com"@) by { assert("youtube.com"@[0] != "instagram.com"@[0] || "youtube.com"@.len() != "instagram.com"@.len()); }
    assert("youtube.com"@ != "tiktok.com"@) by { assert("youtube.com"@[0] != "tiktok.com"@[0] || "youtube.com"@.len() != "tiktok.com"@.len()); }
    assert("youtube.com"@ != "linkedin.com"@) by { assert("youtube.com"@[0] != "linkedin.com"@[0] || "youtube.com"@.len() != "linkedin.com"@.len()); }
    assert("youtube.com"@ != "reddit.com"@) by { assert("youtube.com"@[0] != "reddit.com"@[0] || "youtube.com"@.len() != "reddit.com"@.len()); }
    assert("youtube.com"@ != "spotify.com"@) by { assert("youtube.com"@[0] != "spotify.com"@[0] || "youtube.com"@.len() != "spotify.com"@.len()); }
    assert("youtube.com"@ != "ebay.com"@) by { assert("youtube.com"@[0] != "ebay.com"@[0] || "youtube.com"@.len() != "ebay.com"@.len()); }
    assert("youtube.com"@ != "aliexpress.com"@) by { assert("youtube.com"@[0] != "aliexpress.com"@[0] || "youtube.com"@.len() != "aliexpress.com"@.len()); }
    assert("twitter.com"@ != "x.com"@) by { assert("twitter.com"@[0] != "x.com"@[0] || "twitter.com"@.len() != "x.com"@.len()); }
    assert("twitter.com"@ != "amazon.com"@) by { assert("twitter.com"@[0] != "amazon.com"@[0] || "twitter.com"@.len() != "amazon.com"@.len()); }
    assert("twitter.com"@ != "facebook.com"@) by { assert("twitter.com"@[0] != "facebook.com"@[0] || "twitter.com"@.len() != "facebook.com"@.len()); }
    assert("twitter.com"@ != "instagram.com"@) by { assert("twitter.com"@[0] != "instagram.com"@[0] || "twitter.com"@.len() != "instagram.com"@.len()); }
    assert("twitter.com"@ != "tiktok.com"@) by { assert("twitter.com"@[0] != "tiktok.com"@[0] || "twitter.com"@.len() != "tiktok.com"@.len()); }
    assert("twitter.com"@ != "linkedin.com"@) by { assert("twitter.com"@[0] != "linkedin.com"@[0] || "twitter.com"@.len() != "linkedin.com"@.len()); }
    assert("twitter.com"@ != "reddit.com"@) by { assert("twitter.com"@[0] != "reddit.com"@[0] || "twitter.com"@.len() != "reddit.com"@.len()); }
    assert("twitter.com"@ != "spotify.com"@) by { assert("twitter.com"@[0] != "spotify.com"@[0] || "twitter.com"@.len() != "spotify.com"@.len()); }
    assert("twitter.com"@ != "ebay.com"@) by { assert("twitter.com"@[0] != "ebay.com"@[0] || "twitter.com"@.len() != "ebay.com"@.len()); }
    assert("twitter.com"@ != "aliexpress.com"@) by { assert("twitter.com"@[0] != "aliexpress.com"@[0] || "twitter.com"@.len() != "aliexpress.com"@.len()); }
    assert("x.com"@ != "amazon.com"@) by { assert("x.com"@[0] != "amazon.com"@[0] || "x.com"@.len() != "amazon.com"@.len()); }
    assert("x.com"@ != "facebook.com"@) by { assert("x.com"@[0] != "facebook.com"@[0] || "x.com"@.len() != "facebook.com"@.len()); }
    assert("x.com"@ != "instagram.com"@) by { assert("x.com"@[0] != "instagram.com"@[0] || "x.com"@.len() != "instagram.com"@.len()); }
    assert("x.com"@ != "tiktok.com"@) by { assert("x.com"@[0] != "tiktok.com"@[0] || "x.com"@.len() != "tiktok.com"@.len()); }
    assert("x.com"@ != "linkedin.com"@) by { assert("x.com"@[0] != "linkedin.com"@[0] || "x.com"@.len() != "linkedin.com"@.len()); }
    assert("x.com"@ != "reddit.com"@) by { assert("x.com"@[0] != "reddit.com"@[0] || "x.com"@.len() != "reddit.com"@.len()); }
    assert("x.com"@ != "spotify.com"@) by { assert("x.com"@[0] != "spotify.com"@[0] || "x.com"@.len() != "spotify.com"@.len()); }
    assert("x.com"@ != "ebay.com"@) by { assert("x.com"@[0] != "ebay.com"@[0] || "x.com"@.len() != "ebay.com"@.len()); }
    assert("x.com"@ != "aliexpress.com"@) by { assert("x.com"@[0] != "aliexpress.com"@[0] || "x.com"@.len() != "aliexpress.com"@.len()); }
    assert("amazon.com"@ != "facebook.com"@) by { assert("amazon.com"@[0] != "facebook.com"@[0] || "amazon.com"@.len() != "facebook.com"@.len()); }
    assert("amazon.com"@ != "instagram.com"@) by { assert("amazon.com"@[0] != "instagram.com"@[0] || "amazon.com"@.len() != "instagram.com"@.len()); }
    assert("amazon.com"@ != "tiktok.com"@) by { assert("amazon.com"@[0] != "tiktok.com"@[0] || "amazon.com"@.len() != "tiktok.com"@.len()); }
    assert("amazon.com"@ != "linkedin.com"@) by { assert("amazon.com"@[0] != "linkedin.com"@[0] || "amazon.com"@.len() != "linkedin.com"@.len()); }
    assert("amazon.com"@ != "reddit.com"@) by { assert("amazon.com"@[0] != "reddit.com"@[0] || "amazon.com"@.len() != "reddit.com"@.len()); }
    assert("amazon.com"@ != "spotify.com"@) by { assert("amazon.com"@[0] != "spotify.com"@[0] || "amazon.com"@.len() != "spotify.com"@.len()); }
    assert("amazon.com"@ != "ebay.com"@) by { assert("amazon.com"@[0] != "ebay.com"@[0] || "amazon.com"@.len() != "ebay.com"@.len()); }
    assert("amazon.com"@ != "aliexpress.com"@) by { assert("amazon.com"@[0] != "aliexpress.com"@[0] || "amazon.com"@.len() != "aliexpress.com"@.len()); }
    let cfg = default_config();
    let tw = cfg.domain_rules["twitter.com"@];
    let x = cfg.domain_rules["x.com"@];
    let am = cfg.domain_rules["amazon.com"@];
    let yt = cfg.domain_rules["youtube.com"@];
    assert(cfg.domain_rules.contains_key("twitter.com"@));
    assert(cfg.domain_rules.contains_key("x.com"@));
    assert(cfg.domain_rules.contains_key("amazon.com"@));
    assert(cfg.domain_rules.contains_key("youtube.com"@));
    assert(tw.params[0] == "s"@ && tw.params[1] == "t"@);
    assert(x.params[0] == "s"@ && x.params[1] == "t"@);
    assert(am.params[0] == "tag"@ && am.params[1] == "linkCode"@ && am.params[2] == "linkId"@);
    lemma_rule_entry_removed(cfg, tw, "s"@);
    lemma_rule_entry_removed(cfg, tw, "t"@);
    lemma_rule_entry_removed(cfg, x, "s"@);
    lemma_rule_entry_removed(cfg, x, "t"@);
    lemma_rule_entry_removed(cfg, am, "tag"@);
    lemma_rule_entry_removed(cfg, am, "linkCode"@);
    lemma_rule_entry_removed(cfg, am, "linkId"@);
    assert(yt.keep_only->0[0] == "v"@);
    lemma_rule_entry_removed(cfg, yt, "v"@);
    let g = cfg.global_params;
    assert(g[0] == "utm_source"@);
    assert(g[9] == "fbclid"@);
    assert(g[10] == "gclid"@);
    lemma_rule_entry_removed(cfg, yt, "utm_source"@);
    lemma_rule_entry_removed(cfg, yt, "fbclid"@);
    lemma_rule_entry_removed(cfg, yt, "gclid"@);
}

} // verus!
