//! What the watcher keeps of its work: the recent cleaning events and the
//! running counters, with the number of links cleaned per domain.

use std::time::Instant;
use vstd::prelude::*;

use crate::table::{
    entries_map, keys_distinct, lemma_entries_map_dom, lemma_entries_map_finite, lemma_entries_map_get,
    lemma_entries_map_update,
};
use crate::text::same_text;

verus! {

#[verifier::external_type_specification]
#[verifier::external_body]
pub struct ExInstant(Instant);

/// How many recent events are kept.
pub const MAX_EVENTS: usize = 100;

/// One cleaned link.
#[derive(Debug)]
pub struct CleanEvent {
    pub original: String,
    pub cleaned: String,
    pub domain: String,
    pub removed_params: Vec<String>,
    pub timestamp: Instant,
}

/// The events after `evt` is put in front, cut to the newest `MAX_EVENTS`.
pub open spec fn with_recent<T>(events: Seq<T>, evt: T) -> Seq<T> {
    let all = seq![evt] + events;
    if all.len() > MAX_EVENTS {
        all.take(MAX_EVENTS as int)
    } else {
        all
    }
}

/// Puts `evt` in front of the events (newest first) and keeps the newest
/// `MAX_EVENTS`.
pub fn push_recent_event(events: &mut Vec<CleanEvent>, evt: CleanEvent)
    ensures
        final(events)@ == with_recent(old(events)@, evt),
        final(events)@[0] == evt,
        final(events)@.len() <= MAX_EVENTS,
        final(events)@.len() == if old(events)@.len() < MAX_EVENTS {
            old(events)@.len() + 1int
        } else {
            MAX_EVENTS as int
        },
{
    events.insert(0, evt);
    proof {
        assert(events@ =~= seq![evt] + old(events)@);
    }
    if events.len() > MAX_EVENTS {
        events.truncate(MAX_EVENTS);
    }
}

/// The sum of the counts of entries.
pub open spec fn sum_counts(s: Seq<(Seq<char>, u64)>) -> int
    decreases s.len(),
{
    if s.len() == 0 {
        0
    } else {
        sum_counts(s.drop_last()) + s.last().1
    }
}

proof fn lemma_sum_counts_ge(s: Seq<(Seq<char>, u64)>, i: int)
    requires
        0 <= i < s.len(),
    ensures
        sum_counts(s) >= s[i].1,
        sum_counts(s) >= 0,
    decreases s.len(),
{
    lemma_sum_counts_nonneg(s.drop_last());
    if i < s.len() - 1 {
        assert(s.drop_last()[i] == s[i]);
        lemma_sum_counts_ge(s.drop_last(), i);
    }
}

proof fn lemma_sum_counts_nonneg(s: Seq<(Seq<char>, u64)>)
    ensures
        sum_counts(s) >= 0,
    decreases s.len(),
{
    if s.len() > 0 {
        lemma_sum_counts_nonneg(s.drop_last());
    }
}

proof fn lemma_sum_counts_update(s: Seq<(Seq<char>, u64)>, i: int, c: u64)
    requires
        0 <= i < s.len(),
    ensures
        sum_counts(s.update(i, (s[i].0, c))) == sum_counts(s) - s[i].1 + c,
    decreases s.len(),
{
    let t = s.update(i, (s[i].0, c));
    if i == s.len() - 1 {
        assert(t.drop_last() =~= s.drop_last());
    } else {
        lemma_sum_counts_update(s.drop_last(), i, c);
        assert(t.drop_last() =~= s.drop_last().update(i, (s[i].0, c)));
    }
}

/// How many links were cleaned on each domain.
#[derive(Debug)]
pub struct DomainCounts {
    entries: Vec<(String, u64)>,
}

impl DomainCounts {
    /// The entries as plain values, in the order domains first appeared.
    pub closed spec fn entry_views(&self) -> Seq<(Seq<char>, u64)> {
        Seq::new(self.entries@.len(), |i: int| (self.entries@[i].0@, self.entries@[i].1))
    }

    /// The sum of all counts.
    pub closed spec fn total(&self) -> int {
        sum_counts(self.entry_views())
    }

    #[verifier::type_invariant]
    closed spec fn wf(&self) -> bool {
        keys_distinct(self.entry_views())
    }
}

impl View for DomainCounts {
    type V = Map<Seq<char>, u64>;

    closed spec fn view(&self) -> Map<Seq<char>, u64> {
        entries_map(self.entry_views())
    }
}

/// The count of `domain` (zero where it has none).
pub open spec fn count_of(m: Map<Seq<char>, u64>, domain: Seq<char>) -> int {
    if m.contains_key(domain) {
        m[domain] as int
    } else {
        0
    }
}

impl DomainCounts {
    /// No domain counted yet.
    pub fn new() -> (r: Self)
        ensures
            r@ == Map::<Seq<char>, u64>::empty(),
            r.total() == 0,
    {
        let r = DomainCounts { entries: Vec::new() };
        assert(r.entry_views() =~= Seq::empty());
        r
    }

    /// Counts one more link on `domain`.
    pub fn bump(&mut self, domain: &str)
        requires
            count_of(old(self)@, domain@) < u64::MAX,
        ensures
            final(self)@ == old(self)@.insert(domain@, (count_of(old(self)@, domain@) + 1) as u64),
            final(self).total() == old(self).total() + 1,
    {
        proof {
            use_type_invariant(&*self);
        }
        let ghost old_views = self.entry_views();
        let ghost old_map = self@;
        let ghost old_total = self.total();
        let n = self.entries.len();
        let mut i: usize = 0;
        while i < n
            invariant
                n == self.entries@.len(),
                old_views == self.entry_views(),
                old_map == entries_map(old_views),
                old_map == old(self)@,
                old_total == sum_counts(old_views),
                old_total == old(self).total(),
                keys_distinct(old_views),
                count_of(old_map, domain@) < u64::MAX,
                i <= n,
                forall|j: int| 0 <= j < i ==> #[trigger] old_views[j].0 != domain@,
            decreases n - i,
        {
            if same_text(self.entries[i].0.as_str(), domain) {
                proof {
                    lemma_entries_map_get(old_views, i as int);
                }
                let c = self.entries[i].1 + 1;
                let key = self.entries[i].0.clone();
                let mut entries: Vec<(String, u64)> = Vec::new();
                std::mem::swap(&mut entries, &mut self.entries);
                entries.set(i, (key, c));
                let ghost nv = Seq::new(entries@.len(), |k: int| (entries@[k].0@, entries@[k].1));
                proof {
                    assert(nv =~= old_views.update(i as int, (old_views[i as int].0, c)));
                    lemma_entries_map_update(old_views, i as int, c);
                    lemma_sum_counts_update(old_views, i as int, c);
                }
                self.entries = entries;
                assert(self.entry_views() =~= nv);
                return;
            }
            i = i + 1;
        }
        proof {
            lemma_entries_map_dom(old_views, domain@);
        }
        let mut entries: Vec<(String, u64)> = Vec::new();
        std::mem::swap(&mut entries, &mut self.entries);
        entries.push((domain.to_owned(), 1));
        let ghost nv = Seq::new(entries@.len(), |k: int| (entries@[k].0@, entries@[k].1));
        proof {
            assert(nv =~= old_views.push((domain@, 1u64)));
            assert(nv.drop_last() =~= old_views);
        }
        self.entries = entries;
        assert(self.entry_views() =~= nv);
    }

    /// The number of domains counted.
    pub fn len(&self) -> (r: usize)
        ensures
            r == self@.len(),
            self@.dom().finite(),
    {
        proof {
            use_type_invariant(self);
            lemma_entries_map_finite(self.entry_views());
        }
        self.entries.len()
    }

    /// The count of `domain` (zero where it has none).
    pub fn get(&self, domain: &str) -> (r: u64)
        ensures
            r == count_of(self@, domain@),
    {
        proof {
            use_type_invariant(self);
        }
        let ghost views = self.entry_views();
        let n = self.entries.len();
        let mut i: usize = 0;
        while i < n
            invariant
                n == self.entries@.len(),
                views == self.entry_views(),
                keys_distinct(views),
                i <= n,
                forall|j: int| 0 <= j < i ==> #[trigger] views[j].0 != domain@,
            decreases n - i,
        {
            if same_text(self.entries[i].0.as_str(), domain) {
                proof {
                    lemma_entries_map_get(views, i as int);
                }
                return self.entries[i].1;
            }
            i = i + 1;
        }
        proof {
            lemma_entries_map_dom(views, domain@);
        }
        0
    }
}

/// Running counters of the watcher.
#[derive(Debug)]
pub struct Stats {
    pub total_cleaned: u64,
    pub params_removed: u64,
    pub bytes_saved: u64,
    pub domains: DomainCounts,
}

impl Default for Stats {
    /// Counters at zero.
    fn default() -> (r: Self)
        ensures
            r.total_cleaned == 0,
            r.params_removed == 0,
            r.bytes_saved == 0,
            r.domains@ == Map::<Seq<char>, u64>::empty(),
            r.consistent(),
    {
        Stats::new()
    }
}

impl Stats {
    /// The per-domain counts add up to the number of links cleaned.
    pub open spec fn consistent(&self) -> bool {
        self.domains.total() == self.total_cleaned
    }

    /// Counters at zero.
    pub fn new() -> (r: Self)
        ensures
            r.total_cleaned == 0,
            r.params_removed == 0,
            r.bytes_saved == 0,
            r.domains@ == Map::<Seq<char>, u64>::empty(),
            r.consistent(),
    {
        Stats { total_cleaned: 0, params_removed: 0, bytes_saved: 0, domains: DomainCounts::new() }
    }

    /// Counts one cleaned link: one more link, its removed parameters, the
    /// bytes it lost, and one more link on its domain. Inputs on which a
    /// counter would overflow, or the cleaned link would be longer than the
    /// original, are left out (the subtraction and additions would fail).
    pub fn record_event(&mut self, original: &str, cleaned: &str, domain: &str, removed: &[String])
        requires
            old(self).total_cleaned < u64::MAX,
            cleaned.len() <= original.len(),
            old(self).params_removed + removed@.len() <= u64::MAX,
            old(self).bytes_saved + (original.len() - cleaned.len()) <= u64::MAX,
            count_of(old(self).domains@, domain@) < u64::MAX,
        ensures
            final(self).total_cleaned == old(self).total_cleaned + 1,
            final(self).params_removed == old(self).params_removed + removed@.len(),
            final(self).bytes_saved == old(self).bytes_saved + (original.len() - cleaned.len()),
            final(self).domains@ == old(self).domains@.insert(
                domain@,
                (count_of(old(self).domains@, domain@) + 1) as u64,
            ),
            final(self).domains.total() == old(self).domains.total() + 1,
            old(self).consistent() ==> final(self).consistent(),
    {
        self.total_cleaned = self.total_cleaned + 1;
        self.params_removed = self.params_removed + removed.len() as u64;
        let saved = original.len() - cleaned.len();
        self.bytes_saved = self.bytes_saved + saved as u64;
        self.domains.bump(domain);
    }
}

/// Entries of (domain, count) as plain values.
pub open spec fn count_views(s: Seq<(String, u64)>) -> Seq<(Seq<char>, u64)> {
    Seq::new(s.len(), |i: int| (s[i].0@, s[i].1))
}

/// Counts never increase along the entries.
pub open spec fn sorted_by_count(s: Seq<(Seq<char>, u64)>) -> bool {
    forall|a: int, b: int| 0 <= a < b < s.len() ==> #[trigger] s[a].1 >= #[trigger] s[b].1
}

/// Puts `x` into entries sorted by count, after every entry with a count at
/// least as large; returns where it went.
fn insert_by_count(out: &mut Vec<(String, u64)>, x: (String, u64)) -> (p: usize)
    requires
        sorted_by_count(count_views(old(out)@)),
    ensures
        p <= old(out)@.len(),
        count_views(final(out)@) == count_views(old(out)@).insert(p as int, (x.0@, x.1)),
        sorted_by_count(count_views(final(out)@)),
{
    let ghost o = count_views(out@);
    let c = x.1;
    let mut p: usize = 0;
    while p < out.len() && out[p].1 >= c
        invariant
            o == count_views(out@),
            p <= out@.len(),
            forall|q: int| 0 <= q < p ==> #[trigger] o[q].1 >= c,
        decreases out@.len() - p,
    {
        p = p + 1;
    }
    let ghost xv = (x.0@, x.1);
    out.insert(p, x);
    proof {
        let o2 = count_views(out@);
        assert(o2 =~= o.insert(p as int, xv));
        assert forall|a: int, b: int| 0 <= a < b < o2.len() implies #[trigger] o2[a].1
            >= #[trigger] o2[b].1 by {
            if b <= p {
            } else if a <= p {
                assert(o2[b] == o[b - 1]);
                if b - 1 > p {
                    assert(o[p as int].1 >= o[b - 1].1);
                }
            } else {
                assert(o2[a] == o[a - 1]);
                assert(o2[b] == o[b - 1]);
            }
        }
    }
    p
}

/// `o` holds exactly the first `i` of the distinct-keyed entries `views`.
#[verifier::opaque]
pub open spec fn holds_prefix(
    o: Seq<(Seq<char>, u64)>,
    views: Seq<(Seq<char>, u64)>,
    i: int,
) -> bool {
    &&& o.len() == i
    &&& keys_distinct(o)
    &&& covered_by(o, views, i)
    &&& all_present(o, views, i)
}

/// Each entry of `o` is one of the first `i` entries of `views`.
pub open spec fn covered_by(o: Seq<(Seq<char>, u64)>, views: Seq<(Seq<char>, u64)>, i: int) -> bool {
    forall|k: int|
        #![trigger o[k]]
        0 <= k < o.len() ==> exists|j: int| #![trigger views[j]] 0 <= j < i && o[k] == views[j]
}

/// Each of the first `i` entries of `views` is in `o`.
pub open spec fn all_present(o: Seq<(Seq<char>, u64)>, views: Seq<(Seq<char>, u64)>, i: int) -> bool {
    forall|j: int|
        #![trigger views[j]]
        0 <= j < i ==> exists|k: int| #![trigger o[k]] 0 <= k < o.len() && o[k] == views[j]
}

proof fn lemma_step_covered(
    o: Seq<(Seq<char>, u64)>,
    views: Seq<(Seq<char>, u64)>,
    i: int,
    p: int,
)
    requires
        0 <= i < views.len(),
        covered_by(o, views, i),
        0 <= p <= o.len(),
    ensures
        covered_by(o.insert(p, views[i]), views, i + 1),
{
    let o2 = o.insert(p, views[i]);
    assert forall|k: int| 0 <= k < o2.len() implies exists|j: int|
        0 <= j < i + 1 && #[trigger] o2[k] == views[j] by {
        if k < p {
            let j = choose|j: int| #![trigger views[j]] 0 <= j < i && o[k] == views[j];
            assert(o2[k] == views[j]);
        } else if k == p {
            assert(o2[k] == views[i]);
        } else {
            let j = choose|j: int| #![trigger views[j]] 0 <= j < i && o[k - 1] == views[j];
            assert(o2[k] == views[j]);
        }
    }
}

proof fn lemma_step_complete(
    o: Seq<(Seq<char>, u64)>,
    views: Seq<(Seq<char>, u64)>,
    i: int,
    p: int,
)
    requires
        0 <= i < views.len(),
        all_present(o, views, i),
        0 <= p <= o.len(),
    ensures
        all_present(o.insert(p, views[i]), views, i + 1),
{
    let o2 = o.insert(p, views[i]);
    assert forall|j: int| 0 <= j < i + 1 implies exists|k: int|
        0 <= k < o2.len() && o2[k] == #[trigger] views[j] by {
        if j == i {
            assert(o2[p] == views[j]);
        } else {
            let k = choose|k: int| #![trigger o[k]] 0 <= k < o.len() && o[k] == views[j];
            if k < p {
                assert(o2[k] == views[j]);
            } else {
                assert(o2[k + 1] == views[j]);
            }
        }
    }
}

proof fn lemma_step_distinct(
    o: Seq<(Seq<char>, u64)>,
    views: Seq<(Seq<char>, u64)>,
    i: int,
    p: int,
)
    requires
        keys_distinct(views),
        0 <= i < views.len(),
        keys_distinct(o),
        covered_by(o, views, i),
        0 <= p <= o.len(),
    ensures
        keys_distinct(o.insert(p, views[i])),
{
    let o2 = o.insert(p, views[i]);
    assert forall|a: int, b: int| 0 <= a < b < o2.len() implies #[trigger] o2[a].0
        != #[trigger] o2[b].0 by {
        if a != p && b != p {
            let aa = if a < p { a } else { a - 1 };
            let bb = if b < p { b } else { b - 1 };
            assert(o2[a] == o[aa]);
            assert(o2[b] == o[bb]);
        } else {
            let kk = if a == p { b - 1 } else { a };
            assert(o2[if a == p { b } else { a }] == o[kk]);
            let j = choose|j: int| 0 <= j < i && #[trigger] o[kk] == views[j];
            assert(views[j].0 != views[i].0);
        }
    }
}

proof fn lemma_holds_prefix_step(
    o: Seq<(Seq<char>, u64)>,
    views: Seq<(Seq<char>, u64)>,
    i: int,
    p: int,
)
    requires
        keys_distinct(views),
        0 <= i < views.len(),
        holds_prefix(o, views, i),
        0 <= p <= o.len(),
    ensures
        holds_prefix(o.insert(p, views[i]), views, i + 1),
{
    reveal(holds_prefix);
    lemma_step_covered(o, views, i, p);
    lemma_step_complete(o, views, i, p);
    lemma_step_distinct(o, views, i, p);
}

proof fn lemma_take_keeps_order(full: Seq<(Seq<char>, u64)>, m: int)
    requires
        keys_distinct(full),
        sorted_by_count(full),
        0 <= m <= full.len(),
    ensures
        keys_distinct(full.take(m)),
        sorted_by_count(full.take(m)),
{
    let o = full.take(m);
    assert forall|a: int, b: int| 0 <= a < b < o.len() implies #[trigger] o[a].0
        != #[trigger] o[b].0 by {
        assert(o[a] == full[a] && o[b] == full[b]);
    }
    assert forall|a: int, b: int| 0 <= a < b < o.len() implies #[trigger] o[a].1
        >= #[trigger] o[b].1 by {
        assert(o[a] == full[a] && o[b] == full[b]);
    }
}

proof fn lemma_entries_found(full: Seq<(Seq<char>, u64)>, views: Seq<(Seq<char>, u64)>)
    requires
        keys_distinct(views),
        covered_by(full, views, views.len() as int),
    ensures
        forall|k: int|
            #![trigger full[k]]
            0 <= k < full.len() ==> entries_map(views).contains_key(full[k].0) && entries_map(
                views,
            )[full[k].0] == full[k].1,
{
    assert forall|k: int| #![trigger full[k]] 0 <= k < full.len() implies entries_map(
        views,
    ).contains_key(full[k].0) && entries_map(views)[full[k].0] == full[k].1 by {
        let j = choose|j: int| #![trigger views[j]] 0 <= j < views.len() as int && full[k] == views[j];
        lemma_entries_map_get(views, j);
    }
}

proof fn lemma_rest_smaller(full: Seq<(Seq<char>, u64)>, views: Seq<(Seq<char>, u64)>, m: int)
    requires
        keys_distinct(views),
        all_present(full, views, views.len() as int),
        sorted_by_count(full),
        0 < m <= full.len(),
    ensures
        forall|key: Seq<char>|
            #[trigger] entries_map(views).contains_key(key) && !(exists|i: int|
                0 <= i < m && full[i].0 == key) ==> entries_map(views)[key] <= full[m - 1].1,
{
    assert forall|key: Seq<char>|
        #[trigger] entries_map(views).contains_key(key) && !(exists|i: int|
            0 <= i < m && full[i].0 == key) implies entries_map(views)[key] <= full[m - 1].1 by {
        lemma_entries_map_dom(views, key);
        let j = choose|j: int| 0 <= j < views.len() && #[trigger] views[j].0 == key;
        lemma_entries_map_get(views, j);
        let k = choose|k: int| #![trigger full[k]] 0 <= k < full.len() && full[k] == views[j];
        if k < m {
            assert(full[k].0 == key);
        } else if k > m - 1 {
            assert(full[m - 1].1 >= full[k].1);
        }
    }
}

/// The first `m` entries of the sorted list of all domains are the `m`
/// most counted domains.
pub open spec fn is_top(m: Map<Seq<char>, u64>, rv: Seq<(Seq<char>, u64)>) -> bool {
    &&& sorted_by_count(rv)
    &&& keys_distinct(rv)
    &&& all_counted(m, rv)
    &&& rest_counted_less(m, rv)
}

/// Each entry is a domain of the map with its count.
pub open spec fn all_counted(m: Map<Seq<char>, u64>, rv: Seq<(Seq<char>, u64)>) -> bool {
    forall|i: int|
        #![trigger rv[i]]
        0 <= i < rv.len() ==> m.contains_key(rv[i].0) && m[rv[i].0] == rv[i].1
}

/// Each domain of the map that the entries leave out has no larger count
/// than the last entry.
pub open spec fn rest_counted_less(m: Map<Seq<char>, u64>, rv: Seq<(Seq<char>, u64)>) -> bool {
    forall|key: Seq<char>|
        #[trigger] m.contains_key(key) && rv.len() > 0 && !(exists|i: int|
            #![trigger rv[i]]
            0 <= i < rv.len() && rv[i].0 == key) ==> m[key] <= rv[rv.len() - 1].1
}

proof fn lemma_top_found(full: Seq<(Seq<char>, u64)>, views: Seq<(Seq<char>, u64)>, m: int)
    requires
        keys_distinct(views),
        covered_by(full, views, views.len() as int),
        0 <= m <= full.len(),
    ensures
        all_counted(entries_map(views), full.take(m)),
{
    let rv = full.take(m);
    lemma_entries_found(full, views);
    assert forall|i: int| #![trigger rv[i]] 0 <= i < rv.len() implies entries_map(views).contains_key(
        rv[i].0,
    ) && entries_map(views)[rv[i].0] == rv[i].1 by {
        assert(rv[i] == full[i]);
    }
}

proof fn lemma_top_rest(full: Seq<(Seq<char>, u64)>, views: Seq<(Seq<char>, u64)>, m: int)
    requires
        keys_distinct(views),
        all_present(full, views, views.len() as int),
        sorted_by_count(full),
        0 < m <= full.len(),
    ensures
        rest_counted_less(entries_map(views), full.take(m)),
{
    let rv = full.take(m);
    lemma_rest_smaller(full, views, m);
    assert forall|key: Seq<char>|
        #[trigger] entries_map(views).contains_key(key) && rv.len() > 0 && !(exists|i: int|
            #![trigger rv[i]]
            0 <= i < rv.len() && rv[i].0 == key) implies entries_map(views)[key] <= rv[rv.len()
        - 1].1 by {
        if exists|i: int| 0 <= i < m && full[i].0 == key {
            let i = choose|i: int| 0 <= i < m && full[i].0 == key;
            assert(rv[i] == full[i]);
        }
        assert(rv[m - 1] == full[m - 1]);
    }
}

proof fn lemma_top_result(full: Seq<(Seq<char>, u64)>, views: Seq<(Seq<char>, u64)>, m: int)
    requires
        keys_distinct(views),
        holds_prefix(full, views, views.len() as int),
        sorted_by_count(full),
        0 <= m <= full.len(),
    ensures
        is_top(entries_map(views), full.take(m)),
{
    reveal(holds_prefix);
    lemma_take_keeps_order(full, m);
    lemma_top_found(full, views, m);
    if m > 0 {
        lemma_top_rest(full, views, m);
    }
}

impl DomainCounts {
    /// All entries, sorted by count (largest first).
    fn sorted_entries(&self) -> (r: Vec<(String, u64)>)
        requires
            keys_distinct(self.entry_views()),
        ensures
            sorted_by_count(count_views(r@)),
            holds_prefix(count_views(r@), self.entry_views(), self.entry_views().len() as int),
            r@.len() == self.entry_views().len(),
    {
        let ghost views = self.entry_views();
        let n = self.entries.len();
        let mut out: Vec<(String, u64)> = Vec::new();
        assert(count_views(out@) =~= Seq::empty());
        proof {
            reveal(holds_prefix);
        }
        let mut i: usize = 0;
        while i < n
            invariant
                n == self.entries@.len(),
                views == self.entry_views(),
                keys_distinct(views),
                i <= n,
                sorted_by_count(count_views(out@)),
                holds_prefix(count_views(out@), views, i as int),
            decreases n - i,
        {
            let x = (self.entries[i].0.clone(), self.entries[i].1);
            let ghost o = count_views(out@);
            assert((x.0@, x.1) == views[i as int]);
            let p = insert_by_count(&mut out, x);
            proof {
                lemma_holds_prefix_step(o, views, i as int, p as int);
            }
            i = i + 1;
        }
        proof {
            reveal(holds_prefix);
        }
        out
    }

    /// The `limit` most counted domains with their counts, most counted
    /// first (among equal counts in no promised order).
    pub fn top_domains(&self, limit: usize) -> (r: Vec<(String, u64)>)
        ensures
            r@.len() == if limit < self@.len() {
                limit as int
            } else {
                self@.len() as int
            },
            is_top(self@, count_views(r@)),
    {
        proof {
            use_type_invariant(self);
            lemma_entries_map_finite(self.entry_views());
        }
        let mut out = self.sorted_entries();
        let ghost full = count_views(out@);
        proof {
            let m = if limit < full.len() {
                limit as int
            } else {
                full.len() as int
            };
            lemma_top_result(full, self.entry_views(), m);
        }
        if limit < out.len() {
            out.truncate(limit);
        }
        assert(count_views(out@) =~= full.take(out@.len() as int));
        out
    }
}
/// What the watcher's records keep at all times: at most `MAX_EVENTS`
/// events, no more events than links counted, and per-domain counts that add
/// up to the links counted.
pub open spec fn records_consistent(events: Seq<CleanEvent>, stats: Stats) -> bool {
    &&& events.len() <= MAX_EVENTS
    &&& events.len() <= stats.total_cleaned
    &&& stats.consistent()
}

/// The watcher's records start consistent: no events, and counters at zero
/// that agree (as `Stats::new` makes them).
pub proof fn lemma_records_start(stats: Stats)
    requires
        stats.total_cleaned == 0,
        stats.consistent(),
    ensures
        records_consistent(Seq::empty(), stats),
{
}

/// Recording a cleaned link keeps the records consistent: the event goes in
/// front, where it is the newest, and the counters count one more link,
/// one more on its domain (as `push_recent_event` and `Stats::record_event`
/// state).
pub proof fn lemma_record_keeps_consistent(
    events: Seq<CleanEvent>,
    evt: CleanEvent,
    before: Stats,
    after: Stats,
)
    requires
        records_consistent(events, before),
        after.total_cleaned == before.total_cleaned + 1,
        after.domains.total() == before.domains.total() + 1,
    ensures
        records_consistent(with_recent(events, evt), after),
        with_recent(events, evt)[0] == evt,
{
}

/// The byte length of a text, as `str::len` gives it.
pub open spec fn byte_count(s: Seq<char>) -> usize {
    vstd::utf8::encode_utf8(s).len() as usize
}

/// Records one cleaned link in the watcher's records: `evt` goes in front of
/// the events (the newest `MAX_EVENTS` are kept), and the counters count it
/// as `Stats::record_event` does. Consistent records stay consistent. Inputs
/// on which a counter would overflow, or the cleaned link would be longer
/// than the original, are left out, as in `Stats::record_event`.
pub fn record_clean(events: &mut Vec<CleanEvent>, stats: &mut Stats, evt: CleanEvent)
    requires
        old(stats).total_cleaned < u64::MAX,
        byte_count(evt.cleaned@) <= byte_count(evt.original@),
        old(stats).params_removed + evt.removed_params@.len() <= u64::MAX,
        old(stats).bytes_saved + (byte_count(evt.original@) - byte_count(evt.cleaned@)) <= u64::MAX,
        count_of(old(stats).domains@, evt.domain@) < u64::MAX,
    ensures
        final(events)@ == with_recent(old(events)@, evt),
        final(stats).total_cleaned == old(stats).total_cleaned + 1,
        final(stats).params_removed == old(stats).params_removed + evt.removed_params@.len(),
        final(stats).bytes_saved == old(stats).bytes_saved + (byte_count(evt.original@) - byte_count(
            evt.cleaned@,
        )),
        final(stats).domains@ == old(stats).domains@.insert(
            evt.domain@,
            (count_of(old(stats).domains@, evt.domain@) + 1) as u64,
        ),
        records_consistent(old(events)@, *old(stats)) ==> records_consistent(
            final(events)@,
            *final(stats),
        ),
{
    stats.record_event(
        evt.original.as_str(),
        evt.cleaned.as_str(),
        evt.domain.as_str(),
        evt.removed_params.as_slice(),
    );
    push_recent_event(events, evt);
}

/// Forgetting the events keeps the records consistent.
pub proof fn lemma_clear_keeps_consistent(events: Seq<CleanEvent>, stats: Stats)
    requires
        records_consistent(events, stats),
    ensures
        records_consistent(Seq::empty(), stats),
{
}

} // verus!
