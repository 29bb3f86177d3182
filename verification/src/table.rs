//! Facts about maps kept as lists of (text key, value) entries.

use vstd::prelude::*;

verus! {

/// The map that a list of (key, value) entries stands for, later entries
/// taking precedence.
pub open spec fn entries_map<V>(s: Seq<(Seq<char>, V)>) -> Map<Seq<char>, V>
    decreases s.len(),
{
    if s.len() == 0 {
        Map::empty()
    } else {
        entries_map(s.drop_last()).insert(s.last().0, s.last().1)
    }
}

/// No key occurs twice in the entries.
pub open spec fn keys_distinct<V>(s: Seq<(Seq<char>, V)>) -> bool {
    forall|i: int, j: int| 0 <= i < j < s.len() ==> #[trigger] s[i].0 != #[trigger] s[j].0
}

/// A key is in the map exactly when some entry has it.
pub proof fn lemma_entries_map_dom<V>(s: Seq<(Seq<char>, V)>, k: Seq<char>)
    ensures
        entries_map(s).contains_key(k) <==> exists|i: int| 0 <= i < s.len() && #[trigger] s[i].0 == k,
    decreases s.len(),
{
    if s.len() > 0 {
        lemma_entries_map_dom(s.drop_last(), k);
        if entries_map(s).contains_key(k) && k != s.last().0 {
            let i = choose|i: int| 0 <= i < s.drop_last().len() && #[trigger] s.drop_last()[i].0 == k;
            assert(s[i].0 == k);
        }
        if exists|i: int| 0 <= i < s.len() && #[trigger] s[i].0 == k {
            let i = choose|i: int| 0 <= i < s.len() && #[trigger] s[i].0 == k;
            if i < s.len() - 1 {
                assert(s.drop_last()[i].0 == k);
            }
        }
    }
}

/// With distinct keys, each entry's key maps to the entry's value.
pub proof fn lemma_entries_map_get<V>(s: Seq<(Seq<char>, V)>, i: int)
    requires
        keys_distinct(s),
        0 <= i < s.len(),
    ensures
        entries_map(s).contains_key(s[i].0),
        entries_map(s)[s[i].0] == s[i].1,
    decreases s.len(),
{
    if i < s.len() - 1 {
        assert(s.drop_last()[i] == s[i]);
        assert(keys_distinct(s.drop_last()));
        lemma_entries_map_get(s.drop_last(), i);
    }
}

/// With distinct keys, the map is finite and has one key per entry.
pub proof fn lemma_entries_map_finite<V>(s: Seq<(Seq<char>, V)>)
    requires
        keys_distinct(s),
    ensures
        entries_map(s).dom().finite(),
        entries_map(s).len() == s.len(),
    decreases s.len(),
{
    if s.len() > 0 {
        assert(keys_distinct(s.drop_last()));
        lemma_entries_map_finite(s.drop_last());
        lemma_entries_map_dom(s.drop_last(), s.last().0);
        if entries_map(s.drop_last()).contains_key(s.last().0) {
            let i = choose|i: int|
                0 <= i < s.drop_last().len() && #[trigger] s.drop_last()[i].0 == s.last().0;
            assert(s[i].0 == s[s.len() - 1].0);
        }
    }
}

/// With distinct keys, replacing an entry's value sets that key's value.
pub proof fn lemma_entries_map_update<V>(
    s: Seq<(Seq<char>, V)>,
    i: int,
    v: V,
)
    requires
        keys_distinct(s),
        0 <= i < s.len(),
    ensures
        entries_map(s.update(i, (s[i].0, v))) == entries_map(s).insert(s[i].0, v),
    decreases s.len(),
{
    let t = s.update(i, (s[i].0, v));
    if i == s.len() - 1 {
        assert(t.drop_last() =~= s.drop_last());
        lemma_entries_map_dom(s.drop_last(), s[i].0);
        assert(entries_map(t) =~= entries_map(s).insert(s[i].0, v));
    } else {
        assert(keys_distinct(s.drop_last()));
        lemma_entries_map_update(s.drop_last(), i, v);
        assert(t.drop_last() =~= s.drop_last().update(i, (s[i].0, v)));
        assert(s.last().0 != s[i].0);
        assert(entries_map(t) =~= entries_map(s).insert(s[i].0, v));
    }
}

} // verus!
