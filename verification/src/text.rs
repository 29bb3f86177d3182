//! Character-level helpers over `str` and `String`, with their contracts.

use vstd::prelude::*;
use vstd::string::*;

verus! {

broadcast use vstd::string::group_string_axioms;

/// The characters of `s`, in order.
pub fn chars_of(s: &str) -> (r: Vec<char>)
    ensures
        r@ == s@,
{
    let mut out: Vec<char> = Vec::new();
    for c in it: s.chars()
        invariant
            out@ == it.seq().take(it.index()),
            it.seq() == s@,
    {
        out.push(c);
    }
    out
}

/// Unicode `White_Space` property: the characters that `char::is_whitespace`
/// documents as white space.
pub open spec fn is_white_space(c: char) -> bool {
    let n = c as u32;
    ||| 0x09 <= n <= 0x0d
    ||| n == 0x20
    ||| n == 0x85
    ||| n == 0xa0
    ||| n == 0x1680
    ||| 0x2000 <= n <= 0x200a
    ||| n == 0x2028
    ||| n == 0x2029
    ||| n == 0x202f
    ||| n == 0x205f
    ||| n == 0x3000
}

/// Whether `c` is Unicode white space.
pub fn white_space(c: char) -> (r: bool)
    ensures
        r == is_white_space(c),
{
    let n = c as u32;
    (0x09 <= n && n <= 0x0d) || n == 0x20 || n == 0x85 || n == 0xa0 || n == 0x1680 || (0x2000
        <= n && n <= 0x200a) || n == 0x2028 || n == 0x2029 || n == 0x202f || n == 0x205f || n
        == 0x3000
}

/// The first index at or after `i` that does not hold white space (or the length).
pub open spec fn skip_white_forward(s: Seq<char>, i: int) -> int
    decreases s.len() - i,
{
    if 0 <= i < s.len() && is_white_space(s[i]) {
        skip_white_forward(s, i + 1)
    } else {
        i
    }
}

/// Walking back from `j` (exclusive) no further than `lo`, the end of the last
/// character that is not white space.
pub open spec fn skip_white_backward(s: Seq<char>, lo: int, j: int) -> int
    decreases j - lo,
{
    if lo < j <= s.len() && is_white_space(s[j - 1]) {
        skip_white_backward(s, lo, j - 1)
    } else {
        j
    }
}

/// Where the trimmed text starts.
pub open spec fn trim_start(s: Seq<char>) -> int {
    skip_white_forward(s, 0)
}

/// Where the trimmed text ends.
pub open spec fn trim_end(s: Seq<char>) -> int {
    skip_white_backward(s, trim_start(s), s.len() as int)
}

/// `s` without its leading and trailing white space.
pub open spec fn trimmed(s: Seq<char>) -> Seq<char> {
    s.subrange(trim_start(s), trim_end(s))
}

proof fn lemma_skip_forward(s: Seq<char>, i: int)
    requires
        0 <= i <= s.len(),
    ensures
        i <= skip_white_forward(s, i) <= s.len(),
        forall|k: int| i <= k < skip_white_forward(s, i) ==> is_white_space(#[trigger] s[k]),
        skip_white_forward(s, i) < s.len() ==> !is_white_space(s[skip_white_forward(s, i)]),
    decreases s.len() - i,
{
    if i < s.len() && is_white_space(s[i]) {
        lemma_skip_forward(s, i + 1);
    }
}

proof fn lemma_skip_backward(s: Seq<char>, lo: int, j: int)
    requires
        0 <= lo <= j <= s.len(),
    ensures
        lo <= skip_white_backward(s, lo, j) <= j,
        forall|k: int| skip_white_backward(s, lo, j) <= k < j ==> is_white_space(#[trigger] s[k]),
        skip_white_backward(s, lo, j) > lo ==> !is_white_space(s[skip_white_backward(s, lo, j) - 1]),
    decreases j - lo,
{
    if lo < j && is_white_space(s[j - 1]) {
        lemma_skip_backward(s, lo, j - 1);
    }
}

/// Facts about the trimmed bounds: they are in order, everything cut off is
/// white space, and the kept text neither starts nor ends with white space.
pub proof fn lemma_trim_bounds(s: Seq<char>)
    ensures
        0 <= trim_start(s) <= trim_end(s) <= s.len(),
        forall|k: int| 0 <= k < trim_start(s) ==> is_white_space(#[trigger] s[k]),
        forall|k: int| trim_end(s) <= k < s.len() ==> is_white_space(#[trigger] s[k]),
        trim_start(s) < trim_end(s) ==> !is_white_space(s[trim_start(s)]) && !is_white_space(
            s[trim_end(s) - 1],
        ),
        trim_start(s) == trim_end(s) ==> forall|k: int|
            0 <= k < s.len() ==> is_white_space(#[trigger] s[k]),
{
    lemma_skip_forward(s, 0);
    lemma_skip_backward(s, trim_start(s), s.len() as int);
}

/// Trimming is idempotent: trimmed text has nothing more to trim.
pub proof fn lemma_trim_idempotent(s: Seq<char>)
    ensures
        trimmed(trimmed(s)) == trimmed(s),
{
    lemma_trim_bounds(s);
    let r = trimmed(s);
    let a = trim_start(s);
    let b = trim_end(s);
    if r.len() > 0 {
        assert(r[0] == s[a]);
        assert(r[r.len() - 1] == s[b - 1]);
    }
    assert(skip_white_forward(r, 0) == 0);
    assert(skip_white_backward(r, 0, r.len() as int) == r.len());
    assert(trimmed(r) =~= r);
}

/// `input` without its leading and trailing Unicode white space.
pub fn trim_white_space(input: &str) -> (r: &str)
    ensures
        r@ == trimmed(input@),
{
    let cs = chars_of(input);
    let n = cs.len();
    let mut a: usize = 0;
    while a < n && white_space(cs[a])
        invariant
            cs@ == input@,
            n == cs.len(),
            a <= n,
            skip_white_forward(input@, a as int) == skip_white_forward(input@, 0),
        decreases n - a,
    {
        a = a + 1;
    }
    let mut b: usize = n;
    while b > a && white_space(cs[b - 1])
        invariant
            cs@ == input@,
            n == cs.len(),
            a <= b <= n,
            a == trim_start(input@),
            skip_white_backward(input@, a as int, b as int) == trim_end(input@),
        decreases b - a,
    {
        b = b - 1;
    }
    input.substring_char(a, b)
}

/// Whether two texts hold the same characters.
pub fn same_text(a: &str, b: &str) -> (r: bool)
    ensures
        r == (a@ == b@),
{
    let x = chars_of(a);
    let y = chars_of(b);
    if x.len() != y.len() {
        assert(x@.len() != y@.len());
        return false;
    }
    let mut i: usize = 0;
    while i < x.len()
        invariant
            x@ == a@,
            y@ == b@,
            x.len() == y.len(),
            i <= x.len(),
            forall|k: int| 0 <= k < i ==> x@[k] == y@[k],
        decreases x.len() - i,
    {
        if x[i] != y[i] {
            assert(x@[i as int] != y@[i as int]);
            assert(x@ != y@);
            return false;
        }
        i = i + 1;
    }
    assert(x@ =~= y@);
    true
}

/// Whether `s` begins with `prefix`.
pub open spec fn has_prefix(s: Seq<char>, prefix: Seq<char>) -> bool {
    prefix.len() <= s.len() && s.subrange(0, prefix.len() as int) == prefix
}

/// Whether `p` occurs in `s` as a contiguous piece.
pub open spec fn has_infix(s: Seq<char>, p: Seq<char>) -> bool {
    exists|i: int| 0 <= i <= s.len() - p.len() && #[trigger] s.subrange(i, i + p.len()) == p
}

/// Whether `s` begins with `prefix`.
pub fn starts_with_chars(s: &Vec<char>, prefix: &Vec<char>) -> (r: bool)
    ensures
        r == has_prefix(s@, prefix@),
{
    if prefix.len() > s.len() {
        return false;
    }
    let mut i: usize = 0;
    while i < prefix.len()
        invariant
            prefix.len() <= s.len(),
            i <= prefix.len(),
            forall|k: int| 0 <= k < i ==> s@[k] == prefix@[k],
        decreases prefix.len() - i,
    {
        if s[i] != prefix[i] {
            assert(s@.subrange(0, prefix.len() as int)[i as int] != prefix@[i as int]);
            return false;
        }
        i = i + 1;
    }
    assert(s@.subrange(0, prefix.len() as int) =~= prefix@);
    true
}

/// Whether `p` matches `s` at position `at`.
fn matches_at(s: &Vec<char>, p: &Vec<char>, at: usize) -> (r: bool)
    requires
        at + p.len() <= s.len(),
    ensures
        r == (s@.subrange(at as int, at + p.len()) == p@),
{
    let mut i: usize = 0;
    while i < p.len()
        invariant
            at + p.len() <= s.len(),
            i <= p.len(),
            forall|k: int| 0 <= k < i ==> s@[at + k] == p@[k],
        decreases p.len() - i,
    {
        if s[at + i] != p[i] {
            assert(s@.subrange(at as int, at + p.len())[i as int] != p@[i as int]);
            return false;
        }
        i = i + 1;
    }
    assert(s@.subrange(at as int, at + p.len()) =~= p@);
    true
}

/// Whether `p` occurs in `s` as a contiguous piece (as `str::contains` does
/// for a string pattern; the empty pattern occurs everywhere).
pub fn contains_chars(s: &Vec<char>, p: &Vec<char>) -> (r: bool)
    ensures
        r == has_infix(s@, p@),
{
    if p.len() > s.len() {
        return false;
    }
    let last = s.len() - p.len();
    let mut at: usize = 0;
    loop
        invariant
            last == s.len() - p.len(),
            at <= last,
            forall|k: int| 0 <= k < at ==> #[trigger] s@.subrange(k, k + p.len()) != p@,
        decreases last - at,
    {
        if matches_at(s, p, at) {
            return true;
        }
        if at == last {
            return false;
        }
        at = at + 1;
    }
}

/// Calls `String::from_iter` over the characters (std's `collect` into a
/// `String`); claims the result holds exactly those characters.
#[verifier::external_body]
pub(crate) fn string_from_chars(cs: &Vec<char>) -> (r: String)
    ensures
        r@ == cs@,
{
    cs.iter().collect()
}

/// The decimal digit character for `d` (below ten).
pub open spec fn digit_char(d: int) -> char {
    seq!['0', '1', '2', '3', '4', '5', '6', '7', '8', '9'][d]
}

/// The decimal numeral of `n`, without leading zeros.
pub open spec fn decimal(n: nat) -> Seq<char>
    decreases n,
{
    if n < 10 {
        seq![digit_char(n as int)]
    } else {
        decimal(n / 10).push(digit_char((n % 10) as int))
    }
}

fn digit(d: u64) -> (r: char)
    requires
        d < 10,
    ensures
        r == digit_char(d as int),
{
    match d {
        0 => '0',
        1 => '1',
        2 => '2',
        3 => '3',
        4 => '4',
        5 => '5',
        6 => '6',
        7 => '7',
        8 => '8',
        _ => '9',
    }
}

fn decimal_chars(n: u64) -> (r: Vec<char>)
    ensures
        r@ == decimal(n as nat),
    decreases n,
{
    if n < 10 {
        let mut v: Vec<char> = Vec::new();
        v.push(digit(n));
        assert(v@ =~= seq![digit_char(n as int)]);
        v
    } else {
        let mut v = decimal_chars(n / 10);
        v.push(digit(n % 10));
        v
    }
}

/// The decimal numeral of `n`.
pub fn decimal_string(n: u64) -> (r: String)
    ensures
        r@ == decimal(n as nat),
{
    string_from_chars(&decimal_chars(n))
}

/// The texts joined with `sep` between neighbours.
pub open spec fn joined(items: Seq<Seq<char>>, sep: Seq<char>) -> Seq<char>
    decreases items.len(),
{
    if items.len() == 0 {
        Seq::empty()
    } else if items.len() == 1 {
        items[0]
    } else {
        joined(items.drop_last(), sep) + sep + items.last()
    }
}

/// The first `n` strings joined with `sep` between neighbours.
pub fn join_first(items: &Vec<String>, n: usize, sep: &str) -> (r: String)
    requires
        n <= items@.len(),
    ensures
        r@ == joined(items.deep_view().take(n as int), sep@),
{
    let ghost all = items.deep_view();
    let mut out = String::new();
    let mut i: usize = 0;
    while i < n
        invariant
            n <= items@.len(),
            all == items.deep_view(),
            i <= n,
            out@ == joined(all.take(i as int), sep@),
        decreases n - i,
    {
        proof {
            assert(all.take(i + 1).drop_last() =~= all.take(i as int));
            assert(all.take(i + 1).last() == items@[i as int]@);
        }
        if i > 0 {
            out.append(sep);
        } else {
            proof {
                assert(out@ =~= Seq::<char>::empty());
            }
        }
        out.append(items[i].as_str());
        proof {
            if i == 0 {
                assert(out@ =~= all.take(1)[0]);
            }
        }
        i = i + 1;
    }
    out
}

/// The lowercase form of a string, as `str::to_lowercase` computes it.
pub uninterp spec fn spec_lowercase(s: Seq<char>) -> Seq<char>;

/// Calls `str::to_lowercase`; the contract claims only that the result is the
/// function `spec_lowercase` of the input's characters (the Unicode lowercase
/// mapping that std applies is not written out).
#[verifier::external_body]
pub(crate) fn lowercase(s: &str) -> (r: String)
    ensures
        r@ == spec_lowercase(s@),
{
    s.to_lowercase()
}

/// How many bytes UTF-8 takes for `c`.
pub open spec fn utf8_width(c: char) -> nat {
    let n = c as u32;
    if n < 0x80 {
        1
    } else if n < 0x800 {
        2
    } else if n < 0x10000 {
        3
    } else {
        4
    }
}

/// How many bytes the UTF-8 form of `s` takes.
pub open spec fn utf8_len(s: Seq<char>) -> nat
    decreases s.len(),
{
    if s.len() == 0 {
        0
    } else {
        utf8_len(s.drop_last()) + utf8_width(s.last())
    }
}

/// The UTF-8 length of `s` where it is at most `limit`; `None` beyond it.
pub fn utf8_len_upto(s: &str, limit: u64) -> (r: Option<u64>)
    ensures
        match r {
            Some(n) => n == utf8_len(s@) && n <= limit,
            None => utf8_len(s@) > limit,
        },
{
    let mut total: u64 = 0;
    let mut over = false;
    for c in it: s.chars()
        invariant
            it.seq() == s@,
            !over ==> total == utf8_len(s@.take(it.index())) && total <= limit,
            over ==> utf8_len(s@.take(it.index())) > limit,
    {
        proof {
            assert(s@.take(it.index() + 1).drop_last() =~= s@.take(it.index()));
        }
        if !over {
            let code = c as u32;
            let w: u64 = if code < 0x80 {
                1
            } else if code < 0x800 {
                2
            } else if code < 0x10000 {
                3
            } else {
                4
            };
            if w > limit - total {
                over = true;
            } else {
                total = total + w;
            }
        }
    }
    proof {
        assert(s@.take(s@.len() as int) =~= s@);
    }
    if over {
        None
    } else {
        Some(total)
    }
}

} // verus!
