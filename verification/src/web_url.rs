//! A parsed URL, carried through the cleaning logic by its serialization.
//!
//! Every operation on the URL is made by the `url` crate; this module states,
//! for each operation, that its result is a fixed function of the URL's
//! serialization and of the arguments.

use url::Url;
use vstd::prelude::*;

use crate::text::{utf8_len, utf8_len_upto, utf8_width};

verus! {

#[verifier::external_type_specification]
#[verifier::external_body]
pub struct ExUrl(Url);

/// A URL parsed by the `url` crate, together with its serialization.
pub struct WebUrl {
    url: Url,
    text: String,
}

impl View for WebUrl {
    type V = Seq<char>;

    /// The URL's serialization, as `Url::as_str` gives it.
    closed spec fn view(&self) -> Seq<char> {
        self.text@
    }
}

/// The serialization of `Url::parse(input)`, or `None` where it fails.
pub uninterp spec fn spec_url_parse(input: Seq<char>) -> Option<Seq<char>>;

/// `Url::host_str` of the URL with this serialization.
pub uninterp spec fn spec_url_host(url: Seq<char>) -> Option<Seq<char>>;

/// `Url::path` of the URL with this serialization.
pub uninterp spec fn spec_url_path(url: Seq<char>) -> Seq<char>;

/// The serialization after `Url::set_path(path)`.
pub uninterp spec fn spec_url_set_path(url: Seq<char>, path: Seq<char>) -> Seq<char>;

/// The decoded name/value pairs of `Url::query_pairs`, in order.
pub uninterp spec fn spec_url_query_pairs(url: Seq<char>) -> Seq<(Seq<char>, Seq<char>)>;

/// The serialization after `Url::set_query(query)`.
pub uninterp spec fn spec_url_set_query(url: Seq<char>, query: Option<Seq<char>>) -> Seq<char>;

/// The serialization after `Url::query_pairs_mut()`, then `clear()` and
/// `append_pair` of each pair in order on the returned serializer.
pub uninterp spec fn spec_url_replace_query_pairs(
    url: Seq<char>,
    pairs: Seq<(Seq<char>, Seq<char>)>,
) -> Seq<char>;

/// `Url::query` of the URL with this serialization.
pub uninterp spec fn spec_url_query(url: Seq<char>) -> Option<Seq<char>>;

/// `Url::fragment` of the URL with this serialization.
pub uninterp spec fn spec_url_fragment(url: Seq<char>) -> Option<Seq<char>>;

/// The serialization after `Url::set_fragment(fragment)`.
pub uninterp spec fn spec_url_set_fragment(url: Seq<char>, fragment: Option<Seq<char>>) -> Seq<
    char,
>;

/// Name/value pairs of strings as pairs of texts.
pub open spec fn pairs_view(s: Seq<(String, String)>) -> Seq<(Seq<char>, Seq<char>)> {
    Seq::new(s.len(), |i: int| (s[i].0@, s[i].1@))
}

/// Bytes that the delimiter and text of an optional URL part take (`?` and
/// the query, or `#` and the fragment); none where the part is absent.
pub open spec fn part_len(part: Option<Seq<char>>) -> nat {
    match part {
        Some(t) => 1 + utf8_len(t),
        None => 0,
    }
}

/// Whether the `url` crate writes `c` into a path as it is: a printable
/// ASCII character outside the path percent-encode set.
pub open spec fn path_char_kept(c: char) -> bool {
    &&& 0x21 <= (c as u32) <= 0x7e
    &&& c != '"' && c != '#' && c != '<' && c != '>' && c != '?' && c != '`' && c != '{' && c != '}'
}

/// Bytes that a path can take once the `url` crate has set it, before the
/// separators it may add: one for a character it keeps, three for each
/// UTF-8 byte of a character it percent-encodes.
pub open spec fn path_bytes_bound(s: Seq<char>) -> nat
    decreases s.len(),
{
    if s.len() == 0 {
        0
    } else {
        path_bytes_bound(s.drop_last()) + if path_char_kept(s.last()) {
            1
        } else {
            3 * utf8_width(s.last())
        }
    }
}

/// Whether form-urlencoding writes `c` as one byte: an ASCII letter or
/// digit, `*`, `-`, `.`, `_`, or a space (written `+`).
pub open spec fn form_char_plain(c: char) -> bool {
    ||| 'a' <= c <= 'z'
    ||| 'A' <= c <= 'Z'
    ||| '0' <= c <= '9'
    ||| c == '*' || c == '-' || c == '.' || c == '_' || c == ' '
}

/// Bytes that form-urlencoding writes for `s`: one for a plain character,
/// three for each UTF-8 byte of any other.
pub open spec fn form_len(s: Seq<char>) -> nat
    decreases s.len(),
{
    if s.len() == 0 {
        0
    } else {
        form_len(s.drop_last()) + if form_char_plain(s.last()) {
            1
        } else {
            3 * utf8_width(s.last())
        }
    }
}

/// Bytes of the query that form-urlencoding writes for the pairs: each pair
/// as name, `=`, value, with `&` between pairs.
pub open spec fn pairs_form_len(pairs: Seq<(Seq<char>, Seq<char>)>) -> nat
    decreases pairs.len(),
{
    if pairs.len() == 0 {
        0
    } else {
        pairs_form_len(pairs.drop_last()) + (if pairs.len() > 1 {
            1nat
        } else {
            0nat
        }) + form_len(pairs.last().0) + 1 + form_len(pairs.last().1)
    }
}

/// The most bytes a serialization can take here (strings never come near).
pub open spec fn serialization_limit() -> nat {
    0x3fff_ffff_ffff_ffff
}

/// Whether `Url::set_path(path)` on the URL with serialization `url` keeps
/// every byte offset that the call converts to `u32`, or adjusts in `u32`,
/// in range: the old end of the path, the new end of the path (the new
/// path's bytes, and up to two more for the slash or `%2F` the parser may
/// add), and the moved start of the fragment.
pub open spec fn set_path_fits(url: Seq<char>, path: Seq<char>) -> bool {
    let l = utf8_len(url);
    let q = part_len(spec_url_query(url));
    let f = part_len(spec_url_fragment(url));
    let p = utf8_len(spec_url_path(url));
    let new_end = l - q - f - p + path_bytes_bound(path) + 2;
    &&& l <= serialization_limit()
    &&& q + f + p <= l
    &&& l - q - f <= u32::MAX
    &&& new_end <= u32::MAX
    &&& spec_url_fragment(url) is Some ==> new_end + q <= u32::MAX
}

/// Whether replacing the query pairs of the URL with serialization `url` by
/// `pairs` keeps every byte offset that the calls convert to `u32` in range:
/// the start of a query that is added, and the start of the fragment put
/// back after the new query.
pub open spec fn replace_query_fits(url: Seq<char>, pairs: Seq<(Seq<char>, Seq<char>)>) -> bool {
    let l = utf8_len(url);
    let q = part_len(spec_url_query(url));
    let f = part_len(spec_url_fragment(url));
    &&& l <= serialization_limit()
    &&& q + f <= l
    &&& spec_url_query(url) is None ==> l - q - f <= u32::MAX
    &&& spec_url_fragment(url) is Some ==> l - q - f + 1 + pairs_form_len(pairs) <= u32::MAX
}

/// Calls `Url::parse`. Claims that the result is `Some` exactly where the
/// parse succeeds, and that its serialization (`Url::as_str`) is the function
/// `spec_url_parse` of the input.
#[verifier::external_body]
pub(crate) fn parse_url(input: &str) -> (r: Option<WebUrl>)
    ensures
        r is Some <==> spec_url_parse(input@) is Some,
        r matches Some(u) ==> spec_url_parse(input@) == Some(u@),
{
    match Url::parse(input) {
        Ok(url) => {
            let text = url.as_str().to_string();
            Some(WebUrl { url, text })
        },
        Err(_) => None,
    }
}

impl WebUrl {
    /// Parses a URL; `None` where the `url` crate rejects the input.
    pub fn parse(input: &str) -> (r: Option<WebUrl>)
        ensures
            r is Some <==> spec_url_parse(input@) is Some,
            r matches Some(u) ==> spec_url_parse(input@) == Some(u@),
    {
        parse_url(input)
    }

    /// Calls `Url::host_str`; claims the result is `spec_url_host` of the
    /// serialization.
    #[verifier::external_body]
    pub(crate) fn host_str(&self) -> (r: Option<String>)
        ensures
            r.deep_view() == spec_url_host(self@),
    {
        self.url.host_str().map(|h| h.to_string())
    }

    /// Calls `Url::path`; claims the result is `spec_url_path` of the
    /// serialization.
    #[verifier::external_body]
    pub(crate) fn path(&self) -> (r: String)
        ensures
            r@ == spec_url_path(self@),
    {
        self.url.path().to_string()
    }

    /// Calls `Url::set_path`; claims the new serialization is
    /// `spec_url_set_path` of the old one and the path. The call unwraps a
    /// conversion of byte offsets to `u32` (and adds to such offsets), so it
    /// panics where they do not fit; `set_path_fits` leaves those inputs out.
    #[verifier::external_body]
    pub(crate) fn set_path(&mut self, path: &str)
        requires
            set_path_fits(old(self)@, path@),
        ensures
            final(self)@ == spec_url_set_path(old(self)@, path@),
    {
        self.url.set_path(path);
        self.text = self.url.as_str().to_string();
    }

    /// Calls `Url::query_pairs` and collects the decoded pairs; claims they
    /// are `spec_url_query_pairs` of the serialization.
    #[verifier::external_body]
    pub(crate) fn query_pairs(&self) -> (r: Vec<(String, String)>)
        ensures
            pairs_view(r@) == spec_url_query_pairs(self@),
    {
        self.url.query_pairs().map(|(k, v)| (k.into_owned(), v.into_owned())).collect()
    }

    /// Calls `Url::set_query(None)`; claims the new serialization is
    /// `spec_url_set_query` of the old one and `None`. Removing the query only
    /// shortens the serialization, so no offset can leave the `u32` range.
    #[verifier::external_body]
    pub(crate) fn clear_query(&mut self)
        ensures
            final(self)@ == spec_url_set_query(old(self)@, None),
    {
        self.url.set_query(None);
        self.text = self.url.as_str().to_string();
    }

    /// Calls `Url::query_pairs_mut`, then `clear` and `extend_pairs` (which
    /// appends each pair in order, as `append_pair` does) on the serializer it
    /// returns; claims the new serialization is `spec_url_replace_query_pairs`
    /// of the old one and the pairs. The call and the serializer's drop unwrap
    /// conversions of byte offsets to `u32`; `replace_query_fits` leaves out
    /// the inputs on which they could fail.
    #[verifier::external_body]
    pub(crate) fn replace_query_pairs(&mut self, pairs: &Vec<(String, String)>)
        requires
            replace_query_fits(old(self)@, pairs_view(pairs@)),
        ensures
            final(self)@ == spec_url_replace_query_pairs(old(self)@, pairs_view(pairs@)),
    {
        self.url.query_pairs_mut().clear().extend_pairs(pairs.iter());
        self.text = self.url.as_str().to_string();
    }

    /// Calls `Url::query`; claims the result is `spec_url_query` of the
    /// serialization.
    #[verifier::external_body]
    pub(crate) fn query(&self) -> (r: Option<String>)
        ensures
            r.deep_view() == spec_url_query(self@),
    {
        self.url.query().map(|q| q.to_string())
    }

    /// Calls `Url::fragment`; claims the result is `spec_url_fragment` of the
    /// serialization.
    #[verifier::external_body]
    pub(crate) fn fragment(&self) -> (r: Option<String>)
        ensures
            r.deep_view() == spec_url_fragment(self@),
    {
        self.url.fragment().map(|f| f.to_string())
    }

    /// Calls `Url::set_fragment(None)`; claims the new serialization is
    /// `spec_url_set_fragment` of the old one and `None`. Removing the
    /// fragment converts no offset.
    #[verifier::external_body]
    pub(crate) fn clear_fragment(&mut self)
        ensures
            final(self)@ == spec_url_set_fragment(old(self)@, None),
    {
        self.url.set_fragment(None);
        self.text = self.url.as_str().to_string();
    }

    /// The URL's serialization.
    pub fn as_string(&self) -> (r: String)
        ensures
            r@ == self@,
    {
        self.text.clone()
    }
}

/// The UTF-8 length of `c`.
fn char_utf8_len(c: char) -> (r: u64)
    ensures
        r == utf8_width(c),
{
    let n = c as u32;
    if n < 0x80 {
        1
    } else if n < 0x800 {
        2
    } else if n < 0x10000 {
        3
    } else {
        4
    }
}

/// The bytes `path_bytes_bound` counts for `c`.
fn path_char_bytes(c: char) -> (r: u64)
    ensures
        r == if path_char_kept(c) {
            1
        } else {
            3 * utf8_width(c)
        },
{
    let n = c as u32;
    if 0x21 <= n && n <= 0x7e && c != '"' && c != '#' && c != '<' && c != '>' && c != '?' && c
        != '`' && c != '{' && c != '}' {
        1
    } else {
        3 * char_utf8_len(c)
    }
}

/// The bytes `form_len` counts for `c`.
fn form_char_bytes(c: char) -> (r: u64)
    ensures
        r == if form_char_plain(c) {
            1
        } else {
            3 * utf8_width(c)
        },
{
    let n = c as u32;
    if (0x61 <= n && n <= 0x7a) || (0x41 <= n && n <= 0x5a) || (0x30 <= n && n <= 0x39) || c == '*'
        || c == '-' || c == '.' || c == '_' || c == ' ' {
        1
    } else {
        3 * char_utf8_len(c)
    }
}

/// `path_bytes_bound(s@)` where it is at most `limit`; `None` beyond it.
fn path_bytes_upto(s: &str, limit: u64) -> (r: Option<u64>)
    ensures
        match r {
            Some(n) => n == path_bytes_bound(s@) && n <= limit,
            None => path_bytes_bound(s@) > limit,
        },
{
    let mut total: u64 = 0;
    let mut over = false;
    for c in it: s.chars()
        invariant
            it.seq() == s@,
            !over ==> total == path_bytes_bound(s@.take(it.index())) && total <= limit,
            over ==> path_bytes_bound(s@.take(it.index())) > limit,
    {
        proof {
            assert(s@.take(it.index() + 1).drop_last() =~= s@.take(it.index()));
        }
        if !over {
            let w = path_char_bytes(c);
            if w > limit - total {
                over = true;
            } else {
                total = total + w;
            }
        }
    }
    proof {
        assert(s@.take(s@.len() as int) =~= s@);
    }
    if over {
        None
    } else {
        Some(total)
    }
}

/// `form_len(s@)` where it is at most `limit`; `None` beyond it.
fn form_len_upto(s: &str, limit: u64) -> (r: Option<u64>)
    ensures
        match r {
            Some(n) => n == form_len(s@) && n <= limit,
            None => form_len(s@) > limit,
        },
{
    let mut total: u64 = 0;
    let mut over = false;
    for c in it: s.chars()
        invariant
            it.seq() == s@,
            !over ==> total == form_len(s@.take(it.index())) && total <= limit,
            over ==> form_len(s@.take(it.index())) > limit,
    {
        proof {
            assert(s@.take(it.index() + 1).drop_last() =~= s@.take(it.index()));
        }
        if !over {
            let w = form_char_bytes(c);
            if w > limit - total {
                over = true;
            } else {
                total = total + w;
            }
        }
    }
    proof {
        assert(s@.take(s@.len() as int) =~= s@);
    }
    if over {
        None
    } else {
        Some(total)
    }
}

/// `part_len` of an optional part where its text is at most `limit` bytes;
/// `None` beyond it.
fn part_len_upto(part: &Option<String>, limit: u64) -> (r: Option<u64>)
    requires
        limit < u64::MAX,
    ensures
        match r {
            Some(n) => n == part_len(part.deep_view()) && n <= limit + 1,
            None => part_len(part.deep_view()) > limit + 1,
        },
{
    match part {
        None => Some(0),
        Some(t) => match utf8_len_upto(t.as_str(), limit) {
            Some(n) => Some(n + 1),
            None => None,
        },
    }
}

proof fn lemma_pairs_form_len_prefix(ps: Seq<(Seq<char>, Seq<char>)>, n: int)
    requires
        0 <= n <= ps.len(),
    ensures
        pairs_form_len(ps.take(n)) <= pairs_form_len(ps),
    decreases ps.len() - n,
{
    if n < ps.len() {
        lemma_pairs_form_len_prefix(ps, n + 1);
        assert(ps.take(n + 1).drop_last() =~= ps.take(n));
    } else {
        assert(ps.take(n) =~= ps);
    }
}

impl WebUrl {
    /// Whether `set_path(path)` may be called: `set_path_fits`.
    pub(crate) fn can_set_path(&self, path: &str) -> (r: bool)
        ensures
            r == set_path_fits(self@, path@),
    {
        let big: u64 = 0x3fff_ffff_ffff_ffff;
        let max: u64 = 0xffff_ffff;
        let whole = self.as_string();
        let l = match utf8_len_upto(whole.as_str(), big) {
            Some(l) => l,
            None => return false,
        };
        let q = match part_len_upto(&self.query(), l) {
            Some(q) => q,
            None => return false,
        };
        let f = match part_len_upto(&self.fragment(), l) {
            Some(f) => f,
            None => return false,
        };
        let p = match utf8_len_upto(self.path().as_str(), l) {
            Some(p) => p,
            None => return false,
        };
        if q + f + p > l || l - q - f > max {
            return false;
        }
        let b = match path_bytes_upto(path, max) {
            Some(b) => b,
            None => return false,
        };
        let new_end = l - q - f - p + b + 2;
        if new_end > max {
            return false;
        }
        !(self.fragment().is_some() && new_end + q > max)
    }

    /// Whether `replace_query_pairs(pairs)` may be called:
    /// `replace_query_fits`.
    pub(crate) fn can_replace_query_pairs(&self, pairs: &Vec<(String, String)>) -> (r: bool)
        ensures
            r == replace_query_fits(self@, pairs_view(pairs@)),
    {
        let ghost ps = pairs_view(pairs@);
        let big: u64 = 0x3fff_ffff_ffff_ffff;
        let max: u64 = 0xffff_ffff;
        let whole = self.as_string();
        let l = match utf8_len_upto(whole.as_str(), big) {
            Some(l) => l,
            None => return false,
        };
        let query = self.query();
        let q = match part_len_upto(&query, l) {
            Some(q) => q,
            None => return false,
        };
        let f = match part_len_upto(&self.fragment(), l) {
            Some(f) => f,
            None => return false,
        };
        if q + f > l {
            return false;
        }
        let before = l - q - f;
        if query.is_none() && before > max {
            return false;
        }
        if self.fragment().is_none() {
            return true;
        }
        if before + 1 > max {
            proof {
                lemma_pairs_form_len_prefix(ps, 0);
            }
            return false;
        }
        let mut total: u64 = before + 1;
        let mut i: usize = 0;
        while i < pairs.len()
            invariant
                ps == pairs_view(pairs@),
                max == u32::MAX,
                replace_query_fits(self@, ps) <==> before + 1 + pairs_form_len(ps) <= max,
                i <= pairs@.len(),
                total == before + 1 + pairs_form_len(ps.take(i as int)),
                total <= max,
            decreases pairs@.len() - i,
        {
            proof {
                assert(ps.take(i + 1).drop_last() =~= ps.take(i as int));
                assert(ps[i as int] == (pairs@[i as int].0@, pairs@[i as int].1@));
                assert(ps.take(i + 1).last() == ps[i as int]);
                assert(pairs_form_len(ps.take(i + 1)) == pairs_form_len(ps.take(i as int)) + (if i
                    > 0 {
                    1nat
                } else {
                    0nat
                }) + form_len(ps[i as int].0) + 1 + form_len(ps[i as int].1));
            }
            let k = match form_len_upto(pairs[i].0.as_str(), max) {
                Some(k) => k,
                None => {
                    proof {
                        lemma_pairs_form_len_prefix(ps, i + 1);
                    }
                    return false;
                },
            };
            let v = match form_len_upto(pairs[i].1.as_str(), max) {
                Some(v) => v,
                None => {
                    proof {
                        lemma_pairs_form_len_prefix(ps, i + 1);
                    }
                    return false;
                },
            };
            let sep: u64 = if i > 0 {
                1
            } else {
                0
            };
            let add = sep + k + 1 + v;
            if add > max - total {
                proof {
                    lemma_pairs_form_len_prefix(ps, i + 1);
                }
                return false;
            }
            total = total + add;
            i = i + 1;
        }
        proof {
            assert(ps.take(pairs@.len() as int) =~= ps);
        }
        true
    }
}

} // verus!
