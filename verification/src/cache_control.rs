//! The `no-cache` directive of a `Cache-Control` header, found as the pattern
//! `/(?:^|,)\s*?no-cache\s*?(?:,|$)/` (case-sensitive) finds it.
use vstd::prelude::*;

verus! {

/// Whitespace as the `\s` class of regular expressions (without Unicode mode) has it.
pub open spec fn spec_is_js_whitespace(c: char) -> bool {
    ||| c == '\u{0009}'
    ||| c == '\u{000A}'
    ||| c == '\u{000B}'
    ||| c == '\u{000C}'
    ||| c == '\u{000D}'
    ||| c == '\u{0020}'
    ||| c == '\u{00A0}'
    ||| c == '\u{1680}'
    ||| '\u{2000}' <= c <= '\u{200A}'
    ||| c == '\u{2028}'
    ||| c == '\u{2029}'
    ||| c == '\u{202F}'
    ||| c == '\u{205F}'
    ||| c == '\u{3000}'
    ||| c == '\u{FEFF}'
}

/// The directive `no-cache`.
pub open spec fn no_cache_token() -> Seq<char> {
    seq!['n', 'o', '-', 'c', 'a', 'c', 'h', 'e']
}

/// Walking left from position `i` of `s` over whitespace reaches the start of `s` or a
/// comma.
pub open spec fn bounded_left(s: Seq<char>, i: int) -> bool
    decreases i,
{
    if i <= 0 {
        true
    } else if spec_is_js_whitespace(s[i - 1]) {
        bounded_left(s, i - 1)
    } else {
        s[i - 1] == ','
    }
}

/// Walking right from position `j` of `s` over whitespace reaches the end of `s` or a
/// comma.
pub open spec fn bounded_right(s: Seq<char>, j: int) -> bool
    decreases s.len() - j,
{
    if j >= s.len() {
        true
    } else if spec_is_js_whitespace(s[j]) {
        bounded_right(s, j + 1)
    } else {
        s[j] == ','
    }
}

/// `no-cache` occurs at position `i` of `s`, bounded on each side — past any whitespace —
/// by a comma or the end of `s`.
pub open spec fn no_cache_at(s: Seq<char>, i: int) -> bool {
    &&& 0 <= i
    &&& i + 8 <= s.len()
    &&& s.subrange(i, i + 8) == no_cache_token()
    &&& bounded_left(s, i)
    &&& bounded_right(s, i + 8)
}

/// `s` holds a bounded `no-cache` directive.
pub open spec fn spec_has_no_cache(s: Seq<char>) -> bool {
    exists|i: int| no_cache_at(s, i)
}

/// Position `p` of `s` starts the text or follows a comma.
pub open spec fn at_left_edge(s: Seq<char>, p: int) -> bool {
    p == 0 || s[p - 1] == ','
}

/// Position `q` of `s` ends the text or holds a comma.
pub open spec fn at_right_edge(s: Seq<char>, q: int) -> bool {
    q == s.len() || s[q] == ','
}

/// Every character of `s` in `a..b` is whitespace.
pub open spec fn all_whitespace(s: Seq<char>, a: int, b: int) -> bool {
    forall|k: int| a <= k < b ==> spec_is_js_whitespace(#[trigger] s[k])
}

/// `s` matches `(?:^|,)\s*?no-cache\s*?(?:,|$)` somewhere: a start of text or comma,
/// whitespace, `no-cache`, whitespace, then a comma or the end of text.
pub open spec fn matches_no_cache_pattern(s: Seq<char>) -> bool {
    exists|p: int, i: int, q: int|
        #![trigger at_left_edge(s, p), s.subrange(i, i + 8), at_right_edge(s, q)]
        0 <= p <= i && i + 8 <= q <= s.len() && at_left_edge(s, p) && all_whitespace(s, p, i)
            && s.subrange(i, i + 8) == no_cache_token() && all_whitespace(s, i + 8, q)
            && at_right_edge(s, q)
}

proof fn lemma_bounded_left(s: Seq<char>, i: int)
    requires
        0 <= i <= s.len(),
    ensures
        bounded_left(s, i) <==> exists|p: int|
            0 <= p <= i && #[trigger] at_left_edge(s, p) && all_whitespace(s, p, i),
    decreases i,
{
    if i > 0 {
        lemma_bounded_left(s, i - 1);
        if bounded_left(s, i) {
            if spec_is_js_whitespace(s[i - 1]) {
                let p = choose|p: int|
                    0 <= p <= i - 1 && #[trigger] at_left_edge(s, p) && all_whitespace(s, p, i - 1);
                assert(all_whitespace(s, p, i));
            } else {
                assert(at_left_edge(s, i) && all_whitespace(s, i, i));
            }
        } else {
            if exists|p: int| 0 <= p <= i && #[trigger] at_left_edge(s, p) && all_whitespace(s, p, i) {
                let p = choose|p: int|
                    0 <= p <= i && #[trigger] at_left_edge(s, p) && all_whitespace(s, p, i);
                if p < i {
                    assert(spec_is_js_whitespace(s[i - 1]));
                    assert(all_whitespace(s, p, i - 1));
                } else {
                    assert(s[i - 1] == ',');
                }
            }
        }
    } else {
        assert(at_left_edge(s, 0) && all_whitespace(s, 0, 0));
    }
}

proof fn lemma_bounded_right(s: Seq<char>, j: int)
    requires
        0 <= j <= s.len(),
    ensures
        bounded_right(s, j) <==> exists|q: int|
            j <= q <= s.len() && #[trigger] at_right_edge(s, q) && all_whitespace(s, j, q),
    decreases s.len() - j,
{
    if j < s.len() {
        lemma_bounded_right(s, j + 1);
        if bounded_right(s, j) {
            if spec_is_js_whitespace(s[j]) {
                let q = choose|q: int|
                    j + 1 <= q <= s.len() && #[trigger] at_right_edge(s, q) && all_whitespace(s, j + 1, q);
                assert(all_whitespace(s, j, q));
            } else {
                assert(at_right_edge(s, j) && all_whitespace(s, j, j));
            }
        } else {
            if exists|q: int| j <= q <= s.len() && #[trigger] at_right_edge(s, q) && all_whitespace(s, j, q) {
                let q = choose|q: int|
                    j <= q <= s.len() && #[trigger] at_right_edge(s, q) && all_whitespace(s, j, q);
                if q > j {
                    assert(spec_is_js_whitespace(s[j]));
                    assert(all_whitespace(s, j + 1, q));
                } else {
                    assert(s[j] == ',');
                }
            }
        }
    } else {
        assert(at_right_edge(s, j) && all_whitespace(s, j, j));
    }
}

/// The `no-cache` search is the regular expression `(?:^|,)\s*?no-cache\s*?(?:,|$)`
/// (case-sensitive): a bounded directive occurs exactly where the pattern matches.
pub proof fn law_no_cache_is_the_pattern(s: Seq<char>)
    ensures
        spec_has_no_cache(s) <==> matches_no_cache_pattern(s),
{
    if spec_has_no_cache(s) {
        let i = choose|i: int| no_cache_at(s, i);
        lemma_bounded_left(s, i);
        lemma_bounded_right(s, i + 8);
        let p = choose|p: int| 0 <= p <= i && #[trigger] at_left_edge(s, p) && all_whitespace(s, p, i);
        let q = choose|q: int|
            i + 8 <= q <= s.len() && #[trigger] at_right_edge(s, q) && all_whitespace(s, i + 8, q);
        assert(at_left_edge(s, p) && at_right_edge(s, q) && s.subrange(i, i + 8) == no_cache_token());
    }
    if matches_no_cache_pattern(s) {
        let (p, i, q) = choose|p: int, i: int, q: int|
            #![trigger at_left_edge(s, p), s.subrange(i, i + 8), at_right_edge(s, q)]
            0 <= p <= i && i + 8 <= q <= s.len() && at_left_edge(s, p) && all_whitespace(s, p, i)
                && s.subrange(i, i + 8) == no_cache_token() && all_whitespace(s, i + 8, q)
                && at_right_edge(s, q);
        lemma_bounded_left(s, i);
        lemma_bounded_right(s, i + 8);
        assert(no_cache_at(s, i));
    }
}

/// Whether `c` is whitespace in the sense of `spec_is_js_whitespace`.
pub fn is_js_whitespace(c: char) -> (r: bool)
    ensures
        r == spec_is_js_whitespace(c),
{
    c == '\u{0009}' || c == '\u{000A}' || c == '\u{000B}' || c == '\u{000C}' || c == '\u{000D}'
        || c == '\u{0020}' || c == '\u{00A0}' || c == '\u{1680}' || ('\u{2000}' <= c && c
        <= '\u{200A}') || c == '\u{2028}' || c == '\u{2029}' || c == '\u{202F}' || c
        == '\u{205F}' || c == '\u{3000}' || c == '\u{FEFF}'
}

/// Whether the eight characters of `s` from `i` spell `no-cache`.
fn token_at(s: &[char], i: usize) -> (r: bool)
    requires
        i + 8 <= s@.len(),
    ensures
        r == (s@.subrange(i as int, i + 8) == no_cache_token()),
{
    let r = s[i] == 'n' && s[i + 1] == 'o' && s[i + 2] == '-' && s[i + 3] == 'c' && s[i + 4]
        == 'a' && s[i + 5] == 'c' && s[i + 6] == 'h' && s[i + 7] == 'e';
    proof {
        let t = s@.subrange(i as int, i + 8);
        if r {
            assert(t =~= no_cache_token());
        } else if t == no_cache_token() {
            assert(t[0] == 'n' && t[1] == 'o' && t[2] == '-' && t[3] == 'c');
            assert(t[4] == 'a' && t[5] == 'c' && t[6] == 'h' && t[7] == 'e');
        }
    }
    r
}

/// Whether walking left from `i` over whitespace reaches the start or a comma.
fn left_bounded(s: &[char], i: usize) -> (r: bool)
    requires
        i <= s@.len(),
    ensures
        r == bounded_left(s@, i as int),
{
    let mut k = i;
    while k > 0 && is_js_whitespace(s[k - 1])
        invariant
            k <= i <= s@.len(),
            bounded_left(s@, i as int) == bounded_left(s@, k as int),
        decreases k,
    {
        k = k - 1;
    }
    k == 0 || s[k - 1] == ','
}

/// Whether walking right from `j` over whitespace reaches the end or a comma.
fn right_bounded(s: &[char], j: usize) -> (r: bool)
    requires
        j <= s@.len(),
    ensures
        r == bounded_right(s@, j as int),
{
    let mut k = j;
    while k < s.len() && is_js_whitespace(s[k])
        invariant
            j <= k <= s@.len(),
            bounded_right(s@, j as int) == bounded_right(s@, k as int),
        decreases s@.len() - k,
    {
        k = k + 1;
    }
    k == s.len() || s[k] == ','
}

/// Replicates `/(?:^|,)\s*?no-cache\s*?(?:,|$)/` (case-sensitive) without a regex engine.
///
/// A `no-cache` token qualifies when it is bounded — on each side, after skipping any
/// `\s` whitespace — by a comma or the string boundary.
pub fn has_no_cache(cc: &[char]) -> (r: bool)
    ensures
        r == spec_has_no_cache(cc@),
{
    let n = cc.len();
    if n < 8 {
        return false;
    }
    let mut start: usize = 0;
    while start <= n - 8
        invariant
            n == cc@.len() >= 8,
            start <= n - 7,
            forall|i: int| 0 <= i < start ==> !no_cache_at(cc@, i),
        decreases n - start,
    {
        if token_at(cc, start) && left_bounded(cc, start) && right_bounded(cc, start + 8) {
            assert(no_cache_at(cc@, start as int));
            return true;
        }
        start = start + 1;
    }
    false
}

} // verus!
