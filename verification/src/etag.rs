//! Entity tags: weak/strong comparison and `If-None-Match` lists.
use vstd::prelude::*;

use crate::text::{chars_equal, lemma_split_by_join, lemma_split_by_no_sep, span_slice,
    span_text, split_by, split_spans, spec_trim_spaces, trim_spaces};

verus! {

/// The weak-validator prefix `W/`.
pub open spec fn weak_prefix() -> Seq<char> {
    seq!['W', '/']
}

/// `tag` from an `If-None-Match` list matches `etag` under weak comparison:
/// `tag == etag`, `tag == "W/" + etag`, or `"W/" + tag == etag`.
pub open spec fn spec_etag_matches(tag: Seq<char>, etag: Seq<char>) -> bool {
    ||| tag == etag
    ||| tag == weak_prefix() + etag
    ||| etag == weak_prefix() + tag
}

/// Some entry of the comma-separated list `list`, trimmed of spaces, matches `etag`.
pub open spec fn spec_list_matches(list: Seq<char>, etag: Seq<char>) -> bool {
    exists|k: int|
        0 <= k < split_by(list, ',').len() && spec_etag_matches(
            spec_trim_spaces(#[trigger] split_by(list, ',')[k]),
            etag,
        )
}

/// Weak comparison is symmetric: `a` matches `b` exactly when `b` matches `a`.
pub proof fn law_etag_comparison_is_symmetric(a: Seq<char>, b: Seq<char>)
    ensures
        spec_etag_matches(a, b) == spec_etag_matches(b, a),
{
}

/// Every tag matches itself, and its weak form `W/` + tag in either order.
pub proof fn law_etag_matches_itself(t: Seq<char>)
    ensures
        spec_etag_matches(t, t),
        spec_etag_matches(seq!['W', '/'] + t, t),
        spec_etag_matches(t, seq!['W', '/'] + t),
{
}

/// Tags match only as equals or as weak and strong forms of one tag.
pub proof fn law_etag_matches_only_weak_forms(a: Seq<char>, b: Seq<char>)
    requires
        spec_etag_matches(a, b),
    ensures
        a == b || a == seq!['W', '/'] + b || b == seq!['W', '/'] + a,
{
}

/// A list joined with a comma matches exactly when one of its two parts does: the list
/// matches when any of its entries does, wherever that entry stands.
pub proof fn law_list_matches_any_part(a: Seq<char>, b: Seq<char>, etag: Seq<char>)
    ensures
        spec_list_matches(a + (seq![','] + b), etag) == (spec_list_matches(a, etag)
            || spec_list_matches(b, etag)),
{
    lemma_split_by_join(a, ',', b);
    let pa = split_by(a, ',');
    let pb = split_by(b, ',');
    let p = split_by(a + (seq![','] + b), ',');
    assert(p == pa + pb);
    if spec_list_matches(a + (seq![','] + b), etag) {
        let k = choose|k: int|
            0 <= k < p.len() && spec_etag_matches(spec_trim_spaces(#[trigger] p[k]), etag);
        if k < pa.len() {
            assert(p[k] == pa[k]);
        } else {
            assert(p[k] == pb[k - pa.len()]);
        }
    }
    if spec_list_matches(a, etag) {
        let k = choose|k: int|
            0 <= k < pa.len() && spec_etag_matches(spec_trim_spaces(#[trigger] pa[k]), etag);
        assert(p[k] == pa[k]);
    }
    if spec_list_matches(b, etag) {
        let k = choose|k: int|
            0 <= k < pb.len() && spec_etag_matches(spec_trim_spaces(#[trigger] pb[k]), etag);
        assert(p[k + pa.len()] == pb[k]);
    }
}

/// A list of one entry (no comma) matches exactly when that entry, trimmed of spaces,
/// matches.
pub proof fn law_single_entry_list(entry: Seq<char>, etag: Seq<char>)
    requires
        !entry.contains(','),
    ensures
        spec_list_matches(entry, etag) == spec_etag_matches(spec_trim_spaces(entry), etag),
{
    lemma_split_by_no_sep(entry, ',');
    let p = split_by(entry, ',');
    assert(p[0] == entry);
}

/// Whether `weak` is `W/` followed by `strong`.
fn is_weak_form(weak: &[char], strong: &[char]) -> (r: bool)
    ensures
        r == (weak@ == weak_prefix() + strong@),
{
    let n = strong.len();
    if weak.len() < 2 || weak.len() - 2 != n || weak[0] != 'W' || weak[1] != '/' {
        proof {
            if weak@ == weak_prefix() + strong@ {
                assert(weak@[0] == 'W' && weak@[1] == '/');
            }
        }
        return false;
    }
    let mut i: usize = 0;
    while i < n
        invariant
            n == strong@.len(),
            weak@.len() == n + 2,
            weak.len() == n + 2,
            i <= n,
            forall|j: int| 0 <= j < i ==> weak@[j + 2] == strong@[j],
        decreases n - i,
    {
        if weak[i + 2] != strong[i] {
            proof {
                assert((weak_prefix() + strong@)[i + 2] == strong@[i as int]);
            }
            return false;
        }
        i = i + 1;
    }
    assert(weak@ =~= weak_prefix() + strong@) by {
        assert forall|j: int| 0 <= j < weak@.len() implies weak@[j] == (weak_prefix()
            + strong@)[j] by {
            if j >= 2 {
                assert(weak@[(j - 2) + 2] == strong@[j - 2]);
            }
        }
    }
    true
}

/// Whether `tag` from an `If-None-Match` list matches `etag`, with weak/strong comparison:
/// `tag == etag`, `tag == "W/" + etag`, or `"W/" + tag == etag`.
pub fn etag_matches(tag: &[char], etag: &[char]) -> (r: bool)
    ensures
        r == spec_etag_matches(tag@, etag@),
{
    chars_equal(tag, etag) || is_weak_form(tag, etag) || is_weak_form(etag, tag)
}

/// Whether some entry of the comma-separated `list`, trimmed of spaces, matches `etag`.
pub fn list_matches(list: &[char], etag: &[char]) -> (r: bool)
    ensures
        r == spec_list_matches(list@, etag@),
{
    let spans = split_spans(list, ',');
    let ghost pieces = split_by(list@, ',');
    let mut k: usize = 0;
    while k < spans.len()
        invariant
            k <= spans@.len() == pieces.len(),
            pieces == split_by(list@, ','),
            forall|i: int| 0 <= i < spans@.len() ==> (#[trigger] spans@[i]).0 <= spans@[i].1
                <= list@.len(),
            forall|i: int| 0 <= i < spans@.len() ==> #[trigger] pieces[i] == span_text(list@, spans@[i]),
            forall|i: int| 0 <= i < k ==> !spec_etag_matches(spec_trim_spaces(#[trigger] pieces[i]), etag@),
        decreases spans@.len() - k,
    {
        assert(pieces[k as int] == span_text(list@, spans@[k as int]));
        if etag_matches(trim_spaces(span_slice(list, spans[k])), etag) {
            return true;
        }
        k = k + 1;
    }
    false
}

} // verus!
