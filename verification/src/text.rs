//! Character-level building blocks: header text as a sequence of `char`s, the pieces
//! that `str::split` yields, whitespace-separated words and space trimming.
use vstd::prelude::*;
use vstd::slice::slice_subrange;

verus! {

broadcast use vstd::string::group_string_axioms;

/// The characters of `s`, in order.
pub(crate) fn chars_of(s: &str) -> (v: Vec<char>)
    ensures
        v@ == s@,
{
    let mut v: Vec<char> = Vec::new();
    for c in it: s.chars()
        invariant
            it.seq() == s@,
            v@ == it.seq().take(it.index() as int),
    {
        v.push(c);
    }
    v
}

/// The pieces of `s` between the occurrences of `sep`, exactly as `str::split` yields
/// them: `n` separators give `n + 1` pieces, some of which may be empty.
pub open spec fn split_by(s: Seq<char>, sep: char) -> Seq<Seq<char>>
    decreases s.len(),
{
    if s.len() == 0 {
        seq![Seq::<char>::empty()]
    } else {
        let pieces = split_by(s.drop_last(), sep);
        if s.last() == sep {
            pieces.push(Seq::<char>::empty())
        } else {
            pieces.update(pieces.len() - 1, pieces.last().push(s.last()))
        }
    }
}

/// The non-empty members of `pieces`, in order.
pub open spec fn non_empty(pieces: Seq<Seq<char>>) -> Seq<Seq<char>>
    decreases pieces.len(),
{
    if pieces.len() == 0 {
        pieces
    } else {
        let kept = non_empty(pieces.drop_last());
        if pieces.last().len() > 0 {
            kept.push(pieces.last())
        } else {
            kept
        }
    }
}

/// The words of `s`: its pieces between spaces, with empty pieces dropped
/// (`s.split(' ').filter(|p| !p.is_empty())`).
pub open spec fn words(s: Seq<char>) -> Seq<Seq<char>> {
    non_empty(split_by(s, ' '))
}

/// `s` without its leading and trailing ASCII spaces (`0x20` only).
pub open spec fn spec_trim_spaces(s: Seq<char>) -> Seq<char>
    decreases s.len(),
{
    if s.len() > 0 && s[0] == ' ' {
        spec_trim_spaces(s.drop_first())
    } else if s.len() > 0 && s.last() == ' ' {
        spec_trim_spaces(s.drop_last())
    } else {
        s
    }
}

/// The position of the first `c` in `s`, if there is one.
pub open spec fn first_index_of(s: Seq<char>, c: char) -> Option<int>
    decreases s.len(),
{
    if s.len() == 0 {
        None
    } else if s[0] == c {
        Some(0)
    } else {
        match first_index_of(s.drop_first(), c) {
            Some(i) => Some(i + 1),
            None => None,
        }
    }
}

/// `first_index_of` from a scan: `i` is the first position holding `c`, or `s.len()`
/// where none does.
pub proof fn lemma_first_index_of(s: Seq<char>, c: char, i: int)
    requires
        0 <= i <= s.len(),
        forall|j: int| 0 <= j < i ==> s[j] != c,
        i < s.len() ==> s[i] == c,
    ensures
        first_index_of(s, c) == (if i < s.len() {
            Some(i)
        } else {
            None
        }),
    decreases i,
{
    if i > 0 {
        let t = s.drop_first();
        assert forall|j: int| 0 <= j < i - 1 implies t[j] != c by {
            assert(t[j] == s[j + 1]);
        }
        if i < s.len() {
            assert(t[i - 1] == s[i]);
        }
        lemma_first_index_of(t, c, i - 1);
    }
}

/// The text of `s` that a span `(start, end)` covers.
pub open spec fn span_text(s: Seq<char>, span: (usize, usize)) -> Seq<char> {
    s.subrange(span.0 as int, span.1 as int)
}

/// Every span lies within `s`.
pub open spec fn spans_within(s: Seq<char>, spans: Seq<(usize, usize)>) -> bool {
    forall|k: int| 0 <= k < spans.len() ==> (#[trigger] spans[k]).0 <= spans[k].1 <= s.len()
}

/// The texts that `spans` cover in `s`.
pub open spec fn spans_text(s: Seq<char>, spans: Seq<(usize, usize)>) -> Seq<Seq<char>> {
    Seq::new(spans.len(), |k: int| span_text(s, spans[k]))
}

proof fn lemma_split_by_non_empty(s: Seq<char>, sep: char)
    ensures
        split_by(s, sep).len() >= 1,
    decreases s.len(),
{
    if s.len() > 0 {
        lemma_split_by_non_empty(s.drop_last(), sep);
    }
}

/// One step of `split_by` from the left end of a prefix: the pieces of `s.take(i + 1)`
/// from those of `s.take(i)`.
proof fn lemma_split_by_step(s: Seq<char>, sep: char, i: int)
    requires
        0 <= i < s.len(),
    ensures
        split_by(s.take(i + 1), sep) == ({
            let pieces = split_by(s.take(i), sep);
            if s[i] == sep {
                pieces.push(Seq::<char>::empty())
            } else {
                pieces.update(pieces.len() - 1, pieces.last().push(s[i]))
            }
        }),
{
    assert(s.take(i + 1).drop_last() =~= s.take(i));
}

/// Text without the separator is a single piece.
pub proof fn lemma_split_by_no_sep(s: Seq<char>, sep: char)
    requires
        !s.contains(sep),
    ensures
        split_by(s, sep) == seq![s],
    decreases s.len(),
{
    if s.len() > 0 {
        let t = s.drop_last();
        assert(!t.contains(sep)) by {
            if t.contains(sep) {
                let i = choose|i: int| 0 <= i < t.len() && t[i] == sep;
                assert(s[i] == sep);
            }
        }
        lemma_split_by_no_sep(t, sep);
        assert(s[s.len() - 1] != sep);
        assert(t.push(s.last()) =~= s);
        assert(seq![t].update(0, t.push(s.last())) =~= seq![s]);
    } else {
        assert(s =~= Seq::<char>::empty());
    }
}

/// The pieces of `a + b`: those of `a` and of `b`, with the last piece of `a` joined to
/// the first piece of `b`.
pub proof fn lemma_split_by_concat(a: Seq<char>, b: Seq<char>, sep: char)
    ensures
        split_by(a + b, sep) == split_by(a, sep).drop_last() + seq![
            split_by(a, sep).last() + split_by(b, sep)[0],
        ] + split_by(b, sep).drop_first(),
    decreases b.len(),
{
    let p = split_by(a, sep);
    lemma_split_by_non_empty(a, sep);
    if b.len() == 0 {
        assert(a + b =~= a);
        assert(split_by(b, sep) == seq![Seq::<char>::empty()]);
        assert(p.last() + Seq::<char>::empty() =~= p.last());
        assert(p.drop_last() + seq![p.last()] + seq![Seq::<char>::empty()].drop_first() =~= p);
    } else {
        let b1 = b.drop_last();
        let c = b.last();
        lemma_split_by_concat(a, b1, sep);
        lemma_split_by_non_empty(b1, sep);
        let q1 = split_by(b1, sep);
        let q = split_by(b, sep);
        let r1 = split_by(a + b1, sep);
        assert((a + b).drop_last() =~= a + b1);
        assert((a + b).last() == c);
        assert(r1 == p.drop_last() + seq![p.last() + q1[0]] + q1.drop_first());
        if c == sep {
            assert(q == q1.push(Seq::<char>::empty()));
            assert(q[0] == q1[0]);
            assert(q.drop_first() =~= q1.drop_first().push(Seq::<char>::empty()));
            assert(r1.push(Seq::<char>::empty()) =~= p.drop_last() + seq![p.last() + q[0]]
                + q.drop_first());
        } else {
            assert(q == q1.update(q1.len() - 1, q1.last().push(c)));
            if q1.len() == 1 {
                assert(q[0] == q1[0].push(c));
                assert((p.last() + q1[0]).push(c) =~= p.last() + q[0]);
                assert(r1.update(r1.len() - 1, r1.last().push(c)) =~= p.drop_last() + seq![
                    p.last() + q[0],
                ] + q.drop_first());
            } else {
                assert(q[0] == q1[0]);
                assert(q.drop_first() =~= q1.drop_first().update(
                    q1.len() - 2,
                    q1.last().push(c),
                ));
                assert(r1.update(r1.len() - 1, r1.last().push(c)) =~= p.drop_last() + seq![
                    p.last() + q[0],
                ] + q.drop_first());
            }
        }
    }
}

/// A piece without the separator, the separator, then `rest`: that piece first, then the
/// pieces of `rest`.
pub proof fn lemma_split_by_cons(w: Seq<char>, sep: char, rest: Seq<char>)
    requires
        !w.contains(sep),
    ensures
        split_by(w + (seq![sep] + rest), sep) == seq![w] + split_by(rest, sep),
{
    let a = w + seq![sep];
    assert(w + (seq![sep] + rest) =~= a + rest);
    lemma_split_by_no_sep(w, sep);
    assert(a.drop_last() =~= w);
    assert(split_by(a, sep) == seq![w].push(Seq::<char>::empty()));
    lemma_split_by_concat(a, rest, sep);
    lemma_split_by_non_empty(rest, sep);
    let q = split_by(rest, sep);
    assert(Seq::<char>::empty() + q[0] =~= q[0]);
    assert(seq![w] + seq![q[0]] + q.drop_first() =~= seq![w] + q);
}

/// Dropping empty pieces distributes over concatenation.
pub proof fn lemma_non_empty_concat(x: Seq<Seq<char>>, y: Seq<Seq<char>>)
    ensures
        non_empty(x + y) == non_empty(x) + non_empty(y),
    decreases y.len(),
{
    if y.len() == 0 {
        assert(x + y =~= x);
        assert(non_empty(x) + non_empty(y) =~= non_empty(x));
    } else {
        lemma_non_empty_concat(x, y.drop_last());
        assert((x + y).drop_last() =~= x + y.drop_last());
        assert((x + y).last() == y.last());
        if y.last().len() > 0 {
            assert((non_empty(x) + non_empty(y.drop_last())).push(y.last()) =~= non_empty(x)
                + non_empty(y.drop_last()).push(y.last()));
        }
    }
}

/// Joining two texts with the separator joins their pieces.
pub proof fn lemma_split_by_join(a: Seq<char>, sep: char, b: Seq<char>)
    ensures
        split_by(a + (seq![sep] + b), sep) == split_by(a, sep) + split_by(b, sep),
{
    let a1 = a + seq![sep];
    assert(a + (seq![sep] + b) =~= a1 + b);
    assert(a1.drop_last() =~= a);
    assert(split_by(a1, sep) == split_by(a, sep).push(Seq::<char>::empty()));
    lemma_split_by_concat(a1, b, sep);
    lemma_split_by_non_empty(b, sep);
    let q = split_by(b, sep);
    assert(Seq::<char>::empty() + q[0] =~= q[0]);
    assert(split_by(a, sep).push(Seq::<char>::empty()).drop_last() =~= split_by(a, sep));
    assert(split_by(a, sep) + seq![q[0]] + q.drop_first() =~= split_by(a, sep) + q);
}

/// Joining two texts with a space joins their words.
pub proof fn lemma_words_join(a: Seq<char>, b: Seq<char>)
    ensures
        words(a + (seq![' '] + b)) == words(a) + words(b),
{
    lemma_split_by_join(a, ' ', b);
    lemma_non_empty_concat(split_by(a, ' '), split_by(b, ' '));
}

/// A single piece is kept exactly when it is not empty.
proof fn lemma_non_empty_single(w: Seq<char>)
    ensures
        non_empty(seq![w]) == (if w.len() > 0 {
            seq![w]
        } else {
            Seq::<Seq<char>>::empty()
        }),
{
    assert(seq![w].drop_last() =~= Seq::<Seq<char>>::empty());
    reveal_with_fuel(non_empty, 2);
    assert(Seq::<Seq<char>>::empty().push(w) =~= seq![w]);
}

/// A word, a space, then `rest`: that word first, then the words of `rest`.
pub proof fn lemma_words_cons(w: Seq<char>, rest: Seq<char>)
    requires
        w.len() > 0,
        !w.contains(' '),
    ensures
        words(w + (seq![' '] + rest)) == seq![w] + words(rest),
{
    lemma_split_by_cons(w, ' ', rest);
    lemma_non_empty_concat(seq![w], split_by(rest, ' '));
    lemma_non_empty_single(w);
}

/// A leading space starts no word.
pub proof fn lemma_words_leading_space(rest: Seq<char>)
    ensures
        words(seq![' '] + rest) == words(rest),
{
    let e = Seq::<char>::empty();
    assert(!e.contains(' '));
    lemma_split_by_cons(e, ' ', rest);
    assert(e + (seq![' '] + rest) =~= seq![' '] + rest);
    lemma_non_empty_concat(seq![e], split_by(rest, ' '));
    lemma_non_empty_single(e);
    assert(Seq::<Seq<char>>::empty() + words(rest) =~= words(rest));
}

/// A single word is its only word.
pub proof fn lemma_words_single(w: Seq<char>)
    requires
        w.len() > 0,
        !w.contains(' '),
    ensures
        words(w) == seq![w],
{
    lemma_split_by_no_sep(w, ' ');
    lemma_non_empty_single(w);
}

/// Trimming removes spaces, and only spaces, at both ends: text that neither starts nor
/// ends with a space is kept whole, and a space added at either end is removed.
pub proof fn law_trim_spaces(s: Seq<char>)
    ensures
        (s.len() == 0 || (s[0] != ' ' && s.last() != ' ')) ==> spec_trim_spaces(s) == s,
        spec_trim_spaces(seq![' '] + s) == spec_trim_spaces(s),
        spec_trim_spaces(s + seq![' ']) == spec_trim_spaces(s),
    decreases s.len(),
{
    assert((seq![' '] + s).drop_first() =~= s);
    let t = s + seq![' '];
    if s.len() > 0 && s[0] == ' ' {
        law_trim_spaces(s.drop_first());
        assert(t.drop_first() =~= s.drop_first() + seq![' ']);
    } else {
        assert(t.drop_last() =~= s);
    }
}

/// The spans of the pieces of `s` between occurrences of `sep` (see `split_by`).
pub(crate) fn split_spans(s: &[char], sep: char) -> (spans: Vec<(usize, usize)>)
    ensures
        spans_within(s@, spans@),
        spans_text(s@, spans@) == split_by(s@, sep),
{
    let mut spans: Vec<(usize, usize)> = Vec::new();
    let mut start: usize = 0;
    let mut i: usize = 0;
    assert(s@.take(0) =~= Seq::<char>::empty());
    assert(spans_text(s@, spans@).push(s@.subrange(0, 0)) =~= split_by(s@.take(0), sep));
    while i < s.len()
        invariant
            start <= i <= s@.len(),
            spans_within(s@, spans@),
            split_by(s@.take(i as int), sep) == spans_text(s@, spans@).push(
                s@.subrange(start as int, i as int),
            ),
        decreases s@.len() - i,
    {
        proof {
            lemma_split_by_step(s@, sep, i as int);
        }
        let ghost before = spans_text(s@, spans@);
        if s[i] == sep {
            spans.push((start, i));
            start = i + 1;
            assert(spans_text(s@, spans@) =~= before.push(s@.subrange(spans@.last().0 as int, i as int)));
            assert(s@.subrange(start as int, i + 1) =~= Seq::<char>::empty());
        } else {
            assert(s@.subrange(start as int, i + 1) =~= s@.subrange(start as int, i as int).push(s@[i as int]));
        }
        i = i + 1;
        assert(split_by(s@.take(i as int), sep) =~= spans_text(s@, spans@).push(
            s@.subrange(start as int, i as int),
        ));
    }
    let ghost before = spans_text(s@, spans@);
    spans.push((start, s.len()));
    assert(s@.take(s@.len() as int) =~= s@);
    assert(spans_text(s@, spans@) =~= before.push(s@.subrange(start as int, s@.len() as int)));
    spans
}

/// The spans of the words of `s` (see `words`).
pub(crate) fn word_spans(s: &[char]) -> (spans: Vec<(usize, usize)>)
    ensures
        spans_within(s@, spans@),
        spans_text(s@, spans@) == words(s@),
{
    let mut spans: Vec<(usize, usize)> = Vec::new();
    let mut start: usize = 0;
    let mut i: usize = 0;
    // The pieces that ended before `start`.
    let ghost mut closed: Seq<Seq<char>> = Seq::empty();
    assert(s@.take(0) =~= Seq::<char>::empty());
    assert(closed.push(s@.subrange(0, 0)) =~= split_by(s@.take(0), ' '));
    while i < s.len()
        invariant
            start <= i <= s@.len(),
            spans_within(s@, spans@),
            split_by(s@.take(i as int), ' ') == closed.push(s@.subrange(start as int, i as int)),
            spans_text(s@, spans@) == non_empty(closed),
        decreases s@.len() - i,
    {
        proof {
            lemma_split_by_step(s@, ' ', i as int);
        }
        let ghost before = spans_text(s@, spans@);
        if s[i] == ' ' {
            let ghost piece = s@.subrange(start as int, i as int);
            if start < i {
                spans.push((start, i));
                assert(spans_text(s@, spans@) =~= before.push(piece));
            } else {
                assert(spans_text(s@, spans@) =~= before);
            }
            proof {
                assert(closed.push(piece).drop_last() =~= closed);
                closed = closed.push(piece);
            }
            start = i + 1;
            assert(s@.subrange(start as int, i + 1) =~= Seq::<char>::empty());
        } else {
            assert(s@.subrange(start as int, i + 1) =~= s@.subrange(start as int, i as int).push(s@[i as int]));
        }
        i = i + 1;
        assert(split_by(s@.take(i as int), ' ') =~= closed.push(
            s@.subrange(start as int, i as int),
        ));
    }
    let ghost before = spans_text(s@, spans@);
    let ghost last = s@.subrange(start as int, s@.len() as int);
    assert(s@.take(s@.len() as int) =~= s@);
    assert(closed.push(last).drop_last() =~= closed);
    if start < s.len() {
        spans.push((start, s.len()));
        assert(spans_text(s@, spans@) =~= before.push(last));
    }
    spans
}

/// The text that `span` covers in `s`.
pub(crate) fn span_slice<'a>(s: &'a [char], span: (usize, usize)) -> (t: &'a [char])
    requires
        span.0 <= span.1 <= s@.len(),
    ensures
        t@ == span_text(s@, span),
{
    slice_subrange(s, span.0, span.1)
}

/// `s` without its leading and trailing ASCII spaces (see `spec_trim_spaces`).
pub fn trim_spaces(s: &[char]) -> (t: &[char])
    ensures
        t@ == spec_trim_spaces(s@),
{
    let mut lo: usize = 0;
    let mut hi: usize = s.len();
    assert(s@.subrange(0, s@.len() as int) =~= s@);
    while lo < hi && s[lo] == ' '
        invariant
            lo <= hi == s@.len(),
            spec_trim_spaces(s@) == spec_trim_spaces(s@.subrange(lo as int, hi as int)),
        decreases hi - lo,
    {
        assert(s@.subrange(lo as int, hi as int).drop_first() =~= s@.subrange(lo + 1, hi as int));
        lo = lo + 1;
    }
    while lo < hi && s[hi - 1] == ' '
        invariant
            lo <= hi <= s@.len(),
            lo == hi || s@[lo as int] != ' ',
            spec_trim_spaces(s@) == spec_trim_spaces(s@.subrange(lo as int, hi as int)),
        decreases hi - lo,
    {
        assert(s@.subrange(lo as int, hi as int).drop_last() =~= s@.subrange(lo as int, hi - 1));
        hi = hi - 1;
    }
    slice_subrange(s, lo, hi)
}

/// The position of the first `c` in `s` (see `first_index_of`).
pub(crate) fn find_char(s: &[char], c: char) -> (r: Option<usize>)
    ensures
        match r {
            Some(i) => i < s@.len() && s@[i as int] == c && first_index_of(s@, c) == Some(i as int),
            None => first_index_of(s@, c) is None && forall|j: int| 0 <= j < s@.len() ==> s@[j] != c,
        },
{
    let mut i: usize = 0;
    while i < s.len()
        invariant
            i <= s@.len(),
            forall|j: int| 0 <= j < i ==> s@[j] != c,
        decreases s@.len() - i,
    {
        if s[i] == c {
            proof {
                lemma_first_index_of(s@, c, i as int);
            }
            return Some(i);
        }
        i = i + 1;
    }
    proof {
        lemma_first_index_of(s@, c, i as int);
    }
    None
}

/// Whether `a` and `b` hold the same characters.
pub(crate) fn chars_equal(a: &[char], b: &[char]) -> (r: bool)
    ensures
        r == (a@ == b@),
{
    if a.len() != b.len() {
        return false;
    }
    let mut i: usize = 0;
    while i < a.len()
        invariant
            i <= a@.len() == b@.len(),
            forall|j: int| 0 <= j < i ==> a@[j] == b@[j],
        decreases a@.len() - i,
    {
        if a[i] != b[i] {
            return false;
        }
        i = i + 1;
    }
    assert(a@ =~= b@);
    true
}

} // verus!
