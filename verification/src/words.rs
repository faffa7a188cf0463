//! Laws of word splitting: how the words of a text relate to the words of its
//! parts, and that joining words with single spaces is undone by splitting.

use crate::text::{
    is_space, is_span, is_word, join, lemma_spans_from, lemma_word_end, spans, spans_from, word_end,
    words,
};
use vstd::prelude::*;

verus! {

/// A sequence of index ranges moved `by` places to the right.
pub open spec fn shifted(sp: Seq<(int, int)>, by: int) -> Seq<(int, int)> {
    Seq::new(sp.len(), |k: int| (sp[k].0 + by, sp[k].1 + by))
}

/// Where `a` is followed in `c` by whitespace or by nothing, a word of `a`
/// ends in `c` where it ends in `a`.
pub proof fn lemma_word_end_prefix(a: Seq<char>, c: Seq<char>, i: int)
    requires
        0 <= i <= a.len() <= c.len(),
        c.take(a.len() as int) == a,
        a.len() == c.len() || is_space(c[a.len() as int]),
    ensures
        word_end(c, i) == word_end(a, i),
    decreases a.len() - i,
{
    if i < a.len() {
        assert(c[i] == c.take(a.len() as int)[i]);
        if !is_space(a[i]) {
            lemma_word_end_prefix(a, c, i + 1);
        }
    }
}

/// Where `a` is followed in `c` by whitespace or by nothing, the words of `c`
/// are those of `a` and then those of `c` after `a`.
pub proof fn lemma_spans_prefix(a: Seq<char>, c: Seq<char>, i: int)
    requires
        0 <= i <= a.len() <= c.len(),
        c.take(a.len() as int) == a,
        a.len() == c.len() || is_space(c[a.len() as int]),
    ensures
        spans_from(c, i) == spans_from(a, i) + spans_from(c, a.len() as int),
    decreases a.len() - i,
{
    if i < a.len() {
        assert(c[i] == c.take(a.len() as int)[i]);
        if is_space(a[i]) {
            lemma_spans_prefix(a, c, i + 1);
        } else {
            let end = word_end(a, i + 1);
            lemma_word_end(a, i + 1);
            lemma_word_end_prefix(a, c, i + 1);
            lemma_spans_prefix(a, c, end);
            assert(spans_from(c, i) == seq![(i, end)] + spans_from(c, end));
            assert(spans_from(a, i) == seq![(i, end)] + spans_from(a, end));
            assert(seq![(i, end)] + (spans_from(a, end) + spans_from(c, a.len() as int)) == (seq![
                (i, end),
            ] + spans_from(a, end)) + spans_from(c, a.len() as int));
        }
    } else {
        assert(spans_from(a, i) == Seq::<(int, int)>::empty());
        assert(Seq::<(int, int)>::empty() + spans_from(c, i) == spans_from(c, i));
    }
}

/// A word of `b` ends in `p + b` where it ends in `b`, moved by the length of
/// `p`.
pub proof fn lemma_word_end_shift(p: Seq<char>, b: Seq<char>, j: int)
    requires
        0 <= j <= b.len(),
    ensures
        word_end(p + b, p.len() + j) == p.len() + word_end(b, j),
    decreases b.len() - j,
{
    if j < b.len() {
        assert((p + b)[p.len() + j] == b[j]);
        if !is_space(b[j]) {
            lemma_word_end_shift(p, b, j + 1);
        }
    }
}

/// The words of `p + b` after `p` are the words of `b`, moved by the length
/// of `p`.
pub proof fn lemma_spans_shift(p: Seq<char>, b: Seq<char>, j: int)
    requires
        0 <= j <= b.len(),
    ensures
        spans_from(p + b, p.len() + j) == shifted(spans_from(b, j), p.len() as int),
    decreases b.len() - j,
{
    let c = p + b;
    let n = p.len() as int;
    if j < b.len() {
        assert(c[n + j] == b[j]);
        if is_space(b[j]) {
            lemma_spans_shift(p, b, j + 1);
        } else {
            let end = word_end(b, j + 1);
            lemma_word_end(b, j + 1);
            lemma_word_end_shift(p, b, j + 1);
            lemma_spans_shift(p, b, end);
            assert(spans_from(c, n + j) == seq![(n + j, n + end)] + spans_from(c, n + end));
            assert(spans_from(b, j) == seq![(j, end)] + spans_from(b, end));
            assert(shifted(seq![(j, end)] + spans_from(b, end), n) =~= seq![(n + j, n + end)]
                + shifted(spans_from(b, end), n));
        }
    } else {
        assert(shifted(spans_from(b, j), n) =~= Seq::<(int, int)>::empty());
    }
}

/// Where `b` is empty or starts with whitespace, the words of `a + b` are
/// those of `a` and then those of `b`.
pub proof fn lemma_words_concat(a: Seq<char>, b: Seq<char>)
    requires
        b.len() == 0 || is_space(b[0]),
    ensures
        words(a + b) == words(a) + words(b),
{
    let c = a + b;
    let n = a.len() as int;
    assert(c.take(n) == a);
    if b.len() > 0 {
        assert(c[n] == b[0]);
    }
    lemma_spans_prefix(a, c, 0);
    lemma_spans_shift(a, b, 0);
    lemma_spans_from(a, 0);
    lemma_spans_from(b, 0);
    let sa = spans(a);
    let sb = spans(b);
    assert(spans(c) == sa + shifted(sb, n));
    assert forall|k: int| 0 <= k < words(c).len() implies #[trigger] words(c)[k] == (words(a)
        + words(b))[k] by {
        if k < sa.len() {
            assert(spans(c)[k] == sa[k]);
            assert(is_span(a, 0, sa[k]));
            assert(c.subrange(sa[k].0, sa[k].1) =~= a.subrange(sa[k].0, sa[k].1));
        } else {
            let m = k - sa.len();
            assert(spans(c)[k] == shifted(sb, n)[m]);
            assert(is_span(b, 0, sb[m]));
            assert(c.subrange(sb[m].0 + n, sb[m].1 + n) =~= b.subrange(sb[m].0, sb[m].1));
        }
    }
    assert(words(c) =~= words(a) + words(b));
}

/// A text that is one word has that word as its only word.
pub proof fn lemma_words_of_word(w: Seq<char>)
    requires
        is_word(w),
    ensures
        words(w) == seq![w],
{
    lemma_word_end(w, 1);
    let end = word_end(w, 1);
    if end < w.len() {
        assert(is_space(w[end]));
    }
    assert(spans_from(w, w.len() as int) == Seq::<(int, int)>::empty());
    assert(spans(w) =~= seq![(0int, w.len() as int)]);
    assert(w.subrange(0, w.len() as int) == w);
    assert(words(w) =~= seq![w]);
}

/// The words of two texts with a space between them are the words of the
/// first and then the words of the second.
pub proof fn lemma_words_spaced(a: Seq<char>, b: Seq<char>)
    ensures
        words(a + seq![' '] + b) == words(a) + words(b),
{
    let sb = seq![' '] + b;
    assert(a + seq![' '] + b == a + sb);
    lemma_words_concat(a, sb);
    // the words of `sb` are those of `b`
    lemma_spans_shift(seq![' '], b, 0);
    lemma_spans_from(b, 0);
    assert(spans(sb) == shifted(spans(b), 1));
    assert forall|k: int| 0 <= k < words(sb).len() implies #[trigger] words(sb)[k] == words(
        b,
    )[k] by {
        assert(is_span(b, 0, spans(b)[k]));
        assert(sb.subrange(spans(b)[k].0 + 1, spans(b)[k].1 + 1) =~= b.subrange(
            spans(b)[k].0,
            spans(b)[k].1,
        ));
    }
    assert(words(sb) =~= words(b));
}

/// Splitting undoes joining: the words of words joined by single spaces are
/// those words.
pub proof fn lemma_words_of_join(ws: Seq<Seq<char>>)
    requires
        forall|k: int| 0 <= k < ws.len() ==> is_word(#[trigger] ws[k]),
    ensures
        words(join(ws)) == ws,
    decreases ws.len(),
{
    if ws.len() == 0 {
        assert(spans(Seq::<char>::empty()) == Seq::<(int, int)>::empty());
        assert(words(join(ws)) =~= ws);
    } else if ws.len() == 1 {
        lemma_words_of_word(ws[0]);
        assert(ws =~= seq![ws[0]]);
    } else {
        let init = ws.drop_last();
        lemma_words_of_join(init);
        lemma_words_of_word(ws.last());
        lemma_words_spaced(join(init), ws.last());
        assert(init + seq![ws.last()] =~= ws);
    }
}

/// In a text that ends with a character that is no whitespace, the last word
/// found from any index on ends where the text ends.
pub proof fn lemma_last_span(s: Seq<char>, from: int)
    requires
        0 <= from < s.len(),
        !is_space(s[s.len() - 1]),
    ensures
        spans_from(s, from).len() > 0,
        spans_from(s, from).last().1 == s.len(),
    decreases s.len() - from,
{
    if is_space(s[from]) {
        lemma_last_span(s, from + 1);
    } else {
        let end = word_end(s, from + 1);
        lemma_word_end(s, from + 1);
        let rest = spans_from(s, end);
        assert(spans_from(s, from) == seq![(from, end)] + rest);
        if end < s.len() {
            lemma_last_span(s, end);
            assert((seq![(from, end)] + rest).last() == rest.last());
        } else {
            assert(rest == Seq::<(int, int)>::empty());
            assert((seq![(from, end)] + rest).last() == (from, end));
        }
    }
}

/// Whitespace at the end of a text adds no word: the words of `s` followed by
/// one whitespace character are found where the words of `s` are.
pub proof fn lemma_spans_trailing_space(s: Seq<char>, c: char)
    requires
        is_space(c),
    ensures
        spans(s + seq![c]) == spans(s),
{
    let t = s + seq![c];
    assert(t.take(s.len() as int) == s);
    assert(t[s.len() as int] == c);
    lemma_spans_prefix(s, t, 0);
    assert(spans_from(t, s.len() as int + 1) == Seq::<(int, int)>::empty());
    assert(spans_from(t, s.len() as int) == Seq::<(int, int)>::empty());
    assert(spans_from(s, 0) + Seq::<(int, int)>::empty() == spans_from(s, 0));
}

/// The words of a line made of a head, a space and a body: those of the head
/// where they are in the head, then those of the body, moved past the head
/// and the space.
pub proof fn lemma_spans_head_body(head: Seq<char>, body: Seq<char>)
    ensures
        spans(head + seq![' '] + body) == spans(head) + shifted(
            spans(body),
            head.len() as int + 1,
        ),
        forall|k: int|
            0 <= k < spans(head).len() ==> #[trigger] words(head + seq![' '] + body)[k] == words(
                head,
            )[k],
{
    let line = head + seq![' '] + body;
    let lead = head + seq![' '];
    let n = head.len() as int;
    assert(line.take(n) =~= head);
    assert(line[n] == ' ');
    lemma_spans_prefix(head, line, 0);
    lemma_spans_shift(lead, body, 0);
    assert(spans_from(line, n) == spans_from(line, n + 1));
    lemma_spans_from(head, 0);
    assert forall|k: int| 0 <= k < spans(head).len() implies #[trigger] words(line)[k] == words(
        head,
    )[k] by {
        let sp = spans(head)[k];
        assert(spans(line)[k] == sp);
        assert(is_span(head, 0, sp));
        assert(line.subrange(sp.0, sp.1) =~= head.subrange(sp.0, sp.1));
    }
}

/// Whitespace at the end of a text changes none of its words.
pub proof fn lemma_words_trailing_space(s: Seq<char>, c: char)
    requires
        is_space(c),
    ensures
        words(s + seq![c]) == words(s),
{
    let t = s + seq![c];
    lemma_spans_trailing_space(s, c);
    lemma_spans_from(s, 0);
    assert forall|k: int| 0 <= k < spans(s).len() implies #[trigger] words(t)[k] == words(s)[k] by {
        let sp = spans(s)[k];
        assert(is_span(s, 0, sp));
        assert(t.subrange(sp.0, sp.1) =~= s.subrange(sp.0, sp.1));
    }
    assert(words(t) =~= words(s));
}

/// Words joined by single spaces make a text that starts and ends with a
/// character that is no whitespace and holds no whitespace but spaces.
pub proof fn lemma_join_is_clean(ws: Seq<Seq<char>>)
    requires
        ws.len() > 0,
        forall|k: int| 0 <= k < ws.len() ==> is_word(#[trigger] ws[k]),
    ensures
        join(ws).len() > 0,
        !is_space(join(ws)[0]),
        !is_space(join(ws)[join(ws).len() - 1]),
        forall|i: int|
            0 <= i < join(ws).len() ==> (#[trigger] join(ws)[i]) == ' ' || !is_space(join(ws)[i]),
    decreases ws.len(),
{
    if ws.len() == 1 {
        assert(is_word(ws[0]));
    } else {
        let init = ws.drop_last();
        let last = ws.last();
        lemma_join_is_clean(init);
        assert(is_word(last));
        let j = join(ws);
        let n = join(init).len() as int;
        assert(j == join(init) + seq![' '] + last);
        assert forall|i: int| 0 <= i < j.len() implies (#[trigger] j[i]) == ' ' || !is_space(
            j[i],
        ) by {
            if i < n {
                assert(j[i] == join(init)[i]);
            } else if i > n {
                assert(j[i] == last[i - n - 1]);
            }
        }
        assert(j[0] == join(init)[0]);
        assert(j[j.len() - 1] == last[last.len() - 1]);
    }
}

/// The words of four words written with single spaces between them.
pub proof fn lemma_words_of_four(a: Seq<char>, b: Seq<char>, c: Seq<char>, d: Seq<char>)
    requires
        is_word(a),
        is_word(b),
        is_word(c),
        is_word(d),
    ensures
        words(a + seq![' '] + b + seq![' '] + c + seq![' '] + d) == seq![a, b, c, d],
{
    lemma_words_of_word(a);
    lemma_words_of_word(b);
    lemma_words_of_word(c);
    lemma_words_of_word(d);
    lemma_words_spaced(a, b);
    lemma_words_spaced(a + seq![' '] + b, c);
    lemma_words_spaced(a + seq![' '] + b + seq![' '] + c, d);
    assert(seq![a] + seq![b] + seq![c] + seq![d] =~= seq![a, b, c, d]);
}

} // verus!
