//! Text primitives of the line protocol: ASCII whitespace, words, single-space
//! joining, trimming, newline splitting and decimal numbers.
//!
//! Every specification here is a function of `Seq<char>`, the view of `str`
//! and `String`; the executable functions compute exactly those values.

use vstd::prelude::*;

verus! {

/// ASCII whitespace: space, tab, line feed, form feed, carriage return.
pub open spec fn is_space(c: char) -> bool {
    c == ' ' || c == '\t' || c == '\n' || c == '\x0C' || c == '\r'
}

/// The first index at or after `from` that holds whitespace, or the length of
/// `s` when there is none.
pub open spec fn word_end(s: Seq<char>, from: int) -> int
    decreases s.len() - from,
{
    if from < 0 || from >= s.len() || is_space(s[from]) {
        from
    } else {
        word_end(s, from + 1)
    }
}

/// `word_end` stays in range, skips only non-whitespace, and stops on
/// whitespace or at the end.
pub proof fn lemma_word_end(s: Seq<char>, from: int)
    requires
        0 <= from <= s.len(),
    ensures
        from <= word_end(s, from) <= s.len(),
        forall|i: int| from <= i < word_end(s, from) ==> !is_space(#[trigger] s[i]),
        word_end(s, from) < s.len() ==> is_space(s[word_end(s, from)]),
    decreases s.len() - from,
{
    if from < s.len() && !is_space(s[from]) {
        lemma_word_end(s, from + 1);
    }
}

/// The words of `s` at or after `from`, each as the half-open index range
/// `(start, end)` of a maximal run of non-whitespace characters, in order.
pub open spec fn spans_from(s: Seq<char>, from: int) -> Seq<(int, int)>
    decreases s.len() - from,
{
    if from < 0 || from >= s.len() {
        Seq::empty()
    } else if is_space(s[from]) {
        spans_from(s, from + 1)
    } else {
        let end = word_end(s, from + 1);
        proof {
            lemma_word_end(s, from + 1);
        }
        seq![(from, end)] + spans_from(s, end)
    }
}

/// The index ranges of all words of `s`.
pub open spec fn spans(s: Seq<char>) -> Seq<(int, int)> {
    spans_from(s, 0)
}

/// The words of `s`: its maximal runs of non-whitespace characters, in order.
pub open spec fn words(s: Seq<char>) -> Seq<Seq<char>> {
    Seq::new(spans(s).len(), |i: int| s.subrange(spans(s)[i].0, spans(s)[i].1))
}

/// A word is non-empty and holds no whitespace.
pub open spec fn is_word(w: Seq<char>) -> bool {
    w.len() > 0 && forall|i: int| 0 <= i < w.len() ==> !is_space(#[trigger] w[i])
}

/// Executable test for [`is_space`].
pub fn is_space_char(c: char) -> (b: bool)
    ensures
        b == is_space(c),
{
    c == ' ' || c == '\t' || c == '\n' || c == '\x0C' || c == '\r'
}

/// The characters of `s`, in order.
pub fn chars_of(s: &str) -> (v: Vec<char>)
    ensures
        v@ == s@,
{
    let mut v: Vec<char> = Vec::new();
    for c in it: s.chars()
        invariant
            it.seq() == s@,
            v@ == s@.take(it.index() as int),
    {
        v.push(c);
    }
    v
}

/// The index ranges held by a vector of `usize` pairs.
pub open spec fn span_view(v: Seq<(usize, usize)>) -> Seq<(int, int)> {
    Seq::new(v.len(), |i: int| (v[i].0 as int, v[i].1 as int))
}

/// Finds the index range of every word of `chars`.
pub fn word_spans(chars: &Vec<char>) -> (v: Vec<(usize, usize)>)
    ensures
        span_view(v@) == spans(chars@),
{
    let n: usize = chars.len();
    let mut v: Vec<(usize, usize)> = Vec::new();
    let mut i: usize = 0;
    while i < n
        invariant
            n == chars@.len(),
            0 <= i <= n,
            span_view(v@) + spans_from(chars@, i as int) == spans(chars@),
        decreases n - i,
    {
        if is_space_char(chars[i]) {
            i = i + 1;
        } else {
            let start: usize = i;
            i = i + 1;
            while i < n && !is_space_char(chars[i])
                invariant
                    n == chars@.len(),
                    start < i <= n,
                    word_end(chars@, start + 1) == word_end(chars@, i as int),
                decreases n - i,
            {
                i = i + 1;
            }
            proof {
                assert(word_end(chars@, i as int) == i);
                assert(span_view(v@.push((start, i))) == span_view(v@) + seq![
                    (start as int, i as int),
                ]);
            }
            v.push((start, i));
        }
    }
    proof {
        assert(spans_from(chars@, n as int) == Seq::<(int, int)>::empty());
    }
    v
}

/// `sp` is the index range of a word of `s` at or after `from`: a non-empty
/// run of non-whitespace characters with whitespace, or an end of the search
/// range, on either side.
pub open spec fn is_span(s: Seq<char>, from: int, sp: (int, int)) -> bool {
    &&& from <= sp.0 < sp.1 <= s.len()
    &&& sp.1 == word_end(s, sp.0)
    &&& (sp.0 == from || is_space(s[sp.0 - 1]))
    &&& (sp.1 == s.len() || is_space(s[sp.1]))
    &&& forall|i: int| sp.0 <= i < sp.1 ==> !is_space(#[trigger] s[i])
}

/// Every element of `spans_from(s, from)` is the range of a word, and the
/// ranges come in increasing order with a gap between neighbours.
pub proof fn lemma_spans_from(s: Seq<char>, from: int)
    requires
        0 <= from <= s.len(),
    ensures
        forall|k: int|
            0 <= k < spans_from(s, from).len() ==> is_span(
                s,
                from,
                #[trigger] spans_from(s, from)[k],
            ),
        forall|k: int|
            0 <= k < spans_from(s, from).len() - 1 ==> (#[trigger] spans_from(s, from)[k]).1
                < spans_from(s, from)[k + 1].0,
    decreases s.len() - from,
{
    let all = spans_from(s, from);
    if from >= s.len() {
    } else if is_space(s[from]) {
        lemma_spans_from(s, from + 1);
        let rest = spans_from(s, from + 1);
        assert(all == rest);
        assert forall|k: int| 0 <= k < all.len() implies is_span(s, from, #[trigger] all[k]) by {
            assert(is_span(s, from + 1, rest[k]));
        }
    } else {
        let end = word_end(s, from + 1);
        lemma_word_end(s, from + 1);
        lemma_spans_from(s, end);
        let rest = spans_from(s, end);
        assert(all == seq![(from, end)] + rest);
        assert forall|k: int| 0 <= k < all.len() implies is_span(s, from, #[trigger] all[k]) by {
            if k > 0 {
                assert(all[k] == rest[k - 1]);
                assert(is_span(s, end, rest[k - 1]));
                if rest[k - 1].0 == end {
                    assert(end < s.len());
                }
            } else {
                assert(all[0] == (from, end));
            }
        }
        assert forall|k: int| 0 <= k < all.len() - 1 implies (#[trigger] all[k]).1 < all[k
            + 1].0 by {
            assert(all[k + 1] == rest[k]);
            assert(is_span(s, end, rest[k]));
            if k > 0 {
                assert(all[k] == rest[k - 1]);
            } else {
                if rest[0].0 == end {
                    assert(end < s.len());
                }
            }
        }
    }
}

/// An earlier word of `s` ends before a later one starts.
pub proof fn lemma_spans_ordered(s: Seq<char>, j: int, k: int)
    requires
        0 <= j <= k < spans(s).len(),
    ensures
        0 <= spans(s)[j].0 < spans(s)[k].1 <= s.len(),
        j < k ==> spans(s)[j].1 < spans(s)[k].0,
    decreases k - j,
{
    lemma_spans_from(s, 0);
    assert(is_span(s, 0, spans(s)[j]));
    assert(is_span(s, 0, spans(s)[k]));
    if j < k {
        lemma_spans_ordered(s, j, k - 1);
        assert(is_span(s, 0, spans(s)[k - 1]));
        assert(spans_from(s, 0)[k - 1].1 < spans_from(s, 0)[k - 1 + 1].0);
    }
}

/// Every element of `words(s)` is a word.
pub proof fn lemma_words_are_words(s: Seq<char>)
    ensures
        forall|k: int| 0 <= k < words(s).len() ==> is_word(#[trigger] words(s)[k]),
{
    lemma_spans_from(s, 0);
    assert forall|k: int| 0 <= k < words(s).len() implies is_word(#[trigger] words(s)[k]) by {
        let sp = spans(s)[k];
        let w = words(s)[k];
        assert(is_span(s, 0, sp));
        assert(w == s.subrange(sp.0, sp.1));
        assert forall|i: int| 0 <= i < w.len() implies !is_space(#[trigger] w[i]) by {
            assert(w[i] == s[sp.0 + i]);
        }
    }
}

/// The views of a sequence of strings.
pub open spec fn views(v: Seq<String>) -> Seq<Seq<char>> {
    Seq::new(v.len(), |i: int| v[i]@)
}

/// Splits `s` into its words.
pub fn split_words(s: &str) -> (v: Vec<String>)
    ensures
        views(v@) == words(s@),
{
    let chars: Vec<char> = chars_of(s);
    let sp: Vec<(usize, usize)> = word_spans(&chars);
    let mut v: Vec<String> = Vec::new();
    let mut k: usize = 0;
    proof {
        lemma_spans_from(s@, 0);
    }
    while k < sp.len()
        invariant
            span_view(sp@) == spans(s@),
            forall|j: int| 0 <= j < spans(s@).len() ==> is_span(s@, 0, #[trigger] spans(s@)[j]),
            k <= sp.len(),
            v.len() == k,
            forall|j: int| 0 <= j < k ==> (#[trigger] v[j])@ == words(s@)[j],
        decreases sp.len() - k,
    {
        let start: usize = sp[k].0;
        let end: usize = sp[k].1;
        proof {
            assert(span_view(sp@)[k as int] == (start as int, end as int));
            assert(spans(s@)[k as int] == (start as int, end as int));
        }
        let w: String = String::from_str(s.substring_char(start, end));
        v.push(w);
        k = k + 1;
    }
    proof {
        assert(span_view(sp@).len() == sp.len());
        assert(views(v@) =~= words(s@));
    }
    v
}

/// The elements of `ws` written one after another with a single space between
/// neighbours.
pub open spec fn join(ws: Seq<Seq<char>>) -> Seq<char>
    decreases ws.len(),
{
    if ws.len() == 0 {
        Seq::empty()
    } else if ws.len() == 1 {
        ws[0]
    } else {
        join(ws.drop_last()) + seq![' '] + ws.last()
    }
}

/// Joins the strings of `ws` from index `from` on with single spaces.
pub fn join_words(ws: &Vec<String>, from: usize) -> (r: String)
    requires
        from <= ws.len(),
    ensures
        r@ == join(views(ws@).skip(from as int)),
{
    let mut r: String = String::new();
    let mut k: usize = from;
    let ghost rest = views(ws@).skip(from as int);
    proof {
        reveal_strlit(" ");
    }
    while k < ws.len()
        invariant
            from <= k <= ws.len(),
            rest == views(ws@).skip(from as int),
            r@ == join(rest.take(k - from)),
            " "@ == seq![' '],
        decreases ws.len() - k,
    {
        proof {
            let next = rest.take(k - from + 1);
            assert(next.drop_last() == rest.take(k - from));
            assert(next.last() == ws[k as int]@);
        }
        if k > from {
            r.append(" ");
        }
        r.append(ws[k].as_str());
        k = k + 1;
    }
    proof {
        assert(rest.take(k - from) == rest);
    }
    r
}

/// The first index at or after `from` that holds no whitespace, or the length
/// of `s`.
pub open spec fn skip_spaces(s: Seq<char>, from: int) -> int
    decreases s.len() - from,
{
    if from < 0 || from >= s.len() || !is_space(s[from]) {
        from
    } else {
        skip_spaces(s, from + 1)
    }
}

/// The least `end <= upto` such that `s` holds only whitespace from `end` up
/// to `upto`.
pub open spec fn trim_end(s: Seq<char>, upto: int) -> int
    decreases upto,
{
    if upto <= 0 || upto > s.len() || !is_space(s[upto - 1]) {
        upto
    } else {
        trim_end(s, upto - 1)
    }
}

/// `s` without its leading and trailing whitespace.
pub open spec fn trimmed(s: Seq<char>) -> Seq<char> {
    let start = skip_spaces(s, 0);
    let end = trim_end(s, s.len() as int);
    if start < end {
        s.subrange(start, end)
    } else {
        Seq::empty()
    }
}

/// A text with no whitespace at its ends, followed by one whitespace
/// character, is trimmed to itself.
pub proof fn lemma_trimmed_closed(s: Seq<char>, c: char)
    requires
        s.len() > 0,
        !is_space(s[0]),
        !is_space(s[s.len() - 1]),
        is_space(c),
    ensures
        trimmed(s + seq![c]) == s,
{
    let t = s + seq![c];
    let n = s.len() as int;
    assert(t[0] == s[0]);
    assert(t[n] == c);
    assert(t[n - 1] == s[n - 1]);
    assert(trim_end(t, n + 1) == trim_end(t, n));
    assert(t.subrange(0, n) =~= s);
}

/// Removes leading and trailing whitespace.
pub fn trim(s: &str) -> (r: String)
    ensures
        r@ == trimmed(s@),
{
    let chars: Vec<char> = chars_of(s);
    let n: usize = chars.len();
    let mut start: usize = 0;
    while start < n && is_space_char(chars[start])
        invariant
            n == chars@.len(),
            0 <= start <= n,
            skip_spaces(chars@, 0) == skip_spaces(chars@, start as int),
        decreases n - start,
    {
        start = start + 1;
    }
    let mut end: usize = n;
    while end > 0 && is_space_char(chars[end - 1])
        invariant
            n == chars@.len(),
            0 <= end <= n,
            trim_end(chars@, n as int) == trim_end(chars@, end as int),
        decreases end,
    {
        end = end - 1;
    }
    if start < end {
        String::from_str(s.substring_char(start, end))
    } else {
        String::new()
    }
}

/// The first index at or after `from` that holds a line feed, or the length of
/// `s`.
pub open spec fn line_end(s: Seq<char>, from: int) -> int
    decreases s.len() - from,
{
    if from < 0 || from >= s.len() || s[from] == '\n' {
        from
    } else {
        line_end(s, from + 1)
    }
}

/// `line_end` stays in range.
pub proof fn lemma_line_end(s: Seq<char>, from: int)
    requires
        0 <= from <= s.len(),
    ensures
        from <= line_end(s, from) <= s.len(),
    decreases s.len() - from,
{
    if from < s.len() && s[from] != '\n' {
        lemma_line_end(s, from + 1);
    }
}

/// The pieces of `s` from `from` on that its line feeds separate. A text
/// with `k` line feeds has `k + 1` pieces; empty pieces are kept.
pub open spec fn lines_from(s: Seq<char>, from: int) -> Seq<Seq<char>>
    decreases s.len() - from,
{
    if from < 0 || from > s.len() {
        Seq::empty()
    } else {
        let end = line_end(s, from);
        proof {
            lemma_line_end(s, from);
        }
        if end >= s.len() {
            seq![s.subrange(from, s.len() as int)]
        } else {
            seq![s.subrange(from, end)] + lines_from(s, end + 1)
        }
    }
}

/// The pieces of `s` that its line feeds separate.
pub open spec fn lines(s: Seq<char>) -> Seq<Seq<char>> {
    lines_from(s, 0)
}

/// A text without a line feed is a single line.
pub proof fn lemma_lines_single(s: Seq<char>)
    requires
        forall|i: int| 0 <= i < s.len() ==> #[trigger] s[i] != '\n',
    ensures
        lines(s) == seq![s],
{
    lemma_line_end_none(s, 0);
    assert(s.subrange(0, s.len() as int) =~= s);
}

/// In a text without a line feed no line ends before the text does.
proof fn lemma_line_end_none(s: Seq<char>, from: int)
    requires
        0 <= from <= s.len(),
        forall|i: int| 0 <= i < s.len() ==> #[trigger] s[i] != '\n',
    ensures
        line_end(s, from) == s.len(),
    decreases s.len() - from,
{
    if from < s.len() {
        lemma_line_end_none(s, from + 1);
    }
}

/// Splits `s` at every line feed.
pub fn split_lines(s: &str) -> (v: Vec<String>)
    ensures
        views(v@) == lines(s@),
{
    let chars: Vec<char> = chars_of(s);
    let n: usize = chars.len();
    let mut v: Vec<String> = Vec::new();
    let mut start: usize = 0;
    let mut i: usize = 0;
    while i < n
        invariant
            n == chars@.len(),
            chars@ == s@,
            0 <= start <= i <= n,
            line_end(s@, start as int) == line_end(s@, i as int),
            views(v@) + lines_from(s@, start as int) == lines(s@),
        decreases n - i,
    {
        if chars[i] == '\n' {
            let piece: String = String::from_str(s.substring_char(start, i));
            proof {
                assert(line_end(s@, start as int) == i);
                assert(views(v@.push(piece)) == views(v@) + seq![piece@]);
            }
            v.push(piece);
            start = i + 1;
        }
        i = i + 1;
    }
    let piece: String = String::from_str(s.substring_char(start, n));
    proof {
        assert(line_end(s@, start as int) == n);
        assert(views(v@.push(piece)) == views(v@) + seq![piece@]);
    }
    v.push(piece);
    v
}

/// A decimal digit, `'0'` to `'9'`.
pub open spec fn is_digit(c: char) -> bool {
    48 <= c as int <= 57
}

/// The value of a decimal digit.
pub open spec fn digit_value(c: char) -> nat {
    (c as int - 48) as nat
}

/// The digit character of a value below ten.
pub open spec fn digit_char(d: nat) -> char {
    (48 + d) as u8 as char
}

/// A non-empty sequence of decimal digits.
pub open spec fn is_decimal(s: Seq<char>) -> bool {
    s.len() > 0 && forall|i: int| 0 <= i < s.len() ==> is_digit(#[trigger] s[i])
}

/// The number that a sequence of decimal digits writes, most significant digit
/// first.
pub open spec fn decimal_value(s: Seq<char>) -> nat
    decreases s.len(),
{
    if s.len() == 0 {
        0
    } else {
        10 * decimal_value(s.drop_last()) + digit_value(s.last())
    }
}

/// What a word means as a `usize`: its decimal value when it is a sequence of
/// decimal digits whose value fits, nothing otherwise.
pub open spec fn parse_decimal(s: Seq<char>) -> Option<usize> {
    if is_decimal(s) && decimal_value(s) <= usize::MAX {
        Some(decimal_value(s) as usize)
    } else {
        None
    }
}

/// The decimal writing of `n`, without leading zeros.
pub open spec fn decimal(n: nat) -> Seq<char>
    decreases n,
{
    if n < 10 {
        seq![digit_char(n)]
    } else {
        decimal(n / 10) + seq![digit_char(n % 10)]
    }
}

/// A prefix of a digit sequence writes a number no larger than the whole.
pub proof fn lemma_decimal_prefix(s: Seq<char>, k: int)
    requires
        0 <= k <= s.len(),
    ensures
        decimal_value(s.take(k)) <= decimal_value(s),
    decreases s.len(),
{
    if k < s.len() {
        assert(s.drop_last().take(k) == s.take(k));
        lemma_decimal_prefix(s.drop_last(), k);
    } else {
        assert(s.take(k) == s);
    }
}

/// Reading back the decimal writing of `n` gives `n`.
pub proof fn lemma_decimal_value_of_decimal(n: nat)
    ensures
        is_decimal(decimal(n)),
        decimal_value(decimal(n)) == n,
    decreases n,
{
    if n < 10 {
        let s = decimal(n);
        assert(s.drop_last() == Seq::<char>::empty());
        assert(decimal_value(s.drop_last()) == 0);
    } else {
        lemma_decimal_value_of_decimal(n / 10);
        let s = decimal(n);
        assert(s.drop_last() == decimal(n / 10));
    }
}

/// The value of `c` when it is a decimal digit.
fn digit_of(c: char) -> (r: Option<usize>)
    ensures
        r == (if is_digit(c) {
            Some(digit_value(c) as usize)
        } else {
            None
        }),
{
    if c == '0' {
        Some(0)
    } else if c == '1' {
        Some(1)
    } else if c == '2' {
        Some(2)
    } else if c == '3' {
        Some(3)
    } else if c == '4' {
        Some(4)
    } else if c == '5' {
        Some(5)
    } else if c == '6' {
        Some(6)
    } else if c == '7' {
        Some(7)
    } else if c == '8' {
        Some(8)
    } else if c == '9' {
        Some(9)
    } else {
        None
    }
}

/// Reads a word as a decimal `usize`.
pub fn parse_usize(s: &str) -> (r: Option<usize>)
    ensures
        r == parse_decimal(s@),
{
    let chars: Vec<char> = chars_of(s);
    let n: usize = chars.len();
    if n == 0 {
        return None;
    }
    let mut acc: usize = 0;
    let mut i: usize = 0;
    while i < n
        invariant
            n == chars@.len(),
            chars@ == s@,
            0 <= i <= n,
            forall|j: int| 0 <= j < i ==> is_digit(#[trigger] chars@[j]),
            acc == decimal_value(chars@.take(i as int)),
        decreases n - i,
    {
        let c: char = chars[i];
        let digit: usize = match digit_of(c) {
            Some(d) => d,
            None => {
                return None;
            },
        };
        proof {
            let next = chars@.take(i + 1);
            assert(next.drop_last() == chars@.take(i as int));
            assert(next.last() == c);
            lemma_decimal_prefix(chars@, i + 1);
        }
        let scaled: usize = match acc.checked_mul(10) {
            Some(v) => v,
            None => {
                return None;
            },
        };
        acc = match scaled.checked_add(digit) {
            Some(v) => v,
            None => {
                return None;
            },
        };
        i = i + 1;
    }
    proof {
        assert(chars@.take(n as int) == chars@);
    }
    Some(acc)
}

/// The one-character string of a digit below ten.
fn digit_str(d: u64) -> (r: &'static str)
    requires
        d < 10,
    ensures
        r@ == seq![digit_char(d as nat)],
{
    proof {
        reveal_strlit("0");
        reveal_strlit("1");
        reveal_strlit("2");
        reveal_strlit("3");
        reveal_strlit("4");
        reveal_strlit("5");
        reveal_strlit("6");
        reveal_strlit("7");
        reveal_strlit("8");
        reveal_strlit("9");
    }
    let r: &'static str = if d == 0 {
        "0"
    } else if d == 1 {
        "1"
    } else if d == 2 {
        "2"
    } else if d == 3 {
        "3"
    } else if d == 4 {
        "4"
    } else if d == 5 {
        "5"
    } else if d == 6 {
        "6"
    } else if d == 7 {
        "7"
    } else if d == 8 {
        "8"
    } else {
        "9"
    };
    proof {
        assert(r@ =~= seq![digit_char(d as nat)]);
    }
    r
}

/// Writes `n` in decimal, without leading zeros.
pub fn decimal_string(n: u64) -> (r: String)
    ensures
        r@ == decimal(n as nat),
    decreases n,
{
    if n < 10 {
        String::from_str(digit_str(n))
    } else {
        let mut r: String = decimal_string(n / 10);
        r.append(digit_str(n % 10));
        r
    }
}

/// `n` in decimal, with a leading zero when it is below ten.
pub open spec fn two_digits(n: nat) -> Seq<char> {
    if n < 10 {
        seq!['0'] + decimal(n)
    } else {
        decimal(n)
    }
}

/// Writes `n` in decimal with at least two digits.
pub fn two_digit_string(n: u64) -> (r: String)
    ensures
        r@ == two_digits(n as nat),
{
    if n < 10 {
        proof {
            reveal_strlit("0");
        }
        let mut r: String = String::from_str("0");
        r.append(decimal_string(n).as_str());
        r
    } else {
        decimal_string(n)
    }
}

/// The text that `String::from_utf8_lossy` makes of `bytes`: the characters
/// that the bytes encode in UTF-8, with U+FFFD in place of what is no valid
/// encoding.
pub uninterp spec fn lossy_text(bytes: Seq<u8>) -> Seq<char>;

/// Decodes bytes as UTF-8, replacing what is malformed.
///
/// Calls std's `String::from_utf8_lossy` and takes ownership of the text it
/// returns. All that is claimed of the text is that the bytes alone decide it.
#[verifier::external_body]
pub(crate) fn decode_lossy(bytes: &[u8]) -> (text: String)
    ensures
        text@ == lossy_text(bytes@),
{
    String::from_utf8_lossy(bytes).into_owned()
}

} // verus!
