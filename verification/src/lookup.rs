//! Searching a sequence for a value, and what pushing and removing do to
//! what a sequence holds.

use vstd::prelude::*;

verus! {

/// The first index at or after `from` at which `s` holds `x`, or the length
/// of `s`.
pub open spec fn first_from<T>(s: Seq<T>, x: T, from: int) -> int
    decreases s.len() - from,
{
    if from < 0 || from >= s.len() || s[from] == x {
        from
    } else {
        first_from(s, x, from + 1)
    }
}

/// The first index at which `s` holds `x`, if any.
pub open spec fn first_index<T>(s: Seq<T>, x: T) -> Option<int> {
    let i = first_from(s, x, 0);
    if i < s.len() {
        Some(i)
    } else {
        None
    }
}

/// `first_from` stays in range, passes over no occurrence, and stops on one
/// or at the end.
pub proof fn lemma_first_from<T>(s: Seq<T>, x: T, from: int)
    requires
        0 <= from <= s.len(),
    ensures
        from <= first_from(s, x, from) <= s.len(),
        forall|i: int| from <= i < first_from(s, x, from) ==> #[trigger] s[i] != x,
        first_from(s, x, from) < s.len() ==> s[first_from(s, x, from)] == x,
    decreases s.len() - from,
{
    if from < s.len() && s[from] != x {
        lemma_first_from(s, x, from + 1);
    }
}

/// `first_index` finds `x` exactly when `s` holds it, and then at an index
/// that holds `x` with no occurrence before it.
pub proof fn lemma_first_index<T>(s: Seq<T>, x: T)
    ensures
        first_index(s, x) is Some <==> s.contains(x),
        first_index(s, x) matches Some(i) ==> 0 <= i < s.len() && s[i] == x && forall|j: int|
            0 <= j < i ==> #[trigger] s[j] != x,
{
    lemma_first_from(s, x, 0);
    if s.contains(x) {
        let i = choose|i: int| 0 <= i < s.len() && s[i] == x;
        assert(s[i] == x);
    }
}

/// What a sequence holds after a push.
pub proof fn lemma_push_contains<T>(s: Seq<T>, y: T, x: T)
    ensures
        s.push(y).contains(x) <==> (s.contains(x) || x == y),
{
    let t = s.push(y);
    if s.contains(x) {
        let i = choose|i: int| 0 <= i < s.len() && s[i] == x;
        assert(t[i] == x);
    }
    if x == y {
        assert(t[s.len() as int] == x);
    }
    if t.contains(x) {
        let i = choose|i: int| 0 <= i < t.len() && t[i] == x;
        if i < s.len() {
            assert(s[i] == x);
        }
    }
}

/// Pushing a new element keeps a sequence free of duplicates.
pub proof fn lemma_push_no_duplicates<T>(s: Seq<T>, y: T)
    requires
        s.no_duplicates(),
        !s.contains(y),
    ensures
        s.push(y).no_duplicates(),
{
    let t = s.push(y);
    assert forall|i: int, j: int| 0 <= i < t.len() && 0 <= j < t.len() && i != j implies t[i]
        != t[j] by {
        if i < s.len() {
            assert(s[i] == t[i]);
        }
        if j < s.len() {
            assert(s[j] == t[j]);
        }
    }
}

/// What a sequence without duplicates holds after one element is removed.
pub proof fn lemma_remove_contains<T>(s: Seq<T>, k: int, x: T)
    requires
        s.no_duplicates(),
        0 <= k < s.len(),
    ensures
        s.remove(k).contains(x) <==> (s.contains(x) && x != s[k]),
        s.remove(k).no_duplicates(),
        s.remove(k).len() == s.len() - 1,
{
    let t = s.remove(k);
    assert forall|i: int| 0 <= i < t.len() implies #[trigger] t[i] == (if i < k {
        s[i]
    } else {
        s[i + 1]
    }) by {}
    if s.contains(x) && x != s[k] {
        let i = choose|i: int| 0 <= i < s.len() && s[i] == x;
        if i < k {
            assert(t[i] == x);
        } else {
            assert(t[i - 1] == x);
        }
    }
    if t.contains(x) {
        let i = choose|i: int| 0 <= i < t.len() && t[i] == x;
        if i < k {
            assert(s[i] == x);
        } else {
            assert(s[i + 1] == x);
        }
    }
}

} // verus!
