//! Text helpers: character access, prefixes, positions of separators.

use vstd::prelude::*;

verus! {

/// Position of the first `sep` in `s`, or the length of `s` if there is none.
pub open spec fn first_position(s: Seq<char>, sep: char) -> int
    decreases s.len(),
{
    if s.len() == 0 {
        0
    } else if s[0] == sep {
        0
    } else {
        1 + first_position(s.drop_first(), sep)
    }
}

/// Position just behind the last `sep` in `s`, or 0 if there is none.
pub open spec fn after_last(s: Seq<char>, sep: char) -> int
    decreases s.len(),
{
    if s.len() == 0 {
        0
    } else if s.last() == sep {
        s.len() as int
    } else {
        after_last(s.drop_last(), sep)
    }
}

/// `first_position` is the least index that holds `sep`.
pub proof fn lemma_first_position(s: Seq<char>, sep: char)
    ensures
        0 <= first_position(s, sep) <= s.len(),
        forall|i: int| 0 <= i < first_position(s, sep) ==> s[i] != sep,
        first_position(s, sep) < s.len() ==> s[first_position(s, sep)] == sep,
    decreases s.len(),
{
    if s.len() > 0 && s[0] != sep {
        let rest = s.drop_first();
        lemma_first_position(rest, sep);
        assert forall|i: int| 0 <= i < first_position(s, sep) implies s[i] != sep by {
            if i > 0 {
                assert(s[i] == rest[i - 1]);
            }
        }
    }
}

/// An index that holds `sep` with none before it is the first position.
pub proof fn lemma_first_position_is(s: Seq<char>, sep: char, at: int)
    requires
        0 <= at <= s.len(),
        forall|i: int| 0 <= i < at ==> s[i] != sep,
        at < s.len() ==> s[at] == sep,
    ensures
        first_position(s, sep) == at,
{
    lemma_first_position(s, sep);
}

/// `after_last` is behind the greatest index that holds `sep`.
pub proof fn lemma_after_last(s: Seq<char>, sep: char)
    ensures
        0 <= after_last(s, sep) <= s.len(),
        forall|i: int| after_last(s, sep) <= i < s.len() ==> s[i] != sep,
        after_last(s, sep) > 0 ==> s[after_last(s, sep) - 1] == sep,
    decreases s.len(),
{
    if s.len() > 0 && s.last() != sep {
        let front = s.drop_last();
        lemma_after_last(front, sep);
        assert forall|i: int| after_last(s, sep) <= i < s.len() implies s[i] != sep by {
            if i < front.len() {
                assert(s[i] == front[i]);
            }
        }
    }
}

/// A position behind a `sep` (or 0) with no `sep` from it on is `after_last`.
pub proof fn lemma_after_last_is(s: Seq<char>, sep: char, at: int)
    requires
        0 <= at <= s.len(),
        forall|i: int| at <= i < s.len() ==> s[i] != sep,
        at > 0 ==> s[at - 1] == sep,
    ensures
        after_last(s, sep) == at,
{
    lemma_after_last(s, sep);
}

/// The characters of `s`, in order.
pub fn to_chars(s: &str) -> (chars: Vec<char>)
    ensures
        chars@ == s@,
{
    let mut chars: Vec<char> = Vec::new();
    let all = s.chars();
    for c in it: all
        invariant
            chars@ == it.seq().take(it.index()),
            it.seq() == s@,
    {
        chars.push(c);
    }
    chars
}

/// Whether `a` and `b` hold the same characters.
pub fn same_text(a: &str, b: &str) -> (r: bool)
    ensures
        r == (a@ == b@),
{
    let left = to_chars(a);
    let right = to_chars(b);
    if left.len() != right.len() {
        return false;
    }
    let mut i: usize = 0;
    while i < left.len()
        invariant
            i <= left.len(),
            left.len() == right.len(),
            left@ == a@,
            right@ == b@,
            forall|j: int| 0 <= j < i ==> left@[j] == right@[j],
        decreases left.len() - i,
    {
        if left[i] != right[i] {
            return false;
        }
        i += 1;
    }
    assert(a@ =~= b@);
    true
}

/// Whether `s` begins with `prefix`.
pub fn starts_with(s: &str, prefix: &str) -> (r: bool)
    ensures
        r == prefix@.is_prefix_of(s@),
{
    let text = to_chars(s);
    let head = to_chars(prefix);
    if head.len() > text.len() {
        return false;
    }
    let mut i: usize = 0;
    while i < head.len()
        invariant
            i <= head.len() <= text.len(),
            text@ == s@,
            head@ == prefix@,
            forall|j: int| 0 <= j < i ==> text@[j] == head@[j],
        decreases head.len() - i,
    {
        if text[i] != head[i] {
            return false;
        }
        i += 1;
    }
    assert(prefix@ =~= s@.subrange(0, prefix@.len() as int));
    true
}

/// Index of the first `sep` in `chars` at or behind `from`, or the number
/// of `chars` if there is none.
pub(crate) fn find_first(chars: &Vec<char>, from: usize, sep: char) -> (at: usize)
    requires
        from <= chars.len(),
    ensures
        at == from + first_position(chars@.skip(from as int), sep),
        from <= at <= chars.len(),
{
    let ghost tail = chars@.skip(from as int);
    let mut i: usize = from;
    while i < chars.len()
        invariant
            from <= i <= chars.len(),
            tail == chars@.skip(from as int),
            forall|j: int| 0 <= j < i - from ==> tail[j] != sep,
        decreases chars.len() - i,
    {
        if chars[i] == sep {
            proof {
                lemma_first_position_is(tail, sep, i - from);
            }
            return i;
        }
        i += 1;
    }
    proof {
        lemma_first_position_is(tail, sep, i - from);
    }
    i
}

/// Index just behind the last `sep` among the first `end` of `chars`, or 0.
pub(crate) fn find_after_last(chars: &Vec<char>, end: usize, sep: char) -> (at: usize)
    requires
        end <= chars.len(),
    ensures
        at == after_last(chars@.take(end as int), sep),
{
    let ghost head = chars@.take(end as int);
    let mut i: usize = end;
    while i > 0
        invariant
            i <= end <= chars.len(),
            head == chars@.take(end as int),
            forall|j: int| i <= j < end ==> chars@[j] != sep,
        decreases i,
    {
        if chars[i - 1] == sep {
            proof {
                lemma_after_last_is(head, sep, i as int);
            }
            return i;
        }
        i -= 1;
    }
    proof {
        lemma_after_last_is(head, sep, 0);
    }
    0
}

} // verus!
