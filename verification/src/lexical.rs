//! Dictionary order of texts, by character code.

use vstd::prelude::*;
use crate::text::to_chars;

verus! {

/// Whether `a` stands before `b` in dictionary order: at the first place
/// where they differ `a` has the smaller character, or `a` ends there.
pub open spec fn text_before(a: Seq<char>, b: Seq<char>) -> bool
    decreases a.len(),
{
    if b.len() == 0 {
        false
    } else if a.len() == 0 {
        true
    } else if a[0] != b[0] {
        a[0] < b[0]
    } else {
        text_before(a.drop_first(), b.drop_first())
    }
}

/// How one text stands to another in dictionary order.
#[derive(Clone, Copy, Debug, PartialEq, Eq)]
pub enum Rank {
    Before,
    Same,
    After,
}

/// No text stands before itself, and of two texts at most one stands
/// before the other.
pub proof fn lemma_before_asymmetric(a: Seq<char>, b: Seq<char>)
    ensures
        !(text_before(a, b) && text_before(b, a)),
    decreases a.len(),
{
    if a.len() > 0 && b.len() > 0 && a[0] == b[0] {
        lemma_before_asymmetric(a.drop_first(), b.drop_first());
    }
}

/// Two texts of which neither stands before the other are the same text.
pub proof fn lemma_before_total(a: Seq<char>, b: Seq<char>)
    requires
        !text_before(a, b),
        !text_before(b, a),
    ensures
        a == b,
    decreases a.len(),
{
    if a.len() == 0 || b.len() == 0 {
        assert(a =~= b);
    } else {
        lemma_before_total(a.drop_first(), b.drop_first());
        assert(a =~= seq![a[0]] + a.drop_first());
        assert(b =~= seq![b[0]] + b.drop_first());
    }
}

/// Standing before is transitive.
pub proof fn lemma_before_transitive(a: Seq<char>, b: Seq<char>, c: Seq<char>)
    requires
        text_before(a, b),
        text_before(b, c),
    ensures
        text_before(a, c),
    decreases a.len(),
{
    if a.len() > 0 && b.len() > 0 && c.len() > 0 && a[0] == b[0] && b[0] == c[0] {
        lemma_before_transitive(a.drop_first(), b.drop_first(), c.drop_first());
    }
}

/// Dictionary order is a strict total order: of two different texts one
/// stands before the other, and the order is transitive.
pub proof fn lemma_text_order(a: Seq<char>, b: Seq<char>, c: Seq<char>)
    ensures
        !(text_before(a, b) && text_before(b, a)),
        text_before(a, b) || text_before(b, a) || a == b,
        text_before(a, b) && text_before(b, c) ==> text_before(a, c),
{
    lemma_before_asymmetric(a, b);
    if !text_before(a, b) && !text_before(b, a) {
        lemma_before_total(a, b);
    }
    if text_before(a, b) && text_before(b, c) {
        lemma_before_transitive(a, b, c);
    }
}

/// Texts that agree on their first `n` characters stand to each other as
/// what follows those characters does.
pub proof fn lemma_before_skips_common(a: Seq<char>, b: Seq<char>, n: int)
    requires
        0 <= n <= a.len(),
        n <= b.len(),
        forall|j: int| 0 <= j < n ==> a[j] == b[j],
    ensures
        text_before(a, b) == text_before(a.skip(n), b.skip(n)),
    decreases n,
{
    if n == 0 {
        assert(a.skip(0) =~= a);
        assert(b.skip(0) =~= b);
    } else {
        lemma_before_skips_common(a, b, n - 1);
        let x = a.skip(n - 1);
        let y = b.skip(n - 1);
        assert(x[0] == a[n - 1]);
        assert(y[0] == b[n - 1]);
        assert(x.drop_first() =~= a.skip(n));
        assert(y.drop_first() =~= b.skip(n));
    }
}

/// How `a` stands to `b` in dictionary order.
pub fn text_rank(a: &str, b: &str) -> (rank: Rank)
    ensures
        rank is Before <==> text_before(a@, b@),
        rank is Same <==> a@ == b@,
        rank is After <==> text_before(b@, a@),
{
    let left = to_chars(a);
    let right = to_chars(b);
    let mut i: usize = 0;
    while i < left.len() && i < right.len()
        invariant
            i <= left.len(),
            i <= right.len(),
            left@ == a@,
            right@ == b@,
            forall|j: int| 0 <= j < i ==> left@[j] == right@[j],
        decreases left.len() - i,
    {
        if left[i] != right[i] {
            proof {
                lemma_before_skips_common(left@, right@, i as int);
                lemma_before_skips_common(right@, left@, i as int);
                assert(left@.skip(i as int)[0] == left@[i as int]);
                assert(right@.skip(i as int)[0] == right@[i as int]);
            }
            if left[i] < right[i] {
                return Rank::Before;
            } else {
                return Rank::After;
            }
        }
        i += 1;
    }
    proof {
        lemma_before_skips_common(left@, right@, i as int);
        lemma_before_skips_common(right@, left@, i as int);
        lemma_before_asymmetric(a@, b@);
    }
    if i < right.len() {
        Rank::Before
    } else if i < left.len() {
        Rank::After
    } else {
        assert(a@ =~= b@);
        Rank::Same
    }
}

} // verus!
