//! The document model: JSON values and their mathematical view.

use vstd::prelude::*;
use crate::text::same_text;

verus! {

/// A JSON number as the document holds it.
#[derive(Debug, PartialEq, Eq)]
pub enum JsonNumber {
    /// A non-negative integer.
    Unsigned(u64),
    /// A negative integer.
    Negative(i64),
    /// Any other number, kept as its decimal text.
    Real(String),
}

/// A JSON value. Documents are only read, never changed.
#[derive(Debug, PartialEq, Eq)]
pub enum JsonValue {
    Null,
    Bool(bool),
    Number(JsonNumber),
    Text(String),
    Array(Vec<JsonValue>),
    /// Key/value pairs; the keys of one object are pairwise different.
    Object(Vec<(String, JsonValue)>),
}

/// The deepest nesting of arrays and objects that the extraction walks.
pub const MAX_DEPTH: usize = 128;

/// A document nests arrays and objects deeper than the extraction walks.
#[derive(Clone, Copy, Debug, PartialEq, Eq)]
pub struct NestingTooDeep {
    /// The nesting depth that the document exceeds.
    pub limit: usize,
}

/// Mathematical view of a [`JsonNumber`].
pub enum NumberModel {
    Unsigned(u64),
    Negative(i64),
    Real(Seq<char>),
}

/// Mathematical view of a [`JsonValue`].
pub enum JsonTree {
    Null,
    Bool(bool),
    Number(NumberModel),
    Text(Seq<char>),
    Array(Seq<JsonTree>),
    Object(Seq<(Seq<char>, JsonTree)>),
}

impl View for JsonNumber {
    type V = NumberModel;

    open spec fn view(&self) -> NumberModel {
        match self {
            JsonNumber::Unsigned(n) => NumberModel::Unsigned(*n),
            JsonNumber::Negative(n) => NumberModel::Negative(*n),
            JsonNumber::Real(text) => NumberModel::Real(text@),
        }
    }
}

/// The views of the elements of an array, in order.
pub open spec fn items_view(items: Vec<JsonValue>) -> Seq<JsonTree>
    decreases items, 0nat,
{
    Seq::new(
        items.len() as nat,
        |i: int|
            if 0 <= i < items.len() {
                tree_of(items[i])
            } else {
                JsonTree::Null
            },
    )
}

/// The views of the entries of an object, in order.
pub open spec fn entries_view(entries: Vec<(String, JsonValue)>) -> Seq<(Seq<char>, JsonTree)>
    decreases entries, 0nat,
{
    Seq::new(
        entries.len() as nat,
        |i: int|
            if 0 <= i < entries.len() {
                (entries[i].0@, tree_of(entries[i].1))
            } else {
                (Seq::empty(), JsonTree::Null)
            },
    )
}

/// The mathematical tree that `value` stands for.
pub open spec fn tree_of(value: JsonValue) -> JsonTree
    decreases value, 1nat,
{
    match value {
        JsonValue::Null => JsonTree::Null,
        JsonValue::Bool(b) => JsonTree::Bool(b),
        JsonValue::Number(n) => JsonTree::Number(n@),
        JsonValue::Text(s) => JsonTree::Text(s@),
        JsonValue::Array(items) => JsonTree::Array(items_view(items)),
        JsonValue::Object(entries) => JsonTree::Object(entries_view(entries)),
    }
}

impl View for JsonValue {
    type V = JsonTree;

    open spec fn view(&self) -> JsonTree {
        tree_of(*self)
    }
}

impl NumberModel {
    /// The number as an unsigned 64-bit integer, if it is one.
    pub open spec fn as_u64(self) -> Option<u64> {
        match self {
            NumberModel::Unsigned(n) => Some(n),
            _ => None,
        }
    }

    /// The number as a signed 64-bit integer, if it is one.
    pub open spec fn as_i64(self) -> Option<i64> {
        match self {
            NumberModel::Unsigned(n) => if n <= i64::MAX {
                Some(n as i64)
            } else {
                None
            },
            NumberModel::Negative(n) => Some(n),
            NumberModel::Real(_) => None,
        }
    }
}

/// The value of the first entry of `entries` whose key is `key`.
pub open spec fn lookup(entries: Seq<(Seq<char>, JsonTree)>, key: Seq<char>) -> Option<JsonTree>
    decreases entries.len(),
{
    if entries.len() == 0 {
        None
    } else if entries[0].0 == key {
        Some(entries[0].1)
    } else {
        lookup(entries.drop_first(), key)
    }
}

impl JsonTree {
    /// Whether the value is an array or an object.
    pub open spec fn is_container(self) -> bool {
        self is Array || self is Object
    }

    /// Number of elements of an array or of entries of an object; 0 otherwise.
    pub open spec fn child_count(self) -> nat {
        match self {
            JsonTree::Array(items) => items.len(),
            JsonTree::Object(entries) => entries.len(),
            _ => 0,
        }
    }

    /// The element or the entry's value at position `i`.
    pub open spec fn child(self, i: int) -> JsonTree {
        match self {
            JsonTree::Array(items) => items[i],
            JsonTree::Object(entries) => entries[i].1,
            _ => JsonTree::Null,
        }
    }

    /// The value under `key`, if this is an object that has the key.
    pub open spec fn get(self, key: Seq<char>) -> Option<JsonTree> {
        match self {
            JsonTree::Object(entries) => lookup(entries, key),
            _ => None,
        }
    }

    /// The value as an unsigned 64-bit integer, if it is such a number.
    pub open spec fn as_u64(self) -> Option<u64> {
        match self {
            JsonTree::Number(n) => n.as_u64(),
            _ => None,
        }
    }

    /// How deep arrays and objects nest: 0 for a scalar, and for an array or
    /// object one more than the deepest of its children.
    pub open spec fn depth(self) -> nat
        decreases self, self.child_count() + 1,
    {
        if self.is_container() {
            1 + self.depth_among(self.child_count())
        } else {
            0
        }
    }

    /// The greatest depth among the first `n` children.
    pub open spec fn depth_among(self, n: nat) -> nat
        decreases self, n,
    {
        if n == 0 || n > self.child_count() {
            0
        } else {
            let before = self.depth_among((n - 1) as nat);
            let here = self.child(n - 1).depth();
            if before >= here {
                before
            } else {
                here
            }
        }
    }
}

impl JsonNumber {
    /// The number as an unsigned 64-bit integer, if it is one.
    pub fn as_u64(&self) -> (r: Option<u64>)
        ensures
            r == self@.as_u64(),
    {
        match self {
            JsonNumber::Unsigned(n) => Some(*n),
            _ => None,
        }
    }

    /// The number as a signed 64-bit integer, if it is one.
    pub fn as_i64(&self) -> (r: Option<i64>)
        ensures
            r == self@.as_i64(),
    {
        match self {
            JsonNumber::Unsigned(n) => if *n <= 0x7fff_ffff_ffff_ffffu64 {
                Some(*n as i64)
            } else {
                None
            },
            JsonNumber::Negative(n) => Some(*n),
            JsonNumber::Real(_) => None,
        }
    }
}

/// Whether the keys of every object in `tree` are pairwise different.
pub open spec fn keys_unique(tree: JsonTree) -> bool
    decreases tree,
{
    match tree {
        JsonTree::Object(entries) => {
            &&& forall|i: int, j: int|
                0 <= i < j < entries.len() ==> (#[trigger] entries[i]).0 != (#[trigger] entries[j]).0
            &&& forall|i: int| 0 <= i < entries.len() ==> keys_unique((#[trigger] entries[i]).1)
        },
        JsonTree::Array(items) => forall|i: int|
            0 <= i < items.len() ==> keys_unique(#[trigger] items[i]),
        _ => true,
    }
}

/// Whether `others` holds an entry with the key of `entry` and a value
/// that is the value of `entry` but for the order of entries.
pub open spec fn has_partner_in(
    entry: (Seq<char>, JsonTree),
    others: Seq<(Seq<char>, JsonTree)>,
) -> bool
    decreases entry,
{
    exists|j: int|
        0 <= j < others.len() && (#[trigger] others[j]).0 == entry.0 && same_but_key_order(
            entry.1,
            others[j].1,
        )
}

/// Whether `entries` holds an entry with the key of `other` and a value
/// that is the value of `other` but for the order of entries.
pub open spec fn has_partner_of(
    entries: Seq<(Seq<char>, JsonTree)>,
    other: (Seq<char>, JsonTree),
) -> bool
    decreases entries,
{
    exists|i: int|
        0 <= i < entries.len() && (#[trigger] entries[i]).0 == other.0 && same_but_key_order(
            entries[i].1,
            other.1,
        )
}

/// Whether `a` and `b` are the same document but for the order in which
/// their objects list their entries.
pub open spec fn same_but_key_order(a: JsonTree, b: JsonTree) -> bool
    decreases a,
{
    match a {
        JsonTree::Object(left) => b matches JsonTree::Object(right) && {
            &&& forall|i: int| 0 <= i < left.len() ==> has_partner_in(#[trigger] left[i], right)
            &&& forall|j: int| 0 <= j < right.len() ==> has_partner_of(left, #[trigger] right[j])
        },
        JsonTree::Array(left) => b matches JsonTree::Array(right) && left.len() == right.len()
            && forall|i: int|
            0 <= i < left.len() ==> same_but_key_order(#[trigger] left[i], right[i]),
        _ => a == b,
    }
}

/// Looking a key up finds the first entry with that key, if there is one.
pub proof fn lemma_lookup_finds(entries: Seq<(Seq<char>, JsonTree)>, key: Seq<char>)
    ensures
        match lookup(entries, key) {
            Some(value) => exists|i: int|
                0 <= i < entries.len() && (#[trigger] entries[i]).0 == key && entries[i].1
                    == value,
            None => forall|i: int| 0 <= i < entries.len() ==> (#[trigger] entries[i]).0 != key,
        },
    decreases entries.len(),
{
    if entries.len() > 0 {
        if entries[0].0 == key {
            assert(entries[0].0 == key && entries[0].1 == lookup(entries, key)->0);
        } else {
            let rest = entries.drop_first();
            lemma_lookup_finds(rest, key);
            match lookup(rest, key) {
                Some(value) => {
                    let i = choose|i: int|
                        0 <= i < rest.len() && (#[trigger] rest[i]).0 == key && rest[i].1 == value;
                    assert(entries[i + 1] == rest[i]);
                },
                None => {
                    assert forall|i: int| 0 <= i < entries.len() implies (#[trigger] entries[i]).0
                        != key by {
                        if i > 0 {
                            assert(entries[i] == rest[i - 1]);
                        }
                    }
                },
            }
        }
    }
}

/// Among entries with pairwise different keys, looking a key up finds the
/// one entry that has it.
pub proof fn lemma_lookup_unique(entries: Seq<(Seq<char>, JsonTree)>, key: Seq<char>, at: int)
    requires
        0 <= at < entries.len(),
        entries[at].0 == key,
        forall|i: int, j: int|
            0 <= i < j < entries.len() ==> (#[trigger] entries[i]).0 != (#[trigger] entries[j]).0,
    ensures
        lookup(entries, key) == Some(entries[at].1),
{
    lemma_lookup_finds(entries, key);
    match lookup(entries, key) {
        Some(value) => {
            let i = choose|i: int|
                0 <= i < entries.len() && (#[trigger] entries[i]).0 == key && entries[i].1
                    == value;
            if i < at {
                assert(entries[i].0 != entries[at].0);
            } else if at < i {
                assert(entries[at].0 != entries[i].0);
            }
        },
        None => {
            assert(entries[at].0 != key);
        },
    }
}

/// Looking a key up in a list of entries skips entries with other keys.
pub proof fn lemma_lookup_skip(entries: Seq<(Seq<char>, JsonTree)>, key: Seq<char>, n: int)
    requires
        0 <= n <= entries.len(),
        forall|j: int| 0 <= j < n ==> entries[j].0 != key,
    ensures
        lookup(entries, key) == lookup(entries.skip(n), key),
    decreases n,
{
    if n == 0 {
        assert(entries.skip(0) =~= entries);
    } else {
        lemma_lookup_skip(entries, key, n - 1);
        let rest = entries.skip(n - 1);
        assert(rest[0] == entries[n - 1]);
        assert(rest.drop_first() =~= entries.skip(n));
    }
}

impl JsonValue {
    /// The value under `key`, if this is an object that has the key.
    pub fn get(&self, key: &str) -> (r: Option<&JsonValue>)
        ensures
            match r {
                Some(v) => self@.get(key@) == Some(v@),
                None => self@.get(key@) is None,
            },
    {
        match self {
            JsonValue::Object(entries) => {
                let ghost pairs = self@->Object_0;
                let mut i: usize = 0;
                while i < entries.len()
                    invariant
                        i <= entries.len(),
                        self@ == JsonTree::Object(pairs),
                        pairs.len() == entries.len(),
                        forall|j: int|
                            0 <= j < entries.len() ==> pairs[j] == (
                                entries[j].0@,
                                entries[j].1@,
                            ),
                        forall|j: int| 0 <= j < i ==> pairs[j].0 != key@,
                    decreases entries.len() - i,
                {
                    if same_text(entries[i].0.as_str(), key) {
                        proof {
                            lemma_lookup_skip(pairs, key@, i as int);
                            let rest = pairs.skip(i as int);
                            assert(rest.len() > 0);
                            assert(rest[0] == pairs[i as int]);
                            assert(lookup(rest, key@) == Some(rest[0].1));
                        }
                        return Some(&entries[i].1);
                    }
                    i += 1;
                }
                proof {
                    lemma_lookup_skip(pairs, key@, i as int);
                }
                None
            },
            _ => None,
        }
    }

    /// The value as an unsigned 64-bit integer, if it is such a number.
    pub fn as_u64(&self) -> (r: Option<u64>)
        ensures
            r == self@.as_u64(),
    {
        match self {
            JsonValue::Number(n) => n.as_u64(),
            _ => None,
        }
    }

    /// Whether no object in the value, at any depth, has a key twice.
    pub fn has_unique_keys(&self) -> (r: bool)
        ensures
            r == keys_unique(self@),
        decreases self,
    {
        match self {
            JsonValue::Array(items) => {
                let ghost trees = self@->Array_0;
                let mut i: usize = 0;
                while i < items.len()
                    invariant
                        i <= items.len(),
                        self@ == JsonTree::Array(trees),
                        trees.len() == items.len(),
                        forall|j: int| 0 <= j < items.len() ==> trees[j] == items[j]@,
                        forall|j: int| 0 <= j < items.len() ==> decreases_to!(self => items[j]),
                        forall|j: int| 0 <= j < i ==> keys_unique(#[trigger] trees[j]),
                    decreases items.len() - i,
                {
                    if !items[i].has_unique_keys() {
                        assert(!keys_unique(self@->Array_0[i as int]));
                        return false;
                    }
                    i += 1;
                }
                true
            },
            JsonValue::Object(entries) => {
                let ghost pairs = self@->Object_0;
                let mut i: usize = 0;
                while i < entries.len()
                    invariant
                        i <= entries.len(),
                        self@ == JsonTree::Object(pairs),
                        pairs.len() == entries.len(),
                        forall|j: int|
                            0 <= j < entries.len() ==> pairs[j] == (
                                entries[j].0@,
                                entries[j].1@,
                            ),
                        forall|j: int|
                            0 <= j < entries.len() ==> decreases_to!(self => entries[j].1),
                        forall|j: int| 0 <= j < i ==> keys_unique((#[trigger] pairs[j]).1),
                        forall|j: int, k: int|
                            0 <= j < k < i ==> (#[trigger] pairs[j]).0 != (#[trigger] pairs[k]).0,
                    decreases entries.len() - i,
                {
                    let mut k: usize = 0;
                    while k < i
                        invariant
                            k <= i < entries.len(),
                            self@ == JsonTree::Object(pairs),
                            pairs.len() == entries.len(),
                            forall|j: int|
                                0 <= j < entries.len() ==> pairs[j] == (
                                    entries[j].0@,
                                    entries[j].1@,
                                ),
                            forall|j: int| 0 <= j < k ==> (#[trigger] pairs[j]).0 != pairs[i as int].0,
                        decreases i - k,
                    {
                        if same_text(entries[k].0.as_str(), entries[i].0.as_str()) {
                            assert(self@->Object_0[k as int].0 == self@->Object_0[i as int].0);
                            return false;
                        }
                        assert(pairs[k as int].0 != pairs[i as int].0);
                        k += 1;
                    }
                    if !entries[i].1.has_unique_keys() {
                        assert(!keys_unique(self@->Object_0[i as int].1));
                        return false;
                    }
                    i += 1;
                }
                true
            },
            _ => true,
        }
    }

    /// Whether arrays and objects nest no deeper than `limit`.
    pub fn within_depth(&self, limit: usize) -> (r: bool)
        ensures
            r == (self@.depth() <= limit),
        decreases self,
    {
        match self {
            JsonValue::Array(items) => {
                if limit == 0 {
                    return false;
                }
                let mut i: usize = 0;
                while i < items.len()
                    invariant
                        i <= items.len(),
                        limit > 0,
                        self@.child_count() == items.len(),
                        forall|j: int| 0 <= j < items.len() ==> self@.child(j) == items[j]@,
                        forall|j: int| 0 <= j < items.len() ==> decreases_to!(self => items[j]),
                        self@.depth_among(i as nat) <= limit - 1,
                    decreases items.len() - i,
                {
                    if !items[i].within_depth(limit - 1) {
                        proof {
                            lemma_depth_among_grows(self@, (i + 1) as nat, self@.child_count());
                        }
                        return false;
                    }
                    i += 1;
                }
                true
            },
            JsonValue::Object(entries) => {
                if limit == 0 {
                    return false;
                }
                let mut i: usize = 0;
                while i < entries.len()
                    invariant
                        i <= entries.len(),
                        limit > 0,
                        self@.child_count() == entries.len(),
                        forall|j: int| 0 <= j < entries.len() ==> self@.child(j) == entries[j].1@,
                        forall|j: int|
                            0 <= j < entries.len() ==> decreases_to!(self => entries[j].1),
                        self@.depth_among(i as nat) <= limit - 1,
                    decreases entries.len() - i,
                {
                    if !entries[i].1.within_depth(limit - 1) {
                        proof {
                            lemma_depth_among_grows(self@, (i + 1) as nat, self@.child_count());
                        }
                        return false;
                    }
                    i += 1;
                }
                true
            },
            _ => true,
        }
    }
}

/// The greatest depth among more children is no smaller.
pub proof fn lemma_depth_among_grows(tree: JsonTree, n: nat, m: nat)
    requires
        n <= m <= tree.child_count(),
    ensures
        tree.depth_among(n) <= tree.depth_among(m),
    decreases m - n,
{
    if n < m {
        lemma_depth_among_grows(tree, n, (m - 1) as nat);
    }
}

/// A child nests less deep than the array or object that holds it.
pub proof fn lemma_child_depth(tree: JsonTree, i: int)
    requires
        0 <= i < tree.child_count(),
    ensures
        tree.child(i).depth() < tree.depth(),
{
    lemma_depth_among_grows(tree, (i + 1) as nat, tree.child_count());
}

} // verus!
