//! The identifier collector: every identifier that a document names.

use vstd::prelude::*;
use crate::decimal::{decimal, u64_to_decimal};
use crate::json::{
    has_partner_in,
    has_partner_of,
    keys_unique,
    lemma_child_depth,
    lemma_lookup_finds,
    lemma_lookup_unique,
    lookup,
    same_but_key_order,
    JsonTree,
    JsonValue,
    NestingTooDeep,
    MAX_DEPTH,
};
use crate::playtime::id_key;

verus! {

/// A set of identifiers, each held once.
#[derive(Debug)]
pub struct IdentifierSet {
    ids: Vec<String>,
}

/// The set of the texts that `ids` holds.
pub open spec fn text_set(ids: Seq<String>) -> Set<Seq<char>> {
    Set::new(|id: Seq<char>| exists|i: int| 0 <= i < ids.len() && ids[i]@ == id)
}

/// Whether no two entries of `ids` hold the same text.
pub open spec fn texts_differ(ids: Seq<String>) -> bool {
    forall|i: int, j: int| 0 <= i < j < ids.len() ==> ids[i]@ != ids[j]@
}

/// A list of pairwise different texts has as many entries as its set has
/// members.
pub proof fn lemma_text_set_len(ids: Seq<String>)
    requires
        texts_differ(ids),
    ensures
        text_set(ids).finite(),
        text_set(ids).len() == ids.len(),
    decreases ids.len(),
{
    if ids.len() == 0 {
        assert(text_set(ids) =~= Set::<Seq<char>>::empty());
    } else {
        let front = ids.drop_last();
        let last = ids.last()@;
        lemma_text_set_len(front);
        assert(text_set(ids) =~= text_set(front).insert(last)) by {
            assert forall|id: Seq<char>| text_set(ids).contains(id) == text_set(front).insert(
                last,
            ).contains(id) by {
                if text_set(ids).contains(id) {
                    let i = choose|i: int| 0 <= i < ids.len() && ids[i]@ == id;
                    if i < front.len() {
                        assert(front[i]@ == id);
                    }
                }
                if text_set(front).contains(id) {
                    let i = choose|i: int| 0 <= i < front.len() && front[i]@ == id;
                    assert(ids[i]@ == id);
                }
                if id == last {
                    assert(ids[ids.len() - 1]@ == id);
                }
            }
        }
        assert(!text_set(front).contains(last)) by {
            if text_set(front).contains(last) {
                let i = choose|i: int| 0 <= i < front.len() && front[i]@ == last;
                assert(ids[i]@ == ids[ids.len() - 1]@);
            }
        }
    }
}

impl View for IdentifierSet {
    type V = Set<Seq<char>>;

    closed spec fn view(&self) -> Set<Seq<char>> {
        text_set(self.ids@)
    }
}

impl IdentifierSet {
    /// No identifier is held twice.
    #[verifier::type_invariant]
    closed spec fn held_once(&self) -> bool {
        texts_differ(self.ids@)
    }

    /// The empty set.
    pub fn new() -> (set: IdentifierSet)
        ensures
            set@ == Set::<Seq<char>>::empty(),
    {
        let set = IdentifierSet { ids: Vec::new() };
        assert(set@ =~= Set::<Seq<char>>::empty());
        set
    }

    /// Number of identifiers held.
    pub fn len(&self) -> (n: usize)
        ensures
            self@.finite(),
            n == self@.len(),
    {
        proof {
            use_type_invariant(self);
            lemma_text_set_len(self.ids@);
        }
        self.ids.len()
    }

    /// Whether the set holds no identifier.
    pub fn is_empty(&self) -> (r: bool)
        ensures
            r == (self@ == Set::<Seq<char>>::empty()),
    {
        proof {
            if self.ids.len() > 0 {
                assert(self@.contains(self.ids[0]@));
            } else {
                assert(self@ =~= Set::<Seq<char>>::empty());
            }
        }
        self.ids.len() == 0
    }

    /// Whether `id` is held.
    pub fn contains(&self, id: &str) -> (r: bool)
        ensures
            r == self@.contains(id@),
    {
        let mut i: usize = 0;
        while i < self.ids.len()
            invariant
                i <= self.ids.len(),
                forall|j: int| 0 <= j < i ==> self.ids[j]@ != id@,
            decreases self.ids.len() - i,
        {
            if crate::text::same_text(self.ids[i].as_str(), id) {
                return true;
            }
            i += 1;
        }
        false
    }

    /// Adds `id`; says whether it was new.
    pub fn insert(&mut self, id: String) -> (added: bool)
        ensures
            final(self)@ == old(self)@.insert(id@),
            added == !old(self)@.contains(id@),
    {
        proof {
            use_type_invariant(&*self);
        }
        if self.contains(id.as_str()) {
            assert(self@ =~= self@.insert(id@));
            false
        } else {
            let ghost before = self.ids@;
            let mut ids: Vec<String> = Vec::new();
            std::mem::swap(&mut self.ids, &mut ids);
            ids.push(id);
            self.ids = ids;
            assert(self@ =~= old(self)@.insert(id@)) by {
                assert forall|other: Seq<char>| self@.contains(other) == old(self)@.insert(
                    id@,
                ).contains(other) by {
                    if self@.contains(other) {
                        let i = choose|i: int| 0 <= i < self.ids.len() && self.ids[i]@ == other;
                        if i < before.len() {
                            assert(before[i]@ == other);
                        }
                    }
                    if old(self)@.contains(other) {
                        let i = choose|i: int| 0 <= i < before.len() && before[i]@ == other;
                        assert(self.ids[i]@ == other);
                    }
                    if other == id@ {
                        assert(self.ids[before.len() as int]@ == other);
                    }
                }
            }
            true
        }
    }

    /// The identifiers as a list, each once, in no order that callers may
    /// rely on.
    pub fn to_vec(&self) -> (list: Vec<String>)
        ensures
            texts_differ(list@),
            text_set(list@) == self@,
    {
        proof {
            use_type_invariant(self);
        }
        let mut list: Vec<String> = Vec::new();
        let mut i: usize = 0;
        while i < self.ids.len()
            invariant
                i <= self.ids.len(),
                list@.len() == i,
                forall|j: int| 0 <= j < i ==> list@[j]@ == self.ids[j]@,
            decreases self.ids.len() - i,
        {
            list.push(self.ids[i].clone());
            i += 1;
        }
        assert(text_set(list@) =~= self@) by {
            assert forall|id: Seq<char>| text_set(list@).contains(id) == self@.contains(id) by {
                if text_set(list@).contains(id) {
                    let j = choose|j: int| 0 <= j < list@.len() && list@[j]@ == id;
                    assert(self.ids[j]@ == id);
                }
                if self@.contains(id) {
                    let j = choose|j: int| 0 <= j < self.ids.len() && self.ids[j]@ == id;
                    assert(list@[j]@ == id);
                }
            }
        }
        list
    }
}

/// The legacy key of an identifier field.
pub open spec fn legacy_id_key() -> Seq<char> {
    "app_id"@
}

/// The identifier under `key` of an object: the numeral of an unsigned
/// number; none for a missing field or any other value.
pub open spec fn field_identifier(entries: Seq<(Seq<char>, JsonTree)>, key: Seq<char>) -> Set<
    Seq<char>,
> {
    match lookup(entries, key) {
        Some(JsonTree::Number(n)) => match n.as_u64() {
            Some(id) => set![decimal(id as nat)],
            None => Set::empty(),
        },
        _ => Set::empty(),
    }
}

/// The identifiers that the node `tree` itself names, under either key.
pub open spec fn own_identifiers(tree: JsonTree) -> Set<Seq<char>> {
    match tree {
        JsonTree::Object(entries) => field_identifier(entries, id_key()).union(
            field_identifier(entries, legacy_id_key()),
        ),
        _ => Set::empty(),
    }
}

/// Every identifier that `tree` names, at any depth.
pub open spec fn identifiers(tree: JsonTree) -> Set<Seq<char>>
    decreases tree, tree.child_count() + 1,
{
    own_identifiers(tree).union(identifiers_among(tree, tree.child_count()))
}

/// The identifiers that the first `n` children of `tree` name.
pub open spec fn identifiers_among(tree: JsonTree, n: nat) -> Set<Seq<char>>
    decreases tree, n,
{
    if n == 0 || n > tree.child_count() {
        Set::empty()
    } else {
        identifiers_among(tree, (n - 1) as nat).union(identifiers(tree.child(n - 1)))
    }
}

/// Whether some object in `tree`, at any depth, holds `id` as an unsigned
/// number under one of the two identifier keys.
pub open spec fn names_identifier(tree: JsonTree, id: Seq<char>) -> bool
    decreases tree,
{
    own_identifiers(tree).contains(id) || exists|i: int|
        0 <= i < tree.child_count() && names_identifier(#[trigger] tree.child(i), id)
}

/// The identifiers of the first `n` children are those that one of these
/// children names.
pub proof fn lemma_identifiers_among(tree: JsonTree, n: nat, id: Seq<char>)
    requires
        n <= tree.child_count(),
    ensures
        identifiers_among(tree, n).contains(id) == exists|i: int|
            0 <= i < n && names_identifier(#[trigger] tree.child(i), id),
    decreases tree, n,
{
    if n > 0 {
        lemma_identifiers_among(tree, (n - 1) as nat, id);
        lemma_identifiers_are_named(tree.child(n - 1), id);
        if identifiers_among(tree, n).contains(id) {
            if identifiers_among(tree, (n - 1) as nat).contains(id) {
                let i = choose|i: int|
                    0 <= i < n - 1 && names_identifier(#[trigger] tree.child(i), id);
                assert(0 <= i < n && names_identifier(tree.child(i), id));
            } else {
                assert(names_identifier(tree.child(n - 1), id));
            }
        }
        if exists|i: int| 0 <= i < n && names_identifier(#[trigger] tree.child(i), id) {
            let i = choose|i: int| 0 <= i < n && names_identifier(#[trigger] tree.child(i), id);
            if i < n - 1 {
                assert(0 <= i < n - 1 && names_identifier(tree.child(i), id));
            }
        }
    }
}

/// The identifiers of a document are exactly those that some object in it
/// holds in an identifier field: nothing else gets into the set, and no such
/// field is passed over.
pub proof fn lemma_identifiers_are_named(tree: JsonTree, id: Seq<char>)
    ensures
        identifiers(tree).contains(id) == names_identifier(tree, id),
    decreases tree, tree.child_count() + 1,
{
    lemma_identifiers_among(tree, tree.child_count(), id);
}

/// A document without any identifier field has no identifiers.
pub proof fn lemma_no_field_no_identifier(tree: JsonTree)
    requires
        forall|id: Seq<char>| !names_identifier(tree, id),
    ensures
        identifiers(tree) == Set::<Seq<char>>::empty(),
{
    assert forall|id: Seq<char>| !identifiers(tree).contains(id) by {
        lemma_identifiers_are_named(tree, id);
    }
    assert(identifiers(tree) =~= Set::<Seq<char>>::empty());
}

/// Two lists of entries that differ in order only give the same identifier
/// under a key.
proof fn lemma_field_ignores_order(
    left: Seq<(Seq<char>, JsonTree)>,
    right: Seq<(Seq<char>, JsonTree)>,
    key: Seq<char>,
)
    requires
        keys_unique(JsonTree::Object(left)),
        keys_unique(JsonTree::Object(right)),
        same_but_key_order(JsonTree::Object(left), JsonTree::Object(right)),
    ensures
        field_identifier(left, key) == field_identifier(right, key),
{
    lemma_lookup_finds(left, key);
    lemma_lookup_finds(right, key);
    let a = JsonTree::Object(left);
    let b = JsonTree::Object(right);
    assert(same_but_key_order(a, b));
    assert(a->Object_0 == left && b->Object_0 == right);
    match lookup(left, key) {
        Some(value) => {
            let i = choose|i: int|
                0 <= i < left.len() && (#[trigger] left[i]).0 == key && left[i].1 == value;
            assert(has_partner_in(left[i], right));
            let j = choose|j: int|
                0 <= j < right.len() && (#[trigger] right[j]).0 == left[i].0
                    && same_but_key_order(left[i].1, right[j].1);
            lemma_lookup_unique(right, key, j);
        },
        None => {
            match lookup(right, key) {
                Some(value) => {
                    let j = choose|j: int|
                        0 <= j < right.len() && (#[trigger] right[j]).0 == key && right[j].1
                            == value;
                    assert(has_partner_of(left, right[j]));
                    let i = choose|i: int|
                        0 <= i < left.len() && (#[trigger] left[i]).0 == right[j].0
                            && same_but_key_order(left[i].1, right[j].1);
                    assert(left[i].0 == key);
                },
                None => {},
            }
        },
    }
}

/// Documents that differ only in the order of the entries of their objects
/// name the same identifiers.
pub proof fn lemma_names_ignore_key_order(a: JsonTree, b: JsonTree, id: Seq<char>)
    requires
        keys_unique(a),
        keys_unique(b),
        same_but_key_order(a, b),
    ensures
        names_identifier(a, id) == names_identifier(b, id),
    decreases a,
{
    match a {
        JsonTree::Object(left) => {
            let right = b->Object_0;
            lemma_field_ignores_order(left, right, id_key());
            lemma_field_ignores_order(left, right, legacy_id_key());
            if exists|i: int|
                0 <= i < a.child_count() && names_identifier(#[trigger] a.child(i), id) {
                let i = choose|i: int|
                    0 <= i < a.child_count() && names_identifier(#[trigger] a.child(i), id);
                assert(has_partner_in(left[i], right));
                let j = choose|j: int|
                    0 <= j < right.len() && (#[trigger] right[j]).0 == left[i].0
                        && same_but_key_order(left[i].1, right[j].1);
                lemma_names_ignore_key_order(left[i].1, right[j].1, id);
                assert(names_identifier(b.child(j), id));
            }
            if exists|j: int|
                0 <= j < b.child_count() && names_identifier(#[trigger] b.child(j), id) {
                let j = choose|j: int|
                    0 <= j < b.child_count() && names_identifier(#[trigger] b.child(j), id);
                assert(has_partner_of(left, right[j]));
                let i = choose|i: int|
                    0 <= i < left.len() && (#[trigger] left[i]).0 == right[j].0
                        && same_but_key_order(left[i].1, right[j].1);
                lemma_names_ignore_key_order(left[i].1, right[j].1, id);
                assert(names_identifier(a.child(i), id));
            }
        },
        JsonTree::Array(left) => {
            let right = b->Array_0;
            if exists|i: int|
                0 <= i < a.child_count() && names_identifier(#[trigger] a.child(i), id) {
                let i = choose|i: int|
                    0 <= i < a.child_count() && names_identifier(#[trigger] a.child(i), id);
                lemma_names_ignore_key_order(left[i], right[i], id);
                assert(names_identifier(b.child(i), id));
            }
            if exists|j: int|
                0 <= j < b.child_count() && names_identifier(#[trigger] b.child(j), id) {
                let j = choose|j: int|
                    0 <= j < b.child_count() && names_identifier(#[trigger] b.child(j), id);
                lemma_names_ignore_key_order(left[j], right[j], id);
                assert(names_identifier(a.child(j), id));
            }
        },
        _ => {},
    }
}

/// The identifiers of a document do not depend on the order in which its
/// objects list their entries.
pub proof fn lemma_identifiers_ignore_key_order(a: JsonTree, b: JsonTree)
    requires
        keys_unique(a),
        keys_unique(b),
        same_but_key_order(a, b),
    ensures
        identifiers(a) == identifiers(b),
{
    assert forall|id: Seq<char>| identifiers(a).contains(id) == identifiers(b).contains(id) by {
        lemma_identifiers_are_named(a, id);
        lemma_identifiers_are_named(b, id);
        lemma_names_ignore_key_order(a, b, id);
    }
    assert(identifiers(a) =~= identifiers(b));
}

/// Adds the identifier under `key` of the object `value`, if it names one.
fn insert_field(value: &JsonValue, key: &str, app_ids: &mut IdentifierSet)
    ensures
        value@ matches JsonTree::Object(entries) ==> final(app_ids)@ == old(app_ids)@.union(
            field_identifier(entries, key@),
        ),
        !(value@ is Object) ==> final(app_ids)@ == old(app_ids)@,
{
    match value.get(key) {
        Some(JsonValue::Number(n)) => match n.as_u64() {
            Some(id) => {
                app_ids.insert(u64_to_decimal(id));
                assert(app_ids@ =~= old(app_ids)@.union(set![decimal(id as nat)]));
            },
            None => {
                assert(app_ids@ =~= old(app_ids)@.union(Set::empty()));
            },
        },
        _ => {
            assert(app_ids@ =~= old(app_ids)@.union(Set::empty()));
        },
    }
}

/// Walks `value` and adds every identifier that it names to `app_ids`. The
/// walk goes as deep as `value` nests, so `value` must nest no deeper than
/// [`MAX_DEPTH`].
pub fn extract_app_ids_recursive(value: &JsonValue, app_ids: &mut IdentifierSet)
    requires
        value@.depth() <= MAX_DEPTH,
    ensures
        final(app_ids)@ == old(app_ids)@.union(identifiers(value@)),
    decreases value,
{
    let ghost before = app_ids@;
    match value {
        JsonValue::Object(entries) => {
            let ghost pairs = value@->Object_0;
            insert_field(value, "appid", app_ids);
            insert_field(value, "app_id", app_ids);
            assert(app_ids@ =~= before.union(own_identifiers(value@)));
            let mut i: usize = 0;
            while i < entries.len()
                invariant
                    i <= entries.len(),
                    value@ == JsonTree::Object(pairs),
                    value@.depth() <= MAX_DEPTH,
                    pairs.len() == entries.len(),
                    forall|j: int|
                        0 <= j < entries.len() ==> pairs[j] == (entries[j].0@, entries[j].1@),
                    forall|j: int| 0 <= j < entries.len() ==> decreases_to!(value => entries[j].1),
                    app_ids@ == before.union(own_identifiers(value@)).union(
                        identifiers_among(value@, i as nat),
                    ),
                decreases entries.len() - i,
            {
                proof {
                    lemma_child_depth(value@, i as int);
                }
                extract_app_ids_recursive(&entries[i].1, app_ids);
                i += 1;
                assert(app_ids@ =~= before.union(own_identifiers(value@)).union(
                    identifiers_among(value@, i as nat),
                ));
            }
            assert(app_ids@ =~= before.union(identifiers(value@)));
        },
        JsonValue::Array(items) => {
            let ghost elements = value@->Array_0;
            assert(app_ids@ =~= before.union(own_identifiers(value@)).union(
                identifiers_among(value@, 0),
            ));
            let mut i: usize = 0;
            while i < items.len()
                invariant
                    i <= items.len(),
                    value@ == JsonTree::Array(elements),
                    value@.depth() <= MAX_DEPTH,
                    elements.len() == items.len(),
                    forall|j: int| 0 <= j < items.len() ==> elements[j] == items[j]@,
                    forall|j: int| 0 <= j < items.len() ==> decreases_to!(value => items[j]),
                    app_ids@ == before.union(own_identifiers(value@)).union(
                        identifiers_among(value@, i as nat),
                    ),
                decreases items.len() - i,
            {
                proof {
                    lemma_child_depth(value@, i as int);
                }
                extract_app_ids_recursive(&items[i], app_ids);
                i += 1;
                assert(app_ids@ =~= before.union(own_identifiers(value@)).union(
                    identifiers_among(value@, i as nat),
                ));
            }
            assert(app_ids@ =~= before.union(identifiers(value@)));
        },
        _ => {
            assert(app_ids@ =~= before.union(identifiers(value@)));
        },
    }
}

/// Every identifier that a document names, under either key and at any
/// depth, each once.
///
/// A document that nests arrays and objects deeper than [`MAX_DEPTH`] is
/// refused; any other document is walked whole, whatever its shape.
pub fn extract_app_ids(value: &JsonValue) -> (r: Result<IdentifierSet, NestingTooDeep>)
    ensures
        match r {
            Ok(app_ids) => value@.depth() <= MAX_DEPTH && app_ids@ == identifiers(value@),
            Err(refusal) => value@.depth() > MAX_DEPTH && refusal.limit == MAX_DEPTH,
        },
{
    if !value.within_depth(MAX_DEPTH) {
        return Err(NestingTooDeep { limit: MAX_DEPTH });
    }
    let mut app_ids = IdentifierSet::new();
    extract_app_ids_recursive(value, &mut app_ids);
    assert(app_ids@ =~= identifiers(value@));
    Ok(app_ids)
}

} // verus!
