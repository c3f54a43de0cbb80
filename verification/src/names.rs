//! Display names: reading the answer of a lookup and keeping the table of
//! names found.

use vstd::prelude::*;
use vstd::string::StringExecFns;
use crate::document::{document_of, parse_document, ParseFailure};
use crate::emitter::{escape_field, escaped};
use crate::json::{JsonTree, JsonValue};
use crate::lexical::{lemma_text_order, text_before, text_rank, Rank};

verus! {

/// Milliseconds to wait between two lookups.
pub const LOOKUP_DELAY_MS: u64 = 1500;

/// The address that answers the lookup of `app_id`.
pub open spec fn lookup_address(app_id: Seq<char>) -> Seq<char> {
    "https://store.steampowered.com/api/appdetails?appids="@ + app_id
}

/// The display name that the answer `data` gives for `app_id`: the text
/// under `name` in the `data` of the entry of `app_id`, where that entry
/// says `success` with `true`.
pub open spec fn game_name(data: JsonTree, app_id: Seq<char>) -> Option<Seq<char>> {
    match data.get(app_id) {
        Some(entry) => match (entry.get("success"@), entry.get("data"@)) {
            (Some(JsonTree::Bool(true)), Some(details)) => match details.get("name"@) {
                Some(JsonTree::Text(name)) => Some(name),
                _ => None,
            },
            _ => None,
        },
        None => None,
    }
}

/// Whether no identifier of `entries` comes twice and each stands before
/// the next in dictionary order.
pub open spec fn ids_ascending(entries: Seq<(Seq<char>, Seq<char>)>) -> bool {
    forall|i: int, j: int| 0 <= i < j < entries.len() ==> text_before(entries[i].0, entries[j].0)
}

/// Position of the first entry whose identifier does not stand before `id`.
pub open spec fn name_position(entries: Seq<(Seq<char>, Seq<char>)>, id: Seq<char>) -> int
    decreases entries.len(),
{
    if entries.len() == 0 || text_before(entries.last().0, id) {
        entries.len() as int
    } else {
        name_position(entries.drop_last(), id)
    }
}

/// The name that `entries` holds for `id`.
pub open spec fn name_of(entries: Seq<(Seq<char>, Seq<char>)>, id: Seq<char>) -> Option<
    Seq<char>,
> {
    let at = name_position(entries, id);
    if 0 <= at < entries.len() && entries[at].0 == id {
        Some(entries[at].1)
    } else {
        None
    }
}

/// `entries` with `name` as the name of `id`: in place of an earlier name
/// of `id`, or as a new entry at its place in the order.
pub open spec fn with_name(
    entries: Seq<(Seq<char>, Seq<char>)>,
    id: Seq<char>,
    name: Seq<char>,
) -> Seq<(Seq<char>, Seq<char>)> {
    let at = name_position(entries, id);
    if 0 <= at < entries.len() && entries[at].0 == id {
        entries.update(at, (id, name))
    } else {
        entries.insert(at, (id, name))
    }
}

/// The first line of the table of names.
pub open spec fn mapping_header() -> Seq<char> {
    "app_id,game\n"@
}

/// The line of one entry: the identifier, a comma, the name as a field.
pub open spec fn mapping_line(entry: (Seq<char>, Seq<char>)) -> Seq<char> {
    entry.0 + seq![','] + escaped(entry.1) + seq!['\n']
}

/// The lines of `entries`, one behind the other.
pub open spec fn mapping_lines(entries: Seq<(Seq<char>, Seq<char>)>) -> Seq<char>
    decreases entries.len(),
{
    if entries.len() == 0 {
        Seq::empty()
    } else {
        mapping_lines(entries.drop_last()) + mapping_line(entries.last())
    }
}

/// The table of names as text: the header, then one line per entry.
pub open spec fn mapping_text(entries: Seq<(Seq<char>, Seq<char>)>) -> Seq<char> {
    mapping_header() + mapping_lines(entries)
}

/// The name position lies behind every identifier that stands before `id`
/// and at or before every other one.
pub proof fn lemma_name_position(entries: Seq<(Seq<char>, Seq<char>)>, id: Seq<char>)
    requires
        ids_ascending(entries),
    ensures
        0 <= name_position(entries, id) <= entries.len(),
        forall|k: int| 0 <= k < name_position(entries, id) ==> text_before(entries[k].0, id),
        forall|k: int|
            name_position(entries, id) <= k < entries.len() ==> !text_before(entries[k].0, id),
    decreases entries.len(),
{
    if entries.len() > 0 {
        let front = entries.drop_last();
        assert(ids_ascending(front)) by {
            assert forall|i: int, j: int| 0 <= i < j < front.len() implies text_before(
                front[i].0,
                front[j].0,
            ) by {
                assert(front[i] == entries[i] && front[j] == entries[j]);
            }
        }
        if text_before(entries.last().0, id) {
            assert forall|k: int| 0 <= k < entries.len() implies text_before(
                entries[k].0,
                id,
            ) by {
                if k < entries.len() - 1 {
                    lemma_text_order(entries[k].0, entries.last().0, id);
                }
            }
        } else {
            lemma_name_position(front, id);
            assert forall|k: int| 0 <= k < name_position(entries, id) implies text_before(
                entries[k].0,
                id,
            ) by {
                assert(entries[k] == front[k]);
            }
            assert forall|k: int|
                name_position(entries, id) <= k < entries.len() implies !text_before(
                entries[k].0,
                id,
            ) by {
                if k < front.len() {
                    assert(entries[k] == front[k]);
                }
            }
        }
    }
}

/// A position with these two properties is the name position.
pub proof fn lemma_name_position_is(entries: Seq<(Seq<char>, Seq<char>)>, id: Seq<char>, at: int)
    requires
        0 <= at <= entries.len(),
        forall|k: int| at <= k < entries.len() ==> !text_before(entries[k].0, id),
        at > 0 ==> text_before(entries[at - 1].0, id),
    ensures
        name_position(entries, id) == at,
    decreases entries.len(),
{
    if entries.len() > 0 && !text_before(entries.last().0, id) {
        lemma_name_position_is(entries.drop_last(), id, at);
    }
}

/// Giving `id` a name keeps the table in order and removes no entry.
pub proof fn lemma_with_name_keeps_order(
    entries: Seq<(Seq<char>, Seq<char>)>,
    id: Seq<char>,
    name: Seq<char>,
)
    requires
        ids_ascending(entries),
    ensures
        ids_ascending(with_name(entries, id, name)),
        with_name(entries, id, name).len() >= entries.len(),
{
    let at = name_position(entries, id);
    let out = with_name(entries, id, name);
    lemma_name_position(entries, id);
    if !(at < entries.len() && entries[at].0 == id) {
        assert forall|i: int, j: int| 0 <= i < j < out.len() implies text_before(
            out[i].0,
            out[j].0,
        ) by {
            if i == at {
                lemma_text_order(entries[j - 1].0, id, id);
            }
        }
    }
}

/// Giving `id` a name makes `name` the name of `id` and leaves the name of
/// every other identifier as it was.
pub proof fn lemma_with_name(
    entries: Seq<(Seq<char>, Seq<char>)>,
    id: Seq<char>,
    name: Seq<char>,
    other: Seq<char>,
)
    requires
        ids_ascending(entries),
    ensures
        name_of(with_name(entries, id, name), id) == Some(name),
        other != id ==> name_of(with_name(entries, id, name), other) == name_of(entries, other),
{
    let at = name_position(entries, id);
    let was = name_position(entries, other);
    let out = with_name(entries, id, name);
    lemma_name_position(entries, id);
    lemma_name_position(entries, other);
    lemma_with_name_keeps_order(entries, id, name);
    let replaced = at < entries.len() && entries[at].0 == id;
    lemma_text_order(id, other, id);
    assert(name_position(out, id) == at) by {
        assert forall|k: int| at <= k < out.len() implies !text_before(out[k].0, id) by {
            if k > at && !replaced {
                assert(out[k] == entries[k - 1]);
            } else if k > at {
                assert(out[k].0 == entries[k].0);
            } else {
                lemma_text_order(id, id, id);
            }
        }
        if at > 0 {
            assert(out[at - 1] == entries[at - 1]);
        }
        lemma_name_position_is(out, id, at);
    }
    if other != id {
        let shift: int = if !replaced && (was > at || (was == at && text_before(id, other))) {
            1
        } else {
            0
        };
        assert(name_position(out, other) == was + shift) by {
            assert forall|k: int| was + shift <= k < out.len() implies !text_before(
                out[k].0,
                other,
            ) by {
                if replaced || k < at {
                    assert(out[k].0 == entries[k].0);
                } else if k > at {
                    assert(out[k] == entries[k - 1]);
                } else if was < at {
                    lemma_text_order(entries[was].0, id, other);
                }
            }
            if was + shift > 0 {
                let k = was + shift - 1;
                if replaced || k < at {
                    assert(out[k].0 == entries[k].0);
                } else if k > at {
                    assert(out[k] == entries[k - 1]);
                } else if was < at {
                    lemma_text_order(entries[was].0, id, other);
                    lemma_text_order(other, entries[was].0, id);
                }
            }
            lemma_name_position_is(out, other, was + shift);
        }
        if was < entries.len() && entries[was].0 == other {
            if replaced || was < at {
                assert(out[was + shift] == entries[was]);
            } else {
                assert(out[was + shift] == entries[was]);
            }
        } else if was + shift < out.len() {
            let k = was + shift;
            if replaced || k < at {
                assert(out[k].0 == entries[k].0);
            } else if k > at {
                assert(out[k] == entries[k - 1]);
            }
        }
    }
}

/// The views of a list of entries, in order.
pub open spec fn entry_models(entries: Seq<(String, String)>) -> Seq<(Seq<char>, Seq<char>)> {
    Seq::new(entries.len(), |i: int| (entries[i].0@, entries[i].1@))
}

/// The display names found so far, by identifier. Names are added or
/// replaced, never removed. Its view lists the entries in dictionary order
/// of their identifiers.
#[derive(Debug)]
pub struct IdToNameTable {
    entries: Vec<(String, String)>,
}

impl View for IdToNameTable {
    type V = Seq<(Seq<char>, Seq<char>)>;

    closed spec fn view(&self) -> Seq<(Seq<char>, Seq<char>)> {
        entry_models(self.entries@)
    }
}

impl IdToNameTable {
    /// The entries stand in order of their identifiers.
    #[verifier::type_invariant]
    closed spec fn in_order(&self) -> bool {
        ids_ascending(entry_models(self.entries@))
    }

    /// The empty table.
    pub fn new() -> (table: IdToNameTable)
        ensures
            table@ == Seq::<(Seq<char>, Seq<char>)>::empty(),
    {
        let table = IdToNameTable { entries: Vec::new() };
        assert(table@ =~= Seq::<(Seq<char>, Seq<char>)>::empty());
        table
    }

    /// Number of identifiers that have a name.
    pub fn len(&self) -> (n: usize)
        ensures
            n == self@.len(),
            ids_ascending(self@),
    {
        proof {
            use_type_invariant(self);
        }
        self.entries.len()
    }

    /// Index of the first entry whose identifier does not stand before
    /// `id`, and whether that entry is the one of `id`.
    fn locate(&self, id: &str) -> (r: (usize, bool))
        ensures
            ids_ascending(self@),
            r.0 == name_position(self@, id@),
            r.0 <= self@.len(),
            r.1 == (r.0 < self@.len() && self@[r.0 as int].0 == id@),
    {
        proof {
            use_type_invariant(self);
        }
        let ghost entries = self@;
        let mut at: usize = self.entries.len();
        let mut same = false;
        while at > 0
            invariant
                at <= self.entries.len(),
                entries == self@,
                ids_ascending(entries),
                entries.len() == self.entries.len(),
                forall|k: int| at <= k < entries.len() ==> !text_before(entries[k].0, id@),
                same == (at < entries.len() && entries[at as int].0 == id@),
            decreases at,
        {
            let rank = text_rank(self.entries[at - 1].0.as_str(), id);
            assert(entries[at - 1].0 == self.entries[at - 1].0@);
            match rank {
                Rank::Before => {
                    proof {
                        lemma_name_position_is(entries, id@, at as int);
                    }
                    return (at, same);
                },
                Rank::Same => {
                    same = true;
                },
                Rank::After => {
                    same = false;
                },
            }
            at -= 1;
        }
        proof {
            lemma_name_position_is(entries, id@, 0);
        }
        (at, same)
    }

    /// The name of `id`, if it has one.
    pub fn get(&self, id: &str) -> (r: Option<&str>)
        ensures
            ids_ascending(self@),
            match r {
                Some(name) => name_of(self@, id@) == Some(name@),
                None => name_of(self@, id@) is None,
            },
    {
        let (at, same) = self.locate(id);
        if same {
            Some(self.entries[at].1.as_str())
        } else {
            None
        }
    }

    /// Makes `name` the name of `id`, in place of any earlier name.
    pub fn insert(&mut self, id: String, name: String)
        ensures
            final(self)@ == with_name(old(self)@, id@, name@),
            ids_ascending(old(self)@),
            ids_ascending(final(self)@),
    {
        let (at, same) = self.locate(id.as_str());
        proof {
            lemma_with_name_keeps_order(self@, id@, name@);
        }
        let ghost before = self@;
        let mut entries: Vec<(String, String)> = Vec::new();
        std::mem::swap(&mut self.entries, &mut entries);
        assert(entry_models(entries@) == before);
        if same {
            entries.remove(at);
        }
        entries.insert(at, (id, name));
        assert(entry_models(entries@) =~= with_name(before, id@, name@));
        self.entries = entries;
    }

    /// The table of names as CSV text: the header, then one line per entry
    /// in dictionary order of the identifiers, each name written as a
    /// field.
    pub fn render_mapping(&self) -> (text: String)
        ensures
            text@ == mapping_text(self@),
            ids_ascending(self@),
    {
        proof {
            use_type_invariant(self);
        }
        let ghost entries = self@;
        let mut text = String::from_str("app_id,game\n");
        assert(text@ =~= mapping_header() + mapping_lines(entries.take(0)));
        let mut i: usize = 0;
        while i < self.entries.len()
            invariant
                i <= self.entries.len(),
                entries == self@,
                entries.len() == self.entries.len(),
                text@ == mapping_header() + mapping_lines(entries.take(i as int)),
            decreases self.entries.len() - i,
        {
            proof {
                reveal_strlit(",");
                reveal_strlit("\n");
            }
            text.append(self.entries[i].0.as_str());
            text.append(",");
            let name = escape_field(self.entries[i].1.as_str());
            text.append(name.as_str());
            text.append("\n");
            proof {
                let upto = entries.take(i + 1);
                assert(upto.drop_last() =~= entries.take(i as int));
                assert(upto.last() == (self.entries[i as int].0@, self.entries[i as int].1@));
                assert(text@ =~= mapping_header() + mapping_lines(upto));
            }
            i += 1;
        }
        assert(entries.take(i as int) =~= entries);
        text
    }
}

/// The address that answers the lookup of `app_id`.
pub fn lookup_url(app_id: &str) -> (url: String)
    ensures
        url@ == lookup_address(app_id@),
{
    let mut url = String::from_str("https://store.steampowered.com/api/appdetails?appids=");
    url.append(app_id);
    url
}

/// The display name that the answer `data` of a lookup gives for `app_id`.
pub fn read_game_name(data: &JsonValue, app_id: &str) -> (r: Option<String>)
    ensures
        match r {
            Some(name) => game_name(data@, app_id@) == Some(name@),
            None => game_name(data@, app_id@) is None,
        },
{
    match data.get(app_id) {
        Some(entry) => match (entry.get("success"), entry.get("data")) {
            (Some(JsonValue::Bool(true)), Some(details)) => match details.get("name") {
                Some(JsonValue::Text(name)) => Some(name.clone()),
                _ => None,
            },
            _ => None,
        },
        None => None,
    }
}

/// The display name that the body `body` of the answer of a lookup gives
/// for `app_id`. A body that gives no document is a failure; a body without
/// a name for `app_id` is `None`.
pub fn read_lookup_answer(body: &str, app_id: &str) -> (r: Result<Option<String>, ParseFailure>)
    ensures
        match r {
            Ok(Some(name)) => document_of(body@) matches Some(data) && game_name(data, app_id@)
                == Some(name@),
            Ok(None) => document_of(body@) matches Some(data) && game_name(data, app_id@) is None,
            Err(_) => document_of(body@) is None,
        },
{
    match parse_document(body) {
        Ok(data) => Ok(read_game_name(&data, app_id)),
        Err(failure) => Err(failure),
    }
}

} // verus!
