//! The record extractor: play-time records and the sections they lie in.

use vstd::prelude::*;
use vstd::string::StringExecFns;
use crate::calendar::{format_month_from_timestamp, month_text};
use crate::decimal::{decimal, u64_to_decimal};
use crate::json::{lemma_child_depth, lookup, JsonTree, JsonValue, NestingTooDeep, MAX_DEPTH};
use crate::path::{joined, section_text, with_last_replaced, SectionPath};
use crate::section::{lemma_month_section_label, month_label, month_section, section_label};
use crate::text::same_text;

verus! {

/// One play-time measurement found in a document.
#[derive(Debug, PartialEq, Eq)]
pub struct MeasurementRecord {
    /// The identifier of the played item, as text.
    pub app_id: String,
    /// Seconds played; never 0.
    pub playtime_seconds: u64,
    /// The section the record lies in, dotted, or `unknown`.
    pub section: String,
}

/// Mathematical view of a [`MeasurementRecord`].
pub struct RecordModel {
    pub app_id: Seq<char>,
    pub playtime_seconds: u64,
    pub section: Seq<char>,
}

impl View for MeasurementRecord {
    type V = RecordModel;

    open spec fn view(&self) -> RecordModel {
        RecordModel {
            app_id: self.app_id@,
            playtime_seconds: self.playtime_seconds,
            section: self.section@,
        }
    }
}

/// The views of a list of records, in order.
pub open spec fn record_models(records: Seq<MeasurementRecord>) -> Seq<RecordModel> {
    Seq::new(records.len(), |i: int| records[i]@)
}

/// Key of the identifier field of a record.
pub open spec fn id_key() -> Seq<char> {
    "appid"@
}

/// Key of the statistics container of a record.
pub open spec fn stats_key() -> Seq<char> {
    "relative_game_stats"@
}

/// Key of the measurement inside the statistics container.
pub open spec fn playtime_key() -> Seq<char> {
    "total_playtime_seconds"@
}

/// Key of the timestamp that dates a month's object.
pub open spec fn month_time_key() -> Seq<char> {
    "rtime_month"@
}

/// Key of the array whose elements are the months of the period.
pub open spec fn months_key() -> Seq<char> {
    "months"@
}

/// What the placeholder segment of an element of the months array begins
/// with; the element's index follows.
pub open spec fn placeholder_prefix() -> Seq<char> {
    "month_"@
}

/// Whether `key` is one of the three keys that name a section.
pub open spec fn is_section_key(key: Seq<char>) -> bool {
    key == "games"@ || key == months_key() || key == "playtime_stats"@
}

/// Whether an object with these entries has the shape of a record: it holds
/// both an identifier field and a statistics container.
pub open spec fn is_match(entries: Seq<(Seq<char>, JsonTree)>) -> bool {
    lookup(entries, id_key()) is Some && lookup(entries, stats_key()) is Some
}

/// The identifier of a record: the numeral of an unsigned number, or a
/// string as it stands.
pub open spec fn record_app_id(entries: Seq<(Seq<char>, JsonTree)>) -> Option<Seq<char>> {
    match lookup(entries, id_key()) {
        Some(JsonTree::Number(n)) => match n.as_u64() {
            Some(id) => Some(decimal(id as nat)),
            None => None,
        },
        Some(JsonTree::Text(text)) => Some(text),
        _ => None,
    }
}

/// The measurement of a record: the unsigned number under the measurement
/// key of the statistics container.
pub open spec fn record_playtime(entries: Seq<(Seq<char>, JsonTree)>) -> Option<u64> {
    match lookup(entries, stats_key()) {
        Some(stats) => match stats.get(playtime_key()) {
            Some(seconds) => seconds.as_u64(),
            None => None,
        },
        None => None,
    }
}

/// The record with the identifier `app_id` and the measurement `seconds`
/// found at `path`.
pub open spec fn record_at(app_id: Seq<char>, seconds: u64, path: Seq<Seq<char>>) -> RecordModel {
    RecordModel { app_id: app_id, playtime_seconds: seconds, section: section_text(path) }
}

/// The record that the node `tree` itself gives at `path`: one record where
/// it is an object with the shape of a record, a readable identifier and a
/// measurement above 0; none otherwise.
pub open spec fn own_record(tree: JsonTree, path: Seq<Seq<char>>) -> Seq<RecordModel> {
    match tree {
        JsonTree::Object(entries) => match (record_app_id(entries), record_playtime(entries)) {
            (Some(app_id), Some(seconds)) => if is_match(entries) && seconds > 0 {
                seq![record_at(app_id, seconds, path)]
            } else {
                Seq::empty()
            },
            _ => Seq::empty(),
        },
        _ => Seq::empty(),
    }
}

/// The timestamp that dates an object with these entries, if it holds one.
pub open spec fn month_timestamp(entries: Seq<(Seq<char>, JsonTree)>) -> Option<i64> {
    match lookup(entries, month_time_key()) {
        Some(JsonTree::Number(n)) => n.as_i64(),
        _ => None,
    }
}

/// Whether the last segment of `path` is the placeholder of an array index.
pub open spec fn ends_in_placeholder(path: Seq<Seq<char>>) -> bool {
    path.len() > 0 && placeholder_prefix().is_prefix_of(path.last())
}

/// The path under which the children of an object are walked: where the
/// object is dated and `path` ends in an index placeholder, the placeholder
/// is replaced by the calendar month of the timestamp.
pub open spec fn month_resolved(entries: Seq<(Seq<char>, JsonTree)>, path: Seq<Seq<char>>) -> Seq<
    Seq<char>,
> {
    match month_timestamp(entries) {
        Some(timestamp) => if ends_in_placeholder(path) {
            with_last_replaced(path, month_text(timestamp))
        } else {
            path
        },
        None => path,
    }
}

/// The path of the value under `key` of an object walked under `base`.
pub open spec fn entry_path(base: Seq<Seq<char>>, key: Seq<char>) -> Seq<Seq<char>> {
    if is_section_key(key) {
        base.push(key)
    } else {
        base
    }
}

/// The placeholder segment of the array element at `index`.
pub open spec fn placeholder(index: nat) -> Seq<char> {
    placeholder_prefix() + decimal(index)
}

/// The path of the element at `index` of an array found at `path`.
pub open spec fn element_path(path: Seq<Seq<char>>, index: nat) -> Seq<Seq<char>> {
    if path.len() > 0 && path.last() == months_key() {
        path.push(placeholder(index))
    } else {
        path
    }
}

/// The path under which child `i` of `tree` is walked when `tree` is found
/// at `path`.
pub open spec fn child_path(tree: JsonTree, path: Seq<Seq<char>>, i: int) -> Seq<Seq<char>> {
    match tree {
        JsonTree::Object(entries) => entry_path(month_resolved(entries, path), entries[i].0),
        JsonTree::Array(_) => element_path(path, i as nat),
        _ => path,
    }
}

/// All records of `tree` found at `path`, in the order of a depth-first walk:
/// the record of the node itself, then those of its children in order.
pub open spec fn records(tree: JsonTree, path: Seq<Seq<char>>) -> Seq<RecordModel>
    decreases tree, tree.child_count() + 1,
{
    own_record(tree, path) + records_among(tree, path, tree.child_count())
}

/// The records of the first `n` children of `tree`.
pub open spec fn records_among(tree: JsonTree, path: Seq<Seq<char>>, n: nat) -> Seq<RecordModel>
    decreases tree, n,
{
    if n == 0 || n > tree.child_count() {
        Seq::empty()
    } else {
        records_among(tree, path, (n - 1) as nat) + records(
            tree.child(n - 1),
            child_path(tree, path, n - 1),
        )
    }
}

/// Whether the node `tree` itself has the shape of a record.
pub open spec fn node_matches(tree: JsonTree) -> bool {
    tree matches JsonTree::Object(entries) && is_match(entries)
}

/// Whether `tree` or a value anywhere inside it has the shape of a record.
pub open spec fn has_match(tree: JsonTree) -> bool
    decreases tree, tree.child_count() + 1,
{
    node_matches(tree) || has_match_among(tree, tree.child_count())
}

/// Whether a match lies in one of the first `n` children of `tree`.
pub open spec fn has_match_among(tree: JsonTree, n: nat) -> bool
    decreases tree, n,
{
    if n == 0 || n > tree.child_count() {
        false
    } else {
        has_match_among(tree, (n - 1) as nat) || has_match(tree.child(n - 1))
    }
}

/// A document in which nothing has the shape of a record holds no record,
/// whatever the path it is found at.
pub proof fn lemma_no_match_no_record(tree: JsonTree, path: Seq<Seq<char>>)
    requires
        !has_match(tree),
    ensures
        records(tree, path) == Seq::<RecordModel>::empty(),
    decreases tree, tree.child_count() + 1,
{
    lemma_no_match_no_record_among(tree, path, tree.child_count());
    assert(own_record(tree, path) =~= Seq::<RecordModel>::empty());
    assert(records(tree, path) =~= Seq::<RecordModel>::empty());
}

/// Children among which nothing has the shape of a record hold no record.
pub proof fn lemma_no_match_no_record_among(tree: JsonTree, path: Seq<Seq<char>>, n: nat)
    requires
        !has_match_among(tree, n),
    ensures
        records_among(tree, path, n) == Seq::<RecordModel>::empty(),
    decreases tree, n,
{
    if n > 0 && n <= tree.child_count() {
        lemma_no_match_no_record_among(tree, path, (n - 1) as nat);
        lemma_no_match_no_record(tree.child(n - 1), child_path(tree, path, n - 1));
        assert(records_among(tree, path, n) =~= Seq::<RecordModel>::empty());
    }
}

/// An object with the shape of a record whose measurement is 0 gives no
/// record of its own.
pub proof fn lemma_zero_measurement_is_dropped(
    entries: Seq<(Seq<char>, JsonTree)>,
    path: Seq<Seq<char>>,
)
    requires
        is_match(entries),
        record_playtime(entries) == Some(0u64),
    ensures
        own_record(JsonTree::Object(entries), path) == Seq::<RecordModel>::empty(),
{
}

/// An object with the shape of a record, a readable identifier and a
/// measurement of 1 or more gives exactly one record of its own, with that
/// identifier, that measurement and the section text of its path.
pub proof fn lemma_positive_measurement_is_kept(
    entries: Seq<(Seq<char>, JsonTree)>,
    path: Seq<Seq<char>>,
    app_id: Seq<char>,
    seconds: u64,
)
    requires
        is_match(entries),
        record_app_id(entries) == Some(app_id),
        record_playtime(entries) == Some(seconds),
        seconds >= 1,
    ensures
        own_record(JsonTree::Object(entries), path) == seq![
            record_at(app_id, seconds, path),
        ],
{
}

/// Every record of a document has a measurement above 0.
pub proof fn lemma_records_are_positive(tree: JsonTree, path: Seq<Seq<char>>, k: int)
    requires
        0 <= k < records(tree, path).len(),
    ensures
        records(tree, path)[k].playtime_seconds > 0,
    decreases tree, tree.child_count() + 1,
{
    let own = own_record(tree, path);
    if k >= own.len() {
        lemma_records_among_are_positive(tree, path, tree.child_count(), k - own.len());
    }
}

/// Every record of the first `n` children has a measurement above 0.
pub proof fn lemma_records_among_are_positive(
    tree: JsonTree,
    path: Seq<Seq<char>>,
    n: nat,
    k: int,
)
    requires
        0 <= k < records_among(tree, path, n).len(),
    ensures
        records_among(tree, path, n)[k].playtime_seconds > 0,
    decreases tree, n,
{
    if n > 0 && n <= tree.child_count() {
        let before = records_among(tree, path, (n - 1) as nat);
        if k < before.len() {
            lemma_records_among_are_positive(tree, path, (n - 1) as nat, k);
        } else {
            lemma_records_are_positive(
                tree.child(n - 1),
                child_path(tree, path, n - 1),
                k - before.len(),
            );
        }
    }
}

/// A step down never shortens the path and changes none of its segments
/// but the last: segments are appended, and only a trailing placeholder is
/// ever replaced.
pub proof fn lemma_child_path_extends(tree: JsonTree, path: Seq<Seq<char>>, i: int)
    ensures
        child_path(tree, path, i).len() >= path.len(),
        forall|k: int| 0 <= k < path.len() - 1 ==> child_path(tree, path, i)[k] == path[k],
        !ends_in_placeholder(path) ==> path.is_prefix_of(child_path(tree, path, i)),
{
    match tree {
        JsonTree::Object(entries) => {
            let base = month_resolved(entries, path);
            assert(base.len() == path.len());
            assert(!ends_in_placeholder(path) ==> base == path);
            if !ends_in_placeholder(path) {
                assert(path =~= child_path(tree, path, i).subrange(0, path.len() as int));
            }
        },
        JsonTree::Array(_) => {
            assert(path =~= child_path(tree, path, i).subrange(0, path.len() as int));
        },
        _ => {
            assert(path =~= path.subrange(0, path.len() as int));
        },
    }
}

/// The records below a dated object do not depend on the index of the
/// object in the months array: under two placeholders at the end of the
/// same path its children give the same records.
pub proof fn lemma_dated_month_forgets_index(
    entries: Seq<(Seq<char>, JsonTree)>,
    base: Seq<Seq<char>>,
    i: nat,
    j: nat,
    n: nat,
)
    requires
        month_timestamp(entries) is Some,
    ensures
        records_among(JsonTree::Object(entries), base.push(placeholder(i)), n) == records_among(
            JsonTree::Object(entries),
            base.push(placeholder(j)),
            n,
        ),
    decreases n,
{
    let tree = JsonTree::Object(entries);
    let p = base.push(placeholder(i));
    let q = base.push(placeholder(j));
    assert(placeholder_prefix() =~= placeholder(i).subrange(0, placeholder_prefix().len() as int));
    assert(placeholder_prefix() =~= placeholder(j).subrange(0, placeholder_prefix().len() as int));
    assert(p.drop_last() =~= base);
    assert(q.drop_last() =~= base);
    assert(month_resolved(entries, p) == month_resolved(entries, q));
    if n > 0 && n <= tree.child_count() {
        lemma_dated_month_forgets_index(entries, base, i, j, (n - 1) as nat);
    }
}

/// The path of the element at `index` of the months array of the period.
pub open spec fn month_element_path(index: nat) -> Seq<Seq<char>> {
    seq!["playtime_stats"@, months_key(), placeholder(index)]
}

/// A record found in the element at `index` of the months array, where
/// that element is not dated, is labelled with the month at `index` of the
/// table.
pub proof fn lemma_month_element_label(index: nat)
    requires
        index <= usize::MAX,
    ensures
        element_path(seq!["playtime_stats"@, months_key()], index) == month_element_path(index),
        section_text(month_element_path(index)) == month_section(index),
        section_label(section_text(month_element_path(index))) == month_label(index),
{
    let path = month_element_path(index);
    let two = seq!["playtime_stats"@, months_key()];
    reveal_strlit("playtime_stats");
    reveal_strlit("months");
    reveal_strlit("month_");
    reveal_strlit("playtime_stats.months.month_");
    assert(element_path(two, index) =~= path);
    assert(path.drop_last() =~= two);
    assert(two.drop_last() =~= seq!["playtime_stats"@]);
    assert(joined(seq!["playtime_stats"@]) == "playtime_stats"@);
    assert(joined(two) =~= "playtime_stats"@ + seq!['.'] + "months"@) by {
        reveal_with_fuel(joined, 2);
    }
    assert(joined(path) =~= joined(two) + seq!['.'] + placeholder(index)) by {
        reveal_with_fuel(joined, 2);
    }
    assert(joined(path) =~= month_section(index));
    lemma_month_section_label(index);
}

/// The identifier of the record that `value` may be.
pub fn read_app_id(value: &JsonValue) -> (r: Option<String>)
    ensures
        match r {
            Some(text) => value@ matches JsonTree::Object(entries) && record_app_id(entries) == Some(
                text@,
            ),
            None => value@ matches JsonTree::Object(entries) ==> record_app_id(entries) is None,
        },
{
    match value.get("appid") {
        Some(JsonValue::Number(n)) => match n.as_u64() {
            Some(id) => Some(u64_to_decimal(id)),
            None => None,
        },
        Some(JsonValue::Text(text)) => Some(text.clone()),
        _ => None,
    }
}

/// The measurement of the record that `value` may be.
pub fn read_playtime(value: &JsonValue) -> (r: Option<u64>)
    ensures
        value@ matches JsonTree::Object(entries) ==> r == record_playtime(entries),
        !(value@ is Object) ==> r is None,
{
    match value.get("relative_game_stats") {
        Some(stats) => match stats.get("total_playtime_seconds") {
            Some(seconds) => seconds.as_u64(),
            None => None,
        },
        None => None,
    }
}

/// The record that the node `value` itself gives at `path`, if any.
pub fn read_record(value: &JsonValue, path: &SectionPath) -> (r: Option<MeasurementRecord>)
    ensures
        match r {
            Some(record) => own_record(value@, path@) == seq![record@],
            None => own_record(value@, path@) == Seq::<RecordModel>::empty(),
        },
{
    if value.get("appid").is_none() || value.get("relative_game_stats").is_none() {
        return None;
    }
    match (read_app_id(value), read_playtime(value)) {
        (Some(app_id), Some(playtime_seconds)) => {
            if playtime_seconds > 0 {
                Some(MeasurementRecord { app_id, playtime_seconds, section: path.section() })
            } else {
                None
            }
        },
        _ => None,
    }
}

/// Whether `key` is one of the three keys that name a section.
pub fn names_section(key: &str) -> (r: bool)
    ensures
        r == is_section_key(key@),
{
    same_text(key, "games") || same_text(key, "months") || same_text(key, "playtime_stats")
}

/// The placeholder segment of the array element at `index`.
pub fn placeholder_segment(index: usize) -> (segment: String)
    ensures
        segment@ == placeholder(index as nat),
{
    let mut segment = String::from_str("month_");
    let digits = u64_to_decimal(index as u64);
    segment.append(digits.as_str());
    segment
}

/// The path under which the children of the object `value` are walked,
/// where the month rule makes it differ from `path`.
pub fn resolve_month(value: &JsonValue, path: &SectionPath) -> (r: Option<SectionPath>)
    ensures
        value@ matches JsonTree::Object(entries) ==> match r {
            Some(resolved) => resolved@ == month_resolved(entries, path@),
            None => path@ == month_resolved(entries, path@),
        },
{
    if !path.last_starts_with("month_") {
        return None;
    }
    match value.get("rtime_month") {
        Some(JsonValue::Number(n)) => match n.as_i64() {
            Some(timestamp) => {
                let label = format_month_from_timestamp(timestamp);
                Some(path.with_last(label.as_str()))
            },
            None => None,
        },
        _ => None,
    }
}

/// The view of a list with one more record is the view of the list with
/// the view of the record behind it.
pub proof fn lemma_record_models_push(records: Seq<MeasurementRecord>, record: MeasurementRecord)
    ensures
        record_models(records.push(record)) == record_models(records).push(record@),
{
    assert(record_models(records.push(record)) =~= record_models(records).push(record@));
}

/// Walks `value`, found at `path`, and appends every record in it to
/// `playtime_data`, in the order of a depth-first walk. The walk goes as
/// deep as `value` nests, so `value` must nest no deeper than [`MAX_DEPTH`].
pub fn extract_playtime_recursive(
    value: &JsonValue,
    playtime_data: &mut Vec<MeasurementRecord>,
    path: &SectionPath,
)
    requires
        value@.depth() <= MAX_DEPTH,
    ensures
        record_models(final(playtime_data)@) == record_models(old(playtime_data)@) + records(
            value@,
            path@,
        ),
    decreases value,
{
    let ghost before = record_models(playtime_data@);
    match value {
        JsonValue::Object(entries) => {
            let ghost pairs = value@->Object_0;
            match read_record(value, path) {
                Some(record) => {
                    proof {
                        lemma_record_models_push(playtime_data@, record);
                    }
                    playtime_data.push(record);
                },
                None => {},
            }
            assert(record_models(playtime_data@) =~= before + own_record(value@, path@));
            let resolved = resolve_month(value, path);
            let base: &SectionPath = match &resolved {
                Some(replaced) => replaced,
                None => path,
            };
            let mut i: usize = 0;
            while i < entries.len()
                invariant
                    i <= entries.len(),
                    value@ == JsonTree::Object(pairs),
                    value@.depth() <= MAX_DEPTH,
                    pairs.len() == entries.len(),
                    forall|j: int|
                        0 <= j < entries.len() ==> pairs[j] == (entries[j].0@, entries[j].1@),
                    forall|j: int| 0 <= j < entries.len() ==> decreases_to!(value => entries[j].1),
                    base@ == month_resolved(pairs, path@),
                    record_models(playtime_data@) == before + own_record(value@, path@)
                        + records_among(value@, path@, i as nat),
                decreases entries.len() - i,
            {
                let ghost so_far = record_models(playtime_data@);
                proof {
                    lemma_child_depth(value@, i as int);
                }
                let key = entries[i].0.as_str();
                if names_section(key) {
                    let below = base.extended(key);
                    extract_playtime_recursive(&entries[i].1, playtime_data, &below);
                } else {
                    extract_playtime_recursive(&entries[i].1, playtime_data, base);
                }
                assert(record_models(playtime_data@) == so_far + records(
                    value@.child(i as int),
                    child_path(value@, path@, i as int),
                ));
                i += 1;
                assert(record_models(playtime_data@) =~= before + own_record(value@, path@)
                    + records_among(value@, path@, i as nat));
            }
        },
        JsonValue::Array(items) => {
            let ghost elements = value@->Array_0;
            let indexed = path.last_is("months");
            assert(own_record(value@, path@) =~= Seq::<RecordModel>::empty());
            assert(record_models(playtime_data@) =~= before + own_record(value@, path@));
            let mut i: usize = 0;
            while i < items.len()
                invariant
                    i <= items.len(),
                    value@ == JsonTree::Array(elements),
                    value@.depth() <= MAX_DEPTH,
                    elements.len() == items.len(),
                    forall|j: int| 0 <= j < items.len() ==> elements[j] == items[j]@,
                    forall|j: int| 0 <= j < items.len() ==> decreases_to!(value => items[j]),
                    indexed == (path@.len() > 0 && path@.last() == months_key()),
                    record_models(playtime_data@) == before + own_record(value@, path@)
                        + records_among(value@, path@, i as nat),
                decreases items.len() - i,
            {
                let ghost so_far = record_models(playtime_data@);
                proof {
                    lemma_child_depth(value@, i as int);
                }
                if indexed {
                    let segment = placeholder_segment(i);
                    let below = path.extended(segment.as_str());
                    extract_playtime_recursive(&items[i], playtime_data, &below);
                } else {
                    extract_playtime_recursive(&items[i], playtime_data, path);
                }
                assert(record_models(playtime_data@) == so_far + records(
                    value@.child(i as int),
                    child_path(value@, path@, i as int),
                ));
                i += 1;
                assert(record_models(playtime_data@) =~= before + own_record(value@, path@)
                    + records_among(value@, path@, i as nat));
            }
        },
        _ => {
            assert(record_models(playtime_data@) =~= before + records(value@, path@));
        },
    }
}

/// All play-time records of a document, each with the section it lies in.
///
/// A document that nests arrays and objects deeper than [`MAX_DEPTH`] is
/// refused; any other document is walked whole, whatever its shape.
pub fn extract_playtime_data(value: &JsonValue) -> (r: Result<
    Vec<MeasurementRecord>,
    NestingTooDeep,
>)
    ensures
        match r {
            Ok(found) => value@.depth() <= MAX_DEPTH && record_models(found@) == records(
                value@,
                Seq::empty(),
            ),
            Err(refusal) => value@.depth() > MAX_DEPTH && refusal.limit == MAX_DEPTH,
        },
{
    if !value.within_depth(MAX_DEPTH) {
        return Err(NestingTooDeep { limit: MAX_DEPTH });
    }
    let mut playtime_data: Vec<MeasurementRecord> = Vec::new();
    let root = SectionPath::new();
    extract_playtime_recursive(value, &mut playtime_data, &root);
    assert(record_models(playtime_data@) =~= records(value@, Seq::empty()));
    Ok(playtime_data)
}

} // verus!
