//! The tabular emitter: rows in a fixed order, rendered as CSV text.

use vstd::prelude::*;
use vstd::string::StrSliceExecFns;
use vstd::string::StringExecFns;
use crate::decimal::{decimal, u64_to_decimal};
use crate::lexical::{lemma_text_order, text_before, text_rank, Rank};
use crate::section::{convert_section_to_month, section_label};
use crate::text::to_chars;

verus! {

/// One row of the table: a measurement with the year of its document and
/// the section it was found in. The section is kept as found; its display
/// label is made when the row is rendered.
#[derive(Debug, PartialEq, Eq)]
pub struct EnrichedRow {
    pub app_id: String,
    pub playtime_seconds: u64,
    pub year: String,
    pub section: String,
}

/// Mathematical view of an [`EnrichedRow`].
pub struct RowModel {
    pub app_id: Seq<char>,
    pub playtime_seconds: u64,
    pub year: Seq<char>,
    pub section: Seq<char>,
}

impl View for EnrichedRow {
    type V = RowModel;

    open spec fn view(&self) -> RowModel {
        RowModel {
            app_id: self.app_id@,
            playtime_seconds: self.playtime_seconds,
            year: self.year@,
            section: self.section@,
        }
    }
}

/// The views of a list of rows, in order.
pub open spec fn row_models(rows: Seq<EnrichedRow>) -> Seq<RowModel> {
    Seq::new(rows.len(), |i: int| rows[i]@)
}

/// Whether row `a` must stand before row `b`: by year, then by identifier,
/// then by section as found, each in dictionary order.
pub open spec fn row_before(a: RowModel, b: RowModel) -> bool {
    text_before(a.year, b.year) || (a.year == b.year && (text_before(a.app_id, b.app_id) || (
    a.app_id == b.app_id && text_before(a.section, b.section))))
}

/// Whether no row of `rows` stands behind a row that it must stand before.
pub open spec fn rows_ordered(rows: Seq<RowModel>) -> bool {
    forall|i: int, j: int| 0 <= i < j < rows.len() ==> !row_before(rows[j], rows[i])
}

/// Where `row` goes into the ordered list `sorted`: behind every row that
/// need not stand behind it.
pub open spec fn insert_position(sorted: Seq<RowModel>, row: RowModel) -> int
    decreases sorted.len(),
{
    if sorted.len() == 0 || !row_before(row, sorted.last()) {
        sorted.len() as int
    } else {
        insert_position(sorted.drop_last(), row)
    }
}

/// The ordered list `sorted` with `row` put in at its place.
pub open spec fn insert_row(sorted: Seq<RowModel>, row: RowModel) -> Seq<RowModel> {
    sorted.insert(insert_position(sorted, row), row)
}

/// The rows of `rows` in order; rows that stand equal keep the order in
/// which `rows` holds them.
pub open spec fn sorted_rows(rows: Seq<RowModel>) -> Seq<RowModel>
    decreases rows.len(),
{
    if rows.len() == 0 {
        rows
    } else {
        insert_row(sorted_rows(rows.drop_last()), rows.last())
    }
}

/// Not having to stand before is transitive, and no two rows must each
/// stand before the other.
pub proof fn lemma_row_order(a: RowModel, b: RowModel, c: RowModel)
    ensures
        !(row_before(a, b) && row_before(b, a)),
        !row_before(b, a) && !row_before(c, b) ==> !row_before(c, a),
{
    lemma_text_order(a.year, b.year, c.year);
    lemma_text_order(b.year, a.year, c.year);
    lemma_text_order(c.year, b.year, a.year);
    lemma_text_order(c.year, a.year, b.year);
    lemma_text_order(a.app_id, b.app_id, c.app_id);
    lemma_text_order(b.app_id, a.app_id, c.app_id);
    lemma_text_order(c.app_id, b.app_id, a.app_id);
    lemma_text_order(c.app_id, a.app_id, b.app_id);
    lemma_text_order(a.section, b.section, c.section);
    lemma_text_order(b.section, a.section, c.section);
    lemma_text_order(c.section, b.section, a.section);
    lemma_text_order(c.section, a.section, b.section);
}

/// The insert position lies behind every row that need not stand behind
/// `row`, and before every row that must.
pub proof fn lemma_insert_position(sorted: Seq<RowModel>, row: RowModel)
    ensures
        0 <= insert_position(sorted, row) <= sorted.len(),
        forall|k: int|
            insert_position(sorted, row) <= k < sorted.len() ==> row_before(row, sorted[k]),
        insert_position(sorted, row) > 0 ==> !row_before(
            row,
            sorted[insert_position(sorted, row) - 1],
        ),
    decreases sorted.len(),
{
    if sorted.len() > 0 && row_before(row, sorted.last()) {
        let front = sorted.drop_last();
        lemma_insert_position(front, row);
        assert forall|k: int| insert_position(sorted, row) <= k < sorted.len() implies row_before(
            row,
            sorted[k],
        ) by {
            if k < front.len() {
                assert(sorted[k] == front[k]);
            }
        }
    }
}

/// A position with these two properties is the insert position.
pub proof fn lemma_insert_position_is(sorted: Seq<RowModel>, row: RowModel, at: int)
    requires
        0 <= at <= sorted.len(),
        forall|k: int| at <= k < sorted.len() ==> row_before(row, sorted[k]),
        at > 0 ==> !row_before(row, sorted[at - 1]),
    ensures
        insert_position(sorted, row) == at,
    decreases sorted.len(),
{
    if sorted.len() > 0 && row_before(row, sorted.last()) {
        lemma_insert_position_is(sorted.drop_last(), row, at);
    }
}

/// Putting a row into an ordered list at its place leaves the list ordered.
pub proof fn lemma_insert_row_ordered(sorted: Seq<RowModel>, row: RowModel)
    requires
        rows_ordered(sorted),
    ensures
        rows_ordered(insert_row(sorted, row)),
{
    let at = insert_position(sorted, row);
    let out = insert_row(sorted, row);
    lemma_insert_position(sorted, row);
    assert forall|i: int, j: int| 0 <= i < j < out.len() implies !row_before(out[j], out[i]) by {
        if j < at {
            assert(out[i] == sorted[i] && out[j] == sorted[j]);
        } else if j == at {
            assert(out[j] == row && out[i] == sorted[i]);
            lemma_row_order(sorted[i], sorted[at - 1], row);
        } else if i < at {
            assert(out[i] == sorted[i] && out[j] == sorted[j - 1]);
        } else if i == at {
            assert(out[i] == row && out[j] == sorted[j - 1]);
            lemma_row_order(row, sorted[j - 1], row);
        } else {
            assert(out[i] == sorted[i - 1] && out[j] == sorted[j - 1]);
        }
    }
}

/// The sorted rows are in order.
pub proof fn lemma_sorted_rows_ordered(rows: Seq<RowModel>)
    ensures
        rows_ordered(sorted_rows(rows)),
        sorted_rows(rows).len() == rows.len(),
    decreases rows.len(),
{
    if rows.len() > 0 {
        lemma_sorted_rows_ordered(rows.drop_last());
        lemma_insert_position(sorted_rows(rows.drop_last()), rows.last());
        lemma_insert_row_ordered(sorted_rows(rows.drop_last()), rows.last());
    }
}

/// Sorting drops no row and adds none: the sorted rows are the given rows,
/// each as often as it was given.
pub proof fn lemma_sorted_rows_permutes(rows: Seq<RowModel>)
    ensures
        sorted_rows(rows).to_multiset() == rows.to_multiset(),
    decreases rows.len(),
{
    if rows.len() > 0 {
        let front = rows.drop_last();
        let sorted = sorted_rows(front);
        lemma_sorted_rows_permutes(front);
        lemma_insert_position(sorted, rows.last());
        vstd::seq_lib::to_multiset_insert(sorted, insert_position(sorted, rows.last()), rows.last());
        vstd::seq_lib::to_multiset_build(front, rows.last());
        assert(front.push(rows.last()) =~= rows);
    }
}

/// Sorting rows that are in order already changes nothing.
pub proof fn lemma_sorted_rows_keeps_ordered(rows: Seq<RowModel>)
    requires
        rows_ordered(rows),
    ensures
        sorted_rows(rows) == rows,
    decreases rows.len(),
{
    if rows.len() > 0 {
        let front = rows.drop_last();
        assert(rows_ordered(front)) by {
            assert forall|i: int, j: int| 0 <= i < j < front.len() implies !row_before(
                front[j],
                front[i],
            ) by {
                assert(front[i] == rows[i] && front[j] == rows[j]);
            }
        }
        lemma_sorted_rows_keeps_ordered(front);
        if front.len() > 0 {
            assert(front.last() == rows[rows.len() - 2]);
        }
        assert(insert_position(front, rows.last()) == front.len());
        assert(front.insert(front.len() as int, rows.last()) =~= rows);
    }
}

/// Sorting twice gives what sorting once gives.
pub proof fn lemma_sorted_rows_idempotent(rows: Seq<RowModel>)
    ensures
        sorted_rows(sorted_rows(rows)) == sorted_rows(rows),
{
    lemma_sorted_rows_ordered(rows);
    lemma_sorted_rows_keeps_ordered(sorted_rows(rows));
}

impl EnrichedRow {
    /// A copy of the row.
    pub fn duplicate(&self) -> (copy: EnrichedRow)
        ensures
            copy@ == self@,
    {
        EnrichedRow {
            app_id: self.app_id.clone(),
            playtime_seconds: self.playtime_seconds,
            year: self.year.clone(),
            section: self.section.clone(),
        }
    }

    /// Whether this row must stand before `other`.
    pub fn stands_before(&self, other: &EnrichedRow) -> (r: bool)
        ensures
            r == row_before(self@, other@),
    {
        proof {
            lemma_text_order(self.year@, other.year@, self.year@);
            lemma_text_order(self.app_id@, other.app_id@, self.app_id@);
        }
        match text_rank(self.year.as_str(), other.year.as_str()) {
            Rank::Before => true,
            Rank::After => false,
            Rank::Same => match text_rank(self.app_id.as_str(), other.app_id.as_str()) {
                Rank::Before => true,
                Rank::After => false,
                Rank::Same => match text_rank(self.section.as_str(), other.section.as_str()) {
                    Rank::Before => true,
                    _ => false,
                },
            },
        }
    }
}

/// Where `row` goes into `sorted`, found by halving.
fn insertion_point(sorted: &Vec<EnrichedRow>, row: &EnrichedRow) -> (at: usize)
    requires
        rows_ordered(row_models(sorted@)),
    ensures
        at == insert_position(row_models(sorted@), row@),
        at <= sorted@.len(),
{
    let ghost models = row_models(sorted@);
    let mut low: usize = 0;
    let mut high: usize = sorted.len();
    while low < high
        invariant
            low <= high <= sorted@.len(),
            models == row_models(sorted@),
            rows_ordered(models),
            forall|k: int| 0 <= k < low ==> !row_before(row@, models[k]),
            forall|k: int| high <= k < models.len() ==> row_before(row@, models[k]),
        decreases high - low,
    {
        let middle = low + (high - low) / 2;
        if row.stands_before(&sorted[middle]) {
            assert forall|k: int| middle <= k < models.len() implies row_before(
                row@,
                models[k],
            ) by {
                lemma_row_order(models[middle as int], models[k], row@);
            }
            high = middle;
        } else {
            assert forall|k: int| 0 <= k < middle + 1 implies !row_before(row@, models[k]) by {
                lemma_row_order(models[k], models[middle as int], row@);
            }
            low = middle + 1;
        }
    }
    proof {
        lemma_insert_position_is(models, row@, low as int);
    }
    low
}

/// The rows in order of year, identifier and section as found; rows equal
/// in all three keep the order in which they were given.
pub fn sort_rows(rows: &Vec<EnrichedRow>) -> (sorted: Vec<EnrichedRow>)
    ensures
        row_models(sorted@) == sorted_rows(row_models(rows@)),
{
    let ghost given = row_models(rows@);
    let mut sorted: Vec<EnrichedRow> = Vec::new();
    assert(given.take(0) =~= Seq::<RowModel>::empty());
    assert(row_models(sorted@) =~= sorted_rows(given.take(0)));
    let mut i: usize = 0;
    while i < rows.len()
        invariant
            i <= rows.len(),
            given == row_models(rows@),
            row_models(sorted@) == sorted_rows(given.take(i as int)),
        decreases rows.len() - i,
    {
        let row = rows[i].duplicate();
        let ghost before = row_models(sorted@);
        proof {
            lemma_sorted_rows_ordered(given.take(i as int));
            let upto = given.take(i + 1);
            assert(upto.drop_last() =~= given.take(i as int));
            assert(upto.last() == row@);
        }
        let at = insertion_point(&sorted, &row);
        sorted.insert(at, row);
        assert(row_models(sorted@) =~= before.insert(at as int, row@));
        i += 1;
    }
    assert(given.take(i as int) =~= given);
    sorted
}

/// Whether `field` must be quoted: it holds a comma or a quotation mark.
pub open spec fn needs_quotes(field: Seq<char>) -> bool {
    field.contains(',') || field.contains('"')
}

/// `field` with every quotation mark written twice.
pub open spec fn quotes_doubled(field: Seq<char>) -> Seq<char>
    decreases field.len(),
{
    if field.len() == 0 {
        Seq::empty()
    } else if field.last() == '"' {
        quotes_doubled(field.drop_last()) + seq!['"', '"']
    } else {
        quotes_doubled(field.drop_last()).push(field.last())
    }
}

/// `field` as it stands in a line: between quotation marks, with its own
/// quotation marks doubled, where it must be quoted; as it is otherwise.
pub open spec fn escaped(field: Seq<char>) -> Seq<char> {
    if needs_quotes(field) {
        seq!['"'] + quotes_doubled(field) + seq!['"']
    } else {
        field
    }
}

/// The first line of the table.
pub open spec fn csv_header() -> Seq<char> {
    "app_id,playtime_in_seconds,year,month\n"@
}

/// The line of one row: identifier, seconds, year and the display label of
/// the section, separated by commas and ended by a line feed.
pub open spec fn csv_line(row: RowModel) -> Seq<char> {
    escaped(row.app_id) + seq![','] + decimal(row.playtime_seconds as nat) + seq![','] + escaped(
        row.year,
    ) + seq![','] + escaped(section_label(row.section)) + seq!['\n']
}

/// The lines of `rows`, one behind the other.
pub open spec fn csv_lines(rows: Seq<RowModel>) -> Seq<char>
    decreases rows.len(),
{
    if rows.len() == 0 {
        Seq::empty()
    } else {
        csv_lines(rows.drop_last()) + csv_line(rows.last())
    }
}

/// The table of `rows` as they stand: the header, then one line per row.
pub open spec fn csv_text(rows: Seq<RowModel>) -> Seq<char> {
    csv_header() + csv_lines(rows)
}

/// Whether rows `a` and `b` agree in year, identifier and section.
pub open spec fn same_key(a: RowModel, b: RowModel) -> bool {
    a.year == b.year && a.app_id == b.app_id && a.section == b.section
}

/// The test for rows that agree with `row` in year, identifier and section.
pub open spec fn with_key_of(row: RowModel) -> spec_fn(RowModel) -> bool {
    |other: RowModel| same_key(other, row)
}

/// Rows that agree in year, identifier and section stand to every third
/// row alike, and rows of which neither must stand before the other agree
/// in all three.
pub proof fn lemma_same_key(a: RowModel, b: RowModel, c: RowModel)
    ensures
        same_key(a, b) ==> row_before(a, c) == row_before(b, c),
        !row_before(a, b) && !row_before(b, a) ==> same_key(a, b),
{
    lemma_text_order(a.year, b.year, a.year);
    lemma_text_order(a.app_id, b.app_id, a.app_id);
    lemma_text_order(a.section, b.section, a.section);
}

/// Sorting keeps rows that agree in year, identifier and section in the
/// order in which they were given.
pub proof fn lemma_sorted_rows_stable(rows: Seq<RowModel>, row: RowModel)
    ensures
        sorted_rows(rows).filter(with_key_of(row)) == rows.filter(with_key_of(row)),
    decreases rows.len(),
{
    let keep = with_key_of(row);
    if rows.len() > 0 {
        let front = rows.drop_last();
        let last = rows.last();
        let sorted = sorted_rows(front);
        let at = insert_position(sorted, last);
        lemma_sorted_rows_stable(front, row);
        lemma_insert_position(sorted, last);
        let head = sorted.subrange(0, at);
        let tail = sorted.subrange(at, sorted.len() as int);
        assert(sorted =~= head + tail);
        assert(sorted.insert(at, last) =~= head.push(last) + tail);
        Seq::filter_distributes_over_add(head, tail, keep);
        Seq::filter_distributes_over_add(head.push(last), tail, keep);
        head.lemma_filter_push(last, keep);
        front.lemma_filter_push(last, keep);
        assert(front.push(last) =~= rows);
        if keep(last) {
            assert(tail.filter(keep) =~= Seq::<RowModel>::empty()) by {
                assert forall|k: int| 0 <= k < tail.len() implies !keep(tail[k]) by {
                    assert(tail[k] == sorted[at + k]);
                    lemma_same_key(last, row, tail[k]);
                    lemma_row_order(row, tail[k], row);
                    lemma_same_key(tail[k], row, row);
                }
                tail.lemma_all_neg_filter_empty(keep);
            }
        }
    } else {
        assert(sorted_rows(rows) =~= rows);
    }
}

/// Whether rows of `rows` of which neither must stand before the other are
/// the same row.
pub open spec fn ties_are_equal(rows: Seq<RowModel>) -> bool {
    forall|i: int, j: int|
        0 <= i < rows.len() && 0 <= j < rows.len() && !row_before(rows[i], rows[j])
            && !row_before(rows[j], rows[i]) ==> rows[i] == rows[j]
}

/// Two lists in order that hold the same rows equally often, with no ties
/// but between equal rows, are the same list.
pub proof fn lemma_order_is_unique(a: Seq<RowModel>, b: Seq<RowModel>)
    requires
        rows_ordered(a),
        rows_ordered(b),
        a.to_multiset() == b.to_multiset(),
        ties_are_equal(a),
    ensures
        a == b,
    decreases a.len(),
{
    broadcast use vstd::multiset::group_multiset_axioms;

    vstd::seq_lib::to_multiset_len(a);
    vstd::seq_lib::to_multiset_len(b);
    if a.len() == 0 {
        assert(a =~= b);
    } else {
        let front = a.drop_last();
        let other = b.drop_last();
        vstd::seq_lib::to_multiset_contains(a, b.last());
        vstd::seq_lib::to_multiset_contains(b, b.last());
        vstd::seq_lib::to_multiset_contains(b, a.last());
        vstd::seq_lib::to_multiset_contains(a, a.last());
        assert(b.contains(b.last())) by {
            assert(b[b.len() - 1] == b.last());
        }
        assert(a.contains(a.last())) by {
            assert(a[a.len() - 1] == a.last());
        }
        assert(a.contains(b.last()));
        assert(b.contains(a.last()));
        let i = choose|i: int| 0 <= i < a.len() && a[i] == b.last();
        let j = choose|j: int| 0 <= j < b.len() && b[j] == a.last();
        assert(!row_before(a.last(), b.last())) by {
            if i < a.len() - 1 {
                assert(!row_before(a[a.len() - 1], a[i]));
            } else {
                lemma_row_order(a.last(), a.last(), a.last());
            }
        }
        assert(!row_before(b.last(), a.last())) by {
            if j < b.len() - 1 {
                assert(!row_before(b[b.len() - 1], b[j]));
            } else {
                lemma_row_order(b.last(), b.last(), b.last());
            }
        }
        assert(a.last() == b.last()) by {
            assert(a[a.len() - 1] == a.last());
        }
        assert(front.push(a.last()) =~= a);
        assert(other.push(b.last()) =~= b);
        vstd::seq_lib::to_multiset_build(front, a.last());
        vstd::seq_lib::to_multiset_build(other, b.last());
        assert(front.to_multiset() =~= other.to_multiset()) by {
            assert forall|row: RowModel| front.to_multiset().count(row) == other.to_multiset().count(
                row,
            ) by {
                assert(a.to_multiset() == front.to_multiset().insert(a.last()));
                assert(b.to_multiset() == other.to_multiset().insert(a.last()));
                if row == a.last() {
                    vstd::multiset::lemma_insert_increases_count_by_1(front.to_multiset(), row);
                    vstd::multiset::lemma_insert_increases_count_by_1(other.to_multiset(), row);
                } else {
                    vstd::multiset::lemma_insert_other_elements_unchanged(
                        front.to_multiset(),
                        a.last(),
                        row,
                    );
                    vstd::multiset::lemma_insert_other_elements_unchanged(
                        other.to_multiset(),
                        a.last(),
                        row,
                    );
                }
            }
        }
        assert(rows_ordered(front)) by {
            assert forall|x: int, y: int| 0 <= x < y < front.len() implies !row_before(
                front[y],
                front[x],
            ) by {
                assert(front[x] == a[x] && front[y] == a[y]);
            }
        }
        assert(rows_ordered(other)) by {
            assert forall|x: int, y: int| 0 <= x < y < other.len() implies !row_before(
                other[y],
                other[x],
            ) by {
                assert(other[x] == b[x] && other[y] == b[y]);
            }
        }
        assert(ties_are_equal(front)) by {
            assert forall|x: int, y: int|
                0 <= x < front.len() && 0 <= y < front.len() && !row_before(front[x], front[y])
                    && !row_before(front[y], front[x]) implies front[x] == front[y] by {
                assert(front[x] == a[x] && front[y] == a[y]);
            }
        }
        lemma_order_is_unique(front, other);
    }
}

/// The order of the rendered rows does not depend on the order in which
/// the rows are given: lists that hold the same rows equally often, with no
/// ties but between equal rows, are sorted into the same list.
pub proof fn lemma_sorted_rows_ignore_given_order(a: Seq<RowModel>, b: Seq<RowModel>)
    requires
        a.to_multiset() == b.to_multiset(),
        ties_are_equal(a),
    ensures
        sorted_rows(a) == sorted_rows(b),
        csv_text(sorted_rows(a)) == csv_text(sorted_rows(b)),
{
    let x = sorted_rows(a);
    lemma_sorted_rows_ordered(a);
    lemma_sorted_rows_ordered(b);
    lemma_sorted_rows_permutes(a);
    lemma_sorted_rows_permutes(b);
    assert(ties_are_equal(x)) by {
        assert forall|i: int, j: int|
            0 <= i < x.len() && 0 <= j < x.len() && !row_before(x[i], x[j]) && !row_before(
                x[j],
                x[i],
            ) implies x[i] == x[j] by {
            vstd::seq_lib::to_multiset_contains(x, x[i]);
            vstd::seq_lib::to_multiset_contains(x, x[j]);
            vstd::seq_lib::to_multiset_contains(a, x[i]);
            vstd::seq_lib::to_multiset_contains(a, x[j]);
            assert(x.contains(x[i]));
            assert(x.contains(x[j]));
            let k = choose|k: int| 0 <= k < a.len() && a[k] == x[i];
            let l = choose|l: int| 0 <= l < a.len() && a[l] == x[j];
            assert(a[k] == a[l]);
        }
    }
    lemma_order_is_unique(x, sorted_rows(b));
}

/// Rendering rows that are in order already renders them as they stand;
/// so rendering what was sorted before changes nothing.
pub proof fn lemma_render_keeps_ordered(rows: Seq<RowModel>)
    ensures
        rows_ordered(rows) ==> csv_text(sorted_rows(rows)) == csv_text(rows),
        csv_text(sorted_rows(sorted_rows(rows))) == csv_text(sorted_rows(rows)),
{
    if rows_ordered(rows) {
        lemma_sorted_rows_keeps_ordered(rows);
    }
    lemma_sorted_rows_idempotent(rows);
}

/// Writes `field` as it stands in a line of the table.
pub fn escape_field(field: &str) -> (text: String)
    ensures
        text@ == escaped(field@),
{
    let chars = to_chars(field);
    let mut found = false;
    let mut i: usize = 0;
    while i < chars.len()
        invariant
            i <= chars.len(),
            chars@ == field@,
            found == exists|j: int| 0 <= j < i && (chars@[j] == ',' || chars@[j] == '"'),
        decreases chars.len() - i,
    {
        if chars[i] == ',' || chars[i] == '"' {
            found = true;
        }
        i += 1;
    }
    assert(found == needs_quotes(field@)) by {
        if needs_quotes(field@) {
            if field@.contains(',') {
                let j = choose|j: int| 0 <= j < field@.len() && field@[j] == ',';
                assert(chars@[j] == ',');
            } else {
                let j = choose|j: int| 0 <= j < field@.len() && field@[j] == '"';
                assert(chars@[j] == '"');
            }
        }
        if found {
            let j = choose|j: int| 0 <= j < i && (chars@[j] == ',' || chars@[j] == '"');
            assert(field@[j] == chars@[j]);
        }
    }
    if !found {
        return String::from_str(field);
    }
    proof {
        reveal_strlit("\"");
    }
    let mut text = String::from_str("\"");
    assert(text@ =~= seq!['"'] + quotes_doubled(chars@.take(0)));
    let mut k: usize = 0;
    while k < chars.len()
        invariant
            k <= chars.len(),
            chars@ == field@,
            text@ == seq!['"'] + quotes_doubled(chars@.take(k as int)),
        decreases chars.len() - k,
    {
        let ghost upto = chars@.take(k + 1);
        assert(upto.drop_last() =~= chars@.take(k as int));
        assert(upto.last() == chars@[k as int]);
        if chars[k] == '"' {
            proof {
                reveal_strlit("\"\"");
            }
            text.append("\"\"");
            assert(text@ =~= seq!['"'] + quotes_doubled(upto));
        } else {
            let one = field.substring_char(k, k + 1);
            assert(one@ =~= seq![chars@[k as int]]);
            text.append(one);
            assert(text@ =~= seq!['"'] + quotes_doubled(upto));
        }
        k += 1;
    }
    assert(chars@.take(k as int) =~= field@);
    text.append("\"");
    text
}

/// Writes the line of `row`.
pub fn render_line(row: &EnrichedRow) -> (line: String)
    ensures
        line@ == csv_line(row@),
{
    proof {
        reveal_strlit(",");
        reveal_strlit("\n");
    }
    let mut line = escape_field(row.app_id.as_str());
    line.append(",");
    let seconds = u64_to_decimal(row.playtime_seconds);
    line.append(seconds.as_str());
    line.append(",");
    let year = escape_field(row.year.as_str());
    line.append(year.as_str());
    line.append(",");
    let label = convert_section_to_month(row.section.as_str());
    let month = escape_field(label.as_str());
    line.append(month.as_str());
    line.append("\n");
    assert(line@ =~= csv_line(row@));
    line
}

/// Writes the table of `rows` in the order in which they are given.
pub fn render_rows(rows: &Vec<EnrichedRow>) -> (text: String)
    ensures
        text@ == csv_text(row_models(rows@)),
{
    let ghost models = row_models(rows@);
    let mut text = String::from_str("app_id,playtime_in_seconds,year,month\n");
    assert(text@ =~= csv_header() + csv_lines(models.take(0)));
    let mut i: usize = 0;
    while i < rows.len()
        invariant
            i <= rows.len(),
            models == row_models(rows@),
            text@ == csv_header() + csv_lines(models.take(i as int)),
        decreases rows.len() - i,
    {
        let line = render_line(&rows[i]);
        text.append(line.as_str());
        proof {
            let upto = models.take(i + 1);
            assert(upto.drop_last() =~= models.take(i as int));
            assert(upto.last() == rows[i as int]@);
            assert(text@ =~= csv_header() + csv_lines(upto));
        }
        i += 1;
    }
    assert(models.take(i as int) =~= models);
    text
}

/// Renders `rows` as the table: the header, then the line of every row, in
/// order of year, identifier and section as found. The order is fixed on the
/// sections as found; display labels are made afterwards, row by row. No row
/// is dropped.
pub fn render(rows: &Vec<EnrichedRow>) -> (text: String)
    ensures
        text@ == csv_text(sorted_rows(row_models(rows@))),
{
    let sorted = sort_rows(rows);
    render_rows(&sorted)
}

} // verus!
