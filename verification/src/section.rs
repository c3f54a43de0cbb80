//! Turning section paths into display labels.

use vstd::prelude::*;
use vstd::string::StrSliceExecFns;
use vstd::string::StringExecFns;
use crate::decimal::{decimal, lemma_decimal_reads_back, parse_index, parse_usize, u64_to_decimal};
use crate::text::{same_text, starts_with};

verus! {

/// Number of entries in the month-name table.
pub const MONTHS_IN_YEAR: usize = 12;

/// The section that holds the totals of the whole period.
pub open spec fn total_section() -> Seq<char> {
    "playtime_stats.games"@
}

/// What every section of one month of the period begins with, up to the index.
pub open spec fn month_section_prefix() -> Seq<char> {
    "playtime_stats.months.month_"@
}

/// The name of the month at `index` of the table, January first; beyond the
/// table, the placeholder `month_` followed by the index.
pub open spec fn month_label(index: nat) -> Seq<char> {
    if index == 0 {
        "January"@
    } else if index == 1 {
        "February"@
    } else if index == 2 {
        "March"@
    } else if index == 3 {
        "April"@
    } else if index == 4 {
        "May"@
    } else if index == 5 {
        "June"@
    } else if index == 6 {
        "July"@
    } else if index == 7 {
        "August"@
    } else if index == 8 {
        "September"@
    } else if index == 9 {
        "October"@
    } else if index == 10 {
        "November"@
    } else if index == 11 {
        "December"@
    } else {
        "month_"@ + decimal(index)
    }
}

/// The index that `section` names, if it is a month section with a readable
/// index behind the prefix.
pub open spec fn month_index_of(section: Seq<char>) -> Option<nat> {
    if month_section_prefix().is_prefix_of(section) {
        parse_index(section.skip(month_section_prefix().len() as int))
    } else {
        None
    }
}

/// The display label of `section`: `total` for the totals, the month's name
/// for a month section, and the section itself for anything else.
pub open spec fn section_label(section: Seq<char>) -> Seq<char> {
    if section == total_section() {
        "total"@
    } else {
        match month_index_of(section) {
            Some(index) => month_label(index),
            None => section,
        }
    }
}

/// The section of the month at `index`: the prefix, then the numeral of the
/// index.
pub open spec fn month_section(index: nat) -> Seq<char> {
    month_section_prefix() + decimal(index)
}

/// The section of every month gets the label of its index: the month's
/// name inside the table, the placeholder beyond it.
pub proof fn lemma_month_section_label(index: nat)
    requires
        index <= usize::MAX,
    ensures
        section_label(month_section(index)) == month_label(index),
{
    let prefix = month_section_prefix();
    let section = month_section(index);
    lemma_decimal_reads_back(index);
    reveal_strlit("playtime_stats.months.month_");
    reveal_strlit("playtime_stats.games");
    assert(prefix =~= section.subrange(0, prefix.len() as int));
    assert(section.skip(prefix.len() as int) =~= decimal(index));
    assert(section.len() > total_section().len());
}

/// The totals section gets the label `total`, and a text that is neither
/// the totals section nor the section of a month comes back as it is.
pub proof fn lemma_other_sections_pass(section: Seq<char>)
    ensures
        section_label(total_section()) == "total"@,
        section != total_section() && month_index_of(section) is None ==> section_label(section)
            == section,
{
}

/// The name of the month at `month_index`, January at 0. An index of 12 or
/// more gives `month_` followed by the index, never a failure.
pub fn get_month_name(month_index: usize) -> (name: String)
    ensures
        name@ == month_label(month_index as nat),
{
    if month_index < MONTHS_IN_YEAR {
        let name = if month_index == 0 {
            "January"
        } else if month_index == 1 {
            "February"
        } else if month_index == 2 {
            "March"
        } else if month_index == 3 {
            "April"
        } else if month_index == 4 {
            "May"
        } else if month_index == 5 {
            "June"
        } else if month_index == 6 {
            "July"
        } else if month_index == 7 {
            "August"
        } else if month_index == 8 {
            "September"
        } else if month_index == 9 {
            "October"
        } else if month_index == 10 {
            "November"
        } else {
            "December"
        };
        String::from_str(name)
    } else {
        let mut name = String::from_str("month_");
        let digits = u64_to_decimal(month_index as u64);
        name.append(digits.as_str());
        name
    }
}

/// The display label of a section path.
///
/// The totals section becomes `total`; a month section becomes the name of
/// the month that its index selects; every other text comes back unchanged.
pub fn convert_section_to_month(section: &str) -> (label: String)
    ensures
        label@ == section_label(section@),
{
    if same_text(section, "playtime_stats.games") {
        return String::from_str("total");
    }
    let prefix = "playtime_stats.months.month_";
    if starts_with(section, prefix) {
        let from = prefix.unicode_len();
        let to = section.unicode_len();
        let tail = section.substring_char(from, to);
        assert(tail@ =~= section@.skip(month_section_prefix().len() as int));
        match parse_usize(tail) {
            Some(index) => {
                return get_month_name(index);
            },
            None => {},
        }
    }
    String::from_str(section)
}

} // verus!
