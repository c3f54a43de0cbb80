//! Reading the account and the year out of a recap address or a file name.

use vstd::prelude::*;
use vstd::string::StrSliceExecFns;
use vstd::string::StringExecFns;
use crate::decimal::{all_digits, is_digit};
use crate::json::{JsonTree, JsonValue};
use crate::text::{after_last, find_after_last, find_first, first_position, to_chars};

verus! {

/// What stands behind the last slash of `url`; all of `url` if it has none.
pub open spec fn last_segment(url: Seq<char>) -> Seq<char> {
    url.skip(after_last(url, '/'))
}

/// The year that `url` ends in: its last segment up to the first question
/// mark.
pub open spec fn year_of_url(url: Seq<char>) -> Seq<char> {
    let tail = last_segment(url);
    tail.take(first_position(tail, '?'))
}

/// The account that `url` names: the segment before the last one, if `url`
/// has a slash at all.
pub open spec fn steam_id_of_url(url: Seq<char>) -> Option<Seq<char>> {
    let end = after_last(url, '/');
    if end == 0 {
        None
    } else {
        let head = url.take(end - 1);
        Some(head.skip(after_last(head, '/')))
    }
}

/// Whether `part` is written as a year: four digits.
pub open spec fn is_year_part(part: Seq<char>) -> bool {
    part.len() == 4 && all_digits(part)
}

/// The first of the parts of `name` between underscores that is written as
/// a year.
pub open spec fn year_in_name(name: Seq<char>) -> Option<Seq<char>>
    decreases name.len(),
{
    let n = first_position(name, '_');
    if is_year_part(name.take(n)) {
        Some(name.take(n))
    } else if 0 <= n < name.len() {
        year_in_name(name.skip(n + 1))
    } else {
        None
    }
}

/// Key of the address that a stored document was fetched from.
pub open spec fn url_key() -> Seq<char> {
    "url"@
}

/// The year of a stored document: the year of its address where it holds
/// one, else the first year among the parts of its file name, else
/// `unknown`.
pub open spec fn year_of_document(data: JsonTree, filename: Seq<char>) -> Seq<char> {
    match data.get(url_key()) {
        Some(JsonTree::Text(url)) => year_of_url(url),
        _ => match year_in_name(filename) {
            Some(year) => year,
            None => "unknown"@,
        },
    }
}

/// The name of the file that the recap fetched from `url` is stored in.
pub open spec fn replay_file_name(url: Seq<char>) -> Seq<char> {
    let steam_id = match steam_id_of_url(url) {
        Some(id) => id,
        None => "unknown"@,
    };
    "steam_replay_"@ + steam_id + "_"@ + year_of_url(url) + ".json"@
}

/// The account of a recap address such as
/// `https://host/replay/<account>/<year>`: the segment before the last.
pub fn extract_steam_id<'a>(url: &'a str) -> (r: Option<&'a str>)
    ensures
        match r {
            Some(id) => steam_id_of_url(url@) == Some(id@),
            None => steam_id_of_url(url@) is None,
        },
{
    let chars = to_chars(url);
    assert(chars@.take(chars.len() as int) =~= chars@);
    let end = find_after_last(&chars, chars.len(), '/');
    if end == 0 {
        return None;
    }
    proof {
        crate::text::lemma_after_last(chars@, '/');
    }
    let start = find_after_last(&chars, end - 1, '/');
    proof {
        crate::text::lemma_after_last(chars@.take(end - 1), '/');
    }
    let id = url.substring_char(start, end - 1);
    assert(id@ =~= url@.take(end - 1).skip(start as int));
    Some(id)
}

/// The year of a recap address: its last segment without any query string.
/// Every address has one, if only the empty text.
pub fn extract_year<'a>(url: &'a str) -> (r: Option<&'a str>)
    ensures
        r matches Some(year) && year@ == year_of_url(url@),
{
    let chars = to_chars(url);
    assert(chars@.take(chars.len() as int) =~= chars@);
    let start = find_after_last(&chars, chars.len(), '/');
    proof {
        crate::text::lemma_after_last(chars@, '/');
    }
    let end = find_first(&chars, start, '?');
    let year = url.substring_char(start, end);
    assert(year@ =~= year_of_url(url@));
    Some(year)
}

/// Whether the characters of `chars` from `from` up to `to` are four digits.
fn is_year_between(chars: &Vec<char>, from: usize, to: usize) -> (r: bool)
    requires
        from <= to <= chars.len(),
    ensures
        r == is_year_part(chars@.subrange(from as int, to as int)),
{
    let ghost part = chars@.subrange(from as int, to as int);
    if to - from != 4 {
        return false;
    }
    let mut i: usize = from;
    while i < to
        invariant
            from <= i <= to <= chars.len(),
            part == chars@.subrange(from as int, to as int),
            forall|j: int| 0 <= j < i - from ==> is_digit(#[trigger] part[j]),
        decreases to - i,
    {
        let c = chars[i];
        if !('0' <= c && c <= '9') {
            assert(!is_digit(part[i - from]));
            return false;
        }
        i += 1;
    }
    true
}

/// The first part of `filename` between underscores that is four digits.
pub fn year_from_file_name<'a>(filename: &'a str) -> (r: Option<&'a str>)
    ensures
        match r {
            Some(year) => year_in_name(filename@) == Some(year@),
            None => year_in_name(filename@) is None,
        },
{
    let chars = to_chars(filename);
    let mut start: usize = 0;
    assert(chars@.skip(0) =~= chars@);
    loop
        invariant
            start <= chars.len(),
            chars@ == filename@,
            year_in_name(filename@) == year_in_name(chars@.skip(start as int)),
        decreases chars.len() - start,
    {
        let end = find_first(&chars, start, '_');
        let ghost rest = chars@.skip(start as int);
        assert(rest.take(end - start) =~= chars@.subrange(start as int, end as int));
        if is_year_between(&chars, start, end) {
            let year = filename.substring_char(start, end);
            return Some(year);
        }
        if end >= chars.len() {
            return None;
        }
        assert(rest.skip(end - start + 1) =~= chars@.skip(end + 1));
        start = end + 1;
    }
}

/// The year of a stored document: the year of the address under its `url`
/// key, else the first four-digit part of `filename`, else `unknown`.
pub fn extract_year_from_data(data: &JsonValue, filename: &str) -> (year: String)
    ensures
        year@ == year_of_document(data@, filename@),
{
    match data.get("url") {
        Some(JsonValue::Text(url)) => {
            match extract_year(url.as_str()) {
                Some(year) => {
                    return String::from_str(year);
                },
                None => {},
            }
        },
        _ => {},
    }
    match year_from_file_name(filename) {
        Some(year) => String::from_str(year),
        None => String::from_str("unknown"),
    }
}

/// The name of the file that the recap fetched from `url` is stored in:
/// `steam_replay_<account>_<year>.json`, with `unknown` for a missing
/// account.
pub fn replay_output_filename(url: &str) -> (name: String)
    ensures
        name@ == replay_file_name(url@),
{
    let steam_id = match extract_steam_id(url) {
        Some(id) => id,
        None => "unknown",
    };
    let year = match extract_year(url) {
        Some(year) => year,
        None => "unknown",
    };
    let mut name = String::from_str("steam_replay_");
    name.append(steam_id);
    name.append("_");
    name.append(year);
    name.append(".json");
    name
}

} // verus!
