//! From a fetched recap page to the document that is stored.

use vstd::prelude::*;
use crate::document::{document_of, parse_document};
use crate::json::{keys_unique, JsonTree, JsonValue};
use crate::replay_url::{replay_file_name, replay_output_filename};
use crate::text::{same_text, starts_with};

verus! {

/// The attributes of the element with the id `application_config` that the
/// HTML reader finds in the page `html`, each as name and value; `None`
/// where the page has no such element.
pub uninterp spec fn config_attributes(html: Seq<char>) -> Option<Seq<(Seq<char>, Seq<char>)>>;

/// The views of a list of attributes, in order.
pub open spec fn attribute_models(attributes: Seq<(String, String)>) -> Seq<
    (Seq<char>, Seq<char>),
> {
    Seq::new(attributes.len(), |i: int| (attributes[i].0@, attributes[i].1@))
}

/// Reads the page with scraper's `Html::parse_document`, selects
/// `#application_config` with `Selector::parse` and `Html::select`, and
/// hands out what `Element::attrs` yields for the first element found.
///
/// Believed of scraper, not proved: whether an element is found, and its
/// attributes in the order in which they are handed out, depend on the page
/// alone.
#[verifier::external_body]
fn read_config_attributes(html: &str) -> (r: Option<Vec<(String, String)>>)
    ensures
        r is Some == config_attributes(html@) is Some,
        r matches Some(attributes) ==> config_attributes(html@) == Some(
            attribute_models(attributes@),
        ),
{
    let document = scraper::Html::parse_document(html);
    let selector = match scraper::Selector::parse("#application_config") {
        Ok(selector) => selector,
        Err(_) => return None,
    };
    let element = document.select(&selector).next()?;
    Some(element.value().attrs().map(|(name, value)| (name.to_owned(), value.to_owned())).collect())
}

/// What every name of a data attribute begins with.
pub open spec fn data_prefix() -> Seq<char> {
    "data-"@
}

/// What is stored for the value `text` of a data attribute: the document
/// that it writes where it is JSON, the text itself where it is not.
pub open spec fn attribute_tree(text: Seq<char>) -> JsonTree {
    match document_of(text) {
        Some(tree) => tree,
        None => JsonTree::Text(text),
    }
}

/// Position of the first entry of `pairs` with the key `key`, or the
/// number of `pairs` if there is none.
pub open spec fn key_position(pairs: Seq<(Seq<char>, JsonTree)>, key: Seq<char>) -> int
    decreases pairs.len(),
{
    if pairs.len() == 0 {
        0
    } else if pairs[0].0 == key {
        0
    } else {
        1 + key_position(pairs.drop_first(), key)
    }
}

/// `pairs` with `tree` under `key`: in place of what `key` had, or as a new
/// last entry.
pub open spec fn with_entry(
    pairs: Seq<(Seq<char>, JsonTree)>,
    key: Seq<char>,
    tree: JsonTree,
) -> Seq<(Seq<char>, JsonTree)> {
    let at = key_position(pairs, key);
    if 0 <= at < pairs.len() {
        pairs.update(at, (key, tree))
    } else {
        pairs.push((key, tree))
    }
}

/// The entries stored for `attributes`: one for each data attribute, under
/// the attribute's name; a later attribute of the same name takes the place
/// of an earlier one.
pub open spec fn data_entries(attributes: Seq<(Seq<char>, Seq<char>)>) -> Seq<
    (Seq<char>, JsonTree),
>
    decreases attributes.len(),
{
    if attributes.len() == 0 {
        Seq::empty()
    } else {
        let before = data_entries(attributes.drop_last());
        let last = attributes.last();
        if data_prefix().is_prefix_of(last.0) {
            with_entry(before, last.0, attribute_tree(last.1))
        } else {
            before
        }
    }
}

/// The document stored for a recap: where it came from, when it was
/// fetched, and the entries of its data attributes.
pub open spec fn replay_tree(
    url: Seq<char>,
    fetched_at: Seq<char>,
    data: Seq<(Seq<char>, JsonTree)>,
) -> JsonTree {
    JsonTree::Object(
        seq![
            ("url"@, JsonTree::Text(url)),
            ("timestamp"@, JsonTree::Text(fetched_at)),
            ("data"@, JsonTree::Object(data)),
        ],
    )
}

/// The key position is the least index that holds the key.
pub proof fn lemma_key_position(pairs: Seq<(Seq<char>, JsonTree)>, key: Seq<char>, at: int)
    requires
        0 <= at <= pairs.len(),
        forall|i: int| 0 <= i < at ==> (#[trigger] pairs[i]).0 != key,
        at < pairs.len() ==> pairs[at].0 == key,
    ensures
        key_position(pairs, key) == at,
    decreases at,
{
    if at > 0 {
        let rest = pairs.drop_first();
        assert forall|i: int| 0 <= i < at - 1 implies (#[trigger] rest[i]).0 != key by {
            assert(rest[i] == pairs[i + 1]);
        }
        if at < pairs.len() {
            assert(rest[at - 1] == pairs[at]);
        }
        assert(pairs[0].0 != key);
        lemma_key_position(rest, key, at - 1);
    }
}

/// Putting a value under a key makes no key come twice.
pub proof fn lemma_with_entry_keeps_unique(
    pairs: Seq<(Seq<char>, JsonTree)>,
    key: Seq<char>,
    tree: JsonTree,
)
    requires
        keys_unique(JsonTree::Object(pairs)),
        keys_unique(tree),
    ensures
        keys_unique(JsonTree::Object(with_entry(pairs, key, tree))),
{
    let at = key_position(pairs, key);
    let out = with_entry(pairs, key, tree);
    let before = JsonTree::Object(pairs);
    lemma_key_position_bounds(pairs, key);
    assert forall|i: int, j: int| 0 <= i < j < out.len() implies (#[trigger] out[i]).0 != (
    #[trigger] out[j]).0 by {
        if at < pairs.len() {
            assert(out[i].0 == before->Object_0[i].0);
            assert(out[j].0 == before->Object_0[j].0);
        } else if j < pairs.len() {
            assert(out[i] == before->Object_0[i]);
            assert(out[j] == before->Object_0[j]);
        } else {
            assert(out[i] == pairs[i]);
        }
    }
    assert forall|i: int| 0 <= i < out.len() implies keys_unique((#[trigger] out[i]).1) by {
        if i != at {
            assert(out[i] == before->Object_0[i]);
        }
    }
    assert(JsonTree::Object(out)->Object_0 == out);
}

/// The key position lies within the entries, no entry before it has the
/// key, and the entry at it, if there is one, has the key.
pub proof fn lemma_key_position_bounds(pairs: Seq<(Seq<char>, JsonTree)>, key: Seq<char>)
    ensures
        0 <= key_position(pairs, key) <= pairs.len(),
        forall|i: int| 0 <= i < key_position(pairs, key) ==> (#[trigger] pairs[i]).0 != key,
        key_position(pairs, key) < pairs.len() ==> pairs[key_position(pairs, key)].0 == key,
    decreases pairs.len(),
{
    if pairs.len() > 0 && pairs[0].0 != key {
        let rest = pairs.drop_first();
        lemma_key_position_bounds(rest, key);
        assert forall|i: int| 0 <= i < key_position(pairs, key) implies (#[trigger] pairs[i]).0
            != key by {
            if i > 0 {
                assert(pairs[i] == rest[i - 1]);
            }
        }
    }
}

/// Whether `name` is the name of a data attribute.
pub fn is_data_attribute(name: &str) -> (r: bool)
    ensures
        r == data_prefix().is_prefix_of(name@),
{
    starts_with(name, "data-")
}

/// What is stored for the value `text` of a data attribute.
pub fn attribute_value(text: &str) -> (value: JsonValue)
    ensures
        value@ == attribute_tree(text@),
        keys_unique(value@),
{
    match parse_document(text) {
        Ok(document) => document,
        Err(_) => JsonValue::Text(text.to_owned()),
    }
}

/// Puts `value` under `key`: in place of what `key` had, or as a new last
/// entry.
pub fn put_entry(entries: &mut Vec<(String, JsonValue)>, key: String, value: JsonValue)
    ensures
        crate::json::entries_view(*final(entries)) == with_entry(
            crate::json::entries_view(*old(entries)),
            key@,
            value@,
        ),
{
    let ghost pairs = crate::json::entries_view(*entries);
    let mut i: usize = 0;
    while i < entries.len()
        invariant
            i <= entries.len(),
            pairs == crate::json::entries_view(*entries),
            pairs == crate::json::entries_view(*old(entries)),
            forall|j: int| 0 <= j < i ==> (#[trigger] pairs[j]).0 != key@,
        decreases entries.len() - i,
    {
        if same_text(entries[i].0.as_str(), key.as_str()) {
            proof {
                assert(pairs[i as int].0 == entries[i as int].0@);
                lemma_key_position(pairs, key@, i as int);
            }
            entries.remove(i);
            entries.insert(i, (key, value));
            assert(crate::json::entries_view(*entries) =~= pairs.update(i as int, (key@, value@)));
            return ;
        }
        assert(pairs[i as int].0 == entries[i as int].0@);
        i += 1;
    }
    proof {
        lemma_key_position(pairs, key@, i as int);
    }
    entries.push((key, value));
    assert(crate::json::entries_view(*entries) =~= pairs.push((key@, value@)));
}

/// The entries stored for `attributes`: one for each data attribute.
pub fn read_data_attributes(attributes: &Vec<(String, String)>) -> (entries: Vec<
    (String, JsonValue),
>)
    ensures
        crate::json::entries_view(entries) == data_entries(attribute_models(attributes@)),
        keys_unique(JsonTree::Object(crate::json::entries_view(entries))),
{
    let ghost models = attribute_models(attributes@);
    let mut entries: Vec<(String, JsonValue)> = Vec::new();
    assert(crate::json::entries_view(entries) =~= data_entries(models.take(0)));
    assert(keys_unique(JsonTree::Object(crate::json::entries_view(entries))));
    let mut i: usize = 0;
    while i < attributes.len()
        invariant
            i <= attributes.len(),
            models == attribute_models(attributes@),
            crate::json::entries_view(entries) == data_entries(models.take(i as int)),
            keys_unique(JsonTree::Object(crate::json::entries_view(entries))),
        decreases attributes.len() - i,
    {
        proof {
            let upto = models.take(i + 1);
            assert(upto.drop_last() =~= models.take(i as int));
            assert(upto.last() == (attributes[i as int].0@, attributes[i as int].1@));
        }
        if is_data_attribute(attributes[i].0.as_str()) {
            let value = attribute_value(attributes[i].1.as_str());
            proof {
                lemma_with_entry_keeps_unique(
                    crate::json::entries_view(entries),
                    attributes[i as int].0@,
                    value@,
                );
            }
            put_entry(&mut entries, attributes[i].0.clone(), value);
        }
        i += 1;
    }
    assert(models.take(i as int) =~= models);
    entries
}

/// The document stored for a recap fetched from `url` at `fetched_at`.
pub fn replay_document(url: &str, fetched_at: &str, data: Vec<(String, JsonValue)>) -> (document:
    JsonValue)
    ensures
        document@ == replay_tree(url@, fetched_at@, crate::json::entries_view(data)),
        keys_unique(JsonTree::Object(crate::json::entries_view(data))) ==> keys_unique(document@),
{
    let mut entries: Vec<(String, JsonValue)> = Vec::new();
    entries.push(("url".to_owned(), JsonValue::Text(url.to_owned())));
    entries.push(("timestamp".to_owned(), JsonValue::Text(fetched_at.to_owned())));
    entries.push(("data".to_owned(), JsonValue::Object(data)));
    let ghost stored = crate::json::entries_view(entries);
    assert(stored[0] == ("url"@, JsonTree::Text(url@)));
    assert(stored[1] == ("timestamp"@, JsonTree::Text(fetched_at@)));
    assert(stored[2] == ("data"@, JsonTree::Object(crate::json::entries_view(data))));
    let document = JsonValue::Object(entries);
    assert(document@->Object_0 =~= replay_tree(
        url@,
        fetched_at@,
        crate::json::entries_view(data),
    )->Object_0);
    proof {
        reveal_strlit("url");
        reveal_strlit("timestamp");
        reveal_strlit("data");
        assert("url"@.len() == 3 && "timestamp"@.len() == 9 && "data"@.len() == 4);
        let held = document@->Object_0;
        if keys_unique(JsonTree::Object(crate::json::entries_view(data))) {
            assert forall|i: int, j: int| 0 <= i < j < held.len() implies (#[trigger] held[i]).0
                != (#[trigger] held[j]).0 by {
                assert(held[i] == stored[i] && held[j] == stored[j]);
            }
            assert forall|i: int| 0 <= i < held.len() implies keys_unique(
                (#[trigger] held[i]).1,
            ) by {
                assert(held[i] == stored[i]);
            }
        }
    }
    document
}

/// A recap ready to be stored: the document and the name of its file.
#[derive(Debug, PartialEq, Eq)]
pub struct ScrapedReplay {
    pub file_name: String,
    pub document: JsonValue,
}

/// Makes of the page `html`, fetched from `url` at `fetched_at`, the
/// document to store and the name of its file. `None` where the page has no
/// element with the id `application_config`.
pub fn scrape_replay(url: &str, fetched_at: &str, html: &str) -> (r: Option<ScrapedReplay>)
    ensures
        match r {
            Some(scraped) => {
                &&& config_attributes(html@) matches Some(attributes)
                &&& scraped.document@ == replay_tree(url@, fetched_at@, data_entries(attributes))
                &&& scraped.file_name@ == replay_file_name(url@)
                &&& keys_unique(scraped.document@)
            },
            None => config_attributes(html@) is None,
        },
{
    match read_config_attributes(html) {
        Some(attributes) => {
            let data = read_data_attributes(&attributes);
            Some(
                ScrapedReplay {
                    file_name: replay_output_filename(url),
                    document: replay_document(url, fetched_at, data),
                },
            )
        },
        None => None,
    }
}

} // verus!
