//! The preamble of a variant text file: the lines that make it up, and the
//! key/value pairs they carry, grouped by key into a JSON object.

use serde_json::Value;
use vstd::prelude::*;

use crate::text::{chars_of, text_of};
use crate::vcf::{classify, kind_of, lemma_preamble_ends_at, preamble_end, LineKind, COMMENT};

verus! {

/// The character between key and value in a preamble line.
pub const ASSIGN: char = '=';

/// `line` without the pairs of comment markers that it begins with.
pub open spec fn strip_markers(line: Seq<char>) -> Seq<char>
    decreases line.len(),
{
    if line.len() >= 2 && line[0] == COMMENT && line[1] == COMMENT {
        strip_markers(line.skip(2))
    } else {
        line
    }
}

/// The place of the first `c` in `text`, or the length of `text` if there
/// is none.
pub open spec fn first_index(text: Seq<char>, c: char) -> int
    decreases text.len(),
{
    if text.len() == 0 || text[0] == c {
        0
    } else {
        1 + first_index(text.skip(1), c)
    }
}

/// The key and the value that a preamble line carries: what stands before
/// and after the first `=` behind the comment markers. A line without `=`
/// carries nothing.
pub open spec fn entry_of(line: Seq<char>) -> Option<(Seq<char>, Seq<char>)> {
    let text = strip_markers(line);
    let at = first_index(text, ASSIGN);
    if at < text.len() {
        Some((text.take(at), text.skip(at + 1)))
    } else {
        None
    }
}

/// The entries that the lines carry, in the order of the lines.
pub open spec fn entries_of(lines: Seq<Seq<char>>) -> Seq<(Seq<char>, Seq<char>)>
    decreases lines.len(),
{
    if lines.len() == 0 {
        Seq::empty()
    } else {
        let before = entries_of(lines.drop_last());
        match entry_of(lines.last()) {
            Some(entry) => before.push(entry),
            None => before,
        }
    }
}

/// The values that `entries` give for `key`, in their order.
pub open spec fn values_of(entries: Seq<(Seq<char>, Seq<char>)>, key: Seq<char>) -> Seq<Seq<char>>
    decreases entries.len(),
{
    if entries.len() == 0 {
        Seq::empty()
    } else {
        let before = values_of(entries.drop_last(), key);
        if entries.last().0 == key {
            before.push(entries.last().1)
        } else {
            before
        }
    }
}

/// Whether some entry has `key` for its key.
pub open spec fn has_key(entries: Seq<(Seq<char>, Seq<char>)>, key: Seq<char>) -> bool {
    exists|i: int| 0 <= i < entries.len() && (#[trigger] entries[i]).0 == key
}

/// The entries grouped by key: each key that occurs, with the list of its
/// values in the order in which they occur.
pub open spec fn grouped(entries: Seq<(Seq<char>, Seq<char>)>) -> Map<Seq<char>, Seq<Seq<char>>> {
    Map::new(|key: Seq<char>| has_key(entries, key), |key: Seq<char>| values_of(entries, key))
}

/// The first `c` in `text` is at `at` if there is none before and one there,
/// or the text ends there.
pub proof fn lemma_first_index(text: Seq<char>, c: char, at: int)
    requires
        0 <= at <= text.len(),
        forall|k: int| 0 <= k < at ==> text[k] != c,
        at < text.len() ==> text[at] == c,
    ensures
        first_index(text, c) == at,
    decreases at,
{
    if at > 0 {
        lemma_first_index(text.skip(1), c, at - 1);
    }
}

/// A key has values if and only if it occurs.
pub proof fn lemma_values_of_key(entries: Seq<(Seq<char>, Seq<char>)>, key: Seq<char>)
    ensures
        has_key(entries, key) <==> values_of(entries, key).len() > 0,
    decreases entries.len(),
{
    if entries.len() > 0 {
        let before = entries.drop_last();
        lemma_values_of_key(before, key);
        if has_key(entries, key) {
            let i = choose|i: int| 0 <= i < entries.len() && (#[trigger] entries[i]).0 == key;
            if i < before.len() {
                assert(before[i].0 == key);
            }
        }
    }
}

/// The lines that an input begins with as its preamble: all lines before
/// the first that is no preamble line.
pub fn read_metadata(lines: &Vec<String>) -> (metadata: Vec<String>)
    ensures
        metadata.deep_view() == lines.deep_view().take(preamble_end(lines.deep_view())),
{
    let mut metadata: Vec<String> = Vec::new();
    let mut i: usize = 0;
    while i < lines.len()
        invariant
            i <= lines.len(),
            metadata.len() == i,
            metadata.deep_view() == lines.deep_view().take(i as int),
            forall|k: int| 0 <= k < i ==> kind_of(#[trigger] lines[k]@) == LineKind::Metadata,
        decreases lines.len() - i,
    {
        match classify(lines[i].as_str()) {
            LineKind::Metadata => {
                metadata.push(lines[i].clone());
                i = i + 1;
            },
            _ => {
                proof {
                    lemma_preamble_ends_at(lines.deep_view(), i as int);
                }
                return metadata;
            },
        }
    }
    proof {
        lemma_preamble_ends_at(lines.deep_view(), i as int);
    }
    metadata
}

/// Key and value of one preamble line, if it carries any.
pub fn parse_entry(line: &str) -> (entry: Option<(String, String)>)
    ensures
        match entry {
            Some((key, value)) => entry_of(line@) == Some((key@, value@)),
            None => entry_of(line@) is None,
        },
{
    let chars = chars_of(line);
    let mut from: usize = 0;
    assert(chars@.skip(0) == chars@);
    while chars.len() - from >= 2 && chars[from] == COMMENT && chars[from + 1] == COMMENT
        invariant
            from <= chars.len(),
            strip_markers(chars@) == strip_markers(chars@.skip(from as int)),
        decreases chars.len() - from,
    {
        assert(chars@.skip(from as int).skip(2) == chars@.skip(from + 2));
        from = from + 2;
    }
    let ghost text = chars@.skip(from as int);
    let mut at: usize = from;
    while at < chars.len() && chars[at] != ASSIGN
        invariant
            from <= at <= chars.len(),
            text == chars@.skip(from as int),
            forall|k: int| 0 <= k < at - from ==> text[k] != ASSIGN,
        decreases chars.len() - at,
    {
        at = at + 1;
    }
    proof {
        lemma_first_index(text, ASSIGN, at - from);
    }
    if at < chars.len() {
        let key = text_of(&chars, from, at);
        let value = text_of(&chars, at + 1, chars.len());
        Some((key, value))
    } else {
        None
    }
}

/// `serde_json::Value`, of which nothing is seen here.
#[verifier::external_type_specification]
#[verifier::external_body]
pub struct ExJsonValue(Value);

/// `serde_json::Map`, of which nothing is seen here.
#[verifier::external_type_specification]
#[verifier::external_body]
#[verifier::reject_recursive_types(K)]
#[verifier::reject_recursive_types(V)]
pub struct ExJsonMap<K, V>(serde_json::Map<K, V>);

/// What a JSON map of lists of strings holds: for each key its list.
pub uninterp spec fn json_entries(map: serde_json::Map<String, Value>) -> Map<Seq<char>, Seq<Seq<char>>>;

/// What a JSON object of lists of strings holds: for each key its list.
pub uninterp spec fn json_object_entries(value: Value) -> Map<Seq<char>, Seq<Seq<char>>>;

/// `serde_json::Map::new`: a map without entries.
#[verifier::external_body]
fn json_map_new() -> (map: serde_json::Map<String, Value>)
    ensures
        json_entries(map) == (Map::<Seq<char>, Seq<Seq<char>>>::empty()),
{
    serde_json::Map::new()
}

/// `serde_json::Map::insert`, with `values` as a JSON array of strings: the
/// map then has this list for `key`, whether it had the key before or not,
/// and its other entries as they were.
#[verifier::external_body]
fn json_map_insert(map: &mut serde_json::Map<String, Value>, key: &String, values: &Vec<String>)
    ensures
        json_entries(*final(map)) == json_entries(*old(map)).insert(key@, values.deep_view()),
{
    map.insert(key.clone(), Value::Array(values.iter().map(|v| Value::String(v.clone())).collect()));
}

/// `serde_json::Value::Object`: the object that holds what the map holds.
#[verifier::external_body]
fn json_object(map: serde_json::Map<String, Value>) -> (value: Value)
    ensures
        json_object_entries(value) == json_entries(map),
{
    Value::Object(map)
}

/// The place of `key` among `keys`, if it is there.
fn find_key(keys: &Vec<String>, key: &String) -> (place: Option<usize>)
    ensures
        match place {
            Some(j) => j < keys.len() && keys[j as int]@ == key@,
            None => forall|j: int| 0 <= j < keys.len() ==> (#[trigger] keys[j])@ != key@,
        },
{
    let mut j: usize = 0;
    while j < keys.len()
        invariant
            j <= keys.len(),
            forall|k: int| 0 <= k < j ==> (#[trigger] keys[k])@ != key@,
        decreases keys.len() - j,
    {
        if keys[j] == *key {
            return Some(j);
        }
        j = j + 1;
    }
    None
}

/// Whether `keys` and `lists` are the groups of `entries`: every key that
/// occurs is there once, with the list of its values.
spec fn groups(keys: Seq<String>, lists: Seq<Vec<String>>, entries: Seq<(Seq<char>, Seq<char>)>) -> bool {
    &&& keys.len() == lists.len()
    &&& forall|i: int, j: int| 0 <= i < j < keys.len() ==> (#[trigger] keys[i])@ != (#[trigger] keys[j])@
    &&& forall|j: int| 0 <= j < keys.len() ==> (#[trigger] lists[j]).deep_view() == values_of(entries, keys[j]@)
    &&& forall|key: Seq<char>| has_key(entries, key) <==> exists|j: int| 0 <= j < keys.len() && (#[trigger] keys[j])@ == key
}

/// With one more entry, its key occurs, and what occurred before still does.
proof fn lemma_has_key_push(entries: Seq<(Seq<char>, Seq<char>)>, entry: (Seq<char>, Seq<char>), key: Seq<char>)
    ensures
        has_key(entries.push(entry), key) <==> key == entry.0 || has_key(entries, key),
{
    let more = entries.push(entry);
    if has_key(more, key) {
        let n = choose|n: int| 0 <= n < more.len() && (#[trigger] more[n]).0 == key;
        if n < entries.len() {
            assert(entries[n].0 == key);
        }
    }
    if has_key(entries, key) {
        let n = choose|n: int| 0 <= n < entries.len() && (#[trigger] entries[n]).0 == key;
        assert(more[n].0 == key);
    }
    if key == entry.0 {
        assert(more[more.len() - 1].0 == key);
    }
}

/// Puts `value` at the end of the list of `key`, which is a new list behind
/// the others if the key did not occur before.
fn add_entry(
    keys: &mut Vec<String>,
    lists: &mut Vec<Vec<String>>,
    key: String,
    value: String,
    entries: Ghost<Seq<(Seq<char>, Seq<char>)>>,
)
    requires
        groups(old(keys)@, old(lists)@, entries@),
    ensures
        groups(final(keys)@, final(lists)@, entries@.push((key@, value@))),
{
    let ghost more = entries@.push((key@, value@));
    let ghost keys0 = keys@;
    let ghost lists0 = lists@;
    proof {
        assert(more.drop_last() =~= entries@);
        assert forall|k: Seq<char>| has_key(more, k) <==> (k == key@ || has_key(entries@, k)) by {
            lemma_has_key_push(entries@, (key@, value@), k);
        }
        lemma_values_of_key(entries@, key@);
    }
    match find_key(keys, &key) {
        Some(j) => {
            let ghost list = lists[j as int].deep_view();
            lists[j].push(value);
            assert(lists[j as int].deep_view() =~= list.push(value@));
            assert forall|n: int| 0 <= n < keys.len() implies (#[trigger] lists[n]).deep_view() == values_of(
                more,
                keys[n]@,
            ) by {
                if n != j {
                    assert(lists[n] == lists0[n]);
                    assert(keys[n]@ != keys[j as int]@);
                }
            }
        },
        None => {
            let mut list: Vec<String> = Vec::new();
            list.push(value);
            assert(list.deep_view() =~= seq![value@]);
            assert(values_of(entries@, key@) =~= Seq::<Seq<char>>::empty());
            keys.push(key);
            lists.push(list);
            assert forall|n: int| 0 <= n < keys.len() implies (#[trigger] lists[n]).deep_view() == values_of(
                more,
                keys[n]@,
            ) by {
                if n < keys0.len() {
                    assert(lists[n] == lists0[n]);
                    assert(keys[n] == keys0[n]);
                }
            }
            assert forall|k: Seq<char>| has_key(more, k) <==> exists|n: int|
                0 <= n < keys.len() && (#[trigger] keys[n])@ == k by {
                if has_key(more, k) {
                    if k == key@ {
                        assert(keys[keys.len() - 1]@ == k);
                    } else {
                        let n = choose|n: int| 0 <= n < keys0.len() && (#[trigger] keys0[n])@ == k;
                        assert(keys[n]@ == k);
                    }
                }
                if exists|n: int| 0 <= n < keys.len() && (#[trigger] keys[n])@ == k {
                    let n = choose|n: int| 0 <= n < keys.len() && (#[trigger] keys[n])@ == k;
                    if n < keys0.len() {
                        assert(keys0[n]@ == k);
                    }
                }
            }
        },
    }
}

/// The preamble as a JSON object: for every key that occurs in a line of the
/// form `##key=value`, the list of its values as strings, in the order of
/// the lines. Keys may repeat across lines; lines without `=` are passed
/// over.
pub fn parse_metadata(metadata: &[String]) -> (object: Value)
    ensures
        json_object_entries(object) == grouped(entries_of(metadata.deep_view())),
{
    let ghost lines = metadata.deep_view();
    let mut keys: Vec<String> = Vec::new();
    let mut lists: Vec<Vec<String>> = Vec::new();
    let mut i: usize = 0;
    while i < metadata.len()
        invariant
            i <= metadata.len(),
            lines == metadata.deep_view(),
            groups(keys@, lists@, entries_of(lines.take(i as int))),
        decreases metadata.len() - i,
    {
        assert(lines.take(i + 1).drop_last() == lines.take(i as int));
        match parse_entry(metadata[i].as_str()) {
            Some((key, value)) => {
                add_entry(&mut keys, &mut lists, key, value, Ghost(entries_of(lines.take(i as int))));
            },
            None => {},
        }
        i = i + 1;
    }
    assert(lines.take(i as int) == lines);
    let ghost entries = entries_of(lines);
    let mut map = json_map_new();
    let mut j: usize = 0;
    while j < keys.len()
        invariant
            j <= keys.len(),
            groups(keys@, lists@, entries),
            json_entries(map) == Map::new(
                |key: Seq<char>| exists|n: int| 0 <= n < j && (#[trigger] keys[n])@ == key,
                |key: Seq<char>| values_of(entries, key),
            ),
        decreases keys.len() - j,
    {
        json_map_insert(&mut map, &keys[j], &lists[j]);
        j = j + 1;
    }
    json_object(map)
}

} // verus!
