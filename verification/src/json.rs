//! JSON values, as `serde_json` holds, reads and writes them.

use vstd::prelude::*;

verus! {

#[verifier::external_type_specification]
#[verifier::external_body]
pub struct ExValue(serde_json::Value);

#[verifier::external_type_specification]
#[verifier::external_body]
pub struct ExError(serde_json::Error);

/// What a JSON value holds. A number that is not an unsigned 64-bit integer has no value here.
pub enum JsonView {
    Null,
    Bool(bool),
    Unsigned(u64),
    Number,
    Text(Seq<char>),
    Array(Seq<JsonView>),
    Object(Map<Seq<char>, JsonView>),
}

/// What a `serde_json::Value` holds.
pub uninterp spec fn json_content(value: serde_json::Value) -> JsonView;

/// What `serde_json::from_slice` reads from a text, or its words where it is no JSON document.
pub uninterp spec fn json_read(text: Seq<u8>) -> Result<JsonView, Seq<char>>;

/// The JSON document that a text is, if it is one.
pub open spec fn json_document(text: Seq<u8>) -> Option<JsonView> {
    match json_read(text) {
        Ok(content) => Some(content),
        Err(_) => None,
    }
}

/// Whether arrays and objects are nested at most `depth` deep in `json`.
pub open spec fn nested_at_most(json: JsonView, depth: nat) -> bool
    decreases depth,
{
    match json {
        JsonView::Array(items) => depth > 0 && forall|i: int|
            0 <= i < items.len() ==> nested_at_most(#[trigger] items[i], (depth - 1) as nat),
        JsonView::Object(members) => depth > 0 && forall|key: Seq<char>|
            members.contains_key(key) ==> nested_at_most(
                #[trigger] members[key],
                (depth - 1) as nat,
            ),
        _ => true,
    }
}

/// Calls `serde_json::from_slice` for a `Value`, and gives the words of its error where it fails.
/// Both depend on the text alone.
#[verifier::external_body]
pub(crate) fn json_from_slice(text: &[u8]) -> (value: Result<serde_json::Value, String>)
    ensures
        match value {
            Ok(value) => json_read(text@) == Ok::<JsonView, Seq<char>>(json_content(value)),
            Err(words) => json_read(text@) == Err::<JsonView, Seq<char>>(words@),
        },
{
    match serde_json::from_slice(text) {
        Ok(value) => Ok(value),
        Err(error) => Err(error.to_string()),
    }
}

/// Calls `serde_json::to_vec` on a `Value`, which cannot fail: every key is a string. What it
/// writes of a value that is not nested deeper than `serde_json::from_slice` follows, that function
/// reads back as a value with the same content.
#[verifier::external_body]
pub(crate) fn json_to_vec(value: &serde_json::Value) -> (text: Result<Vec<u8>, serde_json::Error>)
    requires
        nested_at_most(json_content(*value), 127),
    ensures
        text is Ok,
        text matches Ok(text) ==> json_document(text@) == Some(json_content(*value)),
{
    serde_json::to_vec(value)
}

/// Calls `Value::get` with a string: the member of an object under that key.
#[verifier::external_body]
pub(crate) fn json_get<'a>(value: &'a serde_json::Value, key: &str) -> (member: Option<
    &'a serde_json::Value,
>)
    ensures
        match json_content(*value) {
            JsonView::Object(members) => if members.contains_key(key@) {
                member matches Some(found) && json_content(*found) == members[key@]
            } else {
                member is None
            },
            _ => member is None,
        },
{
    value.get(key)
}

/// `Value::as_str` gives the text of a string, and nothing of another value.
pub assume_specification[ serde_json::Value::as_str ](value: &serde_json::Value) -> (text: Option<
    &str,
>)
    ensures
        match json_content(*value) {
            JsonView::Text(content) => text matches Some(text) && text@ == content,
            _ => text is None,
        },
;

/// `Value::as_u64` gives a number that is an unsigned 64-bit integer, and nothing of another
/// value.
pub assume_specification[ serde_json::Value::as_u64 ](value: &serde_json::Value) -> (number: Option<
    u64,
>)
    ensures
        number == match json_content(*value) {
            JsonView::Unsigned(content) => Some(content),
            _ => None,
        },
;

/// `Value::from(())` is JSON's null.
#[verifier::external_body]
pub(crate) fn json_null() -> (value: serde_json::Value)
    ensures
        json_content(value) == JsonView::Null,
{
    serde_json::Value::from(())
}

/// `Value::from(&str)` is a string.
#[verifier::external_body]
pub(crate) fn json_text(text: &str) -> (value: serde_json::Value)
    ensures
        json_content(value) == JsonView::Text(text@),
{
    serde_json::Value::from(text)
}

/// `Value::from(u64)` is a number.
#[verifier::external_body]
pub(crate) fn json_unsigned(number: u64) -> (value: serde_json::Value)
    ensures
        json_content(value) == JsonView::Unsigned(number),
{
    serde_json::Value::from(number)
}

/// `Value::from(Vec<Value>)` is an array of those values, in order.
#[verifier::external_body]
pub(crate) fn json_array(items: Vec<serde_json::Value>) -> (value: serde_json::Value)
    ensures
        json_content(value) == JsonView::Array(
            items@.map_values(|item: serde_json::Value| json_content(item)),
        ),
{
    serde_json::Value::from(items)
}

/// Whether no two of `members` have one key.
pub open spec fn distinct_keys(members: Seq<(String, serde_json::Value)>) -> bool {
    forall|i: int, j: int|
        0 <= i < j < members.len() ==> #[trigger] members[i].0@ != #[trigger] members[j].0@
}

/// The object with the given members.
pub open spec fn object_of(members: Seq<(Seq<char>, JsonView)>) -> JsonView {
    JsonView::Object(members_of(members))
}

/// The members of an object, by their keys.
pub open spec fn members_of(members: Seq<(Seq<char>, JsonView)>) -> Map<Seq<char>, JsonView>
    decreases members.len(),
{
    if members.len() == 0 {
        Map::empty()
    } else {
        members_of(members.drop_last()).insert(members.last().0, members.last().1)
    }
}

/// Collects members into a `Value` through its `FromIterator`: an object with those members.
#[verifier::external_body]
pub(crate) fn json_object(members: Vec<(String, serde_json::Value)>) -> (value: serde_json::Value)
    requires
        distinct_keys(members@),
    ensures
        json_content(value) == object_of(
            members@.map_values(
                |member: (String, serde_json::Value)| (member.0@, json_content(member.1)),
            ),
        ),
{
    members.into_iter().collect()
}

/// An object whose members have different keys holds each of them under its key, and nothing else.
pub proof fn law_objects_hold_each_member(members: Seq<(Seq<char>, JsonView)>)
    requires
        forall|i: int, j: int|
            0 <= i < j < members.len() ==> (#[trigger] members[i]).0 != (#[trigger] members[j]).0,
    ensures
        forall|i: int|
            0 <= i < members.len() ==> members_of(members).contains_key((#[trigger] members[i]).0)
                && members_of(members)[members[i].0] == members[i].1,
        forall|key: Seq<char>| #[trigger]
            members_of(members).contains_key(key) ==> exists|i: int|
                0 <= i < members.len() && (#[trigger] members[i]).0 == key,
    decreases members.len(),
{
    if members.len() > 0 {
        let fewer = members.drop_last();
        let last = members.len() - 1;
        assert forall|i: int, j: int| 0 <= i < j < fewer.len() implies (#[trigger] fewer[i]).0 != (
        #[trigger] fewer[j]).0 by {
            assert(members[i].0 != members[j].0);
        }
        law_objects_hold_each_member(fewer);
        assert forall|i: int| 0 <= i < members.len() implies members_of(members).contains_key(
            (#[trigger] members[i]).0,
        ) && members_of(members)[members[i].0] == members[i].1 by {
            if i < last {
                assert(fewer[i] == members[i]);
                assert(members[i].0 != members[last].0);
            }
        }
        assert forall|key: Seq<char>| #[trigger] members_of(members).contains_key(key) implies exists|
            i: int,
        |
            0 <= i < members.len() && (#[trigger] members[i]).0 == key by {
            if key == members.last().0 {
                assert(members[last].0 == key);
            } else {
                assert(members_of(fewer).contains_key(key));
                let i = choose|i: int| 0 <= i < fewer.len() && (#[trigger] fewer[i]).0 == key;
                assert(members[i].0 == key);
            }
        }
    }
}

} // verus!
