//! JSON values as the library reads and writes them.

use vstd::prelude::*;

verus! {

/// A JSON value. A number is known by its text, and by the unsigned integer that
/// it is, if it is one.
pub enum JsonView {
    Null,
    Bool(bool),
    Number { text: Seq<char>, unsigned: Option<u64> },
    Text(Seq<char>),
    List(Seq<JsonView>),
    Object(Map<Seq<char>, JsonView>),
}

impl JsonView {
    /// The member of an object with this key.
    pub open spec fn member(self, key: Seq<char>) -> Option<JsonView> {
        match self {
            JsonView::Object(members) => if members.dom().contains(key) {
                Some(members[key])
            } else {
                None
            },
            _ => None,
        }
    }

    pub open spec fn text(self) -> Option<Seq<char>> {
        match self {
            JsonView::Text(text) => Some(text),
            _ => None,
        }
    }

    pub open spec fn bool(self) -> Option<bool> {
        match self {
            JsonView::Bool(flag) => Some(flag),
            _ => None,
        }
    }

    pub open spec fn unsigned(self) -> Option<u64> {
        match self {
            JsonView::Number { unsigned, .. } => unsigned,
            _ => None,
        }
    }
}

/// The value that `serde_json` holds a JSON document in.
#[verifier::external_type_specification]
#[verifier::external_body]
pub struct ExValue(serde_json::Value);

/// The members of an object as `serde_json` holds them.
#[verifier::external_type_specification]
#[verifier::external_body]
#[verifier::reject_recursive_types(K)]
#[verifier::reject_recursive_types(V)]
pub struct ExMembers<K, V>(serde_json::Map<K, V>);

/// The error that `serde_json::from_str` returns.
#[verifier::external_type_specification]
#[verifier::external_body]
pub struct ExJsonError(serde_json::Error);

/// What a `serde_json::Value` holds. The text of a number is the one that
/// `serde_json` writes for it.
pub uninterp spec fn json_content(value: serde_json::Value) -> JsonView;

/// What `serde_json::from_str` reads from a text, or nothing where it refuses
/// it.
pub uninterp spec fn json_read(text: Seq<char>) -> Option<JsonView>;

/// The text that `serde_json` writes for an object of texts and nulls.
pub uninterp spec fn json_object_text(fields: Seq<(Seq<char>, Option<Seq<char>>)>) -> Seq<char>;

/// The members of an object that was given these fields in turn.
pub open spec fn members_of(fields: Seq<(Seq<char>, Option<Seq<char>>)>) -> Map<
    Seq<char>,
    JsonView,
>
    decreases fields.len(),
{
    if fields.len() == 0 {
        Map::empty()
    } else {
        members_of(fields.drop_last()).insert(
            fields.last().0,
            match fields.last().1 {
                Some(text) => JsonView::Text(text),
                None => JsonView::Null,
            },
        )
    }
}

/// What a member holds, if it is there.
pub open spec fn content_of(member: Option<&serde_json::Value>) -> Option<JsonView> {
    match member {
        Some(value) => Some(json_content(*value)),
        None => None,
    }
}

/// Calls `serde_json::from_str` for a `serde_json::Value`: whether it accepts a
/// text, and what it reads, is a function of the text.
#[verifier::external_body]
pub(crate) fn parse_json(text: &str) -> (r: Result<serde_json::Value, serde_json::Error>)
    ensures
        match r {
            Ok(value) => json_read(text@) == Some(json_content(value)),
            Err(_) => json_read(text@) is None,
        },
{
    serde_json::from_str(text)
}

/// Calls `serde_json::Value::get` with a key: the member of an object with that
/// key, and nothing of any other value.
#[verifier::external_body]
pub(crate) fn member<'a>(value: &'a serde_json::Value, key: &str) -> (r: Option<
    &'a serde_json::Value,
>)
    ensures
        content_of(r) == json_content(*value).member(key@),
{
    value.get(key)
}

/// Calls `serde_json::Value::as_str`: the text, if the value is one.
#[verifier::external_body]
pub(crate) fn as_text(value: &serde_json::Value) -> (r: Option<&str>)
    ensures
        match r {
            Some(text) => json_content(*value).text() == Some(text@),
            None => json_content(*value).text() is None,
        },
{
    value.as_str()
}

/// Calls `serde_json::Value::as_bool`: the truth value, if the value is one.
#[verifier::external_body]
pub(crate) fn as_flag(value: &serde_json::Value) -> (r: Option<bool>)
    ensures
        r == json_content(*value).bool(),
{
    value.as_bool()
}

/// Calls `serde_json::Value::as_u64`: the unsigned integer, if the value is one
/// that fits.
#[verifier::external_body]
pub(crate) fn as_unsigned(value: &serde_json::Value) -> (r: Option<u64>)
    ensures
        r == json_content(*value).unsigned(),
{
    value.as_u64()
}

/// The value `serde_json::Value::Null`.
#[verifier::external_body]
pub(crate) fn null_value() -> (r: serde_json::Value)
    ensures
        json_content(r) == JsonView::Null,
{
    serde_json::Value::Null
}

/// Calls `serde_json::Value::clone`: the same value once more.
#[verifier::external_body]
pub(crate) fn copy_value(value: &serde_json::Value) -> (r: serde_json::Value)
    ensures
        r == *value,
{
    value.clone()
}

/// Calls `serde_json::Value::from_iter` with these fields, which makes an object
/// of them in which a field without a text is null, and
/// `serde_json::Value::to_string` on it. The text is a function of the fields,
/// and `serde_json::from_str` reads the same object back from it.
#[verifier::external_body]
pub(crate) fn object_text(fields: Vec<(String, Option<String>)>) -> (r: String)
    ensures
        r@ == json_object_text(fields.deep_view()),
        json_read(r@) == Some(JsonView::Object(members_of(fields.deep_view()))),
{
    let object: serde_json::Value = fields.into_iter().collect();
    object.to_string()
}

// ---------------------------------------------------------------------------
// Laws
// ---------------------------------------------------------------------------

/// An object has the members that it holds and no others, and nothing else has
/// members.
pub proof fn law_only_objects_have_members(
    members: Map<Seq<char>, JsonView>,
    key: Seq<char>,
    value: JsonView,
)
    ensures
        members.dom().contains(key) ==> JsonView::Object(members).member(key) == Some(members[key]),
        !members.dom().contains(key) ==> JsonView::Object(members).member(key) is None,
        !(value is Object) ==> value.member(key) is None,
{
}

/// Each kind of value is read as what it holds, and as nothing else.
pub proof fn law_values_are_read_as_what_they_hold(
    value: JsonView,
    text: Seq<char>,
    flag: bool,
    n: Option<u64>,
)
    ensures
        JsonView::Text(text).text() == Some(text),
        JsonView::Bool(flag).bool() == Some(flag),
        (JsonView::Number { text, unsigned: n }).unsigned() == n,
        !(value is Text) ==> value.text() is None,
        !(value is Bool) ==> value.bool() is None,
        !(value is Number) ==> value.unsigned() is None,
{
}

/// A field that was given last is the member under its key, as a text or, where
/// it has none, as null; it leaves the members under other keys as they were.
pub proof fn law_fields_become_members(
    fields: Seq<(Seq<char>, Option<Seq<char>>)>,
    key: Seq<char>,
    field: Option<Seq<char>>,
    other: Seq<char>,
)
    ensures
        ({
            let before = JsonView::Object(members_of(fields));
            let after = JsonView::Object(members_of(fields.push((key, field))));
            &&& after.member(key) == Some(
                if field is Some {
                    JsonView::Text(field->0)
                } else {
                    JsonView::Null
                },
            )
            &&& other != key ==> after.member(other) == before.member(other)
        }),
        JsonView::Object(members_of(Seq::empty())).member(key) is None,
{
    assert(fields.push((key, field)).drop_last() =~= fields);
}

} // verus!
