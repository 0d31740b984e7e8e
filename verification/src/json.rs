//! JSON values, as the client protocol exchanges them, one per line.

use serde_json::Value;
use vstd::prelude::*;

verus! {

broadcast use vstd::string::group_string_axioms;

/// What a JSON value holds.
pub enum JsonModel {
    Null,
    Bool(bool),
    /// A natural number below 2^64.
    Number(u64),
    /// Any other number, by its text.
    OtherNumber(Seq<char>),
    Text(Seq<char>),
    List(Seq<JsonModel>),
    Object(Map<Seq<char>, JsonModel>),
}

impl JsonModel {
    /// The object without fields.
    pub open spec fn object() -> JsonModel {
        JsonModel::Object(Map::empty())
    }

    /// The object with the field `key` set to `value`.
    pub open spec fn with(self, key: Seq<char>, value: JsonModel) -> JsonModel {
        match self {
            JsonModel::Object(fields) => JsonModel::Object(fields.insert(key, value)),
            _ => self,
        }
    }

    /// The field `key`, of an object that has it.
    pub open spec fn field(self, key: Seq<char>) -> Option<JsonModel> {
        match self {
            JsonModel::Object(fields) => if fields.contains_key(key) {
                Some(fields[key])
            } else {
                None
            },
            _ => None,
        }
    }

    /// The text in the field `key`, of an object that has such.
    pub open spec fn text_field(self, key: Seq<char>) -> Option<Seq<char>> {
        match self.field(key) {
            Some(JsonModel::Text(text)) => Some(text),
            _ => None,
        }
    }

    /// The number in the field `key`, of an object that has such.
    pub open spec fn number_field(self, key: Seq<char>) -> Option<u64> {
        match self.field(key) {
            Some(JsonModel::Number(number)) => Some(number),
            _ => None,
        }
    }

    /// Lists and objects stand less than `levels` deep in one another, and
    /// every number is a natural one.
    pub open spec fn nested_below(self, levels: nat) -> bool
        decreases levels,
    {
        levels > 0 && match self {
            JsonModel::OtherNumber(_) => false,
            JsonModel::List(items) => forall|i: int|
                0 <= i < items.len() ==> (#[trigger] items[i]).nested_below((levels - 1) as nat),
            JsonModel::Object(fields) => forall|key: Seq<char>| #[trigger]
                fields.contains_key(key) ==> fields[key].nested_below((levels - 1) as nat),
            _ => true,
        }
    }
}

// ---- serde_json ----

/// A JSON value.
#[verifier::external_type_specification]
#[verifier::external_body]
pub struct ExValue(serde_json::Value);

/// What a value holds.
pub uninterp spec fn json_of(value: serde_json::Value) -> JsonModel;

/// The compact text of a value.
pub uninterp spec fn json_text(value: JsonModel) -> Seq<char>;

/// The value that a text is, if it is JSON.
pub uninterp spec fn parsed_json(text: Seq<char>) -> Option<JsonModel>;

/// What the parser says of a text that is not JSON.
pub uninterp spec fn json_fault(text: Seq<char>) -> Seq<char>;

/// `serde_json::Value::Null`.
#[verifier::external_body]
pub(crate) fn null() -> (value: Value)
    ensures
        json_of(value) == JsonModel::Null,
{
    Value::Null
}

/// `From<bool>` of `serde_json::Value`.
#[verifier::external_body]
pub(crate) fn boolean(flag: bool) -> (value: Value)
    ensures
        json_of(value) == JsonModel::Bool(flag),
{
    Value::from(flag)
}

/// `From<u64>` of `serde_json::Value`.
#[verifier::external_body]
pub(crate) fn number(n: u64) -> (value: Value)
    ensures
        json_of(value) == JsonModel::Number(n),
{
    Value::from(n)
}

/// `From<&str>` of `serde_json::Value`.
#[verifier::external_body]
pub(crate) fn text(s: &str) -> (value: Value)
    ensures
        json_of(value) == JsonModel::Text(s@),
{
    Value::from(s)
}

/// `serde_json::Value::Array`.
#[verifier::external_body]
pub(crate) fn list(items: Vec<Value>) -> (value: Value)
    ensures
        json_of(value) == JsonModel::List(Seq::new(items@.len(), |i: int| json_of(items@[i]))),
{
    Value::Array(items)
}

/// `serde_json::Value::Object` of an empty `serde_json::Map`.
#[verifier::external_body]
pub(crate) fn object() -> (value: Value)
    ensures
        json_of(value) == JsonModel::object(),
{
    Value::Object(serde_json::Map::new())
}

/// `insert` of `serde_json::Map`: sets a field, in place of any with that key.
#[verifier::external_body]
pub(crate) fn put(object: &mut Value, key: &str, value: Value)
    requires
        json_of(*old(object)) is Object,
    ensures
        json_of(*final(object)) == json_of(*old(object)).with(key@, json_of(value)),
{
    object.as_object_mut().unwrap().insert(key.to_owned(), value);
}

/// `serde_json::Value::get` with a text: the field of an object.
#[verifier::external_body]
pub(crate) fn get<'a>(value: &'a Value, key: &str) -> (found: Option<&'a Value>)
    ensures
        match found {
            Some(inner) => json_of(*value).field(key@) == Some(json_of(*inner)),
            None => json_of(*value).field(key@) is None,
        },
{
    value.get(key)
}

/// `serde_json::Value::as_str`: the text of a text.
#[verifier::external_body]
pub(crate) fn as_str(value: &Value) -> (found: Option<&str>)
    ensures
        match found {
            Some(s) => json_of(*value) == JsonModel::Text(s@),
            None => !(json_of(*value) is Text),
        },
{
    value.as_str()
}

/// `serde_json::Value::as_u64`: the number of a natural number below 2^64.
#[verifier::external_body]
pub(crate) fn as_u64(value: &Value) -> (found: Option<u64>)
    ensures
        match found {
            Some(n) => json_of(*value) == JsonModel::Number(n),
            None => !(json_of(*value) is Number),
        },
{
    value.as_u64()
}

/// `Display` of `serde_json::Value`: the compact text, a function of what the
/// value holds. `serde_json::from_str` takes that text, and a line end behind
/// it, back to the same; it stops at values that are nested 128 deep.
#[verifier::external_body]
pub(crate) fn to_text(value: &Value) -> (line: String)
    ensures
        line@ == json_text(json_of(*value)),
        json_of(*value).nested_below(100) ==> parsed_json(line@ + "\n"@) == Some(json_of(*value)),
{
    value.to_string()
}

/// `serde_json::from_str`: the value that a text is, or the message of the
/// error, which names the first fault and its place. Both are functions of the
/// text.
#[verifier::external_body]
pub(crate) fn parse(source: &str) -> (parsed: Result<Value, String>)
    ensures
        match parsed {
            Ok(value) => parsed_json(source@) == Some(json_of(value)),
            Err(fault) => parsed_json(source@) is None && fault@ == json_fault(source@),
        },
{
    match serde_json::from_str(source) {
        Ok(value) => Ok(value),
        Err(error) => Err(error.to_string()),
    }
}

// ---- reading fields ----

/// The text in the field `key`.
pub(crate) fn text_field<'a>(value: &'a Value, key: &str) -> (found: Option<&'a str>)
    ensures
        match found {
            Some(s) => json_of(*value).text_field(key@) == Some(s@),
            None => json_of(*value).text_field(key@) is None,
        },
{
    match get(value, key) {
        Some(inner) => as_str(inner),
        None => None,
    }
}

/// The number in the field `key`.
pub(crate) fn number_field(value: &Value, key: &str) -> (found: Option<u64>)
    ensures
        found == json_of(*value).number_field(key@),
{
    match get(value, key) {
        Some(inner) => as_u64(inner),
        None => None,
    }
}

// ---- lines ----

/// A value on a line of its own.
pub open spec fn line_bytes(value: JsonModel) -> Seq<u8> {
    vstd::utf8::encode_utf8(json_text(value) + "\n"@)
}

/// Writes a value on a line of its own.
pub fn to_line(value: &Value) -> (bytes: Vec<u8>)
    ensures
        bytes@ == line_bytes(json_of(*value)),
        json_of(*value).nested_below(100) ==> parsed_json(vstd::utf8::decode_utf8(bytes@)) == Some(json_of(*value)),
{
    let mut line = to_text(value);
    let ghost compact = line@;
    line.append("\n");
    proof {
        assert(line@ =~= compact + "\n"@);
        vstd::utf8::encode_utf8_decode_utf8(line@);
    }
    vstd::slice::slice_to_vec(line.as_str().as_bytes())
}

} // verus!
