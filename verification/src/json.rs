//! JSON objects, built field by field and written out as one line of text.

use vstd::prelude::*;

verus! {

/// What a field of a JSON object holds.
pub enum FieldValue {
    Text(Seq<char>),
    Number(int),
    Flag(bool),
    /// A value that is no string, unsigned integer or boolean, by its text.
    Other(Seq<char>),
}

/// The fields of a JSON object, by key.
pub type Fields = Map<Seq<char>, FieldValue>;

/// `serde_json::Value`, carried as it is.
#[verifier::external_type_specification]
#[verifier::external_body]
pub struct ExJsonValue(serde_json::Value);

/// `serde_json::Map`, the object of a frame while it is built.
#[verifier::external_type_specification]
#[verifier::external_body]
#[verifier::reject_recursive_types(K)]
#[verifier::reject_recursive_types(V)]
pub struct ExJsonMap<K, V>(serde_json::Map<K, V>);

/// The fields that a `serde_json::Map` holds: under each key, its value.
pub uninterp spec fn object_fields(
    object: serde_json::Map<String, serde_json::Value>,
) -> Fields;

/// Whether a value is a string, a boolean or an integer that fits in `u64`.
pub open spec fn is_scalar(value: FieldValue) -> bool {
    match value {
        FieldValue::Text(_) | FieldValue::Flag(_) => true,
        FieldValue::Number(number) => 0 <= number <= u64::MAX,
        FieldValue::Other(_) => false,
    }
}

/// Whether there are finitely many fields and every one holds a scalar.
pub open spec fn is_flat(fields: Fields) -> bool {
    &&& fields.dom().finite()
    &&& forall|key: Seq<char>| #[trigger] fields.contains_key(key) ==> is_scalar(fields[key])
}

/// The compact JSON text of an object with the given fields.
pub uninterp spec fn object_text(fields: Fields) -> Seq<char>;

/// Calls `serde_json::Map::new`, and claims that the new object has no field.
#[verifier::external_body]
pub(crate) fn new_object() -> (object: serde_json::Map<String, serde_json::Value>)
    ensures
        object_fields(object) == Fields::empty(),
{
    serde_json::Map::new()
}

/// Calls `serde_json::Map::insert` with the `Value` that `From<&str>` makes,
/// and claims that the field under the key then holds that text and every
/// other field is as before.
#[verifier::external_body]
pub(crate) fn insert_text(
    object: &mut serde_json::Map<String, serde_json::Value>,
    key: &str,
    text: &str,
)
    ensures
        object_fields(*final(object)) == object_fields(*old(object)).insert(
            key@,
            FieldValue::Text(text@),
        ),
{
    object.insert(key.to_owned(), serde_json::Value::from(text));
}

/// Calls `serde_json::Map::insert` with the `Value` that `From<u64>` makes,
/// and claims that the field under the key then holds that number and every
/// other field is as before.
#[verifier::external_body]
pub(crate) fn insert_number(
    object: &mut serde_json::Map<String, serde_json::Value>,
    key: &str,
    number: u64,
)
    ensures
        object_fields(*final(object)) == object_fields(*old(object)).insert(
            key@,
            FieldValue::Number(number as int),
        ),
{
    object.insert(key.to_owned(), serde_json::Value::from(number));
}

/// Calls `serde_json::Map::insert` with the `Value` that `From<bool>` makes,
/// and claims that the field under the key then holds that flag and every
/// other field is as before.
#[verifier::external_body]
pub(crate) fn insert_flag(
    object: &mut serde_json::Map<String, serde_json::Value>,
    key: &str,
    flag: bool,
)
    ensures
        object_fields(*final(object)) == object_fields(*old(object)).insert(
            key@,
            FieldValue::Flag(flag),
        ),
{
    object.insert(key.to_owned(), serde_json::Value::from(flag));
}

/// Calls `to_string` of `serde_json::Value` (its `Display`) on the object, and
/// claims that the text follows from the fields alone, that it holds no line
/// feed (the compact format writes no white space and escapes control
/// characters), and that no other scalar fields have the same text (it is JSON,
/// and reads back as the same fields). Objects with nested values are left out: the
/// call recurses into them, however deep they are.
#[verifier::external_body]
pub(crate) fn write_object(object: serde_json::Map<String, serde_json::Value>) -> (text: String)
    requires
        is_flat(object_fields(object)),
    ensures
        text@ == object_text(object_fields(object)),
        !text@.contains('\n'),
        forall|other: Fields|
            is_flat(other) && #[trigger] object_text(other) == text@ ==> other == object_fields(
                object,
            ),
{
    serde_json::Value::Object(object).to_string()
}

} // verus!
