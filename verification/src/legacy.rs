//! Events of traces from before an inventory said which request it answers.

use vstd::prelude::*;

verus! {

/// A JSON value.
#[verifier::external_type_specification]
#[verifier::external_body]
pub struct ExValue(serde_json::Value);

/// What a JSON object holds, by key; nothing for a value of another kind.
pub uninterp spec fn members(value: serde_json::Value) -> Option<Map<Seq<char>, serde_json::Value>>;

/// The JSON value that a text is, if it is one.
pub uninterp spec fn parsed(text: Seq<char>) -> Option<serde_json::Value>;

/// The JSON value for a truth value.
pub uninterp spec fn json_bool(value: bool) -> serde_json::Value;

/// `serde_json::from_str`, for a value of any kind: what a text is as JSON is
/// given by the text alone. Why a text is none is not told.
#[verifier::external_body]
fn parse_value(text: &str) -> (value: Option<serde_json::Value>)
    ensures
        value == parsed(text@),
{
    serde_json::from_str(text).ok()
}

/// `serde_json::Value::get` with a key, and a copy of what it finds: the member
/// of an object under that key, and nothing where there is none or the value is
/// no object.
#[verifier::external_body]
fn member(value: &serde_json::Value, key: &str) -> (found: Option<serde_json::Value>)
    ensures
        found == match members(*value) {
            Some(held) => if held.contains_key(key@) {
                Some(held[key@])
            } else {
                None
            },
            None => None,
        },
{
    value.get(key).cloned()
}

/// `serde_json::Map::insert` on the map of an object, by way of
/// `serde_json::Value::as_object_mut`: the member under that key is the new one,
/// the others stay. A value of another kind is left as it is.
#[verifier::external_body]
fn insert_member(value: &mut serde_json::Value, key: &str, member: serde_json::Value) -> (inserted:
    bool)
    ensures
        match members(*old(value)) {
            Some(held) => inserted && members(*final(value)) == Some(held.insert(key@, member)),
            None => !inserted && *final(value) == *old(value),
        },
{
    match value.as_object_mut() {
        Some(map) => {
            map.insert(key.to_owned(), member);
            true
        },
        None => false,
    }
}

/// `serde_json::Value::is_object`: whether the value is an object, which is to
/// have members, if only none.
pub assume_specification[ serde_json::Value::is_object ](value: &serde_json::Value) -> (is: bool)
    ensures
        is == members(*value) is Some,
;

/// `serde_json::Value::Bool`, the JSON value for a truth value.
#[verifier::external_body]
fn bool_value(value: bool) -> (json: serde_json::Value)
    ensures
        json == json_bool(value),
{
    serde_json::Value::Bool(value)
}

/// The members of an inventory with what was not recorded filled in: the token,
/// and that the inventory succeeded.
pub open spec fn filled_in(
    fields: Map<Seq<char>, serde_json::Value>,
    token: serde_json::Value,
) -> Map<Seq<char>, serde_json::Value> {
    let with_token = if fields.contains_key("token"@) {
        fields
    } else {
        fields.insert("token"@, token)
    };
    if with_token.contains_key("successful"@) {
        with_token
    } else {
        with_token.insert("successful"@, json_bool(true))
    }
}

/// The members of the inventory in an event, if it is one.
pub open spec fn inventory_fields(value: serde_json::Value) -> Option<
    Map<Seq<char>, serde_json::Value>,
> {
    match members(value) {
        Some(held) => if held.contains_key("WindowsDiscovered"@) {
            members(held["WindowsDiscovered"@])
        } else {
            None
        },
        None => None,
    }
}

/// Fills in what an inventory of an old trace lacks: `token`, which stands for
/// no request, and that it succeeded. Another event is given up.
pub fn fill_legacy_fields(value: serde_json::Value, token: serde_json::Value) -> (filled: Option<
    serde_json::Value,
>)
    ensures
        filled is Some <==> inventory_fields(value) is Some,
        filled matches Some(event) ==> inventory_fields(event) == Some(
            filled_in(inventory_fields(value)->0, token),
        ) && members(event) == Some(
            members(value)->0.insert(
                "WindowsDiscovered"@,
                members(event)->0["WindowsDiscovered"@],
            ),
        ),
{
    let mut event = value;
    match member(&event, "WindowsDiscovered") {
        Some(found) => {
            let mut fields = found;
            if !fields.is_object() {
                return None;
            }
            if member(&fields, "token").is_none() {
                let _ = insert_member(&mut fields, "token", token);
            }
            if member(&fields, "successful").is_none() {
                let _ = insert_member(&mut fields, "successful", bool_value(true));
            }
            let _ = insert_member(&mut event, "WindowsDiscovered", fields);
            Some(event)
        },
        None => None,
    }
}

/// An inventory from before it carried a token or said that it succeeded, with
/// both filled in. A text that is no such event is given up.
pub fn legacy_windows_discovered(json: &str, token: serde_json::Value) -> (filled: Option<
    serde_json::Value,
>)
    ensures
        filled is Some <==> (parsed(json@) is Some && inventory_fields(parsed(json@)->0) is Some),
        filled matches Some(event) ==> inventory_fields(event) == Some(
            filled_in(inventory_fields(parsed(json@)->0)->0, token),
        ) && members(event) == Some(
            members(parsed(json@)->0)->0.insert(
                "WindowsDiscovered"@,
                members(event)->0["WindowsDiscovered"@],
            ),
        ),
{
    match parse_value(json) {
        Some(value) => fill_legacy_fields(value, token),
        None => None,
    }
}

/// What an inventory says is never changed: only what it lacks is filled in.
pub proof fn recorded_fields_stay(
    fields: Map<Seq<char>, serde_json::Value>,
    token: serde_json::Value,
    key: Seq<char>,
)
    requires
        fields.contains_key(key),
    ensures
        filled_in(fields, token).contains_key(key),
        filled_in(fields, token)[key] == fields[key],
{
}

/// An inventory that is filled in lacks nothing more: to do it again changes
/// nothing.
pub proof fn filling_in_twice_is_once(
    fields: Map<Seq<char>, serde_json::Value>,
    token: serde_json::Value,
    other: serde_json::Value,
)
    ensures
        filled_in(filled_in(fields, token), other) == filled_in(fields, token),
{
    reveal_strlit("token");
    reveal_strlit("successful");
    assert("token"@.len() != "successful"@.len());
}

/// What an inventory lacks is the token and that it succeeded, and each is filled in where
/// it is missing; no other key comes in.
pub proof fn what_is_filled_in(
    fields: Map<Seq<char>, serde_json::Value>,
    token: serde_json::Value,
    key: Seq<char>,
)
    ensures
        !fields.contains_key("token"@) ==> filled_in(fields, token).contains_key("token"@)
            && filled_in(fields, token)["token"@] == token,
        !fields.contains_key("successful"@) ==> filled_in(fields, token).contains_key(
            "successful"@,
        ) && filled_in(fields, token)["successful"@] == json_bool(true),
        key != "token"@ && key != "successful"@ ==> filled_in(fields, token).contains_key(key)
            == fields.contains_key(key),
{
    reveal_strlit("token");
    reveal_strlit("successful");
    assert("token"@.len() != "successful"@.len());
}

/// An event is an inventory if it is an object with that key, and what stands there is an
/// object.
pub proof fn which_event_is_an_inventory(
    value: serde_json::Value,
    held: Map<Seq<char>, serde_json::Value>,
)
    ensures
        members(value) is None ==> inventory_fields(value) is None,
        members(value) == Some(held) && !held.contains_key("WindowsDiscovered"@)
            ==> inventory_fields(value) is None,
        members(value) == Some(held) && held.contains_key("WindowsDiscovered"@) ==> inventory_fields(
            value,
        ) == members(held["WindowsDiscovered"@]),
{
}

} // verus!
