//! What the file and text-format agents take from their input before they
//! read, write or parse anything.

use crate::data::AgentData;
use crate::error::{AgentError, ErrorModel};
use crate::text::to_string;
use crate::value::AgentValue;
use vstd::prelude::*;

verus! {

broadcast use vstd::string::group_string_axioms;

/// The text of string data; "not a string" for anything else.
pub fn string_input(data: &AgentData) -> (r: Result<String, AgentError>)
    ensures
        match data.value {
            AgentValue::String(s) => r matches Ok(t) && t@ == s@,
            _ => r matches Err(e) && e@ == ErrorModel::InvalidValue("not a string"@),
        },
{
    match &data.value {
        AgentValue::String(s) => Ok(s.clone()),
        _ => Err(AgentError::InvalidValue(to_string("not a string"))),
    }
}

/// The path that the list-files and read-file agents take: the text of
/// string data; "path is not a string" for anything else.
pub fn path_input(data: &AgentData) -> (r: Result<String, AgentError>)
    ensures
        match data.value {
            AgentValue::String(s) => r matches Ok(t) && t@ == s@,
            _ => r matches Err(e) && e@ == ErrorModel::InvalidValue("path is not a string"@),
        },
{
    match &data.value {
        AgentValue::String(s) => Ok(s.clone()),
        _ => Err(AgentError::InvalidValue(to_string("path is not a string"))),
    }
}

/// The text of a field of an object, where it is a string.
pub open spec fn field_text(v: AgentValue, key: Seq<char>) -> Option<Seq<char>> {
    match v.field(key) {
        Some(AgentValue::String(s)) => Some(s@),
        _ => None,
    }
}

/// The path and the text that the write-file agent writes: the "path" and
/// "text" fields of an object, both strings. Each missing or wrong field
/// is refused with its own message, the path first.
pub fn write_file_input(data: &AgentData) -> (r: Result<(String, String), AgentError>)
    ensures
        !(data.value is Object) ==> (r matches Err(e) && e@ == ErrorModel::InvalidValue("Input is not an object"@)),
        data.value is Object ==> if data.value.field("path"@) is None {
            r matches Err(e) && e@ == ErrorModel::InvalidValue("Missing 'path' in input"@)
        } else if field_text(data.value, "path"@) is None {
            r matches Err(e) && e@ == ErrorModel::InvalidValue("'path' is not a string"@)
        } else if data.value.field("text"@) is None {
            r matches Err(e) && e@ == ErrorModel::InvalidValue("Missing 'text' in input"@)
        } else if field_text(data.value, "text"@) is None {
            r matches Err(e) && e@ == ErrorModel::InvalidValue("'text' is not a string"@)
        } else {
            r matches Ok((p, t)) && p@ == field_text(data.value, "path"@)->Some_0 && t@ == field_text(
                data.value,
                "text"@,
            )->Some_0
        },
{
    if !data.value.is_object() {
        return Err(AgentError::InvalidValue(to_string("Input is not an object")));
    }
    let path = match data.value.get("path") {
        None => {
            return Err(AgentError::InvalidValue(to_string("Missing 'path' in input")));
        },
        Some(AgentValue::String(p)) => p.clone(),
        Some(_) => {
            return Err(AgentError::InvalidValue(to_string("'path' is not a string")));
        },
    };
    let text = match data.value.get("text") {
        None => {
            return Err(AgentError::InvalidValue(to_string("Missing 'text' in input")));
        },
        Some(AgentValue::String(t)) => t.clone(),
        Some(_) => {
            return Err(AgentError::InvalidValue(to_string("'text' is not a string")));
        },
    };
    Ok((path, text))
}

} // verus!
