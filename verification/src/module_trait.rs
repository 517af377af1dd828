//! Saving the state of a module to a file and loading it again.

use crate::error::{DspyError, Result};
use crate::json::{
    copy_object, empty_object, member_of, member_text, nests_within, new_object, parsed_json,
    pretty_json, put, put_text, read_ok, Json, JsonSpec,
};
use crate::text::{ends_with, finishes_with, same};
use vstd::prelude::*;

verus! {

/// The version that saved states carry.
pub open spec fn current_version() -> Seq<char> {
    "1.0.0"@
}

/// What saved states say of the versions that they depend on.
pub open spec fn metadata_json() -> JsonSpec {
    JsonSpec::Object(
        empty_object().insert(
            "dependency_versions"@,
            JsonSpec::Object(
                empty_object().insert("dspy_rs"@, JsonSpec::Text(current_version())),
            ),
        ),
    )
}

/// A state as it is saved: an object with the versions added.
pub open spec fn saved_state(state: JsonSpec) -> JsonSpec {
    match state {
        JsonSpec::Object(m) => JsonSpec::Object(m.insert("metadata"@, metadata_json())),
        _ => state,
    }
}

/// What is said of a path that is not that of a JSON file.
pub open spec fn path_message(path: Seq<char>) -> Seq<char> {
    "`path` must end with `.json`, but received: "@ + path
}

/// The version that a state says it was saved with.
pub open spec fn version_in(state: JsonSpec) -> Option<Seq<char>> {
    match member_of(state, "metadata"@) {
        Some(m) => match member_of(m, "dependency_versions"@) {
            Some(v) => member_text(v, "dspy_rs"@),
            None => None,
        },
        None => None,
    }
}

/// What is said of a state that was saved with another version.
pub open spec fn version_warning(state: JsonSpec) -> Option<Seq<char>> {
    match version_in(state) {
        Some(v) => if v == current_version() {
            None
        } else {
            Some(
                "Warning: Version mismatch: saved with dspy_rs=="@ + v
                    + ", current is dspy_rs==1.0.0"@,
            )
        },
        None => None,
    }
}

/// Checks that a path is that of a JSON file.
pub fn check_path(path: &str) -> (r: Result<()>)
    ensures
        r is Ok <==> finishes_with(path@, ".json"@),
        r matches Err(e) ==> e matches DspyError::Other(m) && m@ == path_message(path@),
{
    if ends_with(path, ".json") {
        Ok(())
    } else {
        let mut m = "`path` must end with `.json`, but received: ".to_string();
        m.append(path);
        Err(DspyError::Other(m))
    }
}

/// The text of the file that a state is saved to. It is read back as the state
/// that was saved.
pub fn save_text(path: &str, state: &Json) -> (r: Result<String>)
    ensures
        r is Ok <==> finishes_with(path@, ".json"@),
        r matches Err(e) ==> e matches DspyError::Other(m) && m@ == path_message(path@),
        r matches Ok(t) ==> t@ == pretty_json(saved_state(state@)) + "\n"@ && (nests_within(
            saved_state(state@),
            127,
        ) ==> parsed_json(t@) == read_ok(saved_state(state@))),
{
    match check_path(path) {
        Ok(_) => {
            let saved = match state {
                Json::Object(m) => {
                    let mut kept = copy_object(m);
                    let mut versions = new_object();
                    put_text(&mut versions, "dspy_rs", "1.0.0");
                    let mut metadata = new_object();
                    put(&mut metadata, "dependency_versions", Json::Object(versions));
                    put(&mut kept, "metadata", Json::Object(metadata));
                    Json::Object(kept)
                },
                _ => state.copy(),
            };
            let mut text = saved.to_text_pretty();
            text.append("\n");
            Ok(text)
        },
        Err(e) => Err(e),
    }
}

/// The state that the text of a file holds, and what there is to say of the
/// version that it was saved with.
pub fn load_text(path: &str, raw: &str) -> (r: Result<(Json, Option<String>)>)
    ensures
        match r {
            Ok((state, warning)) => {
                &&& finishes_with(path@, ".json"@)
                &&& parsed_json(raw@) == read_ok(state@)
                &&& match warning {
                    Some(w) => version_warning(state@) == Some(w@),
                    None => version_warning(state@) is None,
                }
            },
            Err(DspyError::Other(m)) => if finishes_with(path@, ".json"@) {
                parsed_json(raw@) matches Err(e) && m@ == "Failed to parse JSON: "@ + e
            } else {
                m@ == path_message(path@)
            },
            Err(_) => false,
        },
{
    match check_path(path) {
        Ok(_) => {},
        Err(e) => {
            return Err(e);
        },
    }
    match Json::parse(raw) {
        Ok(state) => {
            let mut warning: Option<String> = None;
            if let Some(metadata) = state.get("metadata") {
                if let Some(versions) = metadata.get("dependency_versions") {
                    if let Some(version) = versions.get_str("dspy_rs") {
                        if !same(version, "1.0.0") {
                            let mut w =
                                "Warning: Version mismatch: saved with dspy_rs==".to_string();
                            w.append(version);
                            w.append(", current is dspy_rs==1.0.0");
                            warning = Some(w);
                        }
                    }
                }
            }
            Ok((state, warning))
        },
        Err(e) => {
            let mut m = "Failed to parse JSON: ".to_string();
            m.append(e.as_str());
            Err(DspyError::Other(m))
        },
    }
}

/// A state that was saved here is loaded without a warning.
pub proof fn law_saved_version_is_current(m: Map<Seq<char>, JsonSpec>)
    ensures
        version_warning(saved_state(JsonSpec::Object(m))) is None,
        version_in(saved_state(JsonSpec::Object(m))) == Some(current_version()),
{
}

} // verus!
