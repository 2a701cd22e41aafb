//! The debug form of the tool's configuration, which must never show the Space-Track password.
use vstd::prelude::*;
use crate::form::{debug_quoted, quoted};

verus! {

/// The debug form of a configuration with the given Space-Track credentials (user name and
/// password): only the user name is shown, the password is replaced by a fixed mask.
pub open spec fn config_debug_spec(space_track_creds: Option<(String, String)>) -> Seq<char> {
    match space_track_creds {
        None => "Config { space_track_creds: None }"@,
        Some((user, _)) => "Config { space_track_creds: Some(("@ + debug_quoted(user@)
            + ", \"********\")) }"@,
    }
}

/// The debug form of a configuration with the given Space-Track credentials.
pub fn config_debug(space_track_creds: &Option<(String, String)>) -> (r: String)
    ensures
        r@ == config_debug_spec(*space_track_creds),
{
    match space_track_creds {
        None => String::from_str("Config { space_track_creds: None }"),
        Some((user, _)) => {
            let mut out = String::from_str("Config { space_track_creds: Some((");
            let q = quoted(user);
            out.append(q.as_str());
            out.append(", \"********\")) }");
            out
        },
    }
}

/// The password never shows in the debug form of a configuration: two configurations whose
/// credentials differ only in the password print alike.
pub proof fn lemma_config_password_masked(user: String, a: String, b: String)
    ensures
        config_debug_spec(Some((user, a))) == config_debug_spec(Some((user, b))),
{
}

} // verus!
