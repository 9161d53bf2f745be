//! The command-line input as plain values, and the resolution of the SSH
//! identity to use for every authenticated operation.

use vstd::prelude::*;

verus! {

/// The command-line input: the forge URI to fetch and an optional path to
/// an SSH private key.
#[derive(Clone, Debug)]
pub struct Cli {
    /// Forge URI to grab.
    pub get: String,
    /// Identity file to use; when absent, `<home>/.ssh/id_ed25519`.
    pub identity_file: Option<String>,
}

/// The SSH key path that authenticated operations use: the explicit
/// identity when one was given, else `<home>/.ssh/id_ed25519`.
pub fn identity_path(home: &str, identity_file: Option<String>) -> (r: String)
    ensures
        identity_file matches Some(p) ==> r@ == p@,
        identity_file is None ==> r@ == home@ + "/.ssh/id_ed25519"@,
{
    match identity_file {
        Some(p) => p,
        None => {
            let mut out = home.to_owned();
            out.append("/.ssh/id_ed25519");
            out
        },
    }
}

} // verus!
