//! How the editor extension finds the command that starts the language
//! server.
use vstd::prelude::*;

use crate::text::chars_of;

verus! {

/// The language server's id, and the name of its binary.
pub open spec fn server_id() -> Seq<char> {
    "file-mentions-lsp"@
}

/// The language server's id, which is also the name of its binary.
pub fn server_name() -> (r: String)
    ensures
        r@ == server_id(),
{
    String::from_str("file-mentions-lsp")
}

/// The command that starts the language server.
#[derive(Debug, Clone, PartialEq, Eq)]
pub struct ServerCommand {
    pub command: String,
    pub args: Vec<String>,
    pub env: Vec<(String, String)>,
}

fn same_chars(a: &str, b: &str) -> (r: bool)
    ensures
        r == (a@ == b@),
{
    let x = chars_of(a);
    let y = chars_of(b);
    if x.len() != y.len() {
        return false;
    }
    let mut i: usize = 0;
    while i < x.len()
        invariant
            x@.len() == y@.len(),
            x@ == a@,
            y@ == b@,
            i <= x@.len(),
            forall|k: int| 0 <= k < i ==> x@[k] == y@[k],
        decreases x@.len() - i,
    {
        if x[i] != y[i] {
            assert(x@[i as int] != y@[i as int]);
            return false;
        }
        i += 1;
    }
    assert(x@ =~= y@);
    true
}

/// Accepts only this extension's language server id; any other id is an
/// error naming it.
pub fn check_language_server_id(language_server_id: &str) -> (r: Result<(), String>)
    ensures
        match r {
            Ok(()) => language_server_id@ == server_id(),
            Err(message) => language_server_id@ != server_id() && message@
                == "unknown language server: "@ + language_server_id@,
        },
{
    let name = server_name();
    if same_chars(language_server_id, name.as_str()) {
        Ok(())
    } else {
        let mut message = String::from_str("unknown language server: ");
        message.append(language_server_id);
        Err(message)
    }
}

/// The command configured in the settings: only when a binary path is
/// given, with the configured arguments and environment (none when absent).
pub fn configured_command(
    path: Option<String>,
    arguments: Option<Vec<String>>,
    env: Option<Vec<(String, String)>>,
) -> (r: Option<ServerCommand>)
    ensures
        match path {
            None => r is None,
            Some(p) => r matches Some(c) && c.command@ == p@ && c.args@ == match arguments {
                Some(a) => a@,
                None => Seq::<String>::empty(),
            } && c.env@ == match env {
                Some(e) => e@,
                None => Seq::<(String, String)>::empty(),
            },
        },
{
    match path {
        None => None,
        Some(command) => {
            let args = match arguments {
                Some(a) => a,
                None => Vec::new(),
            };
            let env = match env {
                Some(e) => e,
                None => Vec::new(),
            };
            Some(ServerCommand { command, args, env })
        },
    }
}

/// The command found by looking the binary up on `PATH`, or an error that
/// says how to make the binary available.
pub fn command_from_path_lookup(found: Option<String>) -> (r: Result<ServerCommand, String>)
    ensures
        match found {
            Some(p) => r matches Ok(c) && c.command@ == p@ && c.args@.len() == 0 && c.env@.len() == 0,
            None => r matches Err(message) && message@ == not_found_message(),
        },
{
    match found {
        Some(command) => Ok(ServerCommand { command, args: Vec::new(), env: Vec::new() }),
        None => Err(String::from_str(
            "file-mentions-lsp was not found. Build it with `cargo build --manifest-path server/Cargo.toml --release`, then either add the binary to PATH or configure `lsp.file-mentions-lsp.binary.path` in Zed settings.",
        )),
    }
}

/// The error returned when the server binary cannot be found.
pub open spec fn not_found_message() -> Seq<char> {
    "file-mentions-lsp was not found. Build it with `cargo build --manifest-path server/Cargo.toml --release`, then either add the binary to PATH or configure `lsp.file-mentions-lsp.binary.path` in Zed settings."@
}

} // verus!
