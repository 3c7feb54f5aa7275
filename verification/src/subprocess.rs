//! How the proxy launches the assistant's command-line client so that its
//! request goes through the proxy.

use vstd::prelude::*;

verus! {

/// A program to run: its name, its arguments, and the environment
/// variables to set for it.
pub struct CommandPlan {
    pub program: String,
    pub args: Vec<String>,
    pub env: Vec<(String, String)>,
}

/// The command that sends one message: the assistant's client `program`
/// with `-p --dangerously-skip-permissions`, and `--continue` to continue
/// the last conversation, routed through the proxy on 127.0.0.1:8080 and
/// trusting the proxy's certificate authority at `ca_cert_path`. The
/// message itself goes to its standard input.
pub fn assistant_command(program: &str, continue_conversation: bool, ca_cert_path: &str) -> (r:
    CommandPlan)
    ensures
        r.program@ == program@,
        r.args@.map_values(|a: String| a@) == if continue_conversation {
            seq!["-p"@, "--dangerously-skip-permissions"@, "--continue"@]
        } else {
            seq!["-p"@, "--dangerously-skip-permissions"@]
        },
        r.env@.map_values(|e: (String, String)| (e.0@, e.1@)) == seq![
            ("HTTPS_PROXY"@, "http://127.0.0.1:8080"@),
            ("NODE_EXTRA_CA_CERTS"@, ca_cert_path@),
        ],
{
    let mut args: Vec<String> = Vec::new();
    args.push("-p".to_owned());
    args.push("--dangerously-skip-permissions".to_owned());
    if continue_conversation {
        args.push("--continue".to_owned());
    }
    let mut env: Vec<(String, String)> = Vec::new();
    env.push(("HTTPS_PROXY".to_owned(), "http://127.0.0.1:8080".to_owned()));
    env.push(("NODE_EXTRA_CA_CERTS".to_owned(), ca_cert_path.to_owned()));
    let r = CommandPlan { program: program.to_owned(), args, env };
    assert(r.args@.map_values(|a: String| a@) =~= if continue_conversation {
        seq!["-p"@, "--dangerously-skip-permissions"@, "--continue"@]
    } else {
        seq!["-p"@, "--dangerously-skip-permissions"@]
    });
    assert(r.env@.map_values(|e: (String, String)| (e.0@, e.1@)) =~= seq![
        ("HTTPS_PROXY"@, "http://127.0.0.1:8080"@),
        ("NODE_EXTRA_CA_CERTS"@, ca_cert_path@),
    ]);
    r
}

} // verus!
