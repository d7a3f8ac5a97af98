//! Sessions and remote commands: what a shell is started with, how a script
//! is quoted for `sh`, what a command answers, the names of session events,
//! and the sort positions and search patterns of stored records.
use vstd::prelude::*;

use crate::ssh::opt_view;
use crate::actions::replace_text;
use crate::text::{chars_of, concat, push_str, replace_all, string_from_chars};

verus! {

/// What a command run over SSH answers: its standard output, or its error
/// output when it printed nothing else.
pub fn command_output(stdout: String, stderr: String) -> (r: String)
    ensures
        r@ == (if stdout@.len() == 0 && stderr@.len() > 0 {
            stderr@
        } else {
            stdout@
        }),
{
    let out_empty = chars_of(stdout.as_str()).len() == 0;
    let err_empty = chars_of(stderr.as_str()).len() == 0;
    if !err_empty && out_empty {
        stderr
    } else {
        stdout
    }
}

/// A non-empty text, as a line.
pub open spec fn as_line(t: Option<Seq<char>>, prefix: Seq<char>) -> Seq<Seq<char>> {
    match t {
        Some(x) => if x.len() > 0 {
            seq![prefix + x + "\n"@]
        } else {
            Seq::empty()
        },
        None => Seq::empty(),
    }
}

/// What a new shell is sent first: the connection's init command, then a
/// change to its init path, each only when set and not empty.
pub open spec fn init_writes_of(init_command: Option<Seq<char>>, init_path: Option<Seq<char>>) -> Seq<Seq<char>> {
    as_line(init_command, Seq::empty()) + as_line(init_path, "cd "@)
}

fn line_of(t: &Option<String>, prefix: &str) -> (r: Option<String>)
    ensures
        match r {
            Some(x) => as_line(opt_view(*t), prefix@) == seq![x@],
            None => as_line(opt_view(*t), prefix@) == Seq::<Seq<char>>::empty(),
        },
{
    match t {
        Some(x) => if chars_of(x.as_str()).len() > 0 {
            let mut v = chars_of(prefix);
            push_str(&mut v, x.as_str());
            push_str(&mut v, "\n");
            Some(string_from_chars(v.as_slice()))
        } else {
            None
        },
        None => None,
    }
}

pub fn init_writes(init_command: &Option<String>, init_path: &Option<String>) -> (r: Vec<String>)
    ensures
        r@.map_values(|s: String| s@) == init_writes_of(opt_view(*init_command), opt_view(*init_path)),
{
    let mut r: Vec<String> = Vec::new();
    proof {
        reveal_strlit("");
    }
    let a = line_of(init_command, "");
    let b = line_of(init_path, "cd ");
    match a {
        Some(x) => r.push(x),
        None => {},
    }
    match b {
        Some(x) => r.push(x),
        None => {},
    }
    assert(r@.map_values(|s: String| s@) =~= init_writes_of(opt_view(*init_command), opt_view(*init_path)));
    r
}

/// The shell a local terminal runs: the one asked for, else `cmd` on
/// Windows, else the user's `SHELL`, else `/bin/sh`.
pub fn shell_for(requested: Option<String>, windows: bool, env_shell: Option<String>) -> (r: String)
    ensures
        r@ == (match requested {
            Some(s) => s@,
            None => if windows {
                "cmd"@
            } else {
                match env_shell {
                    Some(s) => s@,
                    None => "/bin/sh"@,
                }
            },
        }),
{
    match requested {
        Some(s) => s,
        None => if windows {
            crate::text::owned("cmd")
        } else {
            match env_shell {
                Some(s) => s,
                None => crate::text::owned("/bin/sh"),
            }
        },
    }
}

/// The sort position of a new group: one past the largest so far.
pub fn next_sort_order(max_order: i32) -> (r: i32)
    requires
        max_order < i32::MAX,
    ensures
        r == max_order + 1,
{
    max_order + 1
}

/// The `LIKE` pattern of a connection search: the query anywhere.
pub fn search_pattern(query: &str) -> (r: String)
    ensures
        r@ == "%"@ + query@ + "%"@,
{
    let mut v = chars_of("%");
    push_str(&mut v, query);
    push_str(&mut v, "%");
    string_from_chars(v.as_slice())
}

/// The command that runs `script` with `sh` on the remote host: CRLF line
/// ends become LF, and the script is put in single quotes, each quote in it
/// written as `'\''`.
pub open spec fn sh_command_text(script: Seq<char>) -> Seq<char> {
    let unix = replace_all(script, "\r\n"@, "\n"@);
    "sh -c '"@ + replace_all(unix, "'"@, "'\\''"@) + "'"@
}

pub fn sh_command(script: &str) -> (r: String)
    ensures
        r@ == sh_command_text(script@),
{
    proof {
        reveal_strlit("\r\n");
        reveal_strlit("'");
    }
    let unix = replace_text(script, "\r\n", "\n");
    let quoted = replace_text(unix.as_str(), "'", "'\\''");
    let mut v = chars_of("sh -c '");
    push_str(&mut v, quoted.as_str());
    push_str(&mut v, "'");
    string_from_chars(v.as_slice())
}

/// The name of the event `kind` of `id` (a session or a transfer), as the window listens for it.
pub fn event_name(kind: &str, id: &str) -> (r: String)
    ensures
        r@ == kind@ + "-"@ + id@,
{
    let k = concat(kind, "-");
    concat(k.as_str(), id)
}

} // verus!
