//! Small decisions of the application's commands: quick-command variables,
//! RDP client arguments, conversation titles and log levels.
use vstd::prelude::*;

use crate::ssh::authority;
use crate::text::{
    chars_of, concat, decimal, owned, push_decimal, push_str, replace_all, replace_chars,
    str_eq, string_from_chars, to_lowercase, lowercase_text,
};

verus! {

// ---------------------------------------------------------------------------
// Quick commands
// ---------------------------------------------------------------------------

/// Every occurrence of `pat` in `s` replaced by `rep`, left to right.
pub fn replace_text(s: &str, pat: &str, rep: &str) -> (r: String)
    requires
        pat@.len() > 0,
    ensures
        r@ == replace_all(s@, pat@, rep@),
{
    let sc = chars_of(s);
    let pc = chars_of(pat);
    let rc = chars_of(rep);
    let out = replace_chars(sc.as_slice(), pc.as_slice(), rc.as_slice());
    string_from_chars(out.as_slice())
}

/// A quick command with its variables `${host}`, `${port}`, `${username}`,
/// `${date}` and `${time}` replaced, in that order.
pub open spec fn expanded_command(
    command: Seq<char>,
    host: Seq<char>,
    port: u16,
    username: Seq<char>,
    date: Seq<char>,
    time: Seq<char>,
) -> Seq<char> {
    let a = replace_all(command, "${host}"@, host);
    let b = replace_all(a, "${port}"@, decimal(port as nat));
    let c = replace_all(b, "${username}"@, username);
    let d = replace_all(c, "${date}"@, date);
    replace_all(d, "${time}"@, time)
}

/// A text without `$` has no variable to replace.
pub proof fn replace_without_dollar_unchanged(s: Seq<char>, pat: Seq<char>, rep: Seq<char>)
    requires
        pat.len() > 0,
        pat[0] == '$',
        forall|k: int| 0 <= k < s.len() ==> s[k] != '$',
    ensures
        replace_all(s, pat, rep) == s,
    decreases s.len(),
{
    if s.len() > 0 {
        assert(!crate::text::starts_with(s, pat)) by {
            if crate::text::starts_with(s, pat) {
                assert(s.take(pat.len() as int)[0] == s[0]);
            }
        }
        replace_without_dollar_unchanged(s.drop_first(), pat, rep);
        assert(s =~= seq![s[0]] + s.drop_first());
    }
}

/// A quick command without `$` runs as written.
pub proof fn command_without_variables_unchanged(
    command: Seq<char>,
    host: Seq<char>,
    port: u16,
    username: Seq<char>,
    date: Seq<char>,
    time: Seq<char>,
)
    requires
        forall|k: int| 0 <= k < command.len() ==> command[k] != '$',
    ensures
        expanded_command(command, host, port, username, date, time) == command,
{
    reveal_strlit("${host}");
    reveal_strlit("${port}");
    reveal_strlit("${username}");
    reveal_strlit("${date}");
    reveal_strlit("${time}");
    replace_without_dollar_unchanged(command, "${host}"@, host);
    replace_without_dollar_unchanged(command, "${port}"@, decimal(port as nat));
    replace_without_dollar_unchanged(command, "${username}"@, username);
    replace_without_dollar_unchanged(command, "${date}"@, date);
    replace_without_dollar_unchanged(command, "${time}"@, time);
}

/// The command expanded with the given date and time texts.
pub fn expand_command_at(command: &str, host: &str, port: u16, username: &str, date: &str, time: &str) -> (r: String)
    ensures
        r@ == expanded_command(command@, host@, port, username@, date@, time@),
{
    proof {
        reveal_strlit("${host}");
        reveal_strlit("${port}");
        reveal_strlit("${username}");
        reveal_strlit("${date}");
        reveal_strlit("${time}");
    }
    let a = replace_text(command, "${host}", host);
    let mut pv: Vec<char> = Vec::new();
    push_decimal(&mut pv, port as u64);
    assert(pv@ =~= decimal(port as nat));
    let p = string_from_chars(pv.as_slice());
    let b = replace_text(a.as_str(), "${port}", p.as_str());
    let c = replace_text(b.as_str(), "${username}", username);
    let d = replace_text(c.as_str(), "${date}", date);
    replace_text(d.as_str(), "${time}", time)
}

// ---------------------------------------------------------------------------
// Remote desktop
// ---------------------------------------------------------------------------

/// A remote desktop connection.
pub struct RdpConnection {
    pub id: String,
    pub name: String,
    pub host: String,
    pub port: u16,
    pub username: Option<String>,
    pub password: Option<String>,
    pub domain: Option<String>,
    pub width: u32,
    pub height: u32,
}

/// Port, width and height of an RDP session: 3389, 1280 and 800 unless given.
pub fn rdp_settings(port: Option<u16>, width: Option<u32>, height: Option<u32>) -> (r: (u16, u32, u32))
    ensures
        r.0 == (match port {
            Some(p) => p,
            None => 3389u16,
        }),
        r.1 == (match width {
            Some(w) => w,
            None => 1280u32,
        }),
        r.2 == (match height {
            Some(h) => h,
            None => 800u32,
        }),
{
    (
        match port {
            Some(p) => p,
            None => 3389,
        },
        match width {
            Some(w) => w,
            None => 1280,
        },
        match height {
            Some(h) => h,
            None => 800,
        },
    )
}

/// `prefix` followed by the value, when there is one.
pub open spec fn optional_arg(prefix: Seq<char>, v: Option<String>) -> Seq<Seq<char>> {
    match v {
        Some(x) => seq![prefix + x@],
        None => Seq::empty(),
    }
}

/// The arguments of `xfreerdp`: server, width, height, then user,
/// password and domain where given.
pub open spec fn xfreerdp_args_of(
    host: Seq<char>,
    width: u32,
    height: u32,
    username: Option<String>,
    password: Option<String>,
    domain: Option<String>,
) -> Seq<Seq<char>> {
    seq!["/v:"@ + host, "/w:"@ + decimal(width as nat), "/h:"@ + decimal(height as nat)]
        + optional_arg("/u:"@, username) + optional_arg("/p:"@, password) + optional_arg("/d:"@, domain)
}

/// A password given to the RDP launcher reaches xfreerdp: the arguments are
/// the server, width and height, then `/u:` with the user name when there is
/// one, then `/p:` with the password, then `/d:` with the domain when there is
/// one, and nothing else.
pub proof fn xfreerdp_passes_the_password(
    host: Seq<char>,
    width: u32,
    height: u32,
    username: Option<String>,
    password: Option<String>,
    domain: Option<String>,
)
    requires
        password is Some,
    ensures
        ({
            let a = xfreerdp_args_of(host, width, height, username, password, domain);
            let i: int = if username is Some { 4 } else { 3 };
            &&& a.len() == i + 1 + (if domain is Some { 1int } else { 0int })
            &&& a[0] == "/v:"@ + host
            &&& a[i] == "/p:"@ + password->0@
            &&& (username matches Some(u) ==> a[3] == "/u:"@ + u@)
            &&& (domain matches Some(d) ==> a[i + 1] == "/d:"@ + d@)
        }),
{
}

fn push_optional_arg(args: &mut Vec<String>, prefix: &str, v: &Option<String>)
    ensures
        final(args)@.map_values(|s: String| s@) == old(args)@.map_values(|s: String| s@) + optional_arg(prefix@, *v),
{
    let ghost before = args@;
    match v {
        Some(x) => {
            args.push(concat(prefix, x.as_str()));
            assert(args@.map_values(|s: String| s@) =~= before.map_values(|s: String| s@) + optional_arg(prefix@, *v));
        },
        None => {
            assert(args@.map_values(|s: String| s@) =~= before.map_values(|s: String| s@) + optional_arg(prefix@, *v));
        },
    }
}

fn number_arg(prefix: &str, n: u32) -> (r: String)
    ensures
        r@ == prefix@ + decimal(n as nat),
{
    let mut v = chars_of(prefix);
    push_decimal(&mut v, n as u64);
    string_from_chars(v.as_slice())
}

pub fn xfreerdp_args(
    host: &str,
    width: u32,
    height: u32,
    username: &Option<String>,
    password: &Option<String>,
    domain: &Option<String>,
) -> (r: Vec<String>)
    ensures
        r@.map_values(|s: String| s@) == xfreerdp_args_of(host@, width, height, *username, *password, *domain),
{
    let mut args: Vec<String> = Vec::new();
    args.push(concat("/v:", host));
    args.push(number_arg("/w:", width));
    args.push(number_arg("/h:", height));
    assert(args@.map_values(|s: String| s@) =~= seq!["/v:"@ + host@, "/w:"@ + decimal(width as nat), "/h:"@ + decimal(height as nat)]);
    push_optional_arg(&mut args, "/u:", username);
    push_optional_arg(&mut args, "/p:", password);
    push_optional_arg(&mut args, "/d:", domain);
    args
}

/// The `host:port` argument of `rdesktop`.
pub fn rdesktop_target(host: &str, port: u16) -> (r: String)
    ensures
        r@ == authority(host@, port),
{
    let mut v = chars_of(host);
    push_str(&mut v, ":");
    push_decimal(&mut v, port as u64);
    string_from_chars(v.as_slice())
}

// ---------------------------------------------------------------------------
// Conversations
// ---------------------------------------------------------------------------

/// The title of a new conversation: the one given, else `Conversation `
/// and the minute it was made.
pub fn conversation_title_at(title: Option<String>, minute: &str) -> (r: String)
    ensures
        r@ == (match title {
            Some(t) => t@,
            None => "Conversation "@ + minute@,
        }),
{
    match title {
        Some(t) => t,
        None => concat("Conversation ", minute),
    }
}

// ---------------------------------------------------------------------------
// Screenshots
// ---------------------------------------------------------------------------

/// The name of a screenshot file taken at `timestamp`.
pub fn screenshot_file_name(timestamp: &str) -> (r: String)
    ensures
        r@ == "screenshot_"@ + timestamp@ + ".png"@,
{
    let mut v = chars_of("screenshot_");
    push_str(&mut v, timestamp);
    push_str(&mut v, ".png");
    string_from_chars(v.as_slice())
}

/// A whole number in decimal, with a `-` before a negative one.
pub open spec fn signed_decimal(v: int) -> Seq<char> {
    if v < 0 {
        seq!['-'] + decimal((-v) as nat)
    } else {
        decimal(v as nat)
    }
}

fn push_signed(out: &mut Vec<char>, v: i32)
    ensures
        final(out)@ == old(out)@ + signed_decimal(v as int),
{
    if v < 0 {
        out.push('-');
        let m: i64 = -(v as i64);
        push_decimal(out, m as u64);
        assert(out@ =~= old(out)@ + signed_decimal(v as int));
    } else {
        push_decimal(out, v as u64);
    }
}

/// The screen region of a capture, as `x,y,width,height`.
pub fn capture_region(x: i32, y: i32, width: u32, height: u32) -> (r: String)
    ensures
        r@ == signed_decimal(x as int) + seq![','] + signed_decimal(y as int) + seq![','] + decimal(
            width as nat,
        ) + seq![','] + decimal(height as nat),
{
    let mut v: Vec<char> = Vec::new();
    push_signed(&mut v, x);
    v.push(',');
    push_signed(&mut v, y);
    v.push(',');
    push_decimal(&mut v, width as u64);
    v.push(',');
    push_decimal(&mut v, height as u64);
    assert(v@ =~= signed_decimal(x as int) + seq![','] + signed_decimal(y as int) + seq![',']
        + decimal(width as nat) + seq![','] + decimal(height as nat));
    string_from_chars(v.as_slice())
}

/// The text with each backslash doubled.
pub open spec fn double_backslashes(s: Seq<char>) -> Seq<char>
    decreases s.len(),
{
    if s.len() == 0 {
        Seq::empty()
    } else {
        double_backslashes(s.drop_last()) + if s.last() == '\\' {
            seq!['\\', '\\']
        } else {
            seq![s.last()]
        }
    }
}

/// The PowerShell script that captures the screen holding the point
/// `(x, y)` into the file at `path`, whose backslashes it doubles.
pub open spec fn capture_script_text(x: i32, y: i32, path: Seq<char>) -> Seq<char> {
    "Add-Type -AssemblyName System.Windows.Forms; $screen = [System.Windows.Forms.Screen]::FromPoint([System.Drawing.Point]::new("@ + signed_decimal(x as int) + ", "@ + signed_decimal(y as int) + ")); $bitmap = New-Object System.Drawing.Bitmap($screen.Bounds.Width, $screen.Bounds.Height); $graphics = [System.Drawing.Graphics]::FromImage($bitmap); $graphics.CopyFromScreen($screen.Bounds.Location, [System.Drawing.Point]::Empty, $screen.Bounds.Size); $bitmap.Save('"@
        + double_backslashes(path) + "'); $graphics.Dispose(); $bitmap.Dispose()"@
}

/// The PowerShell script that captures the screen holding the point
/// `(x, y)` into the file at `path`.
pub fn capture_script(x: i32, y: i32, path: &str) -> (r: String)
    ensures
        r@ == capture_script_text(x, y, path@),
{
    let pc = chars_of(path);
    let mut v = chars_of("Add-Type -AssemblyName System.Windows.Forms; $screen = [System.Windows.Forms.Screen]::FromPoint([System.Drawing.Point]::new(");
    push_signed(&mut v, x);
    push_str(&mut v, ", ");
    push_signed(&mut v, y);
    push_str(&mut v, ")); $bitmap = New-Object System.Drawing.Bitmap($screen.Bounds.Width, $screen.Bounds.Height); $graphics = [System.Drawing.Graphics]::FromImage($bitmap); $graphics.CopyFromScreen($screen.Bounds.Location, [System.Drawing.Point]::Empty, $screen.Bounds.Size); $bitmap.Save('");
    let ghost start = v@;
    let mut i: usize = 0;
    while i < pc.len()
        invariant
            i <= pc@.len(),
            v@ == start + double_backslashes(pc@.take(i as int)),
        decreases pc@.len() - i,
    {
        assert(pc@.take(i + 1).drop_last() =~= pc@.take(i as int));
        if pc[i] == '\\' {
            v.push('\\');
            v.push('\\');
        } else {
            v.push(pc[i]);
        }
        i = i + 1;
        assert(v@ =~= start + double_backslashes(pc@.take(i as int)));
    }
    assert(pc@.take(i as int) =~= pc@);
    push_str(&mut v, "'); $graphics.Dispose(); $bitmap.Dispose()");
    string_from_chars(v.as_slice())
}

// ---------------------------------------------------------------------------
// Log levels
// ---------------------------------------------------------------------------

/// How much the log records.
pub enum LogLevel {
    Off,
    Error,
    Warn,
    Info,
    Debug,
    Trace,
}

/// The level a lowercased setting names; `info` for anything unknown.
pub open spec fn log_level_of(lower: Seq<char>) -> LogLevel {
    if lower == "off"@ {
        LogLevel::Off
    } else if lower == "error"@ {
        LogLevel::Error
    } else if lower == "warn"@ || lower == "warning"@ {
        LogLevel::Warn
    } else if lower == "debug"@ {
        LogLevel::Debug
    } else if lower == "trace"@ {
        LogLevel::Trace
    } else {
        LogLevel::Info
    }
}

/// The level a setting names, in any letter case; a missing setting means
/// `info`.
pub fn log_level(setting: Option<String>) -> (r: LogLevel)
    ensures
        r == (match setting {
            Some(s) => log_level_of(lowercase_text(s@)),
            None => LogLevel::Info,
        }),
{
    match setting {
        Some(s) => {
            let l = to_lowercase(s.as_str());
            let ls = l.as_str();
            if str_eq(ls, "off") {
                LogLevel::Off
            } else if str_eq(ls, "error") {
                LogLevel::Error
            } else if str_eq(ls, "warn") || str_eq(ls, "warning") {
                LogLevel::Warn
            } else if str_eq(ls, "debug") {
                LogLevel::Debug
            } else if str_eq(ls, "trace") {
                LogLevel::Trace
            } else {
                LogLevel::Info
            }
        },
        None => LogLevel::Info,
    }
}

} // verus!
