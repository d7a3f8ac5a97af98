//! Connection records: what the connection list shows, how the form's input
//! becomes connection parameters, and what a stored connection becomes.
use vstd::prelude::*;

use crate::crypto::{decrypt_password, decrypted_text, encrypt_password, encrypted_text};
use crate::models::{Connection, ConnectionInput};
use crate::ssh::{clone_opt, clone_string, opt_view, SshConnectParams};
use crate::text::{chars_of, concat, str_eq, string_from_chars, trim, trim_range};

verus! {

// ---------------------------------------------------------------------------
// Listing
// ---------------------------------------------------------------------------

/// A connection as listed: the stored secret is replaced by whether there is
/// one.
pub struct ConnectionResponse {
    pub id: String,
    pub group_id: Option<String>,
    pub name: String,
    pub host: String,
    pub port: i32,
    pub auth_type: String,
    pub username: Option<String>,
    pub has_password: bool,
    pub key_path: Option<String>,
    pub proxy_type: Option<String>,
    pub proxy_host: Option<String>,
    pub proxy_port: Option<i32>,
    pub proxy_jump_id: Option<String>,
    pub init_command: Option<String>,
    pub init_path: Option<String>,
    pub timeout_ms: Option<i32>,
    pub heartbeat_ms: Option<i32>,
    pub remark: Option<String>,
    pub created_at: Option<String>,
    pub updated_at: Option<String>,
}

/// The response for a stored connection: every field but the encrypted
/// password, which becomes `has_password` (present and not empty).
pub fn to_response(conn: &Connection) -> (r: ConnectionResponse)
    ensures
        r.id@ == conn.id@,
        opt_view(r.group_id) == opt_view(conn.group_id),
        r.name@ == conn.name@,
        r.host@ == conn.host@,
        r.port == conn.port,
        r.auth_type@ == conn.auth_type@,
        opt_view(r.username) == opt_view(conn.username),
        r.has_password == (conn.password_enc matches Some(p) && p@.len() > 0),
        opt_view(r.key_path) == opt_view(conn.key_path),
        opt_view(r.proxy_type) == opt_view(conn.proxy_type),
        opt_view(r.proxy_host) == opt_view(conn.proxy_host),
        r.proxy_port == conn.proxy_port,
        opt_view(r.proxy_jump_id) == opt_view(conn.proxy_jump_id),
        opt_view(r.init_command) == opt_view(conn.init_command),
        opt_view(r.init_path) == opt_view(conn.init_path),
        r.timeout_ms == conn.timeout_ms,
        r.heartbeat_ms == conn.heartbeat_ms,
        opt_view(r.remark) == opt_view(conn.remark),
        opt_view(r.created_at) == opt_view(conn.created_at),
        opt_view(r.updated_at) == opt_view(conn.updated_at),
{
    let has_password = match &conn.password_enc {
        Some(p) => chars_of(p.as_str()).len() > 0,
        None => false,
    };
    ConnectionResponse {
        id: clone_string(&conn.id),
        group_id: clone_opt(&conn.group_id),
        name: clone_string(&conn.name),
        host: clone_string(&conn.host),
        port: conn.port,
        auth_type: clone_string(&conn.auth_type),
        username: clone_opt(&conn.username),
        has_password,
        key_path: clone_opt(&conn.key_path),
        proxy_type: clone_opt(&conn.proxy_type),
        proxy_host: clone_opt(&conn.proxy_host),
        proxy_port: conn.proxy_port,
        proxy_jump_id: clone_opt(&conn.proxy_jump_id),
        init_command: clone_opt(&conn.init_command),
        init_path: clone_opt(&conn.init_path),
        timeout_ms: conn.timeout_ms,
        heartbeat_ms: conn.heartbeat_ms,
        remark: clone_opt(&conn.remark),
        created_at: clone_opt(&conn.created_at),
        updated_at: clone_opt(&conn.updated_at),
    }
}

// ---------------------------------------------------------------------------
// Form input
// ---------------------------------------------------------------------------

/// The authentication types under which a stored password is kept.
pub open spec fn keeps_password(auth_type: Seq<char>) -> bool {
    auth_type == "password"@ || auth_type == "interactive"@ || auth_type == "ask"@
}

pub fn auth_type_keeps_password(auth_type: &str) -> (b: bool)
    ensures
        b == keeps_password(auth_type@),
{
    str_eq(auth_type, "password") || str_eq(auth_type, "interactive") || str_eq(auth_type, "ask")
}

/// A text that is not blank (only whitespace counts as blank).
pub open spec fn non_empty_of(v: Option<Seq<char>>) -> Option<Seq<char>> {
    match v {
        Some(x) => if trim(x).len() == 0 {
            None
        } else {
            Some(x)
        },
        None => None,
    }
}

pub fn is_blank(s: &str) -> (b: bool)
    ensures
        b == (trim(s@).len() == 0),
{
    let c = chars_of(s);
    let (a, e) = trim_range(c.as_slice(), 0, c.len());
    assert(c@.subrange(0, c@.len() as int) =~= c@);
    a == e
}

pub fn non_empty(value: Option<String>) -> (r: Option<String>)
    ensures
        opt_view(r) == non_empty_of(opt_view(value)),
{
    match value {
        Some(v) => if is_blank(v.as_str()) {
            None
        } else {
            Some(v)
        },
        None => None,
    }
}

pub open spec fn port_in_range(p: i32) -> bool {
    1 <= p <= 65535
}

/// A port number between 1 and 65535, or an error naming the field.
pub fn port_i32_to_u16(port: i32, field: &str) -> (r: Result<u16, String>)
    ensures
        match r {
            Ok(p) => port_in_range(port) && p == port,
            Err(e) => !port_in_range(port) && e@ == field@ + " must be between 1 and 65535"@,
        },
{
    if 1 <= port && port <= 65535 {
        Ok(port as u16)
    } else {
        Err(concat(field, " must be between 1 and 65535"))
    }
}

/// The outcome of loading the ProxyJump connection, when one is named.
pub open spec fn jump_of(id: Option<Seq<char>>, jump: Option<Result<SshConnectParams, String>>) -> Option<
    Result<SshConnectParams, String>,
> {
    if id is Some {
        jump
    } else {
        None
    }
}

/// Whether the parameters go through a ProxyJump connection.
pub open spec fn uses_jump(input: ConnectionInput, jump: Option<Result<SshConnectParams, String>>) -> bool {
    jump_of(non_empty_of(opt_view(input.proxy_jump_id)), jump) matches Some(Ok(_))
}

/// Why the form's input does not make connection parameters, checked in this
/// order: no host, a bad port, the ProxyJump connection could not be loaded,
/// a bad proxy port (ignored when a ProxyJump is used).
pub open spec fn input_error(
    input: ConnectionInput,
    saved: Option<SshConnectParams>,
    jump: Option<Result<SshConnectParams, String>>,
) -> Option<Seq<char>> {
    if trim(input.host@).len() == 0 && saved is None {
        Some("Host is required"@)
    } else if (input.port matches Some(p) && !port_in_range(p)) {
        Some("Port"@ + " must be between 1 and 65535"@)
    } else {
        match jump_of(non_empty_of(opt_view(input.proxy_jump_id)), jump) {
            Some(Err(e)) => Some(e@),
            _ => if !uses_jump(input, jump) && (input.proxy_port matches Some(p) && !port_in_range(p)) {
                Some("Proxy port"@ + " must be between 1 and 65535"@)
            } else {
                None
            },
        }
    }
}

/// The text given in the form, else the saved one, else `default`.
pub open spec fn given_or(v: Option<Seq<char>>, saved: Option<Seq<char>>, default: Seq<char>) -> Seq<
    char,
> {
    match non_empty_of(v) {
        Some(x) => x,
        None => match saved {
            Some(s) => s,
            None => default,
        },
    }
}

pub open spec fn saved_field(saved: Option<SshConnectParams>, f: spec_fn(SshConnectParams) -> Seq<char>) -> Option<Seq<char>> {
    match saved {
        Some(p) => Some(f(p)),
        None => None,
    }
}

/// `r` holds the parameters made from the form's input.  Blank texts count as
/// missing.  The host, port, authentication type and user name fall back on
/// the saved connection, then on port 22, `password` and `root`.  A missing
/// password falls back on the saved one when the authentication type keeps
/// passwords.  A ProxyJump connection replaces the proxy fields.
pub open spec fn params_from_input(
    input: ConnectionInput,
    saved: Option<SshConnectParams>,
    jump: Option<Result<SshConnectParams, String>>,
    r: SshConnectParams,
) -> bool {
    let auth = given_or(opt_view(input.auth_type), saved_field(saved, |p: SshConnectParams| p.auth_type@), "password"@);
    let use_jump = uses_jump(input, jump);
    &&& r.host@ == (if trim(input.host@).len() == 0 {
        saved->0.host@
    } else {
        input.host@
    })
    &&& r.port == (match input.port {
        Some(p) => p as u16,
        None => match saved {
            Some(s) => s.port,
            None => 22u16,
        },
    })
    &&& r.auth_type@ == auth
    &&& r.username@ == given_or(opt_view(input.username), saved_field(saved, |p: SshConnectParams| p.username@), "root"@)
    &&& opt_view(r.password) == (match non_empty_of(opt_view(input.password)) {
        Some(p) => Some(p),
        None => if keeps_password(auth) && saved is Some {
            opt_view(saved->0.password)
        } else {
            None
        },
    })
    &&& opt_view(r.key_path) == non_empty_of(opt_view(input.key_path))
    &&& r.timeout_ms == (match input.timeout_ms {
        Some(t) => Some((if t < 1 { 1 } else { t }) as u32),
        None => None,
    })
    &&& opt_view(r.proxy_type) == (if use_jump {
        None
    } else {
        non_empty_of(opt_view(input.proxy_type))
    })
    &&& opt_view(r.proxy_host) == (if use_jump {
        None
    } else {
        non_empty_of(opt_view(input.proxy_host))
    })
    &&& r.proxy_port == (if use_jump {
        None
    } else {
        match input.proxy_port {
            Some(p) => Some(p as u16),
            None => None,
        }
    })
    &&& opt_view(r.proxy_jump_id) == non_empty_of(opt_view(input.proxy_jump_id))
    &&& r.proxy_jump == (if use_jump {
        Some(Box::new(jump->0->Ok_0))
    } else {
        None
    })
    &&& opt_view(r.init_command) == non_empty_of(opt_view(input.init_command))
    &&& opt_view(r.init_path) == non_empty_of(opt_view(input.init_path))
    &&& r.heartbeat_ms == input.heartbeat_ms
}

/// The ProxyJump connection that the form names, if any.
pub fn proxy_jump_id_of(input: &ConnectionInput) -> (r: Option<String>)
    ensures
        opt_view(r) == non_empty_of(opt_view(input.proxy_jump_id)),
{
    non_empty(clone_opt(&input.proxy_jump_id))
}

/// Connection parameters from the connection form.  `saved` is the stored
/// connection when the form edits one; `jump` is the outcome of loading the
/// connection that `proxy_jump_id_of(&input)` names (ignored when it names
/// none).
/// The user name typed in the form wins: when it is not blank the
/// parameters carry exactly it, whatever the saved connection holds. Only a
/// missing or blank one gives way to the saved connection's, then to `root`.
pub proof fn typed_user_name_wins(
    input: ConnectionInput,
    saved: Option<SshConnectParams>,
    jump: Option<Result<SshConnectParams, String>>,
    r: SshConnectParams,
)
    requires
        params_from_input(input, saved, jump, r),
    ensures
        input.username is Some && trim(input.username->0@).len() > 0 ==> r.username@
            == input.username->0@,
        (input.username is None || trim(input.username->0@).len() == 0) ==> r.username@ == (match saved {
            Some(p) => p.username@,
            None => "root"@,
        }),
{
}

/// What the form gives wins over the saved connection: a host, an
/// authentication type, a password or a key path that is not blank, and a
/// port, are taken as given. A blank host falls back on the saved one, a
/// missing port on the saved one and then on 22, a blank authentication type
/// on the saved one and then on `password`.
pub proof fn form_fields_win(
    input: ConnectionInput,
    saved: Option<SshConnectParams>,
    jump: Option<Result<SshConnectParams, String>>,
    r: SshConnectParams,
)
    requires
        params_from_input(input, saved, jump, r),
    ensures
        trim(input.host@).len() > 0 ==> r.host@ == input.host@,
        trim(input.host@).len() == 0 && saved is Some ==> r.host@ == saved->0.host@,
        input.port is Some ==> r.port == input.port->0 as u16,
        input.port is None ==> r.port == (match saved {
            Some(p) => p.port,
            None => 22u16,
        }),
        input.auth_type is Some && trim(input.auth_type->0@).len() > 0 ==> r.auth_type@
            == input.auth_type->0@,
        (input.auth_type is None || trim(input.auth_type->0@).len() == 0) ==> r.auth_type@ == (
        match saved {
            Some(p) => p.auth_type@,
            None => "password"@,
        }),
        input.password is Some && trim(input.password->0@).len() > 0 ==> r.password is Some
            && r.password->0@ == input.password->0@,
        input.key_path is Some && trim(input.key_path->0@).len() > 0 ==> r.key_path is Some
            && r.key_path->0@ == input.key_path->0@,
        (input.key_path is None || trim(input.key_path->0@).len() == 0) ==> r.key_path is None,
{
}

pub fn ssh_params_from_input(
    input: ConnectionInput,
    saved: Option<SshConnectParams>,
    jump: Option<Result<SshConnectParams, String>>,
) -> (r: Result<SshConnectParams, String>)
    ensures
        match input_error(input, saved, jump) {
            Some(e) => r matches Err(m) && m@ == e,
            None => r matches Ok(p) && params_from_input(input, saved, jump, p),
        },
{
    let ghost input0 = input;
    let host = if is_blank(input.host.as_str()) {
        match &saved {
            Some(p) => clone_string(&p.host),
            None => {
                return Err(string_from_chars(chars_of("Host is required").as_slice()));
            },
        }
    } else {
        clone_string(&input.host)
    };
    let port = match input.port {
        Some(p) => {
            let r = port_i32_to_u16(p, "Port");
            match r {
                Ok(v) => v,
                Err(e) => {
                    return Err(e);
                },
            }
        },
        None => match &saved {
            Some(s) => s.port,
            None => 22,
        },
    };
    let auth_type = match non_empty(clone_opt(&input.auth_type)) {
        Some(a) => a,
        None => match &saved {
            Some(s) => clone_string(&s.auth_type),
            None => string_from_chars(chars_of("password").as_slice()),
        },
    };
    let username = match non_empty(clone_opt(&input.username)) {
        Some(u) => u,
        None => match &saved {
            Some(s) => clone_string(&s.username),
            None => string_from_chars(chars_of("root").as_slice()),
        },
    };
    let password = match non_empty(clone_opt(&input.password)) {
        Some(p) => Some(p),
        None => if auth_type_keeps_password(auth_type.as_str()) {
            match &saved {
                Some(s) => clone_opt(&s.password),
                None => None,
            }
        } else {
            None
        },
    };
    let proxy_jump_id = proxy_jump_id_of(&input);
    let proxy_jump: Option<Box<SshConnectParams>> = if proxy_jump_id.is_some() {
        match jump {
            Some(Ok(j)) => Some(Box::new(j)),
            Some(Err(e)) => {
                return Err(e);
            },
            None => None,
        }
    } else {
        None
    };
    let use_proxy_jump = proxy_jump.is_some();
    let proxy_port = if use_proxy_jump {
        None
    } else {
        match input.proxy_port {
            Some(p) => match port_i32_to_u16(p, "Proxy port") {
                Ok(v) => Some(v),
                Err(e) => {
                    return Err(e);
                },
            },
            None => None,
        }
    };
    let timeout_ms = match input.timeout_ms {
        Some(t) => Some(
            (if t < 1 {
                1
            } else {
                t
            }) as u32,
        ),
        None => None,
    };
    let proxy_type = if use_proxy_jump {
        None
    } else {
        non_empty(clone_opt(&input.proxy_type))
    };
    let proxy_host = if use_proxy_jump {
        None
    } else {
        non_empty(clone_opt(&input.proxy_host))
    };
    Ok(
        SshConnectParams {
            host,
            port,
            username,
            auth_type,
            password,
            key_path: non_empty(clone_opt(&input.key_path)),
            timeout_ms,
            proxy_type,
            proxy_host,
            proxy_port,
            proxy_jump_id,
            proxy_jump,
            init_command: non_empty(clone_opt(&input.init_command)),
            init_path: non_empty(clone_opt(&input.init_path)),
            heartbeat_ms: input.heartbeat_ms,
        },
    )
}

// ---------------------------------------------------------------------------
// Stored passwords
// ---------------------------------------------------------------------------

/// What an update does to the stored password.
pub enum PasswordUpdate {
    /// Store this new password (encrypted).
    Replace(String),
    /// Keep the stored password.
    KeepStored,
    /// Store no password.
    Clear,
}

/// A non-empty new password replaces the stored one; otherwise the stored
/// password stays only for authentication types that keep passwords.
pub fn password_update(auth_type: &str, password: Option<&str>) -> (r: PasswordUpdate)
    ensures
        match password {
            Some(p) if p@.len() > 0 => r matches PasswordUpdate::Replace(q) && q@ == p@,
            _ => if keeps_password(auth_type@) {
                r is KeepStored
            } else {
                r is Clear
            },
        },
{
    if let Some(p) = password {
        let c = chars_of(p);
        if c.len() > 0 {
            return PasswordUpdate::Replace(string_from_chars(c.as_slice()));
        }
    }
    if auth_type_keeps_password(auth_type) {
        PasswordUpdate::KeepStored
    } else {
        PasswordUpdate::Clear
    }
}

/// The encrypted password stored with a new connection: none when the form
/// gives no password or an empty one.
pub fn password_enc_for_create(password: &Option<String>, master: &str) -> (r: Option<String>)
    requires
        password matches Some(p) ==> vstd::utf8::encode_utf8(p@).len() <= usize::MAX / 8,
    ensures
        match password {
            Some(p) if p@.len() > 0 => r matches Some(e) && e@ == encrypted_text(p@, master@),
            _ => r is None,
        },
{
    match password {
        Some(p) => if chars_of(p.as_str()).len() > 0 {
            Some(encrypt_password(p.as_str(), master))
        } else {
            None
        },
        None => None,
    }
}

// ---------------------------------------------------------------------------
// Rows written for a connection
// ---------------------------------------------------------------------------

/// The values written to the `connections` table.
pub struct ConnectionRow {
    pub id: String,
    pub group_id: Option<String>,
    pub name: String,
    pub host: String,
    pub port: i32,
    pub auth_type: String,
    pub username: Option<String>,
    pub password_enc: Option<String>,
    pub key_path: Option<String>,
    pub credential_id: Option<String>,
    pub proxy_type: Option<String>,
    pub proxy_host: Option<String>,
    pub proxy_port: Option<i32>,
    pub proxy_jump_id: Option<String>,
    pub init_command: Option<String>,
    pub init_path: Option<String>,
    pub timeout_ms: Option<i32>,
    pub heartbeat_ms: i32,
    pub remark: Option<String>,
}

/// The row takes the form's fields, with port 22, authentication `password`
/// and a 5000 ms heartbeat when the form leaves them out.
pub open spec fn row_from_input(input: ConnectionInput, r: ConnectionRow) -> bool {
    &&& opt_view(r.group_id) == opt_view(input.group_id)
    &&& r.name@ == input.name@
    &&& r.host@ == input.host@
    &&& r.port == (match input.port {
        Some(p) => p,
        None => 22i32,
    })
    &&& r.auth_type@ == (match input.auth_type {
        Some(a) => a@,
        None => "password"@,
    })
    &&& opt_view(r.username) == opt_view(input.username)
    &&& opt_view(r.key_path) == opt_view(input.key_path)
    &&& opt_view(r.proxy_type) == opt_view(input.proxy_type)
    &&& opt_view(r.proxy_host) == opt_view(input.proxy_host)
    &&& r.proxy_port == input.proxy_port
    &&& opt_view(r.init_command) == opt_view(input.init_command)
    &&& opt_view(r.init_path) == opt_view(input.init_path)
    &&& r.timeout_ms == input.timeout_ms
    &&& r.heartbeat_ms == (match input.heartbeat_ms {
        Some(h) => h,
        None => 5000i32,
    })
    &&& opt_view(r.remark) == opt_view(input.remark)
}

fn row_with(input: &ConnectionInput, id: String, password_enc: Option<String>, credential_id: Option<String>, proxy_jump_id: Option<String>) -> (r: ConnectionRow)
    ensures
        row_from_input(*input, r),
        r.id@ == id@,
        opt_view(r.password_enc) == opt_view(password_enc),
        opt_view(r.credential_id) == opt_view(credential_id),
        opt_view(r.proxy_jump_id) == opt_view(proxy_jump_id),
{
    ConnectionRow {
        id,
        group_id: clone_opt(&input.group_id),
        name: clone_string(&input.name),
        host: clone_string(&input.host),
        port: match input.port {
            Some(p) => p,
            None => 22,
        },
        auth_type: match &input.auth_type {
            Some(a) => clone_string(a),
            None => string_from_chars(chars_of("password").as_slice()),
        },
        username: clone_opt(&input.username),
        password_enc,
        key_path: clone_opt(&input.key_path),
        credential_id,
        proxy_type: clone_opt(&input.proxy_type),
        proxy_host: clone_opt(&input.proxy_host),
        proxy_port: input.proxy_port,
        proxy_jump_id,
        init_command: clone_opt(&input.init_command),
        init_path: clone_opt(&input.init_path),
        timeout_ms: input.timeout_ms,
        heartbeat_ms: match input.heartbeat_ms {
            Some(h) => h,
            None => 5000,
        },
        remark: clone_opt(&input.remark),
    }
}

/// The row of a new connection: the form's id, else `new_id`; the password
/// encrypted under `master`.
pub fn row_for_create(input: &ConnectionInput, new_id: String, master: &str) -> (r: ConnectionRow)
    requires
        input.password matches Some(p) ==> vstd::utf8::encode_utf8(p@).len() <= usize::MAX / 8,
    ensures
        row_from_input(*input, r),
        r.id@ == (match input.id {
            Some(i) => i@,
            None => new_id@,
        }),
        match input.password {
            Some(p) if p@.len() > 0 => r.password_enc matches Some(e) && e@ == encrypted_text(
                p@,
                master@,
            ),
            _ => r.password_enc is None,
        },
        opt_view(r.credential_id) == opt_view(input.credential_id),
        opt_view(r.proxy_jump_id) == opt_view(input.proxy_jump_id),
{
    let id = match &input.id {
        Some(i) => clone_string(i),
        None => new_id,
    };
    let enc = password_enc_for_create(&input.password, master);
    row_with(input, id, enc, clone_opt(&input.credential_id), clone_opt(&input.proxy_jump_id))
}

/// The row that replaces connection `id` on update, with the encrypted
/// password that the update keeps or sets.
pub fn row_for_update(input: &ConnectionInput, id: String, password_enc: Option<String>) -> (r: ConnectionRow)
    ensures
        row_from_input(*input, r),
        r.id@ == id@,
        opt_view(r.password_enc) == opt_view(password_enc),
        opt_view(r.credential_id) == opt_view(input.credential_id),
        opt_view(r.proxy_jump_id) == opt_view(input.proxy_jump_id),
{
    row_with(input, id, password_enc, clone_opt(&input.credential_id), clone_opt(&input.proxy_jump_id))
}

/// The row of an imported connection: a fresh id, and neither password,
/// credential nor ProxyJump.
pub fn row_for_import(input: &ConnectionInput, new_id: String) -> (r: ConnectionRow)
    ensures
        row_from_input(*input, r),
        r.id@ == new_id@,
        r.password_enc is None,
        r.credential_id is None,
        r.proxy_jump_id is None,
{
    row_with(input, new_id, None, None, None)
}

// ---------------------------------------------------------------------------
// Export
// ---------------------------------------------------------------------------

/// The connections written to an export file.
pub struct ExportData {
    pub version: String,
    pub connections: Vec<ConnectionInput>,
}

/// The exported form of a stored connection: no password, credential or
/// ProxyJump.
pub fn export_entry(conn: &Connection) -> (r: ConnectionInput)
    ensures
        r.id matches Some(i) && i@ == conn.id@,
        opt_view(r.group_id) == opt_view(conn.group_id),
        r.name@ == conn.name@,
        r.host@ == conn.host@,
        r.port == Some(conn.port),
        r.auth_type matches Some(a) && a@ == conn.auth_type@,
        opt_view(r.username) == opt_view(conn.username),
        r.password is None,
        opt_view(r.key_path) == opt_view(conn.key_path),
        r.credential_id is None,
        opt_view(r.proxy_type) == opt_view(conn.proxy_type),
        opt_view(r.proxy_host) == opt_view(conn.proxy_host),
        r.proxy_port == conn.proxy_port,
        r.proxy_jump_id is None,
        opt_view(r.init_command) == opt_view(conn.init_command),
        opt_view(r.init_path) == opt_view(conn.init_path),
        r.timeout_ms == conn.timeout_ms,
        r.heartbeat_ms == conn.heartbeat_ms,
        opt_view(r.remark) == opt_view(conn.remark),
{
    ConnectionInput {
        id: Some(clone_string(&conn.id)),
        group_id: clone_opt(&conn.group_id),
        name: clone_string(&conn.name),
        host: clone_string(&conn.host),
        port: Some(conn.port),
        auth_type: Some(clone_string(&conn.auth_type)),
        username: clone_opt(&conn.username),
        password: None,
        key_path: clone_opt(&conn.key_path),
        credential_id: None,
        proxy_type: clone_opt(&conn.proxy_type),
        proxy_host: clone_opt(&conn.proxy_host),
        proxy_port: conn.proxy_port,
        proxy_jump_id: None,
        init_command: clone_opt(&conn.init_command),
        init_path: clone_opt(&conn.init_path),
        timeout_ms: conn.timeout_ms,
        heartbeat_ms: conn.heartbeat_ms,
        remark: clone_opt(&conn.remark),
    }
}

/// The export file's content: format version `1.0` and the connections.
pub fn export_data(connections: Vec<ConnectionInput>) -> (r: ExportData)
    ensures
        r.version@ == "1.0"@,
        r.connections@ == connections@,
{
    ExportData { version: string_from_chars(chars_of("1.0").as_slice()), connections }
}

// ---------------------------------------------------------------------------
// Server information
// ---------------------------------------------------------------------------

/// Hardware facts collected from a server.
pub struct ServerInfo {
    pub os: String,
    pub cpu_cores: u32,
    pub memory_total: u64,
    pub disk_total: u64,
}

/// A section of the output that is present and not empty.
pub open spec fn info_of(output: Seq<char>, name: Seq<char>) -> Option<Seq<char>> {
    match crate::monitor::section(output, name) {
        Some(t) => if t.len() > 0 {
            Some(t)
        } else {
            None
        },
        None => None,
    }
}

pub fn extract_info(output: &str, section: &str) -> (r: Option<String>)
    ensures
        opt_view(r) == info_of(output@, section@),
{
    match crate::monitor::extract_section(output, section) {
        Some(t) => if chars_of(t.as_str()).len() > 0 {
            Some(t)
        } else {
            None
        },
        None => None,
    }
}

/// A section read as a number no larger than `max`, or `default`.
pub open spec fn info_number(output: Seq<char>, name: Seq<char>, max: nat, default: nat) -> nat {
    match info_of(output, name) {
        Some(t) => match crate::text::parse_unsigned(t, max) {
            Some(v) => v,
            None => default,
        },
        None => default,
    }
}

fn info_number_exec(output: &str, section: &str, max: u64, default: u64) -> (r: u64)
    requires
        default <= max,
    ensures
        r == info_number(output@, section@, max as nat, default as nat),
{
    match extract_info(output, section) {
        Some(t) => {
            let c = chars_of(t.as_str());
            assert(c@.subrange(0, c@.len() as int) =~= c@);
            match crate::text::parse_unsigned_in(c.as_slice(), 0, c.len(), max) {
                Some(v) => v,
                None => default,
            }
        },
        None => default,
    }
}

/// The memory figure fits in a `u64` once given in bytes.
pub open spec fn server_info_fits(output: Seq<char>) -> bool {
    info_number(output, "MEM"@, u64::MAX as nat, 0) * 1024 <= u64::MAX
}

/// Reads the output of the hardware script: the `OS` text, the `CPU` core
/// count (1 when unreadable), `MEM` in kB (kept in bytes) and `DISK` in bytes.
pub fn server_info_from_output(output: &str) -> (r: ServerInfo)
    requires
        server_info_fits(output@),
    ensures
        r.os@ == (match info_of(output@, "OS"@) {
            Some(t) => t,
            None => Seq::empty(),
        }),
        r.cpu_cores == info_number(output@, "CPU"@, u32::MAX as nat, 1),
        r.memory_total == info_number(output@, "MEM"@, u64::MAX as nat, 0) * 1024,
        r.disk_total == info_number(output@, "DISK"@, u64::MAX as nat, 0),
{
    let os = match extract_info(output, "OS") {
        Some(t) => t,
        None => string_from_chars(chars_of("").as_slice()),
    };
    proof {
        reveal_strlit("");
    }
    let cpu_cores = info_number_exec(output, "CPU", u32::MAX as u64, 1) as u32;
    let mem_kb = info_number_exec(output, "MEM", u64::MAX, 0);
    let disk_total = info_number_exec(output, "DISK", u64::MAX, 0);
    ServerInfo { os, cpu_cores, memory_total: mem_kb * 1024, disk_total }
}

/// Whether the hardware script's memory figure fits.
pub fn server_info_output_fits(output: &str) -> (b: bool)
    ensures
        b == server_info_fits(output@),
{
    let mem_kb = info_number_exec(output, "MEM", u64::MAX, 0);
    (mem_kb as u128) * 1024 <= u64::MAX as u128
}

// ---------------------------------------------------------------------------
// Stored connections
// ---------------------------------------------------------------------------

/// The columns of a stored connection that a session needs.
pub struct StoredConnection {
    pub id: String,
    pub host: String,
    pub port: i32,
    pub auth_type: String,
    pub username: String,
    pub password_enc: Option<String>,
    pub key_path: Option<String>,
    pub proxy_type: Option<String>,
    pub proxy_host: Option<String>,
    pub proxy_port: Option<i32>,
    pub proxy_jump_id: Option<String>,
    pub timeout_ms: Option<i32>,
    pub init_command: Option<String>,
    pub init_path: Option<String>,
    pub heartbeat_ms: Option<i32>,
}

/// The stored password, when there is a non-empty one that decrypts.
pub open spec fn stored_password(enc: Option<Seq<char>>, master: Seq<char>) -> Option<Seq<char>> {
    match enc {
        Some(e) => if e.len() > 0 {
            decrypted_text(e, master)
        } else {
            None
        },
        None => None,
    }
}

/// `r` holds the parameters of the stored row (its ProxyJump aside): the
/// password decrypted under `master` (dropped when it does not decrypt), the
/// port and timeout reinterpreted as `u16` and `u32`, and the proxy port only
/// when it is a `u16`.
pub open spec fn params_from_stored(row: StoredConnection, master: Seq<char>, r: SshConnectParams) -> bool {
    &&& r.host@ == row.host@
    &&& r.port as int == row.port as int % 65536
    &&& r.username@ == row.username@
    &&& r.auth_type@ == row.auth_type@
    &&& opt_view(r.password) == stored_password(opt_view(row.password_enc), master)
    &&& opt_view(r.key_path) == opt_view(row.key_path)
    &&& r.timeout_ms == (match row.timeout_ms {
        Some(t) => Some((t as int % 0x1_0000_0000) as u32),
        None => None,
    })
    &&& opt_view(r.proxy_type) == opt_view(row.proxy_type)
    &&& opt_view(r.proxy_host) == opt_view(row.proxy_host)
    &&& r.proxy_port == (match row.proxy_port {
        Some(p) => if 0 <= p <= 65535 {
            Some(p as u16)
        } else {
            None
        },
        None => None,
    })
    &&& opt_view(r.proxy_jump_id) == opt_view(row.proxy_jump_id)
    &&& opt_view(r.init_command) == opt_view(row.init_command)
    &&& opt_view(r.init_path) == opt_view(row.init_path)
    &&& r.heartbeat_ms == row.heartbeat_ms
}

fn wrap_u16(v: i32) -> (r: u16)
    ensures
        r as int == v as int % 65536,
{
    let w: i64 = v as i64 % 65536;
    let w2: i64 = if w < 0 { w + 65536 } else { w };
    assert(w2 as int == v as int % 65536);
    w2 as u16
}

fn wrap_u32(v: i32) -> (r: u32)
    ensures
        r as int == v as int % 0x1_0000_0000,
{
    if v >= 0 {
        v as u32
    } else {
        (v as i64 + 0x1_0000_0000i64) as u32
    }
}

/// The parameters of one stored connection, without its ProxyJump.
pub fn params_of_stored(row: &StoredConnection, master: &str) -> (r: SshConnectParams)
    ensures
        params_from_stored(*row, master@, r),
        r.proxy_jump is None,
{
    let password = match &row.password_enc {
        Some(enc) => if chars_of(enc.as_str()).len() > 0 {
            match decrypt_password(enc.as_str(), master) {
                Ok(p) => Some(p),
                Err(_) => None,
            }
        } else {
            None
        },
        None => None,
    };
    let proxy_port = match row.proxy_port {
        Some(p) => if 0 <= p && p <= 65535 {
            Some(p as u16)
        } else {
            None
        },
        None => None,
    };
    SshConnectParams {
        host: clone_string(&row.host),
        port: wrap_u16(row.port),
        username: clone_string(&row.username),
        auth_type: clone_string(&row.auth_type),
        password,
        key_path: clone_opt(&row.key_path),
        timeout_ms: match row.timeout_ms {
            Some(t) => Some(wrap_u32(t)),
            None => None,
        },
        proxy_type: clone_opt(&row.proxy_type),
        proxy_host: clone_opt(&row.proxy_host),
        proxy_port,
        proxy_jump_id: clone_opt(&row.proxy_jump_id),
        proxy_jump: None,
        init_command: clone_opt(&row.init_command),
        init_path: clone_opt(&row.init_path),
        heartbeat_ms: row.heartbeat_ms,
    }
}

/// The index of the first row with this id.
pub open spec fn row_index(rows: Seq<StoredConnection>, id: Seq<char>) -> Option<int> {
    if exists|k: int| first_row(rows, id, k) {
        Some(choose|k: int| first_row(rows, id, k))
    } else {
        None
    }
}

pub open spec fn first_row(rows: Seq<StoredConnection>, id: Seq<char>, k: int) -> bool {
    &&& 0 <= k < rows.len()
    &&& rows[k].id@ == id
    &&& forall|j: int| 0 <= j < k ==> #[trigger] rows[j].id@ != id
}

pub open spec fn not_found_message() -> Seq<char> {
    "Connection not found: Query returned no rows"@
}

pub open spec fn cycle_message(id: Seq<char>) -> Seq<char> {
    "ProxyJump cycle detected at connection "@ + id
}

pub open spec fn row_indices(n: int) -> Set<int> {
    vstd::set_lib::set_int_range(0, n)
}

/// `r` is the outcome of loading connection `id` with its chain of ProxyJump
/// connections, when the rows at the indices in `visited` are already on the
/// chain: a connection that is missing is not found; one met again closes a
/// cycle; otherwise its parameters, with the loaded ProxyJump connection that
/// it names.
pub open spec fn loaded_chain(
    rows: Seq<StoredConnection>,
    id: Seq<char>,
    master: Seq<char>,
    visited: Set<int>,
    r: Result<SshConnectParams, String>,
) -> bool
    decreases rows.len() - visited.len(),
    when visited.subset_of(row_indices(rows.len() as int))
{
    match row_index(rows, id) {
        None => r matches Err(e) && e@ == not_found_message(),
        Some(k) => if visited.contains(k) {
            r matches Err(e) && e@ == cycle_message(id)
        } else {
            let row = rows[k];
            proof {
                lemma_visit(rows, visited, k);
            }
            match non_empty_of(opt_view(row.proxy_jump_id)) {
                None => r matches Ok(p) && params_from_stored(row, master, p) && p.proxy_jump is None,
                Some(j) => match r {
                    Ok(p) => params_from_stored(row, master, p) && (p.proxy_jump matches Some(b)
                        && loaded_chain(rows, j, master, visited.insert(k), Ok(*b))),
                    Err(e) => loaded_chain(rows, j, master, visited.insert(k), Err(e)),
                },
            }
        },
    }
}

pub proof fn lemma_visit(rows: Seq<StoredConnection>, visited: Set<int>, k: int)
    requires
        visited.subset_of(row_indices(rows.len() as int)),
        0 <= k < rows.len(),
        !visited.contains(k),
    ensures
        visited.insert(k).subset_of(row_indices(rows.len() as int)),
        visited.insert(k).len() == visited.len() + 1,
        visited.insert(k).len() <= rows.len(),
{
    vstd::set_lib::lemma_int_range(0, rows.len() as int);
    vstd::set_lib::lemma_len_subset(visited, row_indices(rows.len() as int));
    assert(visited.insert(k).subset_of(row_indices(rows.len() as int)));
    vstd::set_lib::lemma_len_subset(visited.insert(k), row_indices(rows.len() as int));
}

fn find_row(rows: &Vec<StoredConnection>, id: &str) -> (r: Option<usize>)
    ensures
        match r {
            Some(k) => row_index(rows@, id@) == Some(k as int),
            None => row_index(rows@, id@) is None,
        },
{
    let mut k: usize = 0;
    while k < rows.len()
        invariant
            k <= rows@.len(),
            forall|j: int| 0 <= j < k ==> #[trigger] rows@[j].id@ != id@,
        decreases rows@.len() - k,
    {
        if str_eq(rows[k].id.as_str(), id) {
            assert(first_row(rows@, id@, k as int));
            let ghost c = choose|c: int| first_row(rows@, id@, c);
            assert(c == k) by {
                if c < k {
                    assert(rows@[c].id@ != id@);
                }
                if k < c {
                    assert(rows@[k as int].id@ != id@);
                }
            }
            return Some(k);
        }
        k = k + 1;
    }
    assert(!exists|c: int| first_row(rows@, id@, c));
    None
}

fn contains_index(v: &Vec<usize>, k: usize) -> (b: bool)
    ensures
        b == exists|q: int| 0 <= q < v@.len() && v@[q] == k,
{
    let mut m: usize = 0;
    while m < v.len()
        invariant
            m <= v@.len(),
            forall|q: int| 0 <= q < m ==> v@[q] != k,
        decreases v@.len() - m,
    {
        if v[m] == k {
            return true;
        }
        m = m + 1;
    }
    false
}

fn load_chain(
    rows: &Vec<StoredConnection>,
    id: &str,
    master: &str,
    visited: &mut Vec<usize>,
    Ghost(vis): Ghost<Set<int>>,
) -> (r: Result<SshConnectParams, String>)
    requires
        vis.subset_of(row_indices(rows@.len() as int)),
        forall|i: int| vis.contains(i) <==> exists|m: int| 0 <= m < old(visited)@.len() && old(visited)@[m] == i,
    ensures
        loaded_chain(rows@, id@, master@, vis, r),
    decreases rows@.len() - vis.len(),
{
    let k = match find_row(rows, id) {
        Some(k) => k,
        None => {
            return Err(string_from_chars(chars_of("Connection not found: Query returned no rows").as_slice()));
        },
    };
    let seen = contains_index(visited, k);
    assert(vis.contains(k as int) == seen);
    if seen {
        let e = concat("ProxyJump cycle detected at connection ", id);
        assert(row_index(rows@, id@) == Some(k as int));
        assert(e@ == cycle_message(id@));
        let r: Result<SshConnectParams, String> = Err(e);
        assert(r matches Err(e) && e@ == cycle_message(id@));
        assert(loaded_chain(rows@, id@, master@, vis, r));
        return r;
    }
    assert(!vis.contains(k as int));
    proof {
        lemma_visit(rows@, vis, k as int);
    }
    let row = &rows[k];
    let base = params_of_stored(row, master);
    match non_empty(clone_opt(&row.proxy_jump_id)) {
        None => Ok(base),
        Some(j) => {
            let ghost before = visited@;
            visited.push(k);
            assert(forall|i: int| vis.insert(k as int).contains(i) <==> exists|q: int| 0 <= q < visited@.len() && visited@[q] == i) by {
                assert forall|i: int| vis.insert(k as int).contains(i) implies exists|q: int| 0 <= q < visited@.len() && visited@[q] == i by {
                    if i == k {
                        assert(visited@[before.len() as int] == i);
                    } else {
                        let q = choose|q: int| 0 <= q < before.len() && before[q] == i;
                        assert(visited@[q] == i);
                    }
                }
                assert forall|i: int| (exists|q: int| 0 <= q < visited@.len() && visited@[q] == i) implies vis.insert(k as int).contains(i) by {
                    let q = choose|q: int| 0 <= q < visited@.len() && visited@[q] == i;
                    if q < before.len() {
                        assert(before[q] == i);
                    }
                }
            }
            match load_chain(rows, j.as_str(), master, visited, Ghost(vis.insert(k as int))) {
                Ok(jp) => {
                    let mut p = base;
                    p.proxy_jump = Some(Box::new(jp));
                    Ok(p)
                },
                Err(e) => Err(e),
            }
        },
    }
}

/// The parameters of stored connection `id`, with the chain of ProxyJump
/// connections it names loaded from `rows` (all the stored connections);
/// passwords are decrypted under `master`.
pub fn load_ssh_params(rows: &Vec<StoredConnection>, id: &str, master: &str) -> (r: Result<
    SshConnectParams,
    String,
>)
    ensures
        loaded_chain(rows@, id@, master@, Set::empty(), r),
{
    let mut visited: Vec<usize> = Vec::new();
    proof {
        assert(Set::<int>::empty().subset_of(row_indices(rows@.len() as int)));
    }
    load_chain(rows, id, master, &mut visited, Ghost(Set::empty()))
}

} // verus!
