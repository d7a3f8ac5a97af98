//! The records the application stores and shows.
use vstd::prelude::*;

verus! {

/// A folder of connections.
pub struct Group {
    pub id: String,
    pub name: String,
    pub parent_id: Option<String>,
    pub icon: Option<String>,
    pub sort_order: i32,
    pub created_at: Option<String>,
}

/// A stored SSH connection.
pub struct Connection {
    pub id: String,
    pub group_id: Option<String>,
    pub name: String,
    pub host: String,
    pub port: i32,
    pub auth_type: String,
    pub username: Option<String>,
    pub password_enc: Option<String>,
    pub key_path: Option<String>,
    pub credential_id: Option<String>,
    pub proxy_type: Option<String>,
    pub proxy_host: Option<String>,
    pub proxy_port: Option<i32>,
    pub proxy_jump_id: Option<String>,
    pub init_command: Option<String>,
    pub init_path: Option<String>,
    pub timeout_ms: Option<i32>,
    pub heartbeat_ms: Option<i32>,
    pub remark: Option<String>,
    pub created_at: Option<String>,
    pub updated_at: Option<String>,
}

/// A connection as the connection form submits it.
pub struct ConnectionInput {
    pub id: Option<String>,
    pub group_id: Option<String>,
    pub name: String,
    pub host: String,
    pub port: Option<i32>,
    pub auth_type: Option<String>,
    pub username: Option<String>,
    pub password: Option<String>,
    pub key_path: Option<String>,
    pub credential_id: Option<String>,
    pub proxy_type: Option<String>,
    pub proxy_host: Option<String>,
    pub proxy_port: Option<i32>,
    pub proxy_jump_id: Option<String>,
    pub init_command: Option<String>,
    pub init_path: Option<String>,
    pub timeout_ms: Option<i32>,
    pub heartbeat_ms: Option<i32>,
    pub remark: Option<String>,
}

/// A saved command snippet.
pub struct QuickCommand {
    pub id: String,
    pub group_id: Option<String>,
    pub name: String,
    pub command: String,
    pub shortcut: Option<String>,
    pub sort_order: i32,
}

/// A note attached to a connection or a group.
pub struct Note {
    pub id: String,
    pub connection_id: Option<String>,
    pub group_id: Option<String>,
    pub title: Option<String>,
    pub content: Option<String>,
    pub created_at: Option<String>,
    pub updated_at: Option<String>,
}

/// An assistant conversation.
pub struct AiConversation {
    pub id: String,
    pub title: Option<String>,
    pub created_at: Option<String>,
}

/// A message of an assistant conversation.
pub struct AiMessage {
    pub id: String,
    pub conversation_id: String,
    pub role: String,
    pub content: String,
    pub created_at: Option<String>,
}

/// A key/value setting.
pub struct Setting {
    pub key: String,
    pub value: String,
}

/// An entry of a remote or local directory listing.
pub struct SftpEntry {
    pub name: String,
    pub path: String,
    pub is_dir: bool,
    pub size: u64,
    pub permissions: String,
    pub modified: String,
}

} // verus!
