pub mod text;
pub mod monitor;
pub mod crypto;
pub mod ssh;
pub mod ip;
pub mod models;
pub mod connections;
pub mod sftp;
pub mod transfer;
pub mod registry;
pub mod forward;
pub mod telnet;
pub mod actions;
pub mod session;
pub mod walk;
