//! The login handshake: its protocol state, its messages and their wire
//! formats, the client version, and the dispatch table.

pub mod login_result;
pub mod protocol;
pub mod security;
pub mod version;
pub mod logon_challenge;
pub mod logon_proof;
