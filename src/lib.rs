//! A self-describing binary value codec and an append-only, hash-checked
//! commit log built on it.

pub mod access;
pub mod binlog;
pub mod check;
pub mod decode;
pub mod encode;
pub mod hash;
pub mod laws;
pub mod meta;
pub mod schema;
pub mod time;
pub mod types;
pub mod util;
pub mod wire;
