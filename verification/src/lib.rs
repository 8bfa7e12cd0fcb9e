//! LanPaste core: the rules that decide what a LAN clipboard keeps, syncs,
//! cleans up and accepts, verified with Verus.

pub mod text;
pub mod types;
pub mod html;
pub mod rtf;
pub mod clipboard;
pub mod watch;
pub mod codec;
pub mod cleanup;
pub mod store;
pub mod protocol;
pub mod sync;
pub mod crypto;
pub mod pair;
pub mod server;
pub mod i18n;
pub mod device;
pub mod client;
pub mod image;
pub mod ingest;
pub mod remote;
pub mod native;
