//! LanShare: the logic of a file share for a local network.
pub mod text;
pub mod bytes;
pub mod frame;
pub mod db;
pub mod clock;
pub mod wsp;
pub mod wsp_server;
pub mod paths;
pub mod http;
pub mod listing;
pub mod mime;
pub mod encoding;
pub mod files;
pub mod api;
pub mod webdav;
pub mod server;
pub mod discovery;
pub mod wsp_client;
pub mod lsp_client;
pub mod content;
pub mod fuse;
pub mod winfs;
pub mod mounted;
pub mod gaps;
pub mod quote;
pub mod utf16;
pub mod volume;
pub mod client_config;
pub mod config;
pub mod icon;
pub mod dokan;
pub mod startup;
pub mod tray;
pub mod readonly_fs;
pub mod token;
