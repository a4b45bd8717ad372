//! Allow-list driven static file serving: canonical paths, the allow-list of
//! exact files and directory prefixes, the per-request decision and the
//! server's stop protocol.
pub mod allow_list;
pub mod lifecycle;
pub mod path;
pub mod resolve;
