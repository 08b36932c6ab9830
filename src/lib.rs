//! Discovery of firmware update packages from a vendor metadata feed, and the
//! bookkeeping and decisions of reliable, optionally ranged, package transfers.

pub mod downloader;
pub mod fetcher;
pub mod transfer;
pub mod types;
pub mod utils;
