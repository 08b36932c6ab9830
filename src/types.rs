use crate::utils::push_str;
use vstd::prelude::*;

verus! {

/// One update package offered for a title.
#[derive(Debug, Clone)]
pub struct PackageInfo {
    pub version: String,
    pub system_ver: String,
    pub size_bytes: u64,
    pub size_human: String,
    pub url: String,
    pub sha1: String,
    pub filename: String,
}

/// What a discovery found for a title.
#[derive(Debug, Clone)]
pub struct FetchResult {
    pub results: Vec<PackageInfo>,
    pub error: Option<String>,
    pub game_title: String,
    pub cleaned_title_id: String,
}

/// A read-only picture of a transfer job at the time it was asked for.
///
/// Throughput is whole bytes per second; the percentage is left to the caller,
/// as `downloaded / total` where `total` is not zero.
#[derive(Debug, Clone)]
pub struct ProgressInfo {
    pub filename: Option<String>,
    pub total: u64,
    pub downloaded: u64,
    pub speed_bytes_per_sec: u64,
    pub speed_human: String,
    pub done: bool,
    pub error: Option<String>,
}

/// How a package is moved: in one stream, or in concurrent byte ranges.
#[derive(Debug, Clone, Copy, PartialEq, Eq, Structural)]
pub enum DownloadMode {
    Direct,
    MultiPart { num_parts: usize },
}

impl Default for DownloadMode {
    fn default() -> (r: Self)
        ensures
            r == DownloadMode::Direct,
    {
        DownloadMode::Direct
    }
}

/// The errors of discovery and transfer.
#[derive(Debug, Clone)]
pub enum PS3UpdateError {
    Network(String),
    XmlParse(String),
    InvalidTitleId(String),
    NoUpdatesFound(String),
    FileSystem(String),
    Download(String),
    JobNotFound(String),
}

/// The text an error is shown with.
pub open spec fn error_text(e: PS3UpdateError) -> Seq<char> {
    match e {
        PS3UpdateError::Network(m) => "Network error: "@ + m@,
        PS3UpdateError::XmlParse(m) => "XML parsing error: "@ + m@,
        PS3UpdateError::InvalidTitleId(m) => "Invalid title ID: "@ + m@,
        PS3UpdateError::NoUpdatesFound(m) => "No updates found for title ID: "@ + m@,
        PS3UpdateError::FileSystem(m) => "File system error: "@ + m@,
        PS3UpdateError::Download(m) => "Download error: "@ + m@,
        PS3UpdateError::JobNotFound(m) => "Job not found: "@ + m@,
    }
}

impl PS3UpdateError {
    /// The text this error is shown with.
    pub fn message(&self) -> (r: String)
        ensures
            r@ == error_text(*self),
    {
        let (prefix, m) = match self {
            PS3UpdateError::Network(m) => ("Network error: ", m),
            PS3UpdateError::XmlParse(m) => ("XML parsing error: ", m),
            PS3UpdateError::InvalidTitleId(m) => ("Invalid title ID: ", m),
            PS3UpdateError::NoUpdatesFound(m) => ("No updates found for title ID: ", m),
            PS3UpdateError::FileSystem(m) => ("File system error: ", m),
            PS3UpdateError::Download(m) => ("Download error: ", m),
            PS3UpdateError::JobNotFound(m) => ("Job not found: ", m),
        };
        let mut out = String::new();
        push_str(&mut out, prefix);
        push_str(&mut out, m.as_str());
        out
    }
}

/// Where packages are saved by default.
#[derive(Debug, Clone)]
pub struct Settings {
    pub download_path: String,
}

} // verus!
