//! Finding the tracker of a download from what the user gave: a magnet link,
//! an info hash or a torrent file.

use vstd::prelude::*;
use crate::text::{has_prefix, has_suffix, str_ends_with, str_starts_with};

verus! {

#[verifier::external_type_specification]
#[verifier::external_body]
pub struct ExUrlParseError(url::ParseError);

/// What `url::Url::parse` followed by `Url::host_str` gives for `input`:
/// `None` when `input` does not parse as an absolute URL, else the URL's host,
/// if it has one. The URL standard that decides this is not stated here.
pub uninterp spec fn url_host(input: Seq<char>) -> Option<Option<Seq<char>>>;

/// `url::Url::parse` on `input` and, when it parses, `Url::host_str` on the URL.
/// Both depend on the characters of `input` alone; their result is named
/// `url_host`. The `ParseError` that a failed parse gives is not stated.
#[verifier::external_body]
fn parse_url_host(input: &str) -> (res: Result<Option<String>, url::ParseError>)
    ensures
        res is Err <==> url_host(input@) is None,
        res matches Ok(host) ==> url_host(input@) == Some(match host {
            Some(h) => Some(h@),
            None => None,
        }),
{
    match url::Url::parse(input) {
        Ok(url) => match url.host_str() {
            Some(host) => Ok(Some(host.to_string())),
            None => Ok(None),
        },
        Err(e) => Err(e),
    }
}

/// Why no tracker URL could be found.
#[derive(Debug)]
pub enum TrackerUrlError {
    /// The magnet link does not parse as a URL.
    InvalidUrl(url::ParseError),
    /// The magnet link (held here) has no host.
    NoHost(String),
    /// The input is neither a magnet link, nor an info hash, nor a torrent file.
    UnsupportedFormat,
}

impl TrackerUrlError {
    /// The text that reports the error: the parse error's own text, "Invalid
    /// magnet link: no host found in '{link}'", or "Unsupported input format".
    pub fn message(&self) -> (text: String)
        ensures
            self matches TrackerUrlError::InvalidUrl(e) ==> vstd::string::to_string_from_display_ensures(e, text),
            self matches TrackerUrlError::NoHost(link) ==> text@ == "Invalid magnet link: no host found in '"@
                + link@ + "'"@,
            self is UnsupportedFormat ==> text@ == "Unsupported input format"@,
    {
        match self {
            TrackerUrlError::InvalidUrl(e) => e.to_string(),
            TrackerUrlError::NoHost(link) => {
                let mut text = String::from_str("Invalid magnet link: no host found in '");
                text.append(link.as_str());
                text.append("'");
                text
            },
            TrackerUrlError::UnsupportedFormat => String::from_str("Unsupported input format"),
        }
    }
}

/// The tracker URL of a host: "https://{host}/tracker".
pub open spec fn tracker_url_for_host(host: Seq<char>) -> Seq<char> {
    "https://"@ + host + "/tracker"@
}

/// The tracker URL of a host is "https://", then the whole host, unchanged,
/// then "/tracker", whatever the host's length.
pub proof fn lemma_tracker_url_holds_host(host: Seq<char>)
    ensures
        ({
            let url = tracker_url_for_host(host);
            &&& url.len() == host.len() + 16
            &&& url.subrange(0, 8) == seq!['h', 't', 't', 'p', 's', ':', '/', '/']
            &&& url.subrange(8, 8 + host.len() as int) == host
            &&& url.subrange(8 + host.len() as int, url.len() as int) == seq!['/', 't', 'r', 'a', 'c', 'k', 'e', 'r']
        }),
{
    reveal_strlit("https://");
    reveal_strlit("/tracker");
    let url = tracker_url_for_host(host);
    assert(url.subrange(0, 8) =~= seq!['h', 't', 't', 'p', 's', ':', '/', '/']);
    assert(url.subrange(8, 8 + host.len() as int) =~= host);
    assert(url.subrange(8 + host.len() as int, url.len() as int) =~= seq!['/', 't', 'r', 'a', 'c', 'k', 'e', 'r']);
}

/// The inputs that `fetch_tracker_url` handles: info hashes ("urn:btih:...")
/// and torrent files ("....torrent") are not handled yet.
pub open spec fn tracker_input_handled(input: Seq<char>) -> bool {
    !has_prefix(input, "magnet:"@) ==> !has_prefix(input, "urn:btih:"@) && !has_suffix(input, ".torrent"@)
}

/// The tracker URL of the magnet link `input`, given what parsing it as a URL
/// gave: its host's tracker, an error naming the link when it has no host, or
/// the parse error.
pub fn tracker_url_from_parsed(input: &str, parsed: Result<Option<String>, url::ParseError>) -> (res: Result<
    String,
    TrackerUrlError,
>)
    ensures
        match parsed {
            Err(e) => res matches Err(TrackerUrlError::InvalidUrl(e2)) && e2 == e,
            Ok(None) => res matches Err(TrackerUrlError::NoHost(link)) && link@ == input@,
            Ok(Some(host)) => res matches Ok(url) && url@ == tracker_url_for_host(host@),
        },
{
    match parsed {
        Err(e) => Err(TrackerUrlError::InvalidUrl(e)),
        Ok(None) => Err(TrackerUrlError::NoHost(String::from_str(input))),
        Ok(Some(host)) => {
            let mut url = String::from_str("https://");
            url.append(host.as_str());
            url.append("/tracker");
            Ok(url)
        },
    }
}

/// The tracker URL for what the user gave. A magnet link ("magnet:...") is
/// parsed as a URL and its host's tracker ("https://{host}/tracker") is
/// returned; other inputs are an unsupported format.
pub fn fetch_tracker_url(input: &str) -> (res: Result<String, TrackerUrlError>)
    requires
        tracker_input_handled(input@),
    ensures
        has_prefix(input@, "magnet:"@) ==> match url_host(input@) {
            None => res matches Err(TrackerUrlError::InvalidUrl(_)),
            Some(None) => res matches Err(TrackerUrlError::NoHost(link)) && link@ == input@,
            Some(Some(host)) => res matches Ok(url) && url@ == tracker_url_for_host(host),
        },
        !has_prefix(input@, "magnet:"@) ==> res matches Err(TrackerUrlError::UnsupportedFormat),
{
    if str_starts_with(input, "magnet:") {
        let parsed = parse_url_host(input);
        tracker_url_from_parsed(input, parsed)
    } else {
        Err(TrackerUrlError::UnsupportedFormat)
    }
}

/// Whether `fetch_tracker_url` handles `input` (info hashes and torrent files
/// are not handled yet).
pub fn is_tracker_input_handled(input: &str) -> (res: bool)
    ensures
        res == tracker_input_handled(input@),
{
    str_starts_with(input, "magnet:") || (!str_starts_with(input, "urn:btih:") && !str_ends_with(input, ".torrent"))
}

/// The tracker URL of a torrent file (a fixed answer for now).
pub fn process_torrent_file(_file_path: &str) -> (url: String)
    ensures
        url@ == "tracker_url_from_torrent_file"@,
{
    String::from_str("tracker_url_from_torrent_file")
}

/// The tracker URL of an info hash (a fixed answer for now).
pub fn process_info_hash(_info_hash: &str) -> (url: String)
    ensures
        url@ == "tracker_url_from_info_hash"@,
{
    String::from_str("tracker_url_from_info_hash")
}

/// The tracker URL of a magnet URL (a fixed answer for now).
pub fn fetch_tracker_url_from_magnet(_magnet_url: &str) -> (url: String)
    ensures
        url@ == "tracker_url_from_magnet"@,
{
    String::from_str("tracker_url_from_magnet")
}

} // verus!
