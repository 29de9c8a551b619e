use rustorrent::tracker::{
    fetch_tracker_url, fetch_tracker_url_from_magnet, is_tracker_input_handled, process_info_hash,
    process_torrent_file, tracker_url_from_parsed, TrackerUrlError,
};

#[test]
fn magnet_link_with_host_gives_tracker() {
    let url = fetch_tracker_url("magnet://tracker.example.org/announce?xt=urn:btih:abc").unwrap();
    assert_eq!(url, "https://tracker.example.org/tracker");
}

#[test]
fn magnet_link_without_host() {
    match fetch_tracker_url("magnet:?xt=urn:btih:abcdef") {
        Err(TrackerUrlError::NoHost(link)) => assert_eq!(link, "magnet:?xt=urn:btih:abcdef"),
        other => panic!("unexpected {:?}", other),
    }
}

#[test]
fn magnet_link_that_is_no_url() {
    assert!(matches!(fetch_tracker_url("magnet://[::1/x"), Err(TrackerUrlError::InvalidUrl(_))));
}

#[test]
fn other_inputs_are_unsupported() {
    assert!(matches!(fetch_tracker_url("http://example.org"), Err(TrackerUrlError::UnsupportedFormat)));
    assert!(matches!(fetch_tracker_url(""), Err(TrackerUrlError::UnsupportedFormat)));
}

#[test]
fn info_hashes_and_torrent_files_are_not_handled() {
    assert!(!is_tracker_input_handled("urn:btih:abcdef"));
    assert!(!is_tracker_input_handled("ubuntu.torrent"));
    assert!(is_tracker_input_handled("magnet:x.torrent"));
    assert!(is_tracker_input_handled("http://example.org"));
}

#[test]
fn parsed_results_map_to_tracker() {
    assert_eq!(
        tracker_url_from_parsed("magnet://h", Ok(Some("h".to_string()))).unwrap(),
        "https://h/tracker"
    );
    assert!(matches!(
        tracker_url_from_parsed("magnet:x", Err(url::ParseError::EmptyHost)),
        Err(TrackerUrlError::InvalidUrl(url::ParseError::EmptyHost))
    ));
    match tracker_url_from_parsed("magnet:x", Ok(None)) {
        Err(TrackerUrlError::NoHost(link)) => assert_eq!(link, "magnet:x"),
        other => panic!("unexpected {:?}", other),
    }
}

#[test]
fn fixed_tracker_answers() {
    assert_eq!(process_torrent_file("a.torrent"), "tracker_url_from_torrent_file");
    assert_eq!(process_info_hash("abc"), "tracker_url_from_info_hash");
    assert_eq!(fetch_tracker_url_from_magnet("magnet:?x"), "tracker_url_from_magnet");
}

#[test]
fn tracker_error_texts() {
    assert_eq!(
        fetch_tracker_url("magnet:?xt=urn:btih:abc").unwrap_err().message(),
        "Invalid magnet link: no host found in 'magnet:?xt=urn:btih:abc'"
    );
    assert_eq!(fetch_tracker_url("hello.txt").unwrap_err().message(), "Unsupported input format");
    assert_eq!(
        TrackerUrlError::InvalidUrl(url::ParseError::EmptyHost).message(),
        url::ParseError::EmptyHost.to_string()
    );
}
