use rustorrent::text::{char_is_white_space, trim};
use rustorrent::handshake::build_handshake;
use rustorrent::piece_manager::PieceManager;
use rustorrent::session::{
    classify_command, handle_command, handshake_fields_or_empty, torrent_info_source, Command,
    CommandOutcome, DownloadProgress, TorrentInfoSource,
};

#[test]
fn menu_choices() {
    assert_eq!(torrent_info_source(1), Some(TorrentInfoSource::TorrentFile));
    assert_eq!(torrent_info_source(2), Some(TorrentInfoSource::MagnetUrl));
    assert_eq!(torrent_info_source(3), Some(TorrentInfoSource::InfoHash));
    assert_eq!(torrent_info_source(0), None);
    assert_eq!(torrent_info_source(4), None);
}

#[test]
fn commands_are_exact_words() {
    assert_eq!(classify_command("request"), Command::Request);
    assert_eq!(classify_command("quit"), Command::Quit);
    assert_eq!(classify_command(" quit"), Command::Invalid);
    assert_eq!(classify_command("Request"), Command::Invalid);
    assert_eq!(classify_command(""), Command::Invalid);
}

#[test]
fn command_lines_are_trimmed() {
    let mut pm = PieceManager::new(1);
    assert_eq!(handle_command(&mut pm, "  request\n"), CommandOutcome::Requested(0));
    assert!(pm.is_requested(0));
    assert_eq!(handle_command(&mut pm, "request"), CommandOutcome::NoMorePieces);
    assert_eq!(handle_command(&mut pm, "\tquit \n"), CommandOutcome::Quit);
    assert_eq!(handle_command(&mut pm, "stop"), CommandOutcome::Invalid);
}

#[test]
fn handshake_fields_or_empty_defaults() {
    let h = build_handshake(&[3u8; 20], &[4u8; 20]);
    assert_eq!(handshake_fields_or_empty(&h), (vec![3u8; 20], vec![4u8; 20]));
    assert_eq!(handshake_fields_or_empty(&[0u8; 68]), (vec![], vec![]));
}

#[test]
fn progress_counts_and_deduplicates() {
    let mut progress = DownloadProgress::new();
    assert_eq!(progress.remaining_pieces(), 100);
    let e = progress.record_piece(5);
    assert!(e.started && e.new_piece && !e.finished);
    let e = progress.record_piece(5);
    assert!(!e.started && !e.new_piece && !e.finished);
    assert_eq!(progress.downloaded(), 2);
    assert_eq!(progress.remaining_pieces(), 98);
    for i in 0..97 {
        assert!(!progress.record_piece(i).finished);
    }
    assert!(progress.record_piece(1000).finished);
}

#[test]
fn white_space_is_trimmed() {
    assert_eq!(trim("  quit\n"), "quit");
    assert_eq!(trim("\u{3000}request\u{a0}\r\n"), "request");
    assert_eq!(trim(" \t "), "");
    assert_eq!(trim("a b"), "a b");
    for c in ['\t', '\n', ' ', '\u{85}', '\u{2009}', '\u{3000}', 'x', '\u{200b}', '\u{180e}'] {
        assert_eq!(char_is_white_space(c), c.is_whitespace());
    }
    let mut pm = PieceManager::new(0);
    assert_eq!(handle_command(&mut pm, "quit\n"), CommandOutcome::Quit);
}
