use rustorrent::piece_manager::{assemble_file, AssembleError, PieceManager};

#[test]
fn new_manager_is_empty() {
    let pm = PieceManager::new(100);
    assert_eq!(pm.total_pieces(), 100);
    assert!(!pm.is_downloaded(0));
    assert!(!pm.is_requested(0));
    assert!(!pm.all_pieces_downloaded());
    assert_eq!(pm.available_pieces().len(), 100);
}

#[test]
fn manager_without_pieces_is_complete() {
    let pm = PieceManager::new(0);
    assert!(pm.all_pieces_downloaded());
    assert_eq!(assemble_file(&pm), Ok(vec![]));
}

#[test]
fn marking_downloaded_clears_request() {
    let mut pm = PieceManager::new(4);
    pm.mark_piece_as_requested(2);
    assert!(pm.is_requested(2));
    pm._mark_piece_as_downloaded(2);
    assert!(pm.is_downloaded(2));
    assert!(!pm.is_requested(2));
}

#[test]
fn downloaded_piece_is_not_requested_again() {
    let mut pm = PieceManager::new(4);
    pm._mark_piece_as_downloaded(1);
    pm.mark_piece_as_requested(1);
    assert!(!pm.is_requested(1));
    pm.mark_piece_as_requested(3);
    assert!(pm.is_requested(3));
}

#[test]
fn available_pieces_in_order() {
    let mut pm = PieceManager::new(6);
    pm._mark_piece_as_downloaded(0);
    pm.mark_piece_as_requested(3);
    pm._mark_piece_as_downloaded(5);
    assert_eq!(pm.available_pieces(), vec![1, 2, 4]);
}

#[test]
fn generate_request_until_exhausted() {
    let mut pm = PieceManager::new(3);
    pm._mark_piece_as_downloaded(1);
    let mut got = Vec::new();
    while let Some(p) = pm.generate_request() {
        assert!(p < 3 && p != 1);
        assert!(pm.is_requested(p));
        assert!(!got.contains(&p));
        got.push(p);
    }
    got.sort();
    assert_eq!(got, vec![0, 2]);
    assert_eq!(pm.generate_request(), None);
}

#[test]
fn all_pieces_downloaded_counts_marked_pieces() {
    let mut pm = PieceManager::new(3);
    for p in 0..3 {
        assert!(!pm.all_pieces_downloaded());
        pm._mark_piece_as_downloaded(p);
    }
    assert!(pm.all_pieces_downloaded());
}

#[test]
fn all_pieces_downloaded_only_counts() {
    // An index beyond the total counts too.
    let mut pm = PieceManager::new(1);
    pm._mark_piece_as_downloaded(7);
    assert!(pm.all_pieces_downloaded());
    assert!(!pm.is_downloaded(0));
}

#[test]
fn assemble_requires_all_pieces() {
    let mut pm = PieceManager::new(2);
    pm.store_piece(0, 0, &[1, 2, 3]);
    pm._mark_piece_as_downloaded(0);
    assert_eq!(assemble_file(&pm), Err(AssembleError::NotAllPiecesDownloaded));
    pm._mark_piece_as_downloaded(1);
    assert_eq!(assemble_file(&pm), Ok(vec![1, 2, 3]));
}

#[test]
fn stored_blocks_assemble_in_order() {
    let mut pm = PieceManager::new(0);
    pm.store_piece(1, 1, &[5, 6]);
    pm.store_piece(0, 0, &[1]);
    pm.store_piece(1, 0, &[4]);
    pm.store_piece(0, 2, &[3]);
    pm.store_piece(0, 0, &[2]);
    assert_eq!(assemble_file(&pm), Ok(vec![1, 2, 3, 4, 5, 6]));
}

#[test]
fn storing_far_piece_creates_empty_pieces() {
    let mut pm = PieceManager::new(0);
    pm.store_piece(3, 2, &[9]);
    pm.store_piece(3, 0, &[8]);
    assert_eq!(assemble_file(&pm), Ok(vec![8, 9]));
    assert!(!pm.is_downloaded(3));
}

#[test]
fn assemble_error_text() {
    assert_eq!(AssembleError::NotAllPiecesDownloaded.message(), "Not all pieces downloaded yet.");
    let pm = PieceManager::new(3);
    assert_eq!(assemble_file(&pm).unwrap_err().message(), "Not all pieces downloaded yet.");
}

#[test]
fn requests_on_fresh_manager_cover_every_piece() {
    let n = 5u32;
    let mut pm = PieceManager::new(n);
    let mut got = Vec::new();
    for _ in 0..n {
        got.push(pm.generate_request().expect("a piece is left"));
    }
    assert_eq!(pm.generate_request(), None);
    got.sort();
    assert_eq!(got, (0..n).collect::<Vec<u32>>());
    assert!((0..n).all(|p| pm.is_requested(p)));
}
