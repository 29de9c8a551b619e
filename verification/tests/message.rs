use rustorrent::message::{process_message, MessageOutcome, PIECE_MESSAGE};
use rustorrent::piece_manager::{assemble_file, PieceManager};

fn piece_message(index: u32, offset: u32, data: &[u8]) -> Vec<u8> {
    let mut m = vec![PIECE_MESSAGE];
    m.extend_from_slice(&index.to_be_bytes());
    m.extend_from_slice(&offset.to_be_bytes());
    m.extend_from_slice(data);
    m
}

#[test]
fn unknown_message_is_ignored() {
    let mut pm = PieceManager::new(0);
    assert!(matches!(process_message(&[4, 0, 0, 0, 1], &mut pm), MessageOutcome::UnknownMessage));
    assert_eq!(assemble_file(&pm), Ok(vec![]));
}

#[test]
fn truncated_piece_is_ignored() {
    let mut pm = PieceManager::new(0);
    assert!(matches!(process_message(&[7, 0, 0, 0, 1, 0, 0, 0], &mut pm), MessageOutcome::TruncatedPiece));
    assert!(matches!(process_message(&[7], &mut pm), MessageOutcome::TruncatedPiece));
    assert_eq!(assemble_file(&pm), Ok(vec![]));
}

#[test]
fn piece_message_fields_are_big_endian() {
    let mut pm = PieceManager::new(5);
    let m = [7u8, 0, 0, 1, 2, 0, 0, 0, 3, 9, 8];
    match process_message(&m, &mut pm) {
        MessageOutcome::PieceStored { piece_index, block_offset, block_len, assembly } => {
            assert_eq!(piece_index, 258);
            assert_eq!(block_offset, 3);
            assert_eq!(block_len, 2);
            assert!(assembly.is_none());
        }
        _ => panic!("a piece message is stored"),
    }
}

#[test]
fn piece_with_all_downloaded_assembles() {
    let mut pm = PieceManager::new(0);
    match process_message(&piece_message(0, 0, b"abc"), &mut pm) {
        MessageOutcome::PieceStored { piece_index, block_offset, block_len, assembly } => {
            assert_eq!((piece_index, block_offset, block_len), (0, 0, 3));
            assert_eq!(assembly, Some(Ok(b"abc".to_vec())));
        }
        _ => panic!("a piece message is stored"),
    }
    match process_message(&piece_message(1, 0, b"de"), &mut pm) {
        MessageOutcome::PieceStored { assembly, .. } => assert_eq!(assembly, Some(Ok(b"abcde".to_vec()))),
        _ => panic!("a piece message is stored"),
    }
}

#[test]
fn empty_block_is_stored() {
    let mut pm = PieceManager::new(1);
    match process_message(&piece_message(0, 1, &[]), &mut pm) {
        MessageOutcome::PieceStored { piece_index, block_offset, block_len, assembly } => {
            assert_eq!((piece_index, block_offset, block_len), (0, 1, 0));
            assert!(assembly.is_none());
        }
        _ => panic!("a piece message is stored"),
    }
    pm._mark_piece_as_downloaded(0);
    assert_eq!(assemble_file(&pm), Ok(vec![]));
}
