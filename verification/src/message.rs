//! Handling of the messages that a peer sends after the handshake.

use vstd::prelude::*;
use crate::piece_manager::{assemble_file, assembled_content, spec_store, AssembleError, PieceManager};

verus! {

/// The message type of a piece message.
pub const PIECE_MESSAGE: u8 = 7;

/// The big-endian value of four bytes.
pub open spec fn be_u32(b0: u8, b1: u8, b2: u8, b3: u8) -> u32 {
    (b0 as int * 16777216 + b1 as int * 65536 + b2 as int * 256 + b3 as int) as u32
}

/// The four bytes of `message` from `at` on, read as a big-endian `u32`
/// (as `u32::from_be_bytes`).
fn read_be_u32(message: &[u8], at: usize) -> (v: u32)
    requires
        at + 4 <= message@.len(),
    ensures
        v == be_u32(message@[at as int], message@[at + 1], message@[at + 2], message@[at + 3]),
{
    let b0 = message[at] as u32;
    let b1 = message[at + 1] as u32;
    let b2 = message[at + 2] as u32;
    let b3 = message[at + 3] as u32;
    b0 * 16777216 + b1 * 65536 + b2 * 256 + b3
}

/// What the handling of a peer message did.
pub enum MessageOutcome {
    /// The message is of a type that the client does not handle.
    UnknownMessage,
    /// A piece message too short to hold a piece index and a block offset; it is ignored.
    TruncatedPiece,
    /// A piece message whose block was stored; when every piece then counted as
    /// downloaded, `assembly` holds the result of assembling the file.
    PieceStored {
        piece_index: u32,
        block_offset: u32,
        block_len: usize,
        assembly: Option<Result<Vec<u8>, AssembleError>>,
    },
}

/// Handles one message from a peer. A piece message (type 7) carries a
/// big-endian piece index (bytes 1 to 4), a big-endian block offset (bytes 5
/// to 8) and the block's data (the rest): the data is stored, and when all
/// pieces count as downloaded the file is assembled.
pub fn process_message(message: &[u8], piece_manager: &mut PieceManager) -> (res: MessageOutcome)
    requires
        message@.len() >= 1,
    ensures
        message@[0] != PIECE_MESSAGE ==> res is UnknownMessage && *final(piece_manager) == *old(piece_manager),
        message@[0] == PIECE_MESSAGE && message@.len() < 9 ==> res is TruncatedPiece && *final(piece_manager)
            == *old(piece_manager),
        message@[0] == PIECE_MESSAGE && message@.len() >= 9 ==> match res {
            MessageOutcome::PieceStored { piece_index, block_offset, block_len, assembly } => {
                &&& piece_index == be_u32(message@[1], message@[2], message@[3], message@[4])
                &&& block_offset == be_u32(message@[5], message@[6], message@[7], message@[8])
                &&& block_len == message@.len() - 9
                &&& final(piece_manager).pieces() == spec_store(
                    old(piece_manager).pieces(),
                    piece_index as nat,
                    block_offset as nat,
                    message@.subrange(9, message@.len() as int),
                )
                &&& final(piece_manager).downloaded() == old(piece_manager).downloaded()
                &&& final(piece_manager).requested() == old(piece_manager).requested()
                &&& final(piece_manager).total() == old(piece_manager).total()
                &&& (assembly is Some <==> final(piece_manager).downloaded().len() == final(piece_manager).total())
                &&& (assembly matches Some(r) ==> r matches Ok(content) && content@ == assembled_content(
                    final(piece_manager).pieces(),
                ))
            },
            _ => false,
        },
{
    if message[0] == PIECE_MESSAGE {
        if message.len() < 9 {
            return MessageOutcome::TruncatedPiece;
        }
        let piece_index = read_be_u32(message, 1);
        let block_offset = read_be_u32(message, 5);
        let block_data = vstd::slice::slice_subrange(message, 9, message.len());
        piece_manager.store_piece(piece_index, block_offset, block_data);
        let assembly = if piece_manager.all_pieces_downloaded() {
            Some(assemble_file(piece_manager))
        } else {
            None
        };
        MessageOutcome::PieceStored { piece_index, block_offset, block_len: block_data.len(), assembly }
    } else {
        MessageOutcome::UnknownMessage
    }
}

/// The four big-endian bytes of `v` (as `u32::to_be_bytes`).
pub open spec fn be_bytes(v: u32) -> Seq<u8> {
    seq![(v / 16777216) as u8, ((v / 65536) % 256) as u8, ((v / 256) % 256) as u8, (v % 256) as u8]
}

/// The piece message that carries `block` for block `block_offset` of piece `piece_index`.
pub open spec fn piece_message(piece_index: u32, block_offset: u32, block: Seq<u8>) -> Seq<u8> {
    seq![PIECE_MESSAGE] + be_bytes(piece_index) + be_bytes(block_offset) + block
}

/// Reading four big-endian bytes gives back the value they were written from.
pub proof fn lemma_be_roundtrip(v: u32)
    ensures
        be_u32(be_bytes(v)[0], be_bytes(v)[1], be_bytes(v)[2], be_bytes(v)[3]) == v,
{
    let x = v as int;
    let q1 = x / 256;
    let q2 = q1 / 256;
    let q3 = q2 / 256;
    assert(x == 256 * q1 + x % 256);
    assert(q1 == 256 * q2 + q1 % 256);
    assert(q2 == 256 * q3 + q2 % 256);
    assert(q2 == x / 65536);
    assert(q3 == x / 16777216);
}

/// A piece message is read back as the piece index, the block offset and the
/// block it was made from: `process_message` stores exactly that block there.
pub proof fn lemma_piece_message_fields(piece_index: u32, block_offset: u32, block: Seq<u8>)
    ensures
        ({
            let m = piece_message(piece_index, block_offset, block);
            &&& m.len() == 9 + block.len()
            &&& m[0] == PIECE_MESSAGE
            &&& be_u32(m[1], m[2], m[3], m[4]) == piece_index
            &&& be_u32(m[5], m[6], m[7], m[8]) == block_offset
            &&& m.subrange(9, m.len() as int) == block
        }),
{
    let m = piece_message(piece_index, block_offset, block);
    lemma_be_roundtrip(piece_index);
    lemma_be_roundtrip(block_offset);
    assert(m[1] == be_bytes(piece_index)[0]);
    assert(m[2] == be_bytes(piece_index)[1]);
    assert(m[3] == be_bytes(piece_index)[2]);
    assert(m[4] == be_bytes(piece_index)[3]);
    assert(m[5] == be_bytes(block_offset)[0]);
    assert(m[6] == be_bytes(block_offset)[1]);
    assert(m[7] == be_bytes(block_offset)[2]);
    assert(m[8] == be_bytes(block_offset)[3]);
    assert(m.subrange(9, m.len() as int) =~= block);
}

} // verus!
