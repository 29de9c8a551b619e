//! Bookkeeping of a download: which pieces are downloaded, which are
//! requested, and the blocks of data received for each piece.

use vstd::prelude::*;
use std::collections::HashSet;
use crate::random::{choose_piece, thread_rng};

verus! {

broadcast use vstd::std_specs::hash::group_hash_axioms;

/// `s` extended with empty sequences up to length `n` (unchanged when it is
/// already that long).
pub open spec fn padded<T>(s: Seq<Seq<T>>, n: nat) -> Seq<Seq<T>> {
    if s.len() >= n {
        s
    } else {
        s + Seq::new((n - s.len()) as nat, |i: int| Seq::<T>::empty())
    }
}

/// The piece data after `block` is stored at block `block_offset` of piece
/// `piece_index`: missing pieces and blocks are created empty, and `block` is
/// appended to what the block held.
pub open spec fn spec_store(
    data: Seq<Seq<Seq<u8>>>,
    piece_index: nat,
    block_offset: nat,
    block: Seq<u8>,
) -> Seq<Seq<Seq<u8>>> {
    let pieces = padded(data, piece_index + 1);
    let blocks = padded(pieces[piece_index as int], block_offset + 1);
    pieces.update(piece_index as int, blocks.update(block_offset as int, blocks[block_offset as int] + block))
}

/// What storing `block` at block `block_offset` of piece `piece_index` does to
/// the piece data, block by block: the piece list and the piece's block list
/// grow (with empty entries) just enough to hold that block; the block becomes
/// its previous content (empty if it did not exist) followed by `block`; every
/// other block of every piece keeps its content (empty if it did not exist).
pub proof fn lemma_store_blocks(data: Seq<Seq<Seq<u8>>>, piece_index: nat, block_offset: nat, block: Seq<u8>)
    ensures
        ({
            let r = spec_store(data, piece_index, block_offset, block);
            let old_piece = if piece_index < data.len() { data[piece_index as int] } else { Seq::<Seq<u8>>::empty() };
            &&& r.len() == if data.len() > piece_index { data.len() } else { piece_index + 1 }
            &&& forall|i: int|
                0 <= i < r.len() && i != piece_index ==> #[trigger] r[i] == (if i < data.len() {
                    data[i]
                } else {
                    Seq::<Seq<u8>>::empty()
                })
            &&& r[piece_index as int].len() == if old_piece.len() > block_offset {
                old_piece.len()
            } else {
                block_offset + 1
            }
            &&& r[piece_index as int][block_offset as int] == (if block_offset < old_piece.len() {
                old_piece[block_offset as int]
            } else {
                Seq::<u8>::empty()
            }) + block
            &&& forall|j: int|
                0 <= j < r[piece_index as int].len() && j != block_offset ==> #[trigger] r[piece_index as int][j]
                    == (if j < old_piece.len() { old_piece[j] } else { Seq::<u8>::empty() })
        }),
{
}

/// Padding one element further adds one empty sequence.
proof fn lemma_padded_push<T>(s: Seq<Seq<T>>, n: nat)
    requires
        s.len() <= n,
    ensures
        padded(s, n + 1) == padded(s, n).push(Seq::<T>::empty()),
{
    assert(padded(s, n + 1) =~= padded(s, n).push(Seq::<T>::empty()));
}

/// The file content: every block of every piece, in order.
pub open spec fn assembled_content(data: Seq<Seq<Seq<u8>>>) -> Seq<u8> {
    data.map_values(|piece: Seq<Seq<u8>>| piece.flatten()).flatten()
}

/// The pieces below `total` that are neither downloaded nor requested.
pub open spec fn is_available(total: u32, downloaded: Set<u32>, requested: Set<u32>, p: u32) -> bool {
    p < total && !downloaded.contains(p) && !requested.contains(p)
}

/// Tracks the pieces of one download.
pub struct PieceManager {
    total_pieces: u32,
    downloaded_pieces: HashSet<u32>,
    requested_pieces: HashSet<u32>,
    pieces_data: Vec<Vec<Vec<u8>>>,
}

/// Why a file cannot be assembled.
#[derive(Debug, Clone, Copy, PartialEq, Eq, Structural)]
pub enum AssembleError {
    /// Some piece is not downloaded yet.
    NotAllPiecesDownloaded,
}

impl AssembleError {
    /// The text that reports the error.
    pub fn message(&self) -> (text: String)
        ensures
            text@ == "Not all pieces downloaded yet."@,
    {
        match self {
            AssembleError::NotAllPiecesDownloaded => String::from_str("Not all pieces downloaded yet."),
        }
    }
}

impl PieceManager {
    /// The number of pieces of the download.
    pub closed spec fn total(&self) -> u32 {
        self.total_pieces
    }

    /// The pieces marked as downloaded.
    pub closed spec fn downloaded(&self) -> Set<u32> {
        self.downloaded_pieces@
    }

    /// The pieces marked as requested.
    pub closed spec fn requested(&self) -> Set<u32> {
        self.requested_pieces@
    }

    /// The data received: for each piece, its blocks.
    pub closed spec fn pieces(&self) -> Seq<Seq<Seq<u8>>> {
        self.pieces_data@.map_values(|piece: Vec<Vec<u8>>| piece@.map_values(|block: Vec<u8>| block@))
    }

    /// No piece is both downloaded and requested.
    pub open spec fn consistent(&self) -> bool {
        self.downloaded().disjoint(self.requested())
    }

    /// Every piece below the total is downloaded.
    pub open spec fn every_piece_downloaded(&self) -> bool {
        forall|p: u32| p < self.total() ==> #[trigger] self.downloaded().contains(p)
    }

    /// A manager for `total_pieces` pieces, with nothing downloaded, requested or stored.
    pub fn new(total_pieces: u32) -> (pm: Self)
        ensures
            pm.total() == total_pieces,
            pm.downloaded() == Set::<u32>::empty(),
            pm.requested() == Set::<u32>::empty(),
            pm.pieces() == Seq::<Seq<Seq<u8>>>::empty(),
            pm.consistent(),
    {
        let pm = PieceManager {
            total_pieces,
            downloaded_pieces: HashSet::new(),
            requested_pieces: HashSet::new(),
            pieces_data: Vec::new(),
        };
        assert(pm.pieces() =~= Seq::<Seq<Seq<u8>>>::empty());
        pm
    }

    /// Marks `piece_index` as downloaded; it is no longer requested.
    pub fn _mark_piece_as_downloaded(&mut self, piece_index: u32)
        ensures
            final(self).downloaded() == old(self).downloaded().insert(piece_index),
            final(self).requested() == old(self).requested().remove(piece_index),
            final(self).total() == old(self).total(),
            final(self).pieces() == old(self).pieces(),
            old(self).consistent() ==> final(self).consistent(),
    {
        self.downloaded_pieces.insert(piece_index);
        self.requested_pieces.remove(&piece_index);
    }

    /// Marks `piece_index` as requested, unless it is already downloaded.
    pub fn mark_piece_as_requested(&mut self, piece_index: u32)
        ensures
            final(self).requested() == (if old(self).downloaded().contains(piece_index) {
                old(self).requested()
            } else {
                old(self).requested().insert(piece_index)
            }),
            final(self).downloaded() == old(self).downloaded(),
            final(self).total() == old(self).total(),
            final(self).pieces() == old(self).pieces(),
            old(self).consistent() ==> final(self).consistent(),
    {
        if !self.downloaded_pieces.contains(&piece_index) {
            self.requested_pieces.insert(piece_index);
        }
    }

    /// The pieces that may be requested, in increasing order: those below the
    /// total that are neither downloaded nor requested.
    pub fn available_pieces(&self) -> (pieces: Vec<u32>)
        ensures
            forall|i: int| 0 <= i < pieces@.len() ==> is_available(
                self.total(),
                self.downloaded(),
                self.requested(),
                #[trigger] pieces@[i],
            ),
            forall|i: int, j: int| 0 <= i < j < pieces@.len() ==> pieces@[i] < pieces@[j],
            forall|p: u32| is_available(self.total(), self.downloaded(), self.requested(), p) ==> pieces@.contains(p),
    {
        let mut pieces: Vec<u32> = Vec::new();
        let mut p: u32 = 0;
        while p < self.total_pieces
            invariant
                p <= self.total_pieces,
                forall|i: int| 0 <= i < pieces@.len() ==> #[trigger] pieces@[i] < p && is_available(
                    self.total(),
                    self.downloaded(),
                    self.requested(),
                    pieces@[i],
                ),
                forall|i: int, j: int| 0 <= i < j < pieces@.len() ==> pieces@[i] < pieces@[j],
                forall|q: u32| q < p && is_available(self.total(), self.downloaded(), self.requested(), q) ==> pieces@.contains(q),
            decreases self.total_pieces - p,
        {
            if !self.downloaded_pieces.contains(&p) && !self.requested_pieces.contains(&p) {
                let ghost before = pieces@;
                pieces.push(p);
                assert forall|q: u32| q < p + 1 && is_available(self.total(), self.downloaded(), self.requested(), q) implies pieces@.contains(q) by {
                    if q < p {
                        assert(before.contains(q));
                        let k = choose|k: int| 0 <= k < before.len() && before[k] == q;
                        assert(pieces@[k] == q);
                    } else {
                        assert(pieces@[before.len() as int] == q);
                    }
                }
            }
            p = p + 1;
        }
        pieces
    }

    /// Picks, at random, a piece that is neither downloaded nor requested, and
    /// marks it as requested; `None` when there is none.
    pub fn generate_request(&mut self) -> (res: Option<u32>)
        ensures
            final(self).downloaded() == old(self).downloaded(),
            final(self).total() == old(self).total(),
            final(self).pieces() == old(self).pieces(),
            old(self).consistent() ==> final(self).consistent(),
            match res {
                None => final(self).requested() == old(self).requested() && forall|p: u32|
                    !is_available(old(self).total(), old(self).downloaded(), old(self).requested(), p),
                Some(p) => is_available(old(self).total(), old(self).downloaded(), old(self).requested(), p)
                    && final(self).requested() == old(self).requested().insert(p),
            },
    {
        let available = self.available_pieces();
        let mut rng = thread_rng();
        match choose_piece(&available, &mut rng) {
            Some(piece_to_request) => {
                self.mark_piece_as_requested(piece_to_request);
                Some(piece_to_request)
            },
            None => {
                proof {
                    assert forall|p: u32| !is_available(self.total(), self.downloaded(), self.requested(), p) by {
                        if is_available(self.total(), self.downloaded(), self.requested(), p) {
                            assert(available@.contains(p));
                        }
                    }
                }
                None
            },
        }
    }

    /// Stores `block_data` at block `block_offset` of piece `piece_index`,
    /// creating the missing pieces and blocks empty; the data is appended to
    /// what the block already held.
    pub fn store_piece(&mut self, piece_index: u32, block_offset: u32, block_data: &[u8])
        ensures
            final(self).pieces() == spec_store(old(self).pieces(), piece_index as nat, block_offset as nat, block_data@),
            final(self).downloaded() == old(self).downloaded(),
            final(self).requested() == old(self).requested(),
            final(self).total() == old(self).total(),
            old(self).consistent() ==> final(self).consistent(),
    {
        let pi = piece_index as usize;
        let bo = block_offset as usize;
        let ghost old_pieces = self.pieces();
        while self.pieces_data.len() <= pi
            invariant
                self.total_pieces == old(self).total_pieces,
                self.downloaded_pieces == old(self).downloaded_pieces,
                self.requested_pieces == old(self).requested_pieces,
                old_pieces == old(self).pieces(),
                pi == piece_index as usize,
                old_pieces.len() <= self.pieces_data@.len(),
                self.pieces_data@.len() <= old_pieces.len() || self.pieces_data@.len() <= pi + 1,
                self.pieces() == padded(old_pieces, self.pieces_data@.len()),
            decreases pi + 1 - self.pieces_data@.len(),
        {
            let ghost before = self.pieces();
            let ghost len = self.pieces_data@.len();
            let empty: Vec<Vec<u8>> = Vec::new();
            assert(empty@.map_values(|block: Vec<u8>| block@) =~= Seq::<Seq<u8>>::empty());
            self.pieces_data.push(empty);
            proof {
                assert(self.pieces() =~= before.push(Seq::<Seq<u8>>::empty()));
                lemma_padded_push(old_pieces, len);
            }
        }
        let ghost outer = self.pieces();
        assert(outer == padded(old_pieces, piece_index as nat + 1));
        let mut piece: Vec<Vec<u8>> = Vec::new();
        self.pieces_data.set_and_swap(pi, &mut piece);
        let ghost old_blocks = piece@.map_values(|block: Vec<u8>| block@);
        assert(old_blocks == outer[pi as int]);
        while piece.len() <= bo
            invariant
                bo == block_offset as usize,
                old_blocks.len() <= piece@.len(),
                piece@.len() <= old_blocks.len() || piece@.len() <= bo + 1,
                piece@.map_values(|block: Vec<u8>| block@) == padded(old_blocks, piece@.len()),
            decreases bo + 1 - piece@.len(),
        {
            let ghost before = piece@.map_values(|block: Vec<u8>| block@);
            let ghost len = piece@.len();
            let empty: Vec<u8> = Vec::new();
            piece.push(empty);
            proof {
                assert(piece@.map_values(|block: Vec<u8>| block@) =~= before.push(Seq::<u8>::empty()));
                lemma_padded_push(old_blocks, len);
            }
        }
        let ghost blocks = piece@.map_values(|block: Vec<u8>| block@);
        assert(blocks == padded(old_blocks, block_offset as nat + 1));
        let mut block: Vec<u8> = Vec::new();
        piece.set_and_swap(bo, &mut block);
        let ghost old_block = block@;
        assert(old_block == blocks[bo as int]);
        let n = block_data.len();
        let mut i: usize = 0;
        while i < n
            invariant
                n == block_data@.len(),
                i <= n,
                block@ == old_block + block_data@.subrange(0, i as int),
            decreases n - i,
        {
            block.push(block_data[i]);
            i = i + 1;
            assert(block_data@.subrange(0, i as int) =~= block_data@.subrange(0, i - 1).push(block_data@[i - 1]));
        }
        assert(block_data@.subrange(0, n as int) =~= block_data@);
        piece.set(bo, block);
        assert(piece@.map_values(|block: Vec<u8>| block@) =~= blocks.update(bo as int, blocks[bo as int] + block_data@));
        self.pieces_data.set(pi, piece);
        assert(self.pieces() =~= spec_store(old_pieces, piece_index as nat, block_offset as nat, block_data@));
    }

    /// The number of pieces of the download.
    pub fn total_pieces(&self) -> (n: u32)
        ensures
            n == self.total(),
    {
        self.total_pieces
    }

    /// Whether `piece_index` is marked as downloaded.
    pub fn is_downloaded(&self, piece_index: u32) -> (res: bool)
        ensures
            res == self.downloaded().contains(piece_index),
    {
        self.downloaded_pieces.contains(&piece_index)
    }

    /// Whether `piece_index` is marked as requested.
    pub fn is_requested(&self, piece_index: u32) -> (res: bool)
        ensures
            res == self.requested().contains(piece_index),
    {
        self.requested_pieces.contains(&piece_index)
    }

    /// Whether as many pieces are downloaded as the download has.
    pub fn all_pieces_downloaded(&self) -> (res: bool)
        ensures
            res == (self.downloaded().len() == self.total()),
    {
        self.downloaded_pieces.len() == self.total_pieces as usize
    }
}

/// The file content, every block of every piece in order; an error while
/// some piece is not downloaded.
pub fn assemble_file(piece_manager: &PieceManager) -> (res: Result<Vec<u8>, AssembleError>)
    ensures
        match res {
            Ok(content) => piece_manager.downloaded().len() == piece_manager.total()
                && content@ == assembled_content(piece_manager.pieces()),
            Err(e) => piece_manager.downloaded().len() != piece_manager.total()
                && e == AssembleError::NotAllPiecesDownloaded,
        },
{
    if !piece_manager.all_pieces_downloaded() {
        return Err(AssembleError::NotAllPiecesDownloaded);
    }
    let mut file_content: Vec<u8> = Vec::new();
    let ghost data = piece_manager.pieces();
    let ghost flat = data.map_values(|piece: Seq<Seq<u8>>| piece.flatten());
    let n = piece_manager.pieces_data.len();
    let mut i: usize = 0;
    while i < n
        invariant
            n == data.len(),
            data == piece_manager.pieces(),
            flat == data.map_values(|piece: Seq<Seq<u8>>| piece.flatten()),
            i <= n,
            file_content@ == flat.subrange(0, i as int).flatten(),
        decreases n - i,
    {
        let piece = &piece_manager.pieces_data[i];
        let m = piece.len();
        let ghost blocks = data[i as int];
        let ghost start = file_content@;
        let mut j: usize = 0;
        while j < m
            invariant
                m == blocks.len(),
                blocks == piece@.map_values(|block: Vec<u8>| block@),
                j <= m,
                file_content@ == start + blocks.subrange(0, j as int).flatten(),
            decreases m - j,
        {
            let block = &piece[j];
            let k = block.len();
            let ghost mid = file_content@;
            let mut t: usize = 0;
            while t < k
                invariant
                    k == block@.len(),
                    t <= k,
                    file_content@ == mid + block@.subrange(0, t as int),
                decreases k - t,
            {
                file_content.push(block[t]);
                t = t + 1;
                assert(block@.subrange(0, t as int) =~= block@.subrange(0, t - 1).push(block@[t - 1]));
            }
            proof {
                assert(block@.subrange(0, k as int) =~= block@);
                blocks.subrange(0, j as int).lemma_flatten_push(blocks[j as int]);
                assert(blocks.subrange(0, j + 1) =~= blocks.subrange(0, j as int).push(blocks[j as int]));
            }
            j = j + 1;
        }
        proof {
            assert(blocks.subrange(0, m as int) =~= blocks);
            flat.subrange(0, i as int).lemma_flatten_push(flat[i as int]);
            assert(flat.subrange(0, i + 1) =~= flat.subrange(0, i as int).push(flat[i as int]));
        }
        i = i + 1;
    }
    assert(flat.subrange(0, n as int) =~= flat);
    Ok(file_content)
}

/// The pieces below `n`.
pub open spec fn pieces_below(n: u32) -> Set<u32> {
    Set::new(|p: u32| p < n)
}

/// There are `n` pieces below `n`.
proof fn lemma_pieces_below_len(n: u32)
    ensures
        pieces_below(n).finite(),
        pieces_below(n).len() == n,
    decreases n,
{
    if n == 0 {
        assert(pieces_below(n) =~= Set::<u32>::empty());
    } else {
        let m = (n - 1) as u32;
        lemma_pieces_below_len(m);
        assert(pieces_below(n) =~= pieces_below(m).insert(m));
    }
}

/// When no downloaded index lies beyond the total, `all_pieces_downloaded`
/// (as many pieces downloaded as the download has) holds exactly when every
/// piece below the total is downloaded.
pub proof fn lemma_all_pieces_downloaded_iff_every_piece(pm: &PieceManager)
    requires
        forall|p: u32| #[trigger] pm.downloaded().contains(p) ==> p < pm.total(),
    ensures
        (pm.downloaded().len() == pm.total()) <==> pm.every_piece_downloaded(),
{
    let d = pm.downloaded();
    let all = pieces_below(pm.total());
    lemma_pieces_below_len(pm.total());
    assert(d.subset_of(all));
    vstd::set_lib::lemma_len_subset(d, all);
    if d.len() == pm.total() {
        vstd::set_lib::lemma_subset_equality(d, all);
        assert forall|p: u32| p < pm.total() implies #[trigger] d.contains(p) by {
            assert(all.contains(p));
        }
    }
    if pm.every_piece_downloaded() {
        assert(d =~= all);
    }
}

/// Every piece below the total that is neither downloaded nor requested is
/// available, whatever its index; and when no piece is available, every piece
/// below the total is downloaded or requested.
pub proof fn lemma_available_pieces_are_untaken(total: u32, downloaded: Set<u32>, requested: Set<u32>)
    ensures
        forall|p: u32|
            p < total && !downloaded.contains(p) && !requested.contains(p) ==> #[trigger] is_available(
                total,
                downloaded,
                requested,
                p,
            ),
        forall|p: u32| #[trigger] is_available(total, downloaded, requested, p) ==> p < total,
        (forall|p: u32| !is_available(total, downloaded, requested, p)) ==> forall|p: u32|
            p < total ==> #[trigger] downloaded.contains(p) || requested.contains(p),
{
    if forall|p: u32| !is_available(total, downloaded, requested, p) {
        assert forall|p: u32| p < total implies #[trigger] downloaded.contains(p) || requested.contains(p) by {
            assert(!is_available(total, downloaded, requested, p));
        }
    }
}

/// A list of pieces as `available_pieces` gives it (increasing, each piece
/// available, every available piece in it) has one entry for each piece below
/// the total that is neither downloaded nor requested: its length is the total
/// minus the number of downloaded or requested pieces below the total.
pub proof fn lemma_available_pieces_count(total: u32, downloaded: Set<u32>, requested: Set<u32>, pieces: Seq<u32>)
    requires
        forall|i: int| 0 <= i < pieces.len() ==> is_available(total, downloaded, requested, #[trigger] pieces[i]),
        forall|i: int, j: int| 0 <= i < j < pieces.len() ==> pieces[i] < pieces[j],
        forall|p: u32| is_available(total, downloaded, requested, p) ==> pieces.contains(p),
    ensures
        pieces.len() == total - downloaded.union(requested).intersect(pieces_below(total)).len(),
{
    let all = pieces_below(total);
    let taken = downloaded.union(requested).intersect(all);
    lemma_pieces_below_len(total);
    vstd::set_lib::lemma_len_subset(taken, all);
    assert(pieces.no_duplicates()) by {
        assert forall|i: int, j: int| 0 <= i < pieces.len() && 0 <= j < pieces.len() && i != j implies pieces[i]
            != pieces[j] by {
            if i < j {
                assert(pieces[i] < pieces[j]);
            } else {
                assert(pieces[j] < pieces[i]);
            }
        }
    }
    pieces.unique_seq_to_set();
    assert forall|p: u32| pieces.to_set().contains(p) <==> all.difference(taken).contains(p) by {
        if pieces.contains(p) {
            let k = choose|k: int| 0 <= k < pieces.len() && pieces[k] == p;
            assert(is_available(total, downloaded, requested, pieces[k]));
        }
        if all.difference(taken).contains(p) {
            assert(is_available(total, downloaded, requested, p));
        }
    }
    assert(pieces.to_set() =~= all.difference(taken));
    vstd::set_lib::lemma_set_difference_len(all, taken);
    assert(all.intersect(taken) =~= taken);
}

/// Each piece of `picks` was available when it was picked: below `total`, not
/// downloaded, and not among the pieces picked before it. These are the
/// answers of successive `generate_request` calls on a manager whose
/// requested pieces were at first none.
pub open spec fn is_request_sequence(total: u32, downloaded: Set<u32>, picks: Seq<u32>) -> bool {
    forall|k: int|
        0 <= k < picks.len() ==> is_available(total, downloaded, picks.subrange(0, k).to_set(), #[trigger] picks[k])
}

/// Successive requests on a fresh manager of `total` pieces name distinct
/// pieces below `total`, so there are at most `total` of them; after `total`
/// requests every piece is requested and none is left to request.
pub proof fn lemma_requests_cover_all_pieces(total: u32, picks: Seq<u32>)
    requires
        is_request_sequence(total, Set::empty(), picks),
    ensures
        picks.no_duplicates(),
        picks.len() <= total,
        picks.len() == total ==> picks.to_set() == pieces_below(total) && forall|p: u32|
            !is_available(total, Set::empty(), picks.to_set(), p),
{
    assert forall|i: int, j: int| 0 <= i < picks.len() && 0 <= j < picks.len() && i != j implies picks[i]
        != picks[j] by {
        if i < j {
            assert(picks.subrange(0, j)[i] == picks[i]);
            assert(picks.subrange(0, j).to_set().contains(picks[i]));
            assert(is_available(total, Set::empty(), picks.subrange(0, j).to_set(), picks[j]));
        } else {
            assert(picks.subrange(0, i)[j] == picks[j]);
            assert(picks.subrange(0, i).to_set().contains(picks[j]));
            assert(is_available(total, Set::empty(), picks.subrange(0, i).to_set(), picks[i]));
        }
    }
    let all = pieces_below(total);
    lemma_pieces_below_len(total);
    assert forall|p: u32| picks.to_set().contains(p) implies all.contains(p) by {
        let k = choose|k: int| 0 <= k < picks.len() && picks[k] == p;
        assert(is_available(total, Set::empty(), picks.subrange(0, k).to_set(), picks[k]));
    }
    picks.unique_seq_to_set();
    vstd::set_lib::lemma_len_subset(picks.to_set(), all);
    if picks.len() == total {
        vstd::set_lib::lemma_subset_equality(picks.to_set(), all);
        assert forall|p: u32| !is_available(total, Set::empty(), picks.to_set(), p) by {
            if p < total {
                assert(all.contains(p));
            }
        }
    }
}

/// One more request extends the sequence of requests: when the requested
/// pieces are those picked so far and `p` was available, `p` may follow them.
pub proof fn lemma_request_sequence_push(total: u32, downloaded: Set<u32>, picks: Seq<u32>, p: u32)
    requires
        is_request_sequence(total, downloaded, picks),
        is_available(total, downloaded, picks.to_set(), p),
    ensures
        is_request_sequence(total, downloaded, picks.push(p)),
        picks.push(p).to_set() == picks.to_set().insert(p),
{
    let longer = picks.push(p);
    assert(longer.subrange(0, picks.len() as int) =~= picks);
    assert forall|k: int| 0 <= k < longer.len() implies is_available(
        total,
        downloaded,
        longer.subrange(0, k).to_set(),
        #[trigger] longer[k],
    ) by {
        if k < picks.len() {
            assert(longer.subrange(0, k) =~= picks.subrange(0, k));
        }
    }
    assert forall|x: u32| longer.to_set().contains(x) <==> picks.to_set().insert(p).contains(x) by {
        if picks.contains(x) {
            let k = choose|k: int| 0 <= k < picks.len() && picks[k] == x;
            assert(longer[k] == x);
        }
        if x == p {
            assert(longer[picks.len() as int] == x);
        }
        if longer.contains(x) && x != p {
            let k = choose|k: int| 0 <= k < longer.len() && longer[k] == x;
            assert(picks[k] == x);
        }
    }
    assert(longer.to_set() =~= picks.to_set().insert(p));
}

/// Storing the data of a new piece, right after the pieces held so far, adds
/// that data at the end of the assembled content.
pub proof fn lemma_store_next_piece_appends(data: Seq<Seq<Seq<u8>>>, block: Seq<u8>)
    ensures
        assembled_content(spec_store(data, data.len(), 0, block)) == assembled_content(data) + block,
{
    let stored = spec_store(data, data.len(), 0, block);
    let piece = seq![Seq::<u8>::empty() + block];
    assert(padded(data, data.len() + 1) =~= data.push(Seq::<Seq<u8>>::empty()));
    let pieces = padded(data, data.len() + 1);
    assert(pieces[data.len() as int] == Seq::<Seq<u8>>::empty());
    let blocks = padded(pieces[data.len() as int], 1);
    assert(blocks =~= seq![Seq::<u8>::empty()]);
    assert(blocks.update(0, blocks[0] + block) =~= piece);
    assert(stored == pieces.update(data.len() as int, piece));
    assert(stored =~= data.push(piece));
    let f = |p: Seq<Seq<u8>>| p.flatten();
    assert(stored.map_values(f) =~= data.map_values(f).push(piece.flatten()));
    piece.lemma_flatten_one_element();
    assert(Seq::<u8>::empty() + block =~= block);
    data.map_values(f).lemma_flatten_push(piece.flatten());
}

} // verus!
