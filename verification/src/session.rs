//! The decisions of a session with the user and with a peer: the menu choice,
//! the peer's handshake fields, the user's commands, and the download progress.

use vstd::prelude::*;
use crate::handshake::{parse_handshake, parse_handshake_defined, spec_parse_handshake};
use crate::piece_manager::{is_available, PieceManager};
use crate::text::{str_eq, trim, trimmed};

verus! {

/// Where the torrent information comes from, as the user chose in the menu.
#[derive(Debug, Clone, Copy, PartialEq, Eq, Structural)]
pub enum TorrentInfoSource {
    /// 1: a torrent file.
    TorrentFile,
    /// 2: a magnet URL.
    MagnetUrl,
    /// 3: an info hash.
    InfoHash,
}

/// The menu entry numbered `choice`; `None` for an invalid choice.
pub fn torrent_info_source(choice: u32) -> (res: Option<TorrentInfoSource>)
    ensures
        choice == 1 ==> res == Some(TorrentInfoSource::TorrentFile),
        choice == 2 ==> res == Some(TorrentInfoSource::MagnetUrl),
        choice == 3 ==> res == Some(TorrentInfoSource::InfoHash),
        !(1 <= choice <= 3) ==> res is None,
{
    match choice {
        1 => Some(TorrentInfoSource::TorrentFile),
        2 => Some(TorrentInfoSource::MagnetUrl),
        3 => Some(TorrentInfoSource::InfoHash),
        _ => None,
    }
}

/// The info hash and the peer id of a peer's handshake, or two empty
/// sequences when the handshake does not parse.
pub fn handshake_fields_or_empty(handshake: &[u8]) -> (res: (Vec<u8>, Vec<u8>))
    requires
        parse_handshake_defined(handshake@),
    ensures
        match spec_parse_handshake(handshake@) {
            Some((info_hash, peer_id)) => res.0@ == info_hash && res.1@ == peer_id,
            None => res.0@.len() == 0 && res.1@.len() == 0,
        },
{
    match parse_handshake(handshake) {
        Some(fields) => fields,
        None => (Vec::new(), Vec::new()),
    }
}

/// A command typed by the user during a session with a peer.
#[derive(Debug, Clone, Copy, PartialEq, Eq, Structural)]
pub enum Command {
    /// "request": request a piece.
    Request,
    /// "quit": end the session.
    Quit,
    /// Anything else.
    Invalid,
}

/// The command that `command` names.
pub fn classify_command(command: &str) -> (res: Command)
    ensures
        command@ == "request"@ ==> res == Command::Request,
        command@ == "quit"@ ==> res == Command::Quit,
        command@ != "request"@ && command@ != "quit"@ ==> res == Command::Invalid,
{
    proof {
        reveal_strlit("request");
        reveal_strlit("quit");
        assert("request"@[0] != "quit"@[0]);
    }
    if str_eq(command, "request") {
        Command::Request
    } else if str_eq(command, "quit") {
        Command::Quit
    } else {
        Command::Invalid
    }
}

/// What a command of the user did.
#[derive(Debug, Clone, Copy, PartialEq, Eq, Structural)]
pub enum CommandOutcome {
    /// A piece was requested.
    Requested(u32),
    /// There was no piece left to request.
    NoMorePieces,
    /// The user ends the session.
    Quit,
    /// The line named no command.
    Invalid,
}

/// Carries out the command on the line that the user typed, with surrounding
/// white space removed: "request" requests a random piece that is neither
/// downloaded nor requested; "quit" ends the session.
pub fn handle_command(piece_manager: &mut PieceManager, line: &str) -> (res: CommandOutcome)
    ensures
        final(piece_manager).downloaded() == old(piece_manager).downloaded(),
        final(piece_manager).total() == old(piece_manager).total(),
        final(piece_manager).pieces() == old(piece_manager).pieces(),
        trimmed(line@) == "request"@ ==> match res {
            CommandOutcome::Requested(p) => is_available(
                old(piece_manager).total(),
                old(piece_manager).downloaded(),
                old(piece_manager).requested(),
                p,
            ) && final(piece_manager).requested() == old(piece_manager).requested().insert(p),
            CommandOutcome::NoMorePieces => final(piece_manager).requested() == old(piece_manager).requested()
                && forall|p: u32|
                !is_available(
                    old(piece_manager).total(),
                    old(piece_manager).downloaded(),
                    old(piece_manager).requested(),
                    p,
                ),
            _ => false,
        },
        trimmed(line@) == "quit"@ ==> res == CommandOutcome::Quit && final(piece_manager).requested()
            == old(piece_manager).requested(),
        trimmed(line@) != "request"@ && trimmed(line@) != "quit"@ ==> res == CommandOutcome::Invalid
            && final(piece_manager).requested() == old(piece_manager).requested(),
{
    let command = trim(line);
    match classify_command(command) {
        Command::Request => match piece_manager.generate_request() {
            Some(piece) => CommandOutcome::Requested(piece),
            None => CommandOutcome::NoMorePieces,
        },
        Command::Quit => CommandOutcome::Quit,
        Command::Invalid => CommandOutcome::Invalid,
    }
}

/// The number of pieces after which the progress report ends.
pub const PROGRESS_PIECES: u32 = 100;

/// The progress of a download as reported to the user: how many piece
/// notifications came in, and which distinct pieces they named, in order.
pub struct DownloadProgress {
    downloaded: u32,
    seen: Vec<u32>,
}

/// What one piece notification changed in the progress report.
#[derive(Debug, Clone, Copy, PartialEq, Eq, Structural)]
pub struct ProgressEvent {
    /// This was the first notification: the download is in progress.
    pub started: bool,
    /// The piece had not been named before.
    pub new_piece: bool,
    /// All the pieces of the report have come in.
    pub finished: bool,
}

impl DownloadProgress {
    /// The number of notifications so far.
    pub closed spec fn count(&self) -> nat {
        self.downloaded as nat
    }

    /// The distinct pieces named so far, in the order they first came.
    pub closed spec fn pieces_seen(&self) -> Seq<u32> {
        self.seen@
    }

    /// Fewer notifications than the report waits for, and no piece named twice.
    pub closed spec fn wf(&self) -> bool {
        self.downloaded < PROGRESS_PIECES && self.seen@.no_duplicates()
    }

    /// An empty report.
    pub fn new() -> (p: Self)
        ensures
            p.wf(),
            p.count() == 0,
            p.pieces_seen() == Seq::<u32>::empty(),
    {
        DownloadProgress { downloaded: 0, seen: Vec::new() }
    }

    /// The number of notifications so far.
    pub fn downloaded(&self) -> (n: u32)
        ensures
            n == self.count(),
    {
        self.downloaded
    }

    /// The pieces that the report still waits for.
    pub fn remaining_pieces(&self) -> (n: u32)
        requires
            self.wf(),
        ensures
            n == PROGRESS_PIECES - self.count(),
    {
        PROGRESS_PIECES - self.downloaded
    }

    /// Records a notification for `piece`.
    pub fn record_piece(&mut self, piece: u32) -> (event: ProgressEvent)
        requires
            old(self).wf(),
        ensures
            final(self).count() == old(self).count() + 1,
            event.started == (old(self).count() == 0),
            event.new_piece == !old(self).pieces_seen().contains(piece),
            final(self).pieces_seen() == (if event.new_piece {
                old(self).pieces_seen().push(piece)
            } else {
                old(self).pieces_seen()
            }),
            event.finished == (final(self).count() == PROGRESS_PIECES),
            !event.finished ==> final(self).wf(),
    {
        self.downloaded = self.downloaded + 1;
        let started = self.downloaded == 1;
        let mut known = false;
        let n = self.seen.len();
        let mut i: usize = 0;
        while i < n
            invariant
                n == self.seen@.len(),
                i <= n,
                known == self.seen@.subrange(0, i as int).contains(piece),
            decreases n - i,
        {
            if self.seen[i] == piece {
                known = true;
            }
            proof {
                let s = self.seen@;
                assert(s.subrange(0, i + 1) =~= s.subrange(0, i as int).push(s[i as int]));
                let prefix = s.subrange(0, i as int);
                let longer = s.subrange(0, i + 1);
                if longer.contains(piece) && !prefix.contains(piece) {
                    let k = choose|k: int| 0 <= k < longer.len() && #[trigger] longer[k] == piece;
                    if k < i {
                        assert(prefix[k] == piece);
                    }
                }
                if prefix.contains(piece) {
                    let k = choose|k: int| 0 <= k < prefix.len() && #[trigger] prefix[k] == piece;
                    assert(longer[k] == piece);
                }
                if s[i as int] == piece {
                    assert(longer[i as int] == piece);
                }
            }
            i = i + 1;
        }
        assert(self.seen@.subrange(0, n as int) =~= self.seen@);
        if !known {
            self.seen.push(piece);
        }
        ProgressEvent { started, new_piece: !known, finished: self.downloaded == PROGRESS_PIECES }
    }
}

} // verus!
