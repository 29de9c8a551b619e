# rustorrent

The core of a small BitTorrent client, verified with Verus.

- `src/handshake.rs`: the client's peer id, the 68-byte handshake message and its parsing,
  with the laws that parsing gives back what was built.
- `src/piece_manager.rs`: which pieces are downloaded and requested, the random choice of
  the next request, the storage of received blocks and the assembly of the file.
- `src/message.rs`: the handling of a peer's piece message.
- `src/tracker.rs`: the tracker URL of a magnet link (through the `url` crate).
- `src/session.rs`: the menu choice, the user's commands during a peer session and the
  progress report.
- `src/random.rs`, `src/text.rs`: the calls into `rand` and std string functions, with
  their trusted contracts, and verified string helpers.
- `app/main.rs`: the program around the library: terminal, network (tokio, reqwest),
  command line (structopt) and progress bar (indicatif).
