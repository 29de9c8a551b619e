//! The peer handshake of the BitTorrent wire protocol: the client's peer id,
//! the 68-byte handshake message, and its parsing.

use vstd::prelude::*;
use crate::random::{is_ascii_alphanumeric, sample_alphanumeric, thread_rng};
use crate::text::push_char;

verus! {

broadcast use vstd::string::group_string_axioms;

/// The bytes of the protocol string "BitTorrent protocol".
pub open spec fn protocol_bytes() -> Seq<u8> {
    seq![66u8, 105, 116, 84, 111, 114, 114, 101, 110, 116, 32, 112, 114, 111, 116, 111, 99, 111, 108]
}

/// The info hash that the client puts in its handshake: twenty bytes 0xAB.
pub open spec fn placeholder_info_hash() -> Seq<u8> {
    Seq::new(20, |i: int| 0xABu8)
}

/// The handshake message: the protocol string's length (19), the protocol
/// string, eight reserved zero bytes, the info hash and the peer id.
pub open spec fn spec_handshake(info_hash: Seq<u8>, peer_id: Seq<u8>) -> Seq<u8> {
    seq![19u8] + protocol_bytes() + Seq::new(8, |i: int| 0u8) + info_hash + peer_id
}

/// What `parse_handshake` gives for `h`: the info hash and the peer id, when
/// `h` holds at least 68 bytes and starts with the length 19 and the protocol
/// string; nothing otherwise.
pub open spec fn spec_parse_handshake(h: Seq<u8>) -> Option<(Seq<u8>, Seq<u8>)> {
    if h.len() >= 68 && h[0] == 19 && h.subrange(1, 20) == protocol_bytes() {
        Some((h.subrange(28, 48), h.subrange(48, 68)))
    } else {
        None
    }
}

/// The inputs on which `parse_handshake` does its work without going out of
/// bounds: the length byte of a message of at least 68 bytes must point inside it.
pub open spec fn parse_handshake_defined(h: Seq<u8>) -> bool {
    h.len() >= 68 ==> (h[0] as int) < h.len()
}

/// The client's peer id: "-TR2820-" followed by twelve ASCII letters or digits.
pub open spec fn is_peer_id(id: Seq<char>) -> bool {
    &&& id.len() == 20
    &&& id.subrange(0, 8) == "-TR2820-"@
    &&& forall|i: int| 8 <= i < 20 ==> is_ascii_alphanumeric(#[trigger] id[i])
}

/// The bytes of an ASCII character sequence.
pub open spec fn ascii_bytes(s: Seq<char>) -> Seq<u8> {
    s.map_values(|c: char| c as u8)
}

/// The bytes of a peer id: "-TR2820-" followed by twelve ASCII letters or digits.
pub open spec fn is_peer_id_bytes(id: Seq<u8>) -> bool {
    &&& id.len() == 20
    &&& id.subrange(0, 8) == seq![45u8, 84, 82, 50, 56, 50, 48, 45]
    &&& forall|i: int| 8 <= i < 20 ==> is_ascii_alphanumeric((#[trigger] id[i]) as char)
}

/// Appends the bytes of `bytes` to `v`.
fn extend_bytes(v: &mut Vec<u8>, bytes: &[u8])
    ensures
        final(v)@ == old(v)@ + bytes@,
{
    let n = bytes.len();
    let mut i: usize = 0;
    while i < n
        invariant
            n == bytes@.len(),
            i <= n,
            v@ == old(v)@ + bytes@.subrange(0, i as int),
        decreases n - i,
    {
        v.push(bytes[i]);
        i = i + 1;
        assert(bytes@.subrange(0, i as int) =~= bytes@.subrange(0, i - 1).push(bytes@[i - 1]));
    }
    assert(bytes@.subrange(0, n as int) =~= bytes@);
}

/// A vector of `n` copies of `byte`.
fn repeat_byte(byte: u8, n: usize) -> (v: Vec<u8>)
    ensures
        v@ == Seq::new(n as nat, |i: int| byte),
{
    let mut v: Vec<u8> = Vec::new();
    let mut i: usize = 0;
    while i < n
        invariant
            i <= n,
            v@ == Seq::new(i as nat, |k: int| byte),
        decreases n - i,
    {
        v.push(byte);
        i = i + 1;
        assert(v@ =~= Seq::new(i as nat, |k: int| byte));
    }
    v
}

/// The protocol string "BitTorrent protocol" as bytes.
fn protocol_string_bytes() -> (v: Vec<u8>)
    ensures
        v@ == protocol_bytes(),
{
    let v: Vec<u8> = vec![66u8, 105, 116, 84, 111, 114, 114, 101, 110, 116, 32, 112, 114, 111, 116, 111, 99, 111, 108];
    assert(v@ =~= protocol_bytes());
    v
}

/// The client's peer id with `chars` as its random part: "-TR2820-"
/// (client code "TR", version "2820") followed by `chars`.
pub fn peer_id_from_chars(chars: &Vec<char>) -> (id: String)
    ensures
        id@ == "-TR2820-"@ + chars@,
{
    let mut id = String::from_str("-TR2820-");
    let n = chars.len();
    let mut i: usize = 0;
    while i < n
        invariant
            n == chars@.len(),
            i <= n,
            id@ == "-TR2820-"@ + chars@.subrange(0, i as int),
        decreases n - i,
    {
        push_char(&mut id, chars[i]);
        i = i + 1;
        assert(chars@.subrange(0, i as int) =~= chars@.subrange(0, i - 1).push(chars@[i - 1]));
        assert(id@ =~= "-TR2820-"@ + chars@.subrange(0, i as int));
    }
    assert(chars@.subrange(0, n as int) =~= chars@);
    id
}

/// Generates the client's peer id: "-TR2820-" followed by twelve ASCII letters
/// and digits drawn at random.
pub fn generate_peer_id() -> (id: String)
    ensures
        is_peer_id(id@),
{
    let mut rng = thread_rng();
    let mut chars: Vec<char> = Vec::new();
    let mut i: usize = 0;
    while i < 12
        invariant
            i <= 12,
            chars@.len() == i,
            forall|k: int| 0 <= k < i ==> is_ascii_alphanumeric(#[trigger] chars@[k]),
        decreases 12 - i,
    {
        let c = sample_alphanumeric(&mut rng);
        chars.push(c);
        i = i + 1;
    }
    let id = peer_id_from_chars(&chars);
    proof {
        reveal_strlit("-TR2820-");
        assert(id@.subrange(0, 8) =~= "-TR2820-"@);
        assert forall|k: int| 8 <= k < 20 implies is_ascii_alphanumeric(#[trigger] id@[k]) by {
            assert(id@[k] == chars@[k - 8]);
        }
    }
    id
}

/// The handshake that the client sends for `info_hash` and `peer_id`.
pub fn build_handshake(info_hash: &[u8], peer_id: &[u8]) -> (handshake: Vec<u8>)
    ensures
        handshake@ == spec_handshake(info_hash@, peer_id@),
{
    let mut handshake: Vec<u8> = Vec::new();
    handshake.push(19u8);
    let protocol = protocol_string_bytes();
    extend_bytes(&mut handshake, protocol.as_slice());
    let reserved = repeat_byte(0u8, 8);
    extend_bytes(&mut handshake, reserved.as_slice());
    extend_bytes(&mut handshake, info_hash);
    extend_bytes(&mut handshake, peer_id);
    assert(handshake@ =~= spec_handshake(info_hash@, peer_id@));
    handshake
}

/// The client's handshake for the peer id `peer_id`: the placeholder info
/// hash (twenty bytes 0xAB) and the UTF-8 bytes of `peer_id`.
pub fn construct_handshake_with(peer_id: &String) -> (handshake: Vec<u8>)
    ensures
        handshake@ == spec_handshake(placeholder_info_hash(), vstd::utf8::encode_utf8(peer_id@)),
{
    let info_hash = repeat_byte(0xABu8, 20);
    let text = peer_id.as_str();
    let id_bytes = text.as_bytes();
    assert(info_hash@ =~= placeholder_info_hash());
    build_handshake(info_hash.as_slice(), id_bytes)
}

/// The UTF-8 bytes of a peer id are its characters, one byte each.
proof fn lemma_peer_id_bytes(id: Seq<char>)
    requires
        is_peer_id(id),
    ensures
        vstd::utf8::encode_utf8(id) == ascii_bytes(id),
        is_peer_id_bytes(ascii_bytes(id)),
{
    reveal_strlit("-TR2820-");
    assert forall|i: int| 0 <= i < id.len() implies '\0' <= #[trigger] id[i] <= '\u{7f}' by {
        if i < 8 {
            assert(id[i] == id.subrange(0, 8)[i]);
        }
    }
    vstd::utf8::is_ascii_chars_encode_utf8(id);
    assert(vstd::utf8::encode_utf8(id) =~= ascii_bytes(id));
    let b = ascii_bytes(id);
    assert forall|i: int| 0 <= i < 8 implies b[i] == seq![45u8, 84, 82, 50, 56, 50, 48, 45][i] by {
        assert(id[i] == id.subrange(0, 8)[i]);
    }
    assert(b.subrange(0, 8) =~= seq![45u8, 84, 82, 50, 56, 50, 48, 45]);
    assert forall|i: int| 8 <= i < 20 implies is_ascii_alphanumeric((#[trigger] b[i]) as char) by {
        assert(is_ascii_alphanumeric(id[i]));
    }
}

/// Builds the client's handshake: placeholder info hash (twenty bytes 0xAB)
/// and a freshly generated peer id.
pub fn construct_handshake() -> (handshake: Vec<u8>)
    ensures
        handshake@.len() == 68,
        is_peer_id_bytes(handshake@.subrange(48, 68)),
        handshake@ == spec_handshake(placeholder_info_hash(), handshake@.subrange(48, 68)),
{
    let peer_id = generate_peer_id();
    let handshake = construct_handshake_with(&peer_id);
    proof {
        lemma_peer_id_bytes(peer_id@);
        assert(handshake@.subrange(48, 68) =~= ascii_bytes(peer_id@));
    }
    handshake
}

/// Reads the info hash and the peer id out of a peer's handshake; `None` when
/// the message is shorter than 68 bytes or does not name the BitTorrent protocol.
pub fn parse_handshake(handshake: &[u8]) -> (res: Option<(Vec<u8>, Vec<u8>)>)
    requires
        parse_handshake_defined(handshake@),
    ensures
        match (res, spec_parse_handshake(handshake@)) {
            (None, None) => true,
            (Some((info_hash, peer_id)), Some((h, p))) => info_hash@ == h && peer_id@ == p,
            _ => false,
        },
{
    if handshake.len() < 68 {
        return None;
    }
    let protocol_len = handshake[0] as usize;
    let protocol = protocol_string_bytes();
    if protocol_len != 19 {
        // The bytes `1..=protocol_len` cannot equal the 19-byte protocol string.
        return None;
    }
    let mut i: usize = 0;
    while i < 19
        invariant
            i <= 19,
            handshake@.len() >= 68,
            protocol@ == protocol_bytes(),
            forall|k: int| 0 <= k < i ==> handshake@[1 + k] == protocol_bytes()[k],
        decreases 19 - i,
    {
        if handshake[1 + i] != protocol[i] {
            assert(handshake@.subrange(1, 20)[i as int] != protocol_bytes()[i as int]);
            return None;
        }
        i = i + 1;
    }
    assert(handshake@.subrange(1, 20) =~= protocol_bytes());
    let info_hash_start = protocol_len + 9;
    let info_hash_end = info_hash_start + 20;
    let peer_id_start = info_hash_end;
    let peer_id_end = peer_id_start + 20;
    let info_hash = vstd::slice::slice_to_vec(vstd::slice::slice_subrange(handshake, info_hash_start, info_hash_end));
    let peer_id = vstd::slice::slice_to_vec(vstd::slice::slice_subrange(handshake, peer_id_start, peer_id_end));
    Some((info_hash, peer_id))
}

/// Parsing a handshake built from a 20-byte info hash and a 20-byte peer id
/// gives back that info hash and that peer id.
pub proof fn lemma_parse_build_roundtrip(info_hash: Seq<u8>, peer_id: Seq<u8>)
    requires
        info_hash.len() == 20,
        peer_id.len() == 20,
    ensures
        parse_handshake_defined(spec_handshake(info_hash, peer_id)),
        spec_parse_handshake(spec_handshake(info_hash, peer_id)) == Some((info_hash, peer_id)),
{
    let h = spec_handshake(info_hash, peer_id);
    assert(h.len() == 68);
    assert(h[0] == 19);
    assert(h.subrange(1, 20) =~= protocol_bytes());
    assert(h.subrange(28, 48) =~= info_hash);
    assert(h.subrange(48, 68) =~= peer_id);
}

/// A handshake built from a 20-byte info hash and a 20-byte peer id is 68
/// bytes: 19, the 19 bytes of "BitTorrent protocol", eight zero bytes, then
/// the info hash and the peer id, each unchanged.
pub proof fn lemma_handshake_layout(info_hash: Seq<u8>, peer_id: Seq<u8>)
    requires
        info_hash.len() == 20,
        peer_id.len() == 20,
    ensures
        ({
            let h = spec_handshake(info_hash, peer_id);
            &&& h.len() == 68
            &&& h[0] == 19
            &&& h.subrange(1, 20) == seq![
                66u8, 105, 116, 84, 111, 114, 114, 101, 110, 116, 32, 112, 114, 111, 116, 111, 99, 111, 108
            ]
            &&& forall|k: int| 20 <= k < 28 ==> #[trigger] h[k] == 0
            &&& h.subrange(28, 48) == info_hash
            &&& h.subrange(48, 68) == peer_id
        }),
{
    let h = spec_handshake(info_hash, peer_id);
    assert(h.subrange(1, 20) =~= seq![
        66u8, 105, 116, 84, 111, 114, 114, 101, 110, 116, 32, 112, 114, 111, 116, 111, 99, 111, 108
    ]);
    assert(h.subrange(28, 48) =~= info_hash);
    assert(h.subrange(48, 68) =~= peer_id);
}

/// A message parses exactly when it has at least 68 bytes, its byte 0 is 19
/// and its bytes 1 to 19 spell "BitTorrent protocol"; then the info hash is
/// bytes 28 to 47 and the peer id bytes 48 to 67, whatever the eight reserved
/// bytes 20 to 27 and any bytes past 68 hold.
pub proof fn lemma_parse_accepts_exactly_protocol_messages(h: Seq<u8>)
    ensures
        spec_parse_handshake(h) is Some <==> (h.len() >= 68 && h[0] == 19 && h.subrange(1, 20) == seq![
            66u8, 105, 116, 84, 111, 114, 114, 101, 110, 116, 32, 112, 114, 111, 116, 111, 99, 111, 108
        ]),
        spec_parse_handshake(h) is Some ==> spec_parse_handshake(h) == Some(
            (h.subrange(28, 48), h.subrange(48, 68)),
        ),
        spec_parse_handshake(h) is Some ==> forall|reserved: Seq<u8>|
            reserved.len() == 8 ==> #[trigger] spec_parse_handshake(
                h.subrange(0, 20) + reserved + h.subrange(28, h.len() as int),
            ) == spec_parse_handshake(h),
{
    assert(protocol_bytes() =~= seq![
        66u8, 105, 116, 84, 111, 114, 114, 101, 110, 116, 32, 112, 114, 111, 116, 111, 99, 111, 108
    ]);
    if spec_parse_handshake(h) is Some {
        assert forall|reserved: Seq<u8>| reserved.len() == 8 implies #[trigger] spec_parse_handshake(
            h.subrange(0, 20) + reserved + h.subrange(28, h.len() as int),
        ) == spec_parse_handshake(h) by {
            let g = h.subrange(0, 20) + reserved + h.subrange(28, h.len() as int);
            assert(g.len() == h.len());
            assert(g[0] == h[0]);
            assert(g.subrange(1, 20) =~= h.subrange(1, 20));
            assert(g.subrange(28, 48) =~= h.subrange(28, 48));
            assert(g.subrange(48, 68) =~= h.subrange(48, 68));
        }
    }
}

/// Whatever message parses as a handshake is, in its first 68 bytes, the
/// length byte, the protocol string, eight reserved bytes (which the parse does
/// not read) and the info hash and peer id that the parse gives.
pub proof fn lemma_parse_reads_message(h: Seq<u8>)
    ensures
        spec_parse_handshake(h) matches Some((info_hash, peer_id)) ==> h.subrange(0, 68)
            == seq![19u8] + protocol_bytes() + h.subrange(20, 28) + info_hash + peer_id,
{
    if let Some((info_hash, peer_id)) = spec_parse_handshake(h) {
        let built = seq![19u8] + protocol_bytes() + h.subrange(20, 28) + info_hash + peer_id;
        assert forall|i: int| 0 <= i < 68 implies #[trigger] h.subrange(0, 68)[i] == built[i] by {
            if 1 <= i < 20 {
                assert(h[i] == h.subrange(1, 20)[i - 1]);
            }
        }
        assert(h.subrange(0, 68) =~= built);
    }
}

/// The handshake that the client constructs parses back to the placeholder
/// info hash and to the client's own peer id.
pub proof fn lemma_constructed_handshake_parses(handshake: Seq<u8>)
    requires
        handshake.len() == 68,
        handshake == spec_handshake(placeholder_info_hash(), handshake.subrange(48, 68)),
    ensures
        parse_handshake_defined(handshake),
        spec_parse_handshake(handshake) == Some((placeholder_info_hash(), handshake.subrange(48, 68))),
{
    lemma_parse_build_roundtrip(placeholder_info_hash(), handshake.subrange(48, 68));
}

} // verus!
