use rustorrent::handshake::{
    build_handshake, construct_handshake, construct_handshake_with, generate_peer_id, parse_handshake,
    peer_id_from_chars,
};

const PROTOCOL: &[u8] = b"BitTorrent protocol";

fn is_alnum(b: u8) -> bool {
    b.is_ascii_alphanumeric()
}

#[test]
fn generated_peer_id_has_client_prefix_and_random_alphanumerics() {
    let id = generate_peer_id();
    assert_eq!(id.len(), 20);
    assert!(id.starts_with("-TR2820-"));
    assert!(id.bytes().skip(8).all(is_alnum));
}

#[test]
fn constructed_handshake_layout() {
    let h = construct_handshake();
    assert_eq!(h.len(), 68);
    assert_eq!(h[0], 19);
    assert_eq!(&h[1..20], PROTOCOL);
    assert_eq!(&h[20..28], &[0u8; 8]);
    assert_eq!(&h[28..48], &[0xABu8; 20]);
    assert_eq!(&h[48..56], b"-TR2820-");
    assert!(h[56..68].iter().all(|b| is_alnum(*b)));
}

#[test]
fn build_handshake_exact_bytes() {
    let info_hash: Vec<u8> = (0u8..20).collect();
    let peer_id: Vec<u8> = (100u8..120).collect();
    let h = build_handshake(&info_hash, &peer_id);
    let mut expected = vec![19u8];
    expected.extend_from_slice(PROTOCOL);
    expected.extend_from_slice(&[0u8; 8]);
    expected.extend_from_slice(&info_hash);
    expected.extend_from_slice(&peer_id);
    assert_eq!(h, expected);
}

#[test]
fn parse_gives_back_what_was_built() {
    let info_hash = vec![7u8; 20];
    let peer_id: Vec<u8> = b"-XY0001-abcdefghijkl".to_vec();
    let h = build_handshake(&info_hash, &peer_id);
    assert_eq!(parse_handshake(&h), Some((info_hash, peer_id)));
}

#[test]
fn parse_constructed_handshake() {
    let h = construct_handshake();
    let (info_hash, peer_id) = parse_handshake(&h).expect("the client's handshake parses");
    assert_eq!(info_hash, vec![0xABu8; 20]);
    assert_eq!(peer_id, h[48..68].to_vec());
}

#[test]
fn parse_ignores_reserved_bytes_and_trailing_data() {
    let mut h = build_handshake(&[1u8; 20], &[2u8; 20]);
    h[20] = 0xFF;
    h[27] = 0x10;
    h.extend_from_slice(&[9, 9, 9]);
    assert_eq!(parse_handshake(&h), Some((vec![1u8; 20], vec![2u8; 20])));
}

#[test]
fn parse_rejects_short_message() {
    let h = build_handshake(&[1u8; 20], &[2u8; 20]);
    assert_eq!(parse_handshake(&h[..67]), None);
    assert_eq!(parse_handshake(&[]), None);
}

#[test]
fn parse_rejects_other_protocol() {
    let mut h = build_handshake(&[1u8; 20], &[2u8; 20]);
    h[5] = b'X';
    assert_eq!(parse_handshake(&h), None);
}

#[test]
fn parse_rejects_other_length_byte() {
    let mut h = build_handshake(&[1u8; 20], &[2u8; 20]);
    h[0] = 18;
    assert_eq!(parse_handshake(&h), None);
    h[0] = 0;
    assert_eq!(parse_handshake(&h), None);
}

#[test]
fn peer_id_from_drawn_chars() {
    let chars: Vec<char> = "a1B2c3D4e5F6".chars().collect();
    assert_eq!(peer_id_from_chars(&chars), "-TR2820-a1B2c3D4e5F6");
    assert_eq!(peer_id_from_chars(&vec![]), "-TR2820-");
}

#[test]
fn handshake_carries_given_peer_id() {
    let id = "-TR2820-abcdefghijkl".to_string();
    let h = construct_handshake_with(&id);
    assert_eq!(h.len(), 68);
    assert_eq!(&h[28..48], &[0xABu8; 20]);
    assert_eq!(&h[48..68], id.as_bytes());
    assert_eq!(parse_handshake(&h), Some((vec![0xABu8; 20], id.into_bytes())));
}
