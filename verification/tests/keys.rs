use skademlia::error::DecodingError;
use skademlia::key::{KeyPair, SecretKey};
use skademlia::node_id::NodeId;
use skademlia::transport::NodeScore;

#[test]
fn key_pair_encodes_secret_then_public() {
    let pair = KeyPair::new();
    let bytes = pair.encode();
    assert_eq!(&bytes[..32], &pair.secret().to_bytes()[..]);
    assert_eq!(&bytes[32..], &pair.public().to_bytes()[..]);
}

#[test]
fn key_pair_decode_reads_back_and_wipes() {
    let pair = KeyPair::new();
    let encoded = pair.encode();
    let mut bytes = encoded.to_vec();
    let decoded = KeyPair::decode(&mut bytes).unwrap();
    assert_eq!(decoded.encode(), encoded);
    assert_eq!(bytes, vec![0u8; 64]);
}

#[test]
fn key_pair_decode_refuses_wrong_lengths() {
    let mut short = vec![1u8; 63];
    assert_eq!(KeyPair::decode(&mut short).err(), Some(DecodingError));
    assert_eq!(short, vec![1u8; 63]);
    let mut long = vec![1u8; 65];
    assert_eq!(KeyPair::decode(&mut long).err(), Some(DecodingError));
    assert_eq!(long, vec![1u8; 65]);
    let mut empty: Vec<u8> = Vec::new();
    assert!(KeyPair::decode(&mut empty).is_err());
}

#[test]
fn key_pair_decode_refuses_a_point_off_the_curve() {
    let mut bytes = KeyPair::new().encode().to_vec();
    for byte in bytes[32..].iter_mut() {
        *byte = 0xff;
    }
    bytes[32] = 0x02;
    let before = bytes.clone();
    if KeyPair::decode(&mut bytes).is_err() {
        assert_eq!(bytes, before);
    } else {
        assert_eq!(bytes, vec![0u8; 64]);
    }
}

#[test]
fn key_pair_clone_keeps_the_bytes() {
    let pair = KeyPair::new();
    assert_eq!(pair.clone().encode(), pair.encode());
}

#[test]
fn key_pair_from_secret_finds_the_public_key() {
    let pair = KeyPair::new();
    let again = KeyPair::from_secret(pair.secret());
    assert_eq!(again.encode(), pair.encode());
}

#[test]
fn secret_key_from_bytes_wipes_its_input() {
    let mut bytes = vec![9u8; 32];
    let key = SecretKey::from_bytes(&mut bytes).unwrap();
    assert_eq!(key.to_bytes(), [9u8; 32]);
    assert_eq!(key.clone().to_bytes(), [9u8; 32]);
    assert_eq!(bytes, vec![0u8; 32]);
    let mut short = vec![9u8; 31];
    assert_eq!(SecretKey::from_bytes(&mut short).err(), Some(DecodingError));
    assert_eq!(short, vec![9u8; 31]);
}

#[test]
fn signatures_verify_under_the_public_key() {
    let pair = KeyPair::new();
    let msg = b"find node".to_vec();
    let sig = pair.sign(&msg);
    assert_eq!(sig.len(), 64);
    assert_ne!(sig, pair.encode().to_vec());
    let public = pair.public().to_bytes();
    assert!(NodeId::verify_msg(&msg, &sig, &public));
    assert!(!NodeId::verify_msg(b"store", &sig, &public));
    let other = KeyPair::new().public().to_bytes();
    assert!(!NodeId::verify_msg(&msg, &sig, &other));
}

#[test]
fn signing_is_deterministic() {
    let pair = KeyPair::new();
    assert_eq!(pair.sign(b"ping"), pair.sign(b"ping"));
    assert_ne!(pair.sign(b"ping"), pair.sign(b"pong"));
}

#[test]
fn malformed_signatures_verify_nothing() {
    let pair = KeyPair::new();
    let public = pair.public().to_bytes();
    assert!(!NodeId::verify_msg(b"ping", &[0u8; 63], &public));
    assert!(!NodeId::verify_msg(b"ping", &[], &public));
    assert!(!NodeId::verify_msg(b"ping", &pair.sign(b"ping"), &[0u8; 31]));
    assert!(!NodeId::verify_msg(b"ping", &[0xffu8; 64], &public));
}

#[test]
fn node_score_tells_connected_from_not() {
    let up = NodeScore::Connected(3u32);
    let down = NodeScore::NotConnected(5u32);
    assert!(up.is_connected());
    assert!(!down.is_connected());
    assert_eq!(*up.score(), 3);
    assert_eq!(*down.score(), 5);
    assert_ne!(up, down);
}
