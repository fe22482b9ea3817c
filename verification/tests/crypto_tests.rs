use argon2::{Algorithm, Argon2, Params, Version};
use sp2p::crypto::{decrypt_udp, derive_key, encrypt_udp};
use sp2p::noise::{chunk_at, handshake_frame, handshake_receive, into_transport, noise_initiator, noise_responder, open_message, seal_frames, CHUNK_LEN};
use sp2p::protocol::frame_length;

#[test]
fn derived_key_is_deterministic_and_password_bound() {
    let a = derive_key("sp2p-default-net");
    let b = derive_key("sp2p-default-net");
    let c = derive_key("another password");
    assert_eq!(a, b);
    assert_ne!(a, c);
}

#[test]
fn derived_key_matches_argon2id_with_static_salt() {
    let mut expected = [0u8; 32];
    Argon2::new(Algorithm::Argon2id, Version::V0x13, Params::default())
        .hash_password_into(b"my-secret-password", b"sp2p-network-static-salt", &mut expected)
        .unwrap();
    assert_eq!(derive_key("my-secret-password"), expected);
}

#[test]
fn udp_roundtrip() {
    let key = [7u8; 32];
    let payload = b"{\"inboxes\":[\"photos\"]}";
    let sealed = encrypt_udp(&key, payload).unwrap();
    assert_eq!(sealed.len(), 12 + payload.len() + 16);
    assert_ne!(&sealed[12..12 + payload.len()], &payload[..]);
    assert_eq!(decrypt_udp(&key, &sealed).unwrap(), payload.to_vec());
}

#[test]
fn udp_nonces_differ() {
    let key = [1u8; 32];
    let a = encrypt_udp(&key, b"same").unwrap();
    let b = encrypt_udp(&key, b"same").unwrap();
    assert_ne!(a, b);
}

#[test]
fn udp_wrong_key_or_short_payload_fails() {
    let sealed = encrypt_udp(&[1u8; 32], b"hello").unwrap();
    assert_eq!(decrypt_udp(&[2u8; 32], &sealed), Err("Decryption failed"));
    assert_eq!(decrypt_udp(&[1u8; 32], &sealed[..11]), Err("Payload too short"));
    let mut tampered = sealed.clone();
    let last = tampered.len() - 1;
    tampered[last] ^= 1;
    assert_eq!(decrypt_udp(&[1u8; 32], &tampered), Err("Decryption failed"));
    // nonce alone, no tag
    assert_eq!(decrypt_udp(&[1u8; 32], &sealed[..12]), Err("Decryption failed"));
    assert_eq!(decrypt_udp(&[1u8; 32], &sealed[..27]), Err("Decryption failed"));
}

fn handshake(psk_client: [u8; 32], psk_server: [u8; 32]) -> Option<(snow::TransportState, snow::TransportState)> {
    let mut client = noise_initiator(&psk_client).unwrap();
    let mut server = noise_responder(&psk_server).unwrap();
    let f1 = handshake_frame(&mut client).unwrap();
    assert_eq!(frame_length([f1[0], f1[1]]), f1.len() - 2);
    handshake_receive(&mut server, &f1[2..]).ok()?;
    let f2 = handshake_frame(&mut server).unwrap();
    handshake_receive(&mut client, &f2[2..]).ok()?;
    Some((into_transport(client).unwrap(), into_transport(server).unwrap()))
}

#[test]
fn noise_session_carries_data_both_ways() {
    let (mut c, mut s) = handshake([3u8; 32], [3u8; 32]).unwrap();
    let data: Vec<u8> = (0..150_000u32).map(|i| (i % 251) as u8).collect();
    let frames = seal_frames(&mut c, &data).unwrap();
    assert_eq!(frames.len(), 3);
    assert_eq!(frames[0].len(), 2 + CHUNK_LEN + 16);
    assert_eq!(frames[2].len(), 2 + (150_000 - 2 * CHUNK_LEN) + 16);
    let mut got = Vec::new();
    for (k, f) in frames.iter().enumerate() {
        assert_eq!(frame_length([f[0], f[1]]), f.len() - 2);
        let opened = open_message(&mut s, &f[2..]).unwrap();
        assert_eq!(opened, chunk_at(&data, k).to_vec());
        got.extend(opened);
    }
    assert_eq!(got, data);
    let back = seal_frames(&mut s, &[1]).unwrap();
    assert_eq!(open_message(&mut c, &back[0][2..]).unwrap(), vec![1]);
    assert!(seal_frames(&mut c, &[]).unwrap().is_empty());
    // a frame opened twice is refused the second time
    assert!(open_message(&mut c, &back[0][2..]).is_err());
    assert_eq!(chunk_at(&data, 2).len(), 150_000 - 2 * CHUNK_LEN);
}

#[test]
fn noise_handshake_with_other_password_fails() {
    assert!(handshake([3u8; 32], [4u8; 32]).is_none());
}
