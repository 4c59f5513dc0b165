use asemic::protocol::{
    create_packet, decode_packet, derive_key, frame_payload, seal_packet, try_decrypt_packet,
    u32_to_be, unframe, CodecError, CHUNK_SIZE, ENVELOPE_OVERHEAD, MAX_PACKET_SIZE, NONCE_SIZE,
    TAG_SIZE,
};
use asemic::state::ObfuscationPattern;
use chacha20poly1305::aead::{Aead, KeyInit};
use chacha20poly1305::{XChaCha20Poly1305, XNonce};

#[test]
fn constants_have_the_documented_values() {
    assert_eq!(MAX_PACKET_SIZE, 1350);
    assert_eq!(CHUNK_SIZE, 1200);
    assert_eq!(NONCE_SIZE, 24);
    assert_eq!(TAG_SIZE, 16);
    assert_eq!(ENVELOPE_OVERHEAD, 40);
}

#[test]
fn u32_to_be_writes_most_significant_byte_first() {
    assert_eq!(u32_to_be(0x0102_0304), vec![1, 2, 3, 4]);
    assert_eq!(u32_to_be(0), vec![0, 0, 0, 0]);
    assert_eq!(u32_to_be(u32::MAX), vec![255, 255, 255, 255]);
    assert_eq!(u32_to_be(1306), vec![0, 0, 5, 26]);
}

#[test]
fn frame_payload_prefixes_big_endian_length() {
    let framed = frame_payload(b"abc");
    assert_eq!(framed, vec![0, 0, 0, 3, b'a', b'b', b'c']);
}

#[test]
fn frame_payload_of_empty_body_is_the_prefix_alone() {
    assert_eq!(frame_payload(b""), vec![0, 0, 0, 0]);
}

#[test]
fn frame_payload_of_long_body_uses_the_higher_bytes() {
    let body = vec![9u8; 0x0203];
    let framed = frame_payload(&body);
    assert_eq!(&framed[..4], &[0, 0, 2, 3]);
    assert_eq!(&framed[4..], &body[..]);
}

#[test]
fn unframe_drops_padding() {
    let plaintext = vec![0, 0, 0, 2, 7, 8, 9, 9, 9];
    assert_eq!(unframe(&plaintext), Some(vec![7, 8]));
}

#[test]
fn unframe_accepts_a_body_that_fills_the_plaintext() {
    let plaintext = vec![0, 0, 0, 3, 1, 2, 3];
    assert_eq!(unframe(&plaintext), Some(vec![1, 2, 3]));
}

#[test]
fn unframe_accepts_an_empty_body() {
    assert_eq!(unframe(&[0, 0, 0, 0]), Some(vec![]));
    assert_eq!(unframe(&[0, 0, 0, 0, 5, 5]), Some(vec![]));
}

#[test]
fn unframe_rejects_a_plaintext_shorter_than_the_prefix() {
    assert_eq!(unframe(&[]), None);
    assert_eq!(unframe(&[0, 0, 0]), None);
}

#[test]
fn unframe_rejects_a_declared_length_beyond_the_plaintext() {
    assert_eq!(unframe(&[0, 0, 0, 4, 1, 2, 3]), None);
    assert_eq!(unframe(&[255, 255, 255, 255, 1, 2, 3]), None);
    assert_eq!(unframe(&[0, 0, 1, 0, 1]), None);
}

#[test]
fn unframe_undoes_frame_payload_whatever_follows() {
    let body = b"{\"msg_id\":1}".to_vec();
    let mut plaintext = frame_payload(&body);
    plaintext.extend_from_slice(&[0xAA; 57]);
    assert_eq!(unframe(&plaintext), Some(body));
}

#[test]
fn derive_key_is_the_sha256_digest() {
    let expected: [u8; 32] = [
        0xba, 0x78, 0x16, 0xbf, 0x8f, 0x01, 0xcf, 0xea, 0x41, 0x41, 0x40, 0xde, 0x5d, 0xae, 0x22,
        0x23, 0xb0, 0x03, 0x61, 0xa3, 0x96, 0x17, 0x7a, 0x9c, 0xb4, 0x10, 0xff, 0x61, 0xf2, 0x00,
        0x15, 0xad,
    ];
    assert_eq!(derive_key(b"abc"), expected);
    let empty: [u8; 32] = [
        0xe3, 0xb0, 0xc4, 0x42, 0x98, 0xfc, 0x1c, 0x14, 0x9a, 0xfb, 0xf4, 0xc8, 0x99, 0x6f, 0xb9,
        0x24, 0x27, 0xae, 0x41, 0xe4, 0x64, 0x9b, 0x93, 0x4c, 0xa4, 0x95, 0x99, 0x1b, 0x78, 0x52,
        0xb8, 0x55,
    ];
    assert_eq!(derive_key(b""), empty);
}

#[test]
fn seal_packet_is_nonce_then_ciphertext_under_the_derived_key() {
    let nonce = [0x42u8; 24];
    let packet = seal_packet(b"payload", b"swordfish", &nonce, b"padding").unwrap();
    let cipher = XChaCha20Poly1305::new(&derive_key(b"swordfish").into());
    let sealed = cipher.encrypt(XNonce::from_slice(&nonce), &b"payloadpadding"[..]).unwrap();
    let mut expected = nonce.to_vec();
    expected.extend_from_slice(&sealed);
    assert_eq!(packet, expected);
    assert_ne!(&packet[24..38], b"payloadpadding");
}

#[test]
fn seal_packet_is_deterministic() {
    let nonce = [7u8; 24];
    let a = seal_packet(b"payload", b"k", &nonce, b"pad").unwrap();
    let b = seal_packet(b"payload", b"k", &nonce, b"pad").unwrap();
    assert_eq!(a, b);
    assert_eq!(a.len(), 7 + 3 + 40);
    assert_eq!(&a[..24], &nonce[..]);
}

#[test]
fn seal_packet_depends_on_key_and_nonce() {
    let a = seal_packet(b"payload", b"k1", &[1u8; 24], b"").unwrap();
    let b = seal_packet(b"payload", b"k2", &[1u8; 24], b"").unwrap();
    let c = seal_packet(b"payload", b"k1", &[2u8; 24], b"").unwrap();
    assert_ne!(a[24..], b[24..]);
    assert_ne!(a[24..], c[24..]);
}

#[test]
fn seal_packet_accepts_exactly_the_largest_datagram() {
    let payload = vec![1u8; 1000];
    let padding = vec![2u8; 310];
    let packet = seal_packet(&payload, b"k", &[0u8; 24], &padding).unwrap();
    assert_eq!(packet.len(), MAX_PACKET_SIZE);
}

#[test]
fn seal_packet_rejects_one_byte_too_many() {
    let payload = vec![1u8; 1000];
    let padding = vec![2u8; 311];
    assert_eq!(
        seal_packet(&payload, b"k", &[0u8; 24], &padding),
        Err(CodecError::PayloadTooLarge)
    );
    assert_eq!(
        seal_packet(&vec![0u8; 1311], b"k", &[0u8; 24], b""),
        Err(CodecError::PayloadTooLarge)
    );
    assert_eq!(
        seal_packet(b"", b"k", &[0u8; 24], &vec![0u8; 1311]),
        Err(CodecError::PayloadTooLarge)
    );
}

#[test]
fn seal_packet_of_nothing_is_nonce_and_tag() {
    let packet = seal_packet(b"", b"k", &[3u8; 24], b"").unwrap();
    assert_eq!(packet.len(), 40);
    assert_eq!(decode_packet(&packet, b"k"), Err(CodecError::CryptoError));
}

#[test]
fn padding_gives_payloads_of_different_lengths_the_same_wire_length() {
    let short = seal_packet(&[1u8; 10], b"k", &[0u8; 24], &[0u8; 90]).unwrap();
    let long = seal_packet(&[1u8; 60], b"k", &[0u8; 24], &[0u8; 40]).unwrap();
    assert_eq!(short.len(), 140);
    assert_eq!(long.len(), 140);
}

#[test]
fn create_packet_keeps_within_the_size_bounds() {
    for len in [0usize, 1, 4, 50, 199, 640, 1000, 1309, 1310] {
        for _ in 0..20 {
            let packet =
                create_packet(vec![0x5A; len], b"key", ObfuscationPattern::Starfall).unwrap();
            assert!(packet.len() >= 40);
            assert!(packet.len() >= len + 40);
            assert!(packet.len() <= MAX_PACKET_SIZE);
        }
    }
}

#[test]
fn create_packet_of_the_largest_payload_has_no_padding() {
    let packet = create_packet(vec![1u8; 1310], b"key", ObfuscationPattern::Sunshine).unwrap();
    assert_eq!(packet.len(), MAX_PACKET_SIZE);
}

#[test]
fn create_packet_rejects_a_payload_over_the_limit() {
    assert_eq!(
        create_packet(vec![1u8; 1311], b"key", ObfuscationPattern::Starfall),
        Err(CodecError::PayloadTooLarge)
    );
    assert_eq!(
        create_packet(vec![1u8; 5000], b"key", ObfuscationPattern::Sunshine),
        Err(CodecError::PayloadTooLarge)
    );
}

#[test]
fn create_packet_draws_a_fresh_nonce_each_time() {
    let a = create_packet(b"same".to_vec(), b"key", ObfuscationPattern::Starfall).unwrap();
    let b = create_packet(b"same".to_vec(), b"key", ObfuscationPattern::Starfall).unwrap();
    assert_ne!(a[..24], b[..24]);
    assert_ne!(a, b);
}

#[test]
fn create_packet_varies_the_padding() {
    let mut lengths = std::collections::BTreeSet::new();
    for _ in 0..64 {
        let packet = create_packet(vec![0u8; 10], b"key", ObfuscationPattern::Starfall).unwrap();
        lengths.insert(packet.len());
    }
    assert!(lengths.len() > 1);
}

#[test]
fn create_packet_round_trips_through_try_decrypt() {
    let framed = frame_payload(b"{\"k\":1}");
    let packet = create_packet(framed, b"swordfish", ObfuscationPattern::Starfall).unwrap();
    assert!(packet.len() >= 40 + 11);
    assert!(packet.len() <= MAX_PACKET_SIZE);
    let body = try_decrypt_packet(&packet, b"swordfish", ObfuscationPattern::Starfall);
    assert_eq!(body, Some(b"{\"k\":1}".to_vec()));
}

#[test]
fn the_pattern_does_not_change_what_decodes() {
    let framed = frame_payload(b"body");
    let packet = create_packet(framed, b"k", ObfuscationPattern::Starfall).unwrap();
    assert_eq!(
        try_decrypt_packet(&packet, b"k", ObfuscationPattern::Sunshine),
        Some(b"body".to_vec())
    );
    assert_eq!(
        try_decrypt_packet(&packet, b"k", ObfuscationPattern::Starfall),
        Some(b"body".to_vec())
    );
}

#[test]
fn a_wrong_key_gives_no_result() {
    for i in 0..50u8 {
        let framed = frame_payload(&[i; 20]);
        let packet = create_packet(framed, b"alpha", ObfuscationPattern::Starfall).unwrap();
        assert_eq!(try_decrypt_packet(&packet, b"beta", ObfuscationPattern::Starfall), None);
        assert_eq!(decode_packet(&packet, b"beta"), Err(CodecError::CryptoError));
    }
}

#[test]
fn a_tampered_datagram_does_not_authenticate() {
    let framed = frame_payload(b"body");
    let mut packet = create_packet(framed, b"k", ObfuscationPattern::Starfall).unwrap();
    let last = packet.len() - 1;
    packet[last] ^= 1;
    assert_eq!(decode_packet(&packet, b"k"), Err(CodecError::CryptoError));
}

#[test]
fn a_datagram_not_longer_than_nonce_and_tag_gives_no_result() {
    assert_eq!(decode_packet(&[], b"k"), Err(CodecError::CryptoError));
    assert_eq!(decode_packet(&[0u8; 40], b"k"), Err(CodecError::CryptoError));
    assert_eq!(try_decrypt_packet(&[0u8; 39], b"k", ObfuscationPattern::Starfall), None);
}

#[test]
fn random_bytes_give_no_result() {
    let noise: Vec<u8> = (0..300u32).map(|i| (i * 37 % 251) as u8).collect();
    assert_eq!(try_decrypt_packet(&noise, b"k", ObfuscationPattern::Starfall), None);
}

#[test]
fn an_authentic_plaintext_without_a_frame_is_a_structural_failure() {
    let too_short = seal_packet(&[1, 2, 3], b"k", &[0u8; 24], b"").unwrap();
    assert_eq!(decode_packet(&too_short, b"k"), Err(CodecError::StructuralFail));
    let overlong = seal_packet(&[0, 0, 0, 9, 1, 2, 3], b"k", &[0u8; 24], b"").unwrap();
    assert_eq!(decode_packet(&overlong, b"k"), Err(CodecError::StructuralFail));
    assert_eq!(try_decrypt_packet(&overlong, b"k", ObfuscationPattern::Starfall), None);
}

#[test]
fn decode_packet_reads_the_body_of_a_sealed_frame() {
    let packet = seal_packet(&[0, 0, 0, 2, 8, 9], b"k", &[5u8; 24], &[0xEE; 30]).unwrap();
    assert_eq!(decode_packet(&packet, b"k"), Ok(vec![8, 9]));
}

#[test]
fn datagram_bytes_look_uniform() {
    let mut histogram = [0u64; 256];
    let mut total = 0u64;
    for i in 0..10_000usize {
        let payload = vec![b'a'; i % 300];
        let packet = create_packet(payload, b"fixed key", ObfuscationPattern::Starfall).unwrap();
        for byte in packet {
            histogram[byte as usize] += 1;
            total += 1;
        }
    }
    let expected = total as f64 / 256.0;
    let mut chi_square = 0.0f64;
    for count in histogram {
        let delta = count as f64 - expected;
        chi_square += delta * delta / expected;
    }
    assert!(chi_square < 400.0);
}
