//! Packet codec: length-prefixed frames, random padding and the
//! authenticated-encryption envelope `nonce || ciphertext || tag`.

use crate::primitives::{
    aead_open, aead_seal, random_bytes, random_in_range, sha256, sha256_digest,
    xchacha20poly1305_open, xchacha20poly1305_seal,
};
use crate::state::ObfuscationPattern;
use vstd::prelude::*;

verus! {

/// Largest datagram the codec ever produces, in bytes.
pub const MAX_PACKET_SIZE: usize = 1350;

/// Bytes of serialized message carried by one chunk before text encoding.
pub const CHUNK_SIZE: usize = 1200;

/// Length of the nonce that opens every datagram.
pub const NONCE_SIZE: usize = 24;

/// Length of the authentication tag that closes every datagram.
pub const TAG_SIZE: usize = 16;

/// Bytes that the envelope adds to a plaintext: nonce and tag.
pub const ENVELOPE_OVERHEAD: usize = 40;

/// Length of the big-endian length prefix at the start of a plaintext.
pub const LENGTH_PREFIX_SIZE: usize = 4;

/// The header of one chunk, carried inside the encrypted plaintext.
#[derive(Clone, Debug, PartialEq, Eq)]
pub struct AsemicPacket {
    pub msg_id: u32,
    pub chunk_num: u32,
    pub total_chunks: u32,
    /// Base64 text of the chunk's bytes.
    pub data: String,
}

/// The mathematical value of an [`AsemicPacket`].
pub struct AsemicPacketView {
    pub msg_id: u32,
    pub chunk_num: u32,
    pub total_chunks: u32,
    pub data: Seq<char>,
}

impl View for AsemicPacket {
    type V = AsemicPacketView;

    open spec fn view(&self) -> AsemicPacketView {
        AsemicPacketView {
            msg_id: self.msg_id,
            chunk_num: self.chunk_num,
            total_chunks: self.total_chunks,
            data: self.data@,
        }
    }
}

/// Why the codec gave no result.
#[derive(Clone, Copy, Debug, PartialEq, Eq, Structural)]
pub enum CodecError {
    /// Payload, padding and envelope together exceed `MAX_PACKET_SIZE`.
    PayloadTooLarge,
    /// The cipher refused to encrypt, or the tag did not authenticate.
    CryptoError,
    /// The authenticated plaintext does not hold a length-prefixed frame.
    StructuralFail,
}

/// The bytes of a textual key: its UTF-8 encoding.
pub open spec fn key_bytes(key: Seq<char>) -> Seq<u8> {
    vstd::utf8::encode_utf8(key)
}

/// Big-endian encoding of a 32-bit unsigned number.
pub open spec fn be_u32(n: u32) -> Seq<u8> {
    seq![
        (n / 0x100_0000) as u8,
        ((n / 0x1_0000) % 0x100) as u8,
        ((n / 0x100) % 0x100) as u8,
        (n % 0x100) as u8,
    ]
}

/// The number that the first four bytes of `bytes` encode, big-endian.
pub open spec fn from_be_u32(bytes: Seq<u8>) -> nat
    recommends
        bytes.len() >= 4,
{
    (bytes[0] as nat) * 0x100_0000 + (bytes[1] as nat) * 0x1_0000 + (bytes[2] as nat) * 0x100 + (
    bytes[3] as nat)
}

/// The plaintext frame of a body: its length as four big-endian bytes, then
/// the body.
pub open spec fn frame(body: Seq<u8>) -> Seq<u8>
    recommends
        body.len() <= u32::MAX,
{
    be_u32(body.len() as u32) + body
}

/// The body that a plaintext frames, whatever padding follows it: `None`
/// where the plaintext is shorter than its prefix or than the length that
/// the prefix declares.
pub open spec fn framed_body(plaintext: Seq<u8>) -> Option<Seq<u8>> {
    if plaintext.len() < 4 {
        None
    } else if 4 + from_be_u32(plaintext) > plaintext.len() {
        None
    } else {
        Some(plaintext.subrange(4, 4 + from_be_u32(plaintext) as int))
    }
}

/// The datagram for a payload under a key, once nonce and padding are
/// chosen: the nonce, then the encryption of payload and padding under the
/// SHA-256 digest of the key.
pub open spec fn sealed_packet(
    key: Seq<u8>,
    nonce: Seq<u8>,
    payload: Seq<u8>,
    padding: Seq<u8>,
) -> Option<Seq<u8>> {
    match xchacha20poly1305_seal(sha256(key), nonce, payload + padding) {
        Some(sealed) => Some(nonce + sealed),
        None => None,
    }
}

/// The plaintext that a datagram holds for a key: `None` where the datagram
/// is not longer than nonce and tag, or does not authenticate.
pub open spec fn opened_packet(packet: Seq<u8>, key: Seq<u8>) -> Option<Seq<u8>> {
    if packet.len() <= 40 {
        None
    } else {
        xchacha20poly1305_open(
            sha256(key),
            packet.subrange(0, 24),
            packet.subrange(24, packet.len() as int),
        )
    }
}

/// The framed body that a datagram holds for a key.
pub open spec fn decoded_frame(packet: Seq<u8>, key: Seq<u8>) -> Option<Seq<u8>> {
    match opened_packet(packet, key) {
        Some(plaintext) => framed_body(plaintext),
        None => None,
    }
}

/// The outcome of decoding a datagram under a key, with the reason for a
/// failure.
pub open spec fn decode_outcome(packet: Seq<u8>, key: Seq<u8>) -> Result<Seq<u8>, CodecError> {
    match opened_packet(packet, key) {
        None => Err(CodecError::CryptoError),
        Some(plaintext) => match framed_body(plaintext) {
            None => Err(CodecError::StructuralFail),
            Some(body) => Ok(body),
        },
    }
}

/// Length on the wire of a datagram with the given payload and padding
/// lengths.
pub open spec fn wire_len(payload_len: nat, padding_len: nat) -> nat {
    payload_len + padding_len + 40
}

/// The most padding that may follow a payload of the given length.
pub open spec fn max_padding(payload_len: nat) -> nat
    recommends
        payload_len + 40 <= MAX_PACKET_SIZE,
{
    (MAX_PACKET_SIZE - 40 - payload_len) as nat
}

/// Decoding the big-endian bytes of a number gives the number back.
pub proof fn lemma_be_u32_round_trip(n: u32)
    ensures
        be_u32(n).len() == 4,
        from_be_u32(be_u32(n)) == n,
{
    let b = be_u32(n);
    assert(b[0] == (n / 0x100_0000) as u8);
    assert(b[1] == ((n / 0x1_0000) % 0x100) as u8);
    assert(b[2] == ((n / 0x100) % 0x100) as u8);
    assert(b[3] == (n % 0x100) as u8);
    assert((n / 0x100_0000) * 0x100_0000 + ((n / 0x1_0000) % 0x100) * 0x1_0000 + ((n / 0x100)
        % 0x100) * 0x100 + (n % 0x100) == n) by (bit_vector);
    assert(n / 0x100_0000 < 0x100) by (bit_vector);
}

/// A frame followed by any padding yields its body again.
pub proof fn lemma_frame_round_trip(body: Seq<u8>, padding: Seq<u8>)
    requires
        body.len() <= u32::MAX,
    ensures
        framed_body(frame(body) + padding) == Some(body),
{
    let n = body.len() as u32;
    lemma_be_u32_round_trip(n);
    let plaintext = frame(body) + padding;
    assert(plaintext.len() == 4 + body.len() + padding.len());
    assert(plaintext[0] == be_u32(n)[0]);
    assert(plaintext[1] == be_u32(n)[1]);
    assert(plaintext[2] == be_u32(n)[2]);
    assert(plaintext[3] == be_u32(n)[3]);
    assert(from_be_u32(plaintext) == from_be_u32(be_u32(n)));
    assert(plaintext.subrange(4, 4 + body.len() as int) =~= body);
}

/// Padding hides the payload length: for any two payload lengths that the
/// codec accepts, padding lengths within the permitted range exist that give
/// both datagrams the same length on the wire.
pub proof fn lemma_padding_equalizes(first_len: nat, second_len: nat)
    requires
        first_len + 40 <= MAX_PACKET_SIZE,
        second_len + 40 <= MAX_PACKET_SIZE,
    ensures
        exists|first_padding: nat, second_padding: nat|
            first_padding <= max_padding(first_len) && second_padding <= max_padding(second_len)
                && #[trigger] wire_len(first_len, first_padding) == #[trigger] wire_len(
                second_len,
                second_padding,
            ),
{
    let first_padding = max_padding(first_len);
    let second_padding = max_padding(second_len);
    assert(wire_len(first_len, first_padding) == wire_len(second_len, second_padding));
}

/// Writes `n` as four big-endian bytes.
pub fn u32_to_be(n: u32) -> (r: Vec<u8>)
    ensures
        r@ == be_u32(n),
{
    let mut r: Vec<u8> = Vec::new();
    r.push((n / 0x100_0000) as u8);
    r.push(((n / 0x1_0000) % 0x100) as u8);
    r.push(((n / 0x100) % 0x100) as u8);
    r.push((n % 0x100) as u8);
    assert(r@ =~= be_u32(n));
    r
}

/// Builds the plaintext payload for a serialized chunk header: its length,
/// big-endian, then the header.
pub fn frame_payload(body: &[u8]) -> (r: Vec<u8>)
    requires
        body@.len() <= u32::MAX,
    ensures
        r@ == frame(body@),
        framed_body(r@) == Some(body@),
{
    let mut r = u32_to_be(body.len() as u32);
    r.extend_from_slice(body);
    assert(r@ =~= frame(body@));
    proof {
        lemma_frame_round_trip(body@, Seq::empty());
        assert(frame(body@) + Seq::<u8>::empty() =~= frame(body@));
    }
    r
}

/// Reads the framed body out of a decrypted plaintext and drops the padding.
pub fn unframe(plaintext: &[u8]) -> (r: Option<Vec<u8>>)
    ensures
        r is Some <==> framed_body(plaintext@) is Some,
        r matches Some(body) ==> framed_body(plaintext@) == Some(body@),
{
    if plaintext.len() < 4 {
        return None;
    }
    let declared: u32 = (plaintext[0] as u32) * 0x100_0000 + (plaintext[1] as u32) * 0x1_0000 + (
    plaintext[2] as u32) * 0x100 + (plaintext[3] as u32);
    assert(declared == from_be_u32(plaintext@));
    let body_len = declared as usize;
    if body_len > plaintext.len() - 4 {
        return None;
    }
    let mut body: Vec<u8> = Vec::with_capacity(body_len);
    body.extend_from_slice(&plaintext[4..4 + body_len]);
    assert(body@ =~= plaintext@.subrange(4, 4 + body_len));
    Some(body)
}

/// Derives the 32-byte cipher key from the key material that the user
/// gave: its SHA-256 digest. No salt, and the pattern takes no part.
pub fn derive_key(input: &[u8]) -> (r: [u8; 32])
    ensures
        r@ == sha256(input@),
{
    sha256_digest(input)
}

/// Encrypts a payload with the given nonce and padding into a datagram.
///
/// This is the deterministic part of [`create_packet`]: the same arguments
/// give the same datagram.
pub fn seal_packet(payload: &[u8], key: &[u8], nonce: &[u8], padding: &[u8]) -> (r: Result<
    Vec<u8>,
    CodecError,
>)
    requires
        nonce@.len() == NONCE_SIZE,
    ensures
        r is Ok <==> payload@.len() + padding@.len() + ENVELOPE_OVERHEAD <= MAX_PACKET_SIZE,
        r matches Err(e) ==> e == CodecError::PayloadTooLarge,
        r matches Ok(packet) ==> {
            &&& sealed_packet(key@, nonce@, payload@, padding@) == Some(packet@)
            &&& packet@.len() == wire_len(payload@.len(), padding@.len())
            &&& payload@.len() + padding@.len() > 0 ==> opened_packet(packet@, key@) == Some(
                payload@ + padding@,
            )
        },
{
    if payload.len() > MAX_PACKET_SIZE - ENVELOPE_OVERHEAD || padding.len() > MAX_PACKET_SIZE
        - ENVELOPE_OVERHEAD - payload.len() {
        return Err(CodecError::PayloadTooLarge);
    }
    let cipher_key = derive_key(key);
    let mut plaintext: Vec<u8> = Vec::with_capacity(payload.len() + padding.len());
    plaintext.extend_from_slice(payload);
    plaintext.extend_from_slice(padding);
    assert(plaintext@ =~= payload@ + padding@);
    match aead_seal(&cipher_key, nonce, plaintext.as_slice()) {
        Ok(sealed) => {
            let mut packet: Vec<u8> = Vec::with_capacity(NONCE_SIZE + sealed.len());
            packet.extend_from_slice(nonce);
            packet.extend_from_slice(sealed.as_slice());
            assert(packet@ =~= nonce@ + sealed@);
            assert(packet@.subrange(0, 24) =~= nonce@);
            assert(packet@.subrange(24, packet@.len() as int) =~= sealed@);
            Ok(packet)
        },
        Err(_) => Err(CodecError::CryptoError),
    }
}

/// Whether `packet` is a datagram that [`create_packet`] may produce for
/// `payload` under `key`: some 24-byte nonce and some padding give it.
pub open spec fn is_packet_for(packet: Seq<u8>, key: Seq<u8>, payload: Seq<u8>) -> bool {
    exists|nonce: Seq<u8>, padding: Seq<u8>|
        nonce.len() == 24 && padding.len() <= max_padding(payload.len())
            && #[trigger] sealed_packet(key, nonce, payload, padding) == Some(packet)
}

/// Encodes a payload into an opaque datagram under a key: draws a fresh
/// nonce, pads the payload with random bytes up to a random length within
/// `MAX_PACKET_SIZE`, and encrypts. The pattern does not change the envelope.
pub fn create_packet(payload: Vec<u8>, key: &[u8], pattern: ObfuscationPattern) -> (r: Result<
    Vec<u8>,
    CodecError,
>)
    ensures
        r is Ok <==> payload@.len() + ENVELOPE_OVERHEAD <= MAX_PACKET_SIZE,
        r matches Err(e) ==> e == CodecError::PayloadTooLarge,
        r matches Ok(packet) ==> {
            &&& payload@.len() + ENVELOPE_OVERHEAD <= packet@.len() <= MAX_PACKET_SIZE
            &&& is_packet_for(packet@, key@, payload@)
            &&& packet@.len() > ENVELOPE_OVERHEAD ==> {
                &&& opened_packet(packet@, key@) matches Some(plaintext)
                &&& plaintext.len() == packet@.len() - ENVELOPE_OVERHEAD
                &&& plaintext.subrange(0, payload@.len() as int) == payload@
            }
        },
{
    if payload.len() > MAX_PACKET_SIZE - ENVELOPE_OVERHEAD {
        return Err(CodecError::PayloadTooLarge);
    }
    let nonce = random_bytes(NONCE_SIZE);
    let current_len = payload.len() + ENVELOPE_OVERHEAD;
    let padding = if current_len < MAX_PACKET_SIZE {
        random_bytes(random_in_range(0, MAX_PACKET_SIZE - current_len))
    } else {
        Vec::new()
    };
    let r = seal_packet(payload.as_slice(), key, nonce.as_slice(), padding.as_slice());
    assert((payload@ + padding@).subrange(0, payload@.len() as int) =~= payload@);
    r
}

/// Decodes a datagram under a key and says why where it cannot: the tag
/// does not authenticate, or the plaintext holds no frame.
pub fn decode_packet(packet: &[u8], key: &[u8]) -> (r: Result<Vec<u8>, CodecError>)
    ensures
        r is Ok <==> decode_outcome(packet@, key@) is Ok,
        r matches Ok(body) ==> decode_outcome(packet@, key@) == Ok::<Seq<u8>, CodecError>(body@),
        r matches Err(e) ==> decode_outcome(packet@, key@) == Err::<Seq<u8>, CodecError>(e),
{
    if packet.len() <= ENVELOPE_OVERHEAD {
        return Err(CodecError::CryptoError);
    }
    let cipher_key = derive_key(key);
    let nonce = &packet[0..NONCE_SIZE];
    let sealed = &packet[NONCE_SIZE..packet.len()];
    match aead_open(&cipher_key, nonce, sealed) {
        Ok(plaintext) => match unframe(plaintext.as_slice()) {
            Some(body) => Ok(body),
            None => Err(CodecError::StructuralFail),
        },
        Err(_) => Err(CodecError::CryptoError),
    }
}

/// Tries a datagram against one candidate key: the framed body where the
/// datagram authenticates under the key and holds a frame, `None` otherwise.
/// Wrong keys and random noise are ordinary inputs. The pattern does not
/// change the envelope.
pub fn try_decrypt_packet(packet: &[u8], key: &[u8], pattern: ObfuscationPattern) -> (r: Option<
    Vec<u8>,
>)
    ensures
        r is Some <==> decoded_frame(packet@, key@) is Some,
        r matches Some(body) ==> decoded_frame(packet@, key@) == Some(body@),
{
    match decode_packet(packet, key) {
        Ok(body) => Some(body),
        Err(_) => None,
    }
}

} // verus!
