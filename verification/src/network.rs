//! The sending side: the chunker, and the decisions of the transmitter.

use crate::primitives::{
    base64_bytes, base64_encode, base64_text, random_bytes, random_in_range, random_u32,
};
use crate::protocol::{
    create_packet, decoded_frame, frame, frame_payload, is_packet_for, key_bytes,
    lemma_frame_round_trip, opened_packet, AsemicPacket, AsemicPacketView, CodecError,
    CHUNK_SIZE, ENVELOPE_OVERHEAD, LENGTH_PREFIX_SIZE, MAX_PACKET_SIZE,
};
use crate::state::{MessageContent, NoiseLevel, ObfuscationPattern, PeerAddr, TransmitCommand};
use vstd::prelude::*;

verus! {

/// Milliseconds between successive chunks of one message.
pub const CHUNK_SPACING_MILLIS: u64 = 10;

/// Least length of a cover-traffic payload.
pub const NOISE_MIN_LEN: usize = 50;

/// Bound, not reached, on the length of a cover-traffic payload.
pub const NOISE_MAX_LEN: usize = 200;

/// The number of chunks that a message of `len` bytes is split into.
pub open spec fn chunk_count(len: nat) -> nat {
    (len + CHUNK_SIZE - 1) as nat / (CHUNK_SIZE as nat)
}

/// The bytes of chunk `index` of a message: `CHUNK_SIZE` bytes from
/// `index * CHUNK_SIZE` on, or what is left of the message.
pub open spec fn chunk_bytes(data: Seq<u8>, index: nat) -> Seq<u8> {
    let start = index * CHUNK_SIZE;
    let end = if start + CHUNK_SIZE <= data.len() {
        start + CHUNK_SIZE
    } else {
        data.len() as int
    };
    data.subrange(start, end)
}

/// The header of chunk `index` of a message.
pub open spec fn chunk_header(data: Seq<u8>, msg_id: u32, index: nat) -> AsemicPacketView {
    AsemicPacketView {
        msg_id,
        chunk_num: index as u32,
        total_chunks: chunk_count(data.len()) as u32,
        data: base64_text(chunk_bytes(data, index)),
    }
}

/// Draws the identifier of a new message.
pub fn new_message_id() -> u32 {
    random_u32()
}

/// Splits a serialized message into its chunk headers, in ascending order
/// of chunk number. Each header carries the base64 text of its chunk, and
/// that text decodes to the chunk.
///
/// Whether the serialized header of a chunk fits one datagram is for
/// [`encode_chunk`] to say: the text of a full chunk alone is 1600 bytes.
pub fn split_message(data: &[u8], msg_id: u32) -> (r: Vec<AsemicPacket>)
    requires
        chunk_count(data@.len()) <= u32::MAX,
    ensures
        r@.len() == chunk_count(data@.len()),
        forall|i: int|
            0 <= i < r@.len() ==> (#[trigger] r@[i])@ == chunk_header(data@, msg_id, i as nat),
        forall|i: int|
            0 <= i < r@.len() ==> base64_bytes((#[trigger] r@[i]).data@) == Some(
                chunk_bytes(data@, i as nat),
            ),
{
    let len = data.len();
    let whole = len / CHUNK_SIZE;
    let total: u32 = if len % CHUNK_SIZE > 0 {
        (whole + 1) as u32
    } else {
        whole as u32
    };
    assert(total == chunk_count(len as nat));
    let mut packets: Vec<AsemicPacket> = Vec::new();
    let mut index: u32 = 0;
    let mut start: usize = 0;
    while index < total
        invariant
            len == data@.len(),
            total == chunk_count(len as nat),
            index <= total,
            index < total ==> start == index * CHUNK_SIZE && start < len,
            packets@.len() == index,
            forall|i: int|
                0 <= i < index ==> (#[trigger] packets@[i])@ == chunk_header(
                    data@,
                    msg_id,
                    i as nat,
                ),
            forall|i: int|
                0 <= i < index ==> base64_bytes((#[trigger] packets@[i]).data@) == Some(
                    chunk_bytes(data@, i as nat),
                ),
        decreases total - index,
    {
        let end = if len - start > CHUNK_SIZE {
            start + CHUNK_SIZE
        } else {
            len
        };
        let chunk = &data[start..end];
        assert(chunk@ == chunk_bytes(data@, index as nat));
        let text = base64_encode(chunk);
        packets.push(AsemicPacket { msg_id, chunk_num: index, total_chunks: total, data: text });
        start = end;
        index += 1;
    }
    packets
}

/// Encodes a serialized chunk header into a datagram: frames it and hands
/// the frame to the codec. The datagram decodes under the same key to the
/// header again.
pub fn encode_chunk(header: &[u8], key: &[u8], pattern: ObfuscationPattern) -> (r: Result<
    Vec<u8>,
    CodecError,
>)
    ensures
        r is Ok <==> header@.len() + LENGTH_PREFIX_SIZE + ENVELOPE_OVERHEAD <= MAX_PACKET_SIZE,
        r matches Err(e) ==> e == CodecError::PayloadTooLarge,
        r matches Ok(packet) ==> {
            &&& header@.len() + LENGTH_PREFIX_SIZE + ENVELOPE_OVERHEAD <= packet@.len()
                <= MAX_PACKET_SIZE
            &&& is_packet_for(packet@, key@, frame(header@))
            &&& decoded_frame(packet@, key@) == Some(header@)
        },
{
    if header.len() > MAX_PACKET_SIZE - ENVELOPE_OVERHEAD - LENGTH_PREFIX_SIZE {
        return Err(CodecError::PayloadTooLarge);
    }
    let payload = frame_payload(header);
    match create_packet(payload, key, pattern) {
        Ok(packet) => {
            proof {
                let plaintext = opened_packet(packet@, key@)->0;
                let padding = plaintext.subrange(
                    frame(header@).len() as int,
                    plaintext.len() as int,
                );
                assert(plaintext =~= frame(header@) + padding);
                lemma_frame_round_trip(header@, padding);
            }
            Ok(packet)
        },
        Err(e) => Err(e),
    }
}

/// The context of the most recent send, which cover traffic reuses.
pub struct SendContext {
    pub target: PeerAddr,
    pub key: Seq<char>,
    pub pattern: ObfuscationPattern,
}

/// What the transmitter is to do for a command.
#[derive(Debug, PartialEq, Eq)]
pub enum TransmitAction {
    /// Chunk the content and send each chunk to the target under the key
    /// and the pattern, `CHUNK_SPACING_MILLIS` apart.
    SendChunks {
        target_addr: PeerAddr,
        key: String,
        pattern: ObfuscationPattern,
        content: MessageContent,
    },
    /// Replace the noise timer by one of this period in milliseconds;
    /// `None` disables the ticks.
    ResetTimer(Option<u64>),
}

/// What the transmitter remembers between commands and ticks.
pub struct Transmitter {
    noise_level: NoiseLevel,
    last_target: Option<PeerAddr>,
    last_key: Option<String>,
    last_pattern: ObfuscationPattern,
}

impl Transmitter {
    /// The noise level in force.
    pub closed spec fn level(&self) -> NoiseLevel {
        self.noise_level
    }

    /// The context of the most recent send, if there was one.
    pub closed spec fn context(&self) -> Option<SendContext> {
        match (self.last_target, self.last_key) {
            (Some(target), Some(key)) => Some(
                SendContext { target, key: key@, pattern: self.last_pattern },
            ),
            _ => None,
        }
    }

    /// Whether a tick of the noise timer leads to a datagram.
    pub open spec fn emits_noise(&self) -> bool {
        self.level() != NoiseLevel::Off && self.context() is Some
    }

    /// A transmitter with noise off and without a send context.
    pub fn new() -> (r: Transmitter)
        ensures
            r.level() == NoiseLevel::Off,
            r.context() is None,
    {
        Transmitter {
            noise_level: NoiseLevel::Off,
            last_target: None,
            last_key: None,
            last_pattern: ObfuscationPattern::Starfall,
        }
    }

    /// The noise level in force.
    pub fn noise_level(&self) -> (r: NoiseLevel)
        ensures
            r == self.level(),
    {
        self.noise_level
    }

    /// Takes one command: remembers the context of a send, or the noise
    /// level, and says what is to be done.
    pub fn handle_command(&mut self, command: TransmitCommand) -> (r: TransmitAction)
        ensures
            match command {
                TransmitCommand::SendMessage { target_addr, key, pattern, content } => {
                    &&& final(self).level() == old(self).level()
                    &&& final(self).context() == Some(
                        SendContext { target: target_addr, key: key@, pattern },
                    )
                    &&& r matches TransmitAction::SendChunks {
                        target_addr: to,
                        key: with,
                        pattern: under,
                        content: what,
                    }
                    &&& to == target_addr
                    &&& with@ == key@
                    &&& under == pattern
                    &&& what@ == content@
                },
                TransmitCommand::SetNoiseLevel(level) => {
                    &&& final(self).level() == level
                    &&& final(self).context() == old(self).context()
                    &&& r == TransmitAction::ResetTimer(level.spec_period_millis())
                },
            },
    {
        match command {
            TransmitCommand::SendMessage { target_addr, key, pattern, content } => {
                self.last_target = Some(target_addr);
                self.last_key = Some(key.clone());
                self.last_pattern = pattern;
                TransmitAction::SendChunks { target_addr, key, pattern, content }
            },
            TransmitCommand::SetNoiseLevel(level) => {
                self.noise_level = level;
                TransmitAction::ResetTimer(level.period_millis())
            },
        }
    }

    /// Takes one tick of the noise timer: where noise is on and a message
    /// was sent before, a cover datagram for the target of that message,
    /// made of random bytes under the key of that message.
    pub fn noise_packet(&self) -> (r: Option<(PeerAddr, Vec<u8>)>)
        ensures
            r is Some <==> self.emits_noise(),
            r matches Some((target, packet)) ==> {
                &&& self.context() matches Some(context)
                &&& target == context.target
                &&& is_noise_packet(packet@, key_bytes(context.key))
            },
    {
        if self.noise_level == NoiseLevel::Off {
            return None;
        }
        match (self.last_target, &self.last_key) {
            (Some(target), Some(key)) => {
                let payload = noise_payload();
                let ghost body = payload@;
                match create_packet(payload, key.as_str().as_bytes(), self.last_pattern) {
                    Ok(packet) => {
                        assert(is_packet_for(packet@, key_bytes(key@), body));
                        Some((target, packet))
                    },
                    Err(_) => None,
                }
            },
            _ => None,
        }
    }
}

/// Whether `packet` is a cover datagram under `key`: a datagram that the
/// codec may produce for some payload of a length from `NOISE_MIN_LEN` up
/// to, not including, `NOISE_MAX_LEN`.
pub open spec fn is_noise_packet(packet: Seq<u8>, key: Seq<u8>) -> bool {
    &&& NOISE_MIN_LEN + ENVELOPE_OVERHEAD <= packet.len() <= MAX_PACKET_SIZE
    &&& exists|payload: Seq<u8>|
        NOISE_MIN_LEN <= payload.len() < NOISE_MAX_LEN && #[trigger] is_packet_for(
            packet,
            key,
            payload,
        )
}

/// Draws the payload of a cover datagram: random bytes of a random length
/// from `NOISE_MIN_LEN` up to, not including, `NOISE_MAX_LEN`.
pub fn noise_payload() -> (r: Vec<u8>)
    ensures
        NOISE_MIN_LEN <= r@.len() < NOISE_MAX_LEN,
{
    random_bytes(random_in_range(NOISE_MIN_LEN, NOISE_MAX_LEN - 1))
}

} // verus!
