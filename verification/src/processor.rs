//! The receiving side: trial decryption across keys and patterns, the
//! intake of chunks, and the delivery of completed messages.

use crate::primitives::{base64_bytes, base64_decode, fresh_identifier, utc_now};
use crate::protocol::{decoded_frame, key_bytes, try_decrypt_packet, AsemicPacket};
use crate::reassembly::{arrive, Arrival};
use crate::state::{
    texts_of, AppState, AppStats, DecryptedMessage, DecryptedMessageView, FileContent,
    FileContentView, MessageContent, MessageContentView, ObfuscationPattern, PeerAddr, Timestamp,
    WsNotification,
};
use vstd::prelude::*;

verus! {

/// The place of a trial in the trial order: every key under `Starfall`,
/// then every key under `Sunshine`, the keys in their own order.
pub open spec fn trial_rank(pattern: ObfuscationPattern, key_index: int, key_count: int) -> int {
    match pattern {
        ObfuscationPattern::Starfall => key_index,
        ObfuscationPattern::Sunshine => key_count + key_index,
    }
}

/// Whether a datagram decodes under the key at `key_index`.
pub open spec fn trial_succeeds(packet: Seq<u8>, keys: Seq<Seq<char>>, key_index: int) -> bool {
    decoded_frame(packet, key_bytes(keys[key_index])) is Some
}

/// Whether the datagram decodes under none of the trials whose place in
/// the trial order is at least `from` and less than `to`.
pub open spec fn none_succeeds_between(
    packet: Seq<u8>,
    keys: Seq<Seq<char>>,
    from: int,
    to: int,
) -> bool {
    forall|pattern: ObfuscationPattern, key_index: int|
        #![trigger trial_rank(pattern, key_index, keys.len() as int)]
        0 <= key_index < keys.len() && from <= trial_rank(pattern, key_index, keys.len() as int)
            < to ==> !trial_succeeds(packet, keys, key_index)
}

/// A key and pattern under which a datagram decoded, and the framed body
/// that it held.
#[derive(Debug, PartialEq, Eq)]
pub struct Candidate {
    pub pattern: ObfuscationPattern,
    pub key_index: usize,
    pub key: String,
    pub body: Vec<u8>,
}

impl Candidate {
    /// The place of the candidate in the trial order of `key_count` keys.
    pub open spec fn rank(&self, key_count: int) -> int {
        trial_rank(self.pattern, self.key_index as int, key_count)
    }

    /// Whether the candidate is a trial of these keys under which the
    /// datagram decodes to the candidate's body.
    pub open spec fn decodes(&self, packet: Seq<u8>, keys: Seq<Seq<char>>) -> bool {
        &&& self.key_index < keys.len()
        &&& self.key@ == keys[self.key_index as int]
        &&& decoded_frame(packet, key_bytes(self.key@)) == Some(self.body@)
    }
}

/// Finds the first trial, from the given pattern and key index on, under
/// which the datagram decodes.
///
/// To go on after a candidate that turned out unusable, start again at its
/// pattern and the key index after its own.
pub fn next_candidate(
    packet: &[u8],
    keys: &Vec<String>,
    from_pattern: ObfuscationPattern,
    from_key: usize,
) -> (r: Option<Candidate>)
    requires
        from_key <= keys@.len(),
    ensures
        r matches Some(found) ==> {
            &&& found.decodes(packet@, texts_of(keys@))
            &&& trial_rank(from_pattern, from_key as int, keys@.len() as int) <= found.rank(
                keys@.len() as int,
            )
            &&& none_succeeds_between(
                packet@,
                texts_of(keys@),
                trial_rank(from_pattern, from_key as int, keys@.len() as int),
                found.rank(keys@.len() as int),
            )
        },
        r is None ==> none_succeeds_between(
            packet@,
            texts_of(keys@),
            trial_rank(from_pattern, from_key as int, keys@.len() as int),
            2 * keys@.len() as int,
        ),
{
    let ghost count = keys@.len() as int;
    let ghost texts = texts_of(keys@);
    let ghost start = trial_rank(from_pattern, from_key as int, count);
    let mut pattern = from_pattern;
    let mut key_index = from_key;
    loop
        invariant
            count == keys@.len(),
            texts == texts_of(keys@),
            start == trial_rank(from_pattern, from_key as int, count),
            key_index <= keys@.len(),
            start <= trial_rank(pattern, key_index as int, count),
            none_succeeds_between(
                packet@,
                texts,
                start,
                trial_rank(pattern, key_index as int, count),
            ),
        decreases
                (if pattern == ObfuscationPattern::Starfall {
                    2 * count + 1
                } else {
                    count
                }) - key_index,
    {
        if key_index < keys.len() {
            let key = &keys[key_index];
            assert(texts[key_index as int] == key@);
            match try_decrypt_packet(packet, key.as_str().as_bytes(), pattern) {
                Some(body) => {
                    return Some(Candidate { pattern, key_index, key: key.clone(), body });
                },
                None => {
                    key_index += 1;
                },
            }
        } else {
            match pattern {
                ObfuscationPattern::Starfall => {
                    pattern = ObfuscationPattern::Sunshine;
                    key_index = 0;
                },
                ObfuscationPattern::Sunshine => {
                    return None;
                },
            }
        }
    }
}

/// Finds the first trial in the whole trial order under which the datagram
/// decodes; `None` where it decodes under no key, which makes it noise.
pub fn first_candidate(packet: &[u8], keys: &Vec<String>) -> (r: Option<Candidate>)
    ensures
        r is None <==> forall|key_index: int|
            0 <= key_index < keys@.len() ==> !trial_succeeds(packet@, texts_of(keys@), key_index),
        r matches Some(found) ==> {
            &&& found.pattern == ObfuscationPattern::Starfall
            &&& found.decodes(packet@, texts_of(keys@))
            &&& forall|key_index: int|
                0 <= key_index < found.key_index ==> !trial_succeeds(
                    packet@,
                    texts_of(keys@),
                    key_index,
                )
        },
{
    let r = next_candidate(packet, keys, ObfuscationPattern::Starfall, 0);
    proof {
        let count = keys@.len() as int;
        let texts = texts_of(keys@);
        assert(texts.len() == count);
        if r is Some {
            let found = r->0;
            let at = found.key_index as int;
            assert(trial_succeeds(packet@, texts, at));
            if found.pattern == ObfuscationPattern::Sunshine {
                assert(trial_rank(ObfuscationPattern::Starfall, at, count) < found.rank(count));
            }
            assert forall|key_index: int| 0 <= key_index < at implies !trial_succeeds(
                packet@,
                texts,
                key_index,
            ) by {
                assert(trial_rank(ObfuscationPattern::Starfall, key_index, count) < found.rank(
                    count,
                ));
            }
        } else {
            assert forall|key_index: int| 0 <= key_index < count implies !trial_succeeds(
                packet@,
                texts,
                key_index,
            ) by {
                assert(0 <= trial_rank(ObfuscationPattern::Starfall, key_index, count) < 2
                    * count);
            }
        }
    }
    r
}

/// What is to be done next with a datagram.
#[derive(Debug, PartialEq, Eq)]
pub enum ReceiveStep {
    /// The datagram decoded under a key: read the candidate's body as a
    /// chunk header and report with [`Reception::header_read`].
    ReadHeader(Candidate),
    /// The datagram is done with: its chunk was taken, or no further trial
    /// decodes it. It is to be reported as noise where no header was read
    /// under any key.
    Finished { noise: bool },
}

/// What reading a chunk header led to.
#[derive(Debug, PartialEq, Eq)]
pub enum HeaderStep {
    /// Nothing arrived: the body held no header, the header no base64 data,
    /// or the datagram was done with before. Go on with the next trial.
    TryNext,
    /// The chunk arrived, and the datagram is done with. An assembled
    /// message is to be read as content and delivered under the candidate's
    /// key and pattern.
    Taken(Arrival),
}

/// The progress of one datagram through the trial order.
///
/// A datagram contributes to at most one session: once a chunk of it was
/// taken, no further trial is made and no further header is accepted.
pub struct Reception {
    packet: Vec<u8>,
    keys: Vec<String>,
    pattern: ObfuscationPattern,
    key_index: usize,
    decrypted: bool,
    settled: bool,
}

impl Reception {
    #[verifier::type_invariant]
    spec fn well_formed(self) -> bool {
        &&& self.key_index <= self.keys@.len()
        &&& self.settled ==> self.decrypted
    }

    /// The datagram.
    pub closed spec fn datagram(&self) -> Seq<u8> {
        self.packet@
    }

    /// The keys against which the datagram is tried, in trial order.
    pub closed spec fn key_texts(&self) -> Seq<Seq<char>> {
        texts_of(self.keys@)
    }

    /// The place in the trial order of the next trial.
    pub closed spec fn next_rank(&self) -> int {
        trial_rank(self.pattern, self.key_index as int, self.keys@.len() as int)
    }

    /// Whether a chunk header was read under some key.
    pub closed spec fn header_seen(&self) -> bool {
        self.decrypted
    }

    /// Whether a chunk of the datagram was taken.
    pub closed spec fn chunk_taken(&self) -> bool {
        self.settled
    }

    /// Starts a datagram at the head of the trial order of a snapshot of
    /// the keys.
    pub fn new(packet: Vec<u8>, keys: Vec<String>) -> (r: Reception)
        ensures
            r.datagram() == packet@,
            r.key_texts() == texts_of(keys@),
            r.next_rank() == 0,
            !r.header_seen(),
            !r.chunk_taken(),
    {
        Reception {
            packet,
            keys,
            pattern: ObfuscationPattern::Starfall,
            key_index: 0,
            decrypted: false,
            settled: false,
        }
    }

    /// The length of the datagram.
    pub fn size(&self) -> (r: usize)
        ensures
            r == self.datagram().len(),
    {
        self.packet.len()
    }

    /// Moves to the next trial under which the datagram decodes, unless a
    /// chunk of the datagram was taken already.
    pub fn next_trial(&mut self) -> (r: ReceiveStep)
        ensures
            final(self).datagram() == old(self).datagram(),
            final(self).key_texts() == old(self).key_texts(),
            final(self).header_seen() == old(self).header_seen(),
            final(self).chunk_taken() == old(self).chunk_taken(),
            old(self).chunk_taken() ==> r == (ReceiveStep::Finished { noise: false })
                && final(self).next_rank() == old(self).next_rank(),
            !old(self).chunk_taken() ==> match r {
                ReceiveStep::ReadHeader(found) => {
                    let count = old(self).key_texts().len() as int;
                    &&& found.decodes(old(self).datagram(), old(self).key_texts())
                    &&& old(self).next_rank() <= found.rank(count)
                    &&& final(self).next_rank() == found.rank(count) + 1
                    &&& none_succeeds_between(
                        old(self).datagram(),
                        old(self).key_texts(),
                        old(self).next_rank(),
                        found.rank(count),
                    )
                },
                ReceiveStep::Finished { noise } => {
                    &&& noise == !old(self).header_seen()
                    &&& final(self).next_rank() == old(self).next_rank()
                    &&& none_succeeds_between(
                        old(self).datagram(),
                        old(self).key_texts(),
                        old(self).next_rank(),
                        2 * old(self).key_texts().len() as int,
                    )
                },
            },
    {
        proof {
            use_type_invariant(&*self);
        }
        if self.settled {
            return ReceiveStep::Finished { noise: false };
        }
        let count = self.keys.len();
        match next_candidate(self.packet.as_slice(), &self.keys, self.pattern, self.key_index) {
            Some(found) => {
                assert(found.key_index < count) by {
                    assert(texts_of(self.keys@).len() == count);
                }
                self.pattern = found.pattern;
                self.key_index = found.key_index + 1;
                ReceiveStep::ReadHeader(found)
            },
            None => ReceiveStep::Finished { noise: !self.decrypted },
        }
    }

    /// Takes what reading a candidate's body gave: a chunk header, or
    /// `None` where the body held none.
    ///
    /// A header counts as read, so that the datagram is no noise. Its chunk
    /// arrives as [`accept_chunk`] says, unless its data is not base64 text.
    /// Once a chunk was taken, further headers change nothing.
    pub fn header_read(
        &mut self,
        state: &mut AppState,
        sender: PeerAddr,
        header: Option<AsemicPacket>,
    ) -> (r: HeaderStep)
        ensures
            final(self).datagram() == old(self).datagram(),
            final(self).key_texts() == old(self).key_texts(),
            final(self).next_rank() == old(self).next_rank(),
            final(self).header_seen() == (old(self).header_seen() || header is Some),
            final(self).chunk_taken() == (old(self).chunk_taken() || r is Taken),
            match header {
                Some(packet) if !old(self).chunk_taken() => match base64_bytes(packet.data@) {
                    Some(bytes) => {
                        &&& r matches HeaderStep::Taken(arrival)
                        &&& (final(state).sessions(), arrival@) == arrive(
                            old(state).sessions(),
                            (sender, packet.msg_id),
                            packet.chunk_num,
                            packet.total_chunks,
                            bytes,
                        )
                        &&& final(state).same_but_sessions(old(state))
                        &&& arrival is Assembled ==> packet.total_chunks >= 1 && packet.chunk_num
                            < packet.total_chunks
                    },
                    None => r is TryNext && *final(state) == *old(state),
                },
                _ => r is TryNext && *final(state) == *old(state),
            },
    {
        proof {
            use_type_invariant(&*self);
        }
        match header {
            None => HeaderStep::TryNext,
            Some(packet) => {
                self.decrypted = true;
                if self.settled {
                    return HeaderStep::TryNext;
                }
                match accept_chunk(state, sender, &packet) {
                    Some(arrival) => {
                        self.settled = true;
                        HeaderStep::Taken(arrival)
                    },
                    None => HeaderStep::TryNext,
                }
            },
        }
    }
}

/// The event for the observers that a datagram decoded under no key.
pub fn noise_notification(sender: PeerAddr, size: usize) -> (r: WsNotification)
    ensures
        r == (WsNotification::NoisePacket { sender, size }),
{
    WsNotification::NoisePacket { sender, size }
}

/// Takes in the chunk of a decoded header.
///
/// Where the data of the header is not base64 text, nothing changes and the
/// result is `None`. Otherwise the decoded bytes arrive in the session of
/// the sender and the message: see [`arrive`].
pub fn accept_chunk(state: &mut AppState, sender: PeerAddr, packet: &AsemicPacket) -> (r: Option<
    Arrival,
>)
    ensures
        base64_bytes(packet.data@) is None ==> r is None && *final(state) == *old(state),
        base64_bytes(packet.data@) matches Some(bytes) ==> {
            &&& r matches Some(arrival)
            &&& (final(state).sessions(), arrival@) == arrive(
                old(state).sessions(),
                (sender, packet.msg_id),
                packet.chunk_num,
                packet.total_chunks,
                bytes,
            )
            &&& final(state).same_but_sessions(old(state))
            &&& arrival is Assembled ==> packet.total_chunks >= 1 && packet.chunk_num
                < packet.total_chunks
        },
{
    match base64_decode(packet.data.as_str()) {
        Ok(bytes) => Some(
            state.insert_chunk(sender, packet.msg_id, packet.chunk_num, packet.total_chunks, bytes),
        ),
        Err(_) => None,
    }
}

/// The content as the log and the observers get it: a file without its
/// bytes and with the identifier under which the bytes were stored; text
/// as it is.
pub open spec fn delivered_content(content: MessageContentView, file_id: u128) -> MessageContentView {
    match content {
        MessageContentView::File(file) => MessageContentView::File(
            FileContentView { filename: file.filename, data: Seq::empty(), id: Some(file_id) },
        ),
        MessageContentView::Text(text) => MessageContentView::Text(text),
    }
}

/// The stored files after a delivery: the bytes of a delivered file are
/// kept under the new identifier.
pub open spec fn delivered_files(
    files: Map<u128, (Seq<char>, Seq<u8>)>,
    content: MessageContentView,
    file_id: u128,
) -> Map<u128, (Seq<char>, Seq<u8>)> {
    match content {
        MessageContentView::File(file) => files.insert(file_id, (file.filename, file.data)),
        MessageContentView::Text(_) => files,
    }
}

/// Whether `after` and `message` are what delivering `content` to `before`
/// gives, with these identifiers and this time.
pub open spec fn is_delivery(
    before: &AppState,
    after: &AppState,
    message: DecryptedMessageView,
    message_id: u128,
    file_id: u128,
    timestamp: Timestamp,
    sender: PeerAddr,
    content: MessageContentView,
    key: Seq<char>,
    pattern: ObfuscationPattern,
) -> bool {
    &&& message == DecryptedMessageView {
        id: message_id,
        timestamp,
        sender,
        content: delivered_content(content, file_id),
        decrypted_with_key: key,
        decrypted_with_pattern: pattern,
    }
    &&& after.message_log() == before.message_log().push(message)
    &&& after.files() == delivered_files(before.files(), content, file_id)
    &&& after.counters() == AppStats {
        messages_decrypted: (before.counters().messages_decrypted + 1) as u64,
        ..before.counters()
    }
    &&& after.key_texts() == before.key_texts()
    &&& after.sessions() == before.sessions()
    &&& after.downloads_dir() == before.downloads_dir()
}

/// Delivers a completed message with the given identifiers and time.
///
/// This is the deterministic part of [`deliver`].
pub fn deliver_with(
    state: &mut AppState,
    message_id: u128,
    file_id: u128,
    timestamp: Timestamp,
    sender: PeerAddr,
    content: MessageContent,
    key: String,
    pattern: ObfuscationPattern,
) -> (r: DecryptedMessage)
    requires
        old(state).counters().messages_decrypted < old(state).counters().packets_received,
    ensures
        is_delivery(
            old(state),
            final(state),
            r@,
            message_id,
            file_id,
            timestamp,
            sender,
            content@,
            key@,
            pattern,
        ),
{
    let shown = match content {
        MessageContent::File(file) => {
            let shown = MessageContent::File(
                FileContent { filename: file.filename.clone(), data: Vec::new(), id: Some(file_id) },
            );
            state.store_file(file_id, file.filename, file.data);
            shown
        },
        MessageContent::Text(text) => MessageContent::Text(text),
    };
    let message = DecryptedMessage {
        id: message_id,
        timestamp,
        sender,
        content: shown,
        decrypted_with_key: key,
        decrypted_with_pattern: pattern,
    };
    let copy = message.duplicate();
    state.append_message(message);
    copy
}

/// Delivers a completed message: gives it a fresh identifier and the
/// current time, keeps the bytes of a file under a fresh identifier of its
/// own, appends the message to the log and counts it.
pub fn deliver(
    state: &mut AppState,
    sender: PeerAddr,
    content: MessageContent,
    key: String,
    pattern: ObfuscationPattern,
) -> (r: DecryptedMessage)
    requires
        old(state).counters().messages_decrypted < old(state).counters().packets_received,
    ensures
        exists|message_id: u128, file_id: u128, timestamp: Timestamp|
            #[trigger] is_delivery(
                old(state),
                final(state),
                r@,
                message_id,
                file_id,
                timestamp,
                sender,
                content@,
                key@,
                pattern,
            ),
{
    let file_id = match content {
        MessageContent::File(_) => fresh_identifier(),
        MessageContent::Text(_) => 0,
    };
    let message_id = fresh_identifier();
    let timestamp = utc_now();
    deliver_with(state, message_id, file_id, timestamp, sender, content, key, pattern)
}

} // verus!
