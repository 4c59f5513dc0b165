//! Shared data types of the transport and the state that its tasks share.

use crate::reassembly::{arrive, Arrival, ChunkMap, ReassemblyBuffer, SessionKey};
use std::collections::HashMap;
use std::path::PathBuf;
use vstd::prelude::*;

verus! {

broadcast use vstd::std_specs::hash::group_hash_axioms;

/// The envelope variant that a sender declares for its datagrams.
#[derive(Clone, Copy, Debug, PartialEq, Eq, Structural)]
pub enum ObfuscationPattern {
    Sunshine,
    Starfall,
}

/// How often cover traffic is emitted.
#[derive(Clone, Copy, Debug, PartialEq, Eq, Structural)]
pub enum NoiseLevel {
    Off,
    Slow,
    Medium,
    Fast,
}

impl NoiseLevel {
    /// The tick period of a noise level in milliseconds; `None` where cover
    /// traffic is disabled.
    pub open spec fn spec_period_millis(self) -> Option<u64> {
        match self {
            NoiseLevel::Off => None,
            NoiseLevel::Slow => Some(2000),
            NoiseLevel::Medium => Some(500),
            NoiseLevel::Fast => Some(100),
        }
    }

    /// The tick period of a noise level in milliseconds; `None` where cover
    /// traffic is disabled.
    #[verifier::when_used_as_spec(spec_period_millis)]
    pub fn period_millis(self) -> (r: Option<u64>)
        ensures
            r == self.spec_period_millis(),
    {
        match self {
            NoiseLevel::Off => None,
            NoiseLevel::Slow => Some(2000),
            NoiseLevel::Medium => Some(500),
            NoiseLevel::Fast => Some(100),
        }
    }
}

/// A socket address as plain numbers: an IPv4 or IPv6 endpoint.
#[derive(Clone, Copy, Debug, PartialEq, Eq, Structural, Hash)]
#[allow(inconsistent_fields)]
pub enum PeerAddr {
    V4 { ip: u32, port: u16 },
    V6 { ip: u128, port: u16, flowinfo: u32, scope_id: u32 },
}

/// An instant in UTC: whole seconds since the Unix epoch and the nanoseconds
/// within the second.
#[derive(Clone, Copy, Debug, PartialEq, Eq, Structural)]
pub struct Timestamp {
    pub seconds: i64,
    pub nanos: u32,
}

/// A file carried by a message.
#[derive(Clone, Debug, PartialEq, Eq)]
pub struct FileContent {
    pub filename: String,
    pub data: Vec<u8>,
    /// The identifier under which the receiver stored the file.
    pub id: Option<u128>,
}

/// The mathematical value of a [`FileContent`].
pub struct FileContentView {
    pub filename: Seq<char>,
    pub data: Seq<u8>,
    pub id: Option<u128>,
}

impl View for FileContent {
    type V = FileContentView;

    open spec fn view(&self) -> FileContentView {
        FileContentView { filename: self.filename@, data: self.data@, id: self.id }
    }
}

impl FileContent {
    /// A copy with the same value.
    pub fn duplicate(&self) -> (r: FileContent)
        ensures
            r@ == self@,
    {
        FileContent { filename: self.filename.clone(), data: self.data.clone(), id: self.id }
    }
}

/// A complete logical message: text, or a file.
#[derive(Clone, Debug, PartialEq, Eq)]
pub enum MessageContent {
    Text(String),
    File(FileContent),
}

/// The mathematical value of a [`MessageContent`].
pub enum MessageContentView {
    Text(Seq<char>),
    File(FileContentView),
}

impl View for MessageContent {
    type V = MessageContentView;

    open spec fn view(&self) -> MessageContentView {
        match self {
            MessageContent::Text(text) => MessageContentView::Text(text@),
            MessageContent::File(file) => MessageContentView::File(file@),
        }
    }
}

impl MessageContent {
    /// A copy with the same value.
    pub fn duplicate(&self) -> (r: MessageContent)
        ensures
            r@ == self@,
    {
        match self {
            MessageContent::Text(text) => MessageContent::Text(text.clone()),
            MessageContent::File(file) => MessageContent::File(file.duplicate()),
        }
    }
}

/// Request body: a key to add or remove.
#[derive(Debug)]
pub struct AddKeyPayload {
    pub key: String,
}

/// Request body: a message to send.
#[derive(Debug)]
pub struct SendMessagePayload {
    pub target_addr: String,
    pub key: String,
    pub pattern: ObfuscationPattern,
    pub content: MessageContent,
}

/// Request body: the noise level to set.
#[derive(Debug)]
pub struct SetNoisePayload {
    pub level: NoiseLevel,
}

/// A command for the transmitter.
#[derive(Debug, PartialEq, Eq)]
pub enum TransmitCommand {
    SendMessage {
        target_addr: PeerAddr,
        key: String,
        pattern: ObfuscationPattern,
        content: MessageContent,
    },
    SetNoiseLevel(NoiseLevel),
}

impl SendMessagePayload {
    /// The command that sends this message to the address that its target
    /// resolved to.
    pub fn into_command(self, target_addr: PeerAddr) -> (r: TransmitCommand)
        ensures
            r matches TransmitCommand::SendMessage { target_addr: to, key, pattern, content }
                && to == target_addr && key@ == self.key@ && pattern == self.pattern && content@
                == self.content@,
    {
        TransmitCommand::SendMessage {
            target_addr,
            key: self.key,
            pattern: self.pattern,
            content: self.content,
        }
    }
}

impl SetNoisePayload {
    /// The command that sets this noise level.
    pub fn into_command(self) -> (r: TransmitCommand)
        ensures
            r == TransmitCommand::SetNoiseLevel(self.level),
    {
        TransmitCommand::SetNoiseLevel(self.level)
    }
}

/// A delivered message.
#[derive(Clone, Debug, PartialEq, Eq)]
pub struct DecryptedMessage {
    pub id: u128,
    pub timestamp: Timestamp,
    pub sender: PeerAddr,
    pub content: MessageContent,
    pub decrypted_with_key: String,
    pub decrypted_with_pattern: ObfuscationPattern,
}

/// The mathematical value of a [`DecryptedMessage`].
pub struct DecryptedMessageView {
    pub id: u128,
    pub timestamp: Timestamp,
    pub sender: PeerAddr,
    pub content: MessageContentView,
    pub decrypted_with_key: Seq<char>,
    pub decrypted_with_pattern: ObfuscationPattern,
}

impl View for DecryptedMessage {
    type V = DecryptedMessageView;

    open spec fn view(&self) -> DecryptedMessageView {
        DecryptedMessageView {
            id: self.id,
            timestamp: self.timestamp,
            sender: self.sender,
            content: self.content@,
            decrypted_with_key: self.decrypted_with_key@,
            decrypted_with_pattern: self.decrypted_with_pattern,
        }
    }
}

impl DecryptedMessage {
    /// A copy with the same value.
    pub fn duplicate(&self) -> (r: DecryptedMessage)
        ensures
            r@ == self@,
    {
        DecryptedMessage {
            id: self.id,
            timestamp: self.timestamp,
            sender: self.sender,
            content: self.content.duplicate(),
            decrypted_with_key: self.decrypted_with_key.clone(),
            decrypted_with_pattern: self.decrypted_with_pattern,
        }
    }
}

/// An event for the observers of the control plane.
#[derive(Clone, Debug, PartialEq, Eq)]
pub enum WsNotification {
    FullState { keys: Vec<String>, messages: Vec<DecryptedMessage>, stats: AppStats },
    NewMessage(DecryptedMessage),
    NoisePacket { sender: PeerAddr, size: usize },
    KeyUpdate(Vec<String>),
    StatsUpdate(AppStats),
}

/// Counters of the traffic seen so far.
#[derive(Clone, Copy, Debug, PartialEq, Eq, Structural)]
pub struct AppStats {
    pub packets_sent: u64,
    pub packets_received: u64,
    pub noise_packets_sent: u64,
    pub messages_decrypted: u64,
}

impl Default for AppStats {
    fn default() -> (r: AppStats)
        ensures
            r == (AppStats {
                packets_sent: 0,
                packets_received: 0,
                noise_packets_sent: 0,
                messages_decrypted: 0,
            }),
    {
        AppStats { packets_sent: 0, packets_received: 0, noise_packets_sent: 0, messages_decrypted: 0 }
    }
}

/// The texts of a list of keys.
pub open spec fn texts_of(keys: Seq<String>) -> Seq<Seq<char>> {
    Seq::new(keys.len(), |i: int| keys[i]@)
}

/// The values of a list of messages.
pub open spec fn values_of(messages: Seq<DecryptedMessage>) -> Seq<DecryptedMessageView> {
    Seq::new(messages.len(), |i: int| messages[i]@)
}

/// A copy of a list of keys with the same texts.
pub fn duplicate_keys(keys: &Vec<String>) -> (r: Vec<String>)
    ensures
        texts_of(r@) == texts_of(keys@),
{
    let mut r: Vec<String> = Vec::with_capacity(keys.len());
    let mut i: usize = 0;
    while i < keys.len()
        invariant
            i <= keys@.len(),
            r@.len() == i,
            forall|j: int| 0 <= j < i ==> r@[j]@ == keys@[j]@,
        decreases keys@.len() - i,
    {
        r.push(keys[i].clone());
        i += 1;
    }
    assert(texts_of(r@) =~= texts_of(keys@));
    r
}

/// A copy of a list of messages with the same values.
pub fn duplicate_messages(messages: &Vec<DecryptedMessage>) -> (r: Vec<DecryptedMessage>)
    ensures
        values_of(r@) == values_of(messages@),
{
    let mut r: Vec<DecryptedMessage> = Vec::with_capacity(messages.len());
    let mut i: usize = 0;
    while i < messages.len()
        invariant
            i <= messages@.len(),
            r@.len() == i,
            forall|j: int| 0 <= j < i ==> r@[j]@ == messages@[j]@,
        decreases messages@.len() - i,
    {
        r.push(messages[i].duplicate());
        i += 1;
    }
    assert(values_of(r@) =~= values_of(messages@));
    r
}

/// A list of keys without every occurrence of one key, order kept.
pub open spec fn without_key(keys: Seq<Seq<char>>, key: Seq<char>) -> Seq<Seq<char>>
    decreases keys.len(),
{
    if keys.len() == 0 {
        keys
    } else if keys.last() == key {
        without_key(keys.drop_last(), key)
    } else {
        without_key(keys.drop_last(), key).push(keys.last())
    }
}

/// Removing a key that is not in the list changes nothing.
pub proof fn lemma_without_absent_key(keys: Seq<Seq<char>>, key: Seq<char>)
    requires
        !keys.contains(key),
    ensures
        without_key(keys, key) == keys,
    decreases keys.len(),
{
    if keys.len() > 0 {
        assert(keys.last() == keys[keys.len() - 1]);
        assert forall|i: int| 0 <= i < keys.drop_last().len() implies keys.drop_last()[i]
            != key by {
            assert(keys.drop_last()[i] == keys[i]);
        }
        lemma_without_absent_key(keys.drop_last(), key);
        assert(keys.drop_last().push(keys.last()) =~= keys);
    }
}

/// In a list without duplicates, removing a key takes out the one position
/// that holds it.
pub proof fn lemma_without_present_key(keys: Seq<Seq<char>>, key: Seq<char>, at: int)
    requires
        keys.no_duplicates(),
        0 <= at < keys.len(),
        keys[at] == key,
    ensures
        without_key(keys, key) == keys.remove(at),
    decreases keys.len(),
{
    let front = keys.drop_last();
    if at == keys.len() - 1 {
        assert forall|i: int| 0 <= i < front.len() implies front[i] != key by {
            assert(front[i] == keys[i]);
        }
        lemma_without_absent_key(front, key);
        assert(front =~= keys.remove(at));
    } else {
        assert(keys.last() != key);
        assert(front.no_duplicates()) by {
            assert forall|i: int, j: int| 0 <= i < front.len() && 0 <= j < front.len() && i
                != j implies front[i] != front[j] by {
                assert(front[i] == keys[i] && front[j] == keys[j]);
            }
        }
        lemma_without_present_key(front, key, at);
        assert(front.remove(at).push(keys.last()) =~= keys.remove(at));
    }
}

/// The stored files as values.
spec fn file_values(files: Map<u128, (String, Vec<u8>)>) -> Map<u128, (Seq<char>, Seq<u8>)> {
    Map::new(|id: u128| files.dom().contains(id), |id: u128| (files[id].0@, files[id].1@))
}

/// The position of a key in a list of keys.
fn find_key(keys: &Vec<String>, key: &String) -> (r: Option<usize>)
    ensures
        r is Some <==> texts_of(keys@).contains(key@),
        r matches Some(at) ==> at < keys@.len() && keys@[at as int]@ == key@,
{
    let mut at: usize = 0;
    while at < keys.len()
        invariant
            at <= keys@.len(),
            forall|i: int| 0 <= i < at ==> keys@[i]@ != key@,
        decreases keys@.len() - at,
    {
        if keys[at] == *key {
            assert(texts_of(keys@)[at as int] == key@);
            return Some(at);
        }
        at += 1;
    }
    assert forall|i: int| 0 <= i < texts_of(keys@).len() implies texts_of(keys@)[i] != key@ by {
        assert(texts_of(keys@)[i] == keys@[i]@);
    }
    None
}

/// The state that the receiver, the transmitter and the control plane
/// share: keys in trial order, the log of delivered messages, received
/// files, sessions in progress and the counters.
///
/// At all times the keys are distinct and not empty, and no more messages
/// were delivered than datagrams received.
pub struct AppState {
    keys: Vec<String>,
    messages: Vec<DecryptedMessage>,
    received_files: HashMap<u128, (String, Vec<u8>)>,
    reassembly_buffer: ReassemblyBuffer,
    downloads_path: PathBuf,
    stats: AppStats,
}

impl AppState {
    #[verifier::type_invariant]
    spec fn well_formed(self) -> bool {
        &&& texts_of(self.keys@).no_duplicates()
        &&& forall|i: int| 0 <= i < self.keys@.len() ==> (#[trigger] self.keys@[i])@.len() > 0
        &&& self.stats.messages_decrypted <= self.stats.packets_received
    }

    /// The keys, in trial order.
    pub closed spec fn key_texts(&self) -> Seq<Seq<char>> {
        texts_of(self.keys@)
    }

    /// The delivered messages, oldest first.
    pub closed spec fn message_log(&self) -> Seq<DecryptedMessageView> {
        values_of(self.messages@)
    }

    /// The received files: identifier to name and bytes.
    pub closed spec fn files(&self) -> Map<u128, (Seq<char>, Seq<u8>)> {
        file_values(self.received_files@)
    }

    /// The sessions in progress, each with the chunks it holds.
    pub closed spec fn sessions(&self) -> Map<SessionKey, ChunkMap> {
        self.reassembly_buffer@
    }

    /// The directory that received files are written to.
    pub closed spec fn downloads_dir(&self) -> PathBuf {
        self.downloads_path
    }

    /// The counters.
    pub closed spec fn counters(&self) -> AppStats {
        self.stats
    }

    /// Whether two states differ at most in their keys.
    pub open spec fn same_but_keys(&self, other: &AppState) -> bool {
        &&& self.message_log() == other.message_log()
        &&& self.files() == other.files()
        &&& self.sessions() == other.sessions()
        &&& self.downloads_dir() == other.downloads_dir()
        &&& self.counters() == other.counters()
    }

    /// Whether two states differ at most in their sessions.
    pub open spec fn same_but_sessions(&self, other: &AppState) -> bool {
        &&& self.key_texts() == other.key_texts()
        &&& self.message_log() == other.message_log()
        &&& self.files() == other.files()
        &&& self.downloads_dir() == other.downloads_dir()
        &&& self.counters() == other.counters()
    }

    /// A state without keys, messages, files or sessions, and with all
    /// counters at zero.
    pub fn new(downloads_path: PathBuf) -> (r: AppState)
        ensures
            r.key_texts() == Seq::<Seq<char>>::empty(),
            r.message_log() == Seq::<DecryptedMessageView>::empty(),
            r.files() == Map::<u128, (Seq<char>, Seq<u8>)>::empty(),
            r.sessions() == Map::<SessionKey, ChunkMap>::empty(),
            r.downloads_dir() == downloads_path,
            r.counters() == (AppStats {
                packets_sent: 0,
                packets_received: 0,
                noise_packets_sent: 0,
                messages_decrypted: 0,
            }),
    {
        let r = AppState {
            keys: Vec::new(),
            messages: Vec::new(),
            received_files: HashMap::new(),
            reassembly_buffer: ReassemblyBuffer::new(),
            downloads_path,
            stats: AppStats::default(),
        };
        assert(r.key_texts() =~= Seq::<Seq<char>>::empty());
        assert(r.message_log() =~= Seq::<DecryptedMessageView>::empty());
        assert(r.files() =~= Map::<u128, (Seq<char>, Seq<u8>)>::empty());
        r
    }

    /// The keys, in trial order: distinct, and none of them empty.
    pub fn keys(&self) -> (r: &Vec<String>)
        ensures
            texts_of(r@) == self.key_texts(),
            texts_of(r@).no_duplicates(),
            forall|i: int| 0 <= i < r@.len() ==> (#[trigger] r@[i])@.len() > 0,
    {
        proof {
            use_type_invariant(self);
        }
        &self.keys
    }

    /// The delivered messages, oldest first.
    pub fn messages(&self) -> (r: &Vec<DecryptedMessage>)
        ensures
            values_of(r@) == self.message_log(),
    {
        &self.messages
    }

    /// The directory that received files are written to.
    pub fn downloads_path(&self) -> (r: &PathBuf)
        ensures
            *r == self.downloads_dir(),
    {
        &self.downloads_path
    }

    /// The counters. No more messages were delivered than datagrams
    /// received.
    pub fn stats(&self) -> (r: AppStats)
        ensures
            r == self.counters(),
            r.messages_decrypted <= r.packets_received,
    {
        proof {
            use_type_invariant(self);
        }
        self.stats
    }

    /// The name and bytes of a received file, or `None` where no file is
    /// stored under the identifier.
    pub fn lookup_file(&self, id: u128) -> (r: Option<(String, Vec<u8>)>)
        ensures
            r is Some <==> self.files().dom().contains(id),
            r matches Some(file) ==> (file.0@, file.1@) == self.files()[id],
    {
        match self.received_files.get(&id) {
            Some(file) => Some((file.0.clone(), file.1.clone())),
            None => None,
        }
    }

    /// Adds a key at the end of the trial order, unless it is empty or
    /// already there, and reports the keys to the observers either way.
    pub fn add_key(&mut self, key: String) -> (r: WsNotification)
        ensures
            final(self).key_texts() == if key@.len() > 0 && !old(self).key_texts().contains(key@) {
                old(self).key_texts().push(key@)
            } else {
                old(self).key_texts()
            },
            final(self).same_but_keys(old(self)),
            r matches WsNotification::KeyUpdate(keys) && texts_of(keys@) == final(self).key_texts(),
    {
        proof {
            use_type_invariant(&*self);
        }
        let mut keys: Vec<String> = Vec::new();
        std::mem::swap(&mut keys, &mut self.keys);
        if !key.as_str().is_empty() && find_key(&keys, &key).is_none() {
            let ghost before = texts_of(keys@);
            keys.push(key);
            assert(texts_of(keys@) =~= before.push(key@));
        }
        let snapshot = duplicate_keys(&keys);
        self.keys = keys;
        WsNotification::KeyUpdate(snapshot)
    }

    /// Removes a key, keeps the order of the others, and reports the keys
    /// to the observers.
    pub fn remove_key(&mut self, key: &String) -> (r: WsNotification)
        ensures
            final(self).key_texts() == without_key(old(self).key_texts(), key@),
            final(self).same_but_keys(old(self)),
            r matches WsNotification::KeyUpdate(keys) && texts_of(keys@) == final(self).key_texts(),
    {
        proof {
            use_type_invariant(&*self);
        }
        let mut keys: Vec<String> = Vec::new();
        std::mem::swap(&mut keys, &mut self.keys);
        let ghost before = texts_of(keys@);
        match find_key(&keys, key) {
            Some(at) => {
                proof {
                    lemma_without_present_key(before, key@, at as int);
                }
                keys.remove(at);
                assert(texts_of(keys@) =~= before.remove(at as int));
            },
            None => {
                proof {
                    lemma_without_absent_key(before, key@);
                }
            },
        }
        let snapshot = duplicate_keys(&keys);
        self.keys = keys;
        WsNotification::KeyUpdate(snapshot)
    }

    /// Everything a new observer is told: keys, messages and counters.
    pub fn full_state(&self) -> (r: WsNotification)
        ensures
            r matches WsNotification::FullState { keys, messages, stats } && texts_of(keys@)
                == self.key_texts() && values_of(messages@) == self.message_log() && stats
                == self.counters(),
    {
        WsNotification::FullState {
            keys: duplicate_keys(&self.keys),
            messages: duplicate_messages(&self.messages),
            stats: self.stats,
        }
    }

    /// Counts one received datagram and reports the counters to the
    /// observers.
    pub fn record_packet(&mut self) -> (r: WsNotification)
        requires
            old(self).counters().packets_received < u64::MAX,
        ensures
            final(self).counters() == (AppStats {
                packets_received: (old(self).counters().packets_received + 1) as u64,
                ..old(self).counters()
            }),
            final(self).key_texts() == old(self).key_texts(),
            final(self).message_log() == old(self).message_log(),
            final(self).files() == old(self).files(),
            final(self).sessions() == old(self).sessions(),
            final(self).downloads_dir() == old(self).downloads_dir(),
            r == WsNotification::StatsUpdate(final(self).counters()),
    {
        proof {
            use_type_invariant(&*self);
        }
        let stats = AppStats { packets_received: self.stats.packets_received + 1, ..self.stats };
        self.stats = stats;
        WsNotification::StatsUpdate(stats)
    }

    /// Takes in one chunk: see [`ReassemblyBuffer::insert_chunk`].
    pub fn insert_chunk(
        &mut self,
        sender: PeerAddr,
        msg_id: u32,
        chunk_num: u32,
        total_chunks: u32,
        data: Vec<u8>,
    ) -> (r: Arrival)
        ensures
            (final(self).sessions(), r@) == arrive(
                old(self).sessions(),
                (sender, msg_id),
                chunk_num,
                total_chunks,
                data@,
            ),
            final(self).same_but_sessions(old(self)),
            r is Assembled ==> total_chunks >= 1 && chunk_num < total_chunks,
    {
        proof {
            use_type_invariant(&*self);
        }
        let mut buffer = ReassemblyBuffer::new();
        std::mem::swap(&mut buffer, &mut self.reassembly_buffer);
        let r = buffer.insert_chunk(sender, msg_id, chunk_num, total_chunks, data);
        self.reassembly_buffer = buffer;
        r
    }

    /// Stores a received file under an identifier, replacing what was
    /// stored under it.
    pub fn store_file(&mut self, id: u128, filename: String, data: Vec<u8>)
        ensures
            final(self).files() == old(self).files().insert(id, (filename@, data@)),
            final(self).key_texts() == old(self).key_texts(),
            final(self).message_log() == old(self).message_log(),
            final(self).sessions() == old(self).sessions(),
            final(self).downloads_dir() == old(self).downloads_dir(),
            final(self).counters() == old(self).counters(),
    {
        proof {
            use_type_invariant(&*self);
        }
        let mut files: HashMap<u128, (String, Vec<u8>)> = HashMap::new();
        std::mem::swap(&mut files, &mut self.received_files);
        let ghost before = file_values(files@);
        files.insert(id, (filename, data));
        assert(file_values(files@) =~= before.insert(id, (filename@, data@)));
        self.received_files = files;
    }

    /// Appends a message to the log and counts it as delivered.
    pub fn append_message(&mut self, message: DecryptedMessage)
        requires
            old(self).counters().messages_decrypted < old(self).counters().packets_received,
        ensures
            final(self).message_log() == old(self).message_log().push(message@),
            final(self).counters() == (AppStats {
                messages_decrypted: (old(self).counters().messages_decrypted + 1) as u64,
                ..old(self).counters()
            }),
            final(self).key_texts() == old(self).key_texts(),
            final(self).files() == old(self).files(),
            final(self).sessions() == old(self).sessions(),
            final(self).downloads_dir() == old(self).downloads_dir(),
    {
        proof {
            use_type_invariant(&*self);
        }
        let mut messages: Vec<DecryptedMessage> = Vec::new();
        std::mem::swap(&mut messages, &mut self.messages);
        let ghost before = values_of(messages@);
        messages.push(message);
        assert(values_of(messages@) =~= before.push(message@));
        self.messages = messages;
        self.stats = AppStats {
            messages_decrypted: self.stats.messages_decrypted + 1,
            ..self.stats
        };
    }
}

} // verus!
