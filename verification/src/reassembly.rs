//! Reassembly of chunked messages, one session per sender and message.

use crate::state::PeerAddr;
use std::collections::HashMap;
use vstd::prelude::*;

verus! {

broadcast use vstd::std_specs::hash::group_hash_axioms;

/// What names a reassembly session: the sender and the message identifier.
pub type SessionKey = (PeerAddr, u32);

/// The chunks of one session: chunk number to chunk bytes.
pub type ChunkMap = Map<u32, Seq<u8>>;

/// What the arrival of a chunk led to.
#[derive(Debug, PartialEq, Eq)]
pub enum Arrival {
    /// The chunk was stored; the message is not complete.
    Stored,
    /// The chunk completed the message: its bytes, chunks in ascending order.
    Assembled(Vec<u8>),
    /// The session held as many chunks as the message declares, but not the
    /// numbers below that count; the session was dropped.
    Aborted,
}

/// The mathematical value of an [`Arrival`].
pub enum ArrivalView {
    Stored,
    Assembled(Seq<u8>),
    Aborted,
}

impl View for Arrival {
    type V = ArrivalView;

    open spec fn view(&self) -> ArrivalView {
        match self {
            Arrival::Stored => ArrivalView::Stored,
            Arrival::Assembled(bytes) => ArrivalView::Assembled(bytes@),
            Arrival::Aborted => ArrivalView::Aborted,
        }
    }
}

/// Whether every chunk number below `total` is present.
pub open spec fn all_present(chunks: ChunkMap, total: nat) -> bool {
    forall|i: u32| i < total ==> chunks.dom().contains(i)
}

/// The first `count` chunks, in ascending order of their numbers, joined.
pub open spec fn concat_chunks(chunks: ChunkMap, count: nat) -> Seq<u8>
    decreases count,
{
    if count == 0 {
        Seq::empty()
    } else {
        concat_chunks(chunks, (count - 1) as nat) + chunks[(count - 1) as u32]
    }
}

/// The chunks that a buffer holds for a session; none where it has no such
/// session.
pub open spec fn chunks_of(buffer: Map<SessionKey, ChunkMap>, key: SessionKey) -> ChunkMap {
    if buffer.dom().contains(key) {
        buffer[key]
    } else {
        Map::empty()
    }
}

/// The arrival of one chunk: the buffer after it, and what it led to.
///
/// The chunk is stored under its number, replacing an earlier chunk with
/// that number. Where the session then holds `total` chunks it leaves the
/// buffer: assembled where the numbers below `total` are all there, aborted
/// otherwise.
pub open spec fn arrive(
    buffer: Map<SessionKey, ChunkMap>,
    key: SessionKey,
    chunk_num: u32,
    total: u32,
    data: Seq<u8>,
) -> (Map<SessionKey, ChunkMap>, ArrivalView) {
    let chunks = chunks_of(buffer, key).insert(chunk_num, data);
    if chunks.dom().len() == total {
        (
            buffer.remove(key),
            if all_present(chunks, total as nat) {
                ArrivalView::Assembled(concat_chunks(chunks, total as nat))
            } else {
                ArrivalView::Aborted
            },
        )
    } else {
        (buffer.insert(key, chunks), ArrivalView::Stored)
    }
}

/// The chunk numbers below `count`.
pub open spec fn numbers_below(count: nat) -> Set<u32> {
    Set::new(|i: u32| i < count)
}

/// There are `count` chunk numbers below `count`.
pub proof fn lemma_numbers_below(count: nat)
    requires
        count <= u32::MAX + 1,
    ensures
        numbers_below(count).finite(),
        numbers_below(count).len() == count,
    decreases count,
{
    if count == 0 {
        assert(numbers_below(count) =~= Set::<u32>::empty());
    } else {
        let fewer = (count - 1) as nat;
        lemma_numbers_below(fewer);
        assert(numbers_below(count) =~= numbers_below(fewer).insert(fewer as u32));
    }
}

/// A chunk that completes a message has a number below the count that it
/// declares, and that count is at least one.
pub proof fn lemma_assembled_chunk_in_range(
    buffer: Map<SessionKey, ChunkMap>,
    key: SessionKey,
    chunk_num: u32,
    total: u32,
    data: Seq<u8>,
)
    requires
        chunks_of(buffer, key).dom().finite(),
        arrive(buffer, key, chunk_num, total, data).1 is Assembled,
    ensures
        total >= 1,
        chunk_num < total,
        !arrive(buffer, key, chunk_num, total, data).0.dom().contains(key),
{
    let chunks = chunks_of(buffer, key).insert(chunk_num, data);
    lemma_numbers_below(total as nat);
    assert(numbers_below(total as nat).subset_of(chunks.dom()));
    vstd::set_lib::lemma_subset_equality(numbers_below(total as nat), chunks.dom());
    assert(chunks.dom().contains(chunk_num));
    assert(numbers_below(total as nat).contains(chunk_num));
}

/// Delivering the same chunk twice is the same as delivering it once,
/// unless the first delivery already closed the session: the second
/// delivery stores nothing new and leaves the buffer as the first left it.
pub proof fn lemma_duplicate_chunk_changes_nothing(
    buffer: Map<SessionKey, ChunkMap>,
    key: SessionKey,
    chunk_num: u32,
    total: u32,
    data: Seq<u8>,
)
    requires
        arrive(buffer, key, chunk_num, total, data).1 is Stored,
    ensures
        arrive(arrive(buffer, key, chunk_num, total, data).0, key, chunk_num, total, data)
            == arrive(buffer, key, chunk_num, total, data),
{
    let chunks = chunks_of(buffer, key).insert(chunk_num, data);
    let once = buffer.insert(key, chunks);
    assert(chunks_of(once, key).insert(chunk_num, data) =~= chunks);
    assert(once.insert(key, chunks) =~= once);
}

/// Whether `order` lists every chunk number below `count` exactly once.
pub open spec fn is_arrival_order(order: Seq<u32>, count: nat) -> bool {
    &&& order.len() == count
    &&& order.no_duplicates()
    &&& forall|i: int| 0 <= i < order.len() ==> order[i] < count
}

/// The pieces of a message joined in their order.
pub open spec fn joined(pieces: Seq<Seq<u8>>) -> Seq<u8>
    decreases pieces.len(),
{
    if pieces.len() == 0 {
        Seq::empty()
    } else {
        joined(pieces.drop_last()) + pieces.last()
    }
}

/// The buffer and the last outcome after the first `steps` chunks of a
/// message have arrived, in the given order of chunk numbers. The chunk
/// with number `i` carries `pieces[i]`, and every chunk declares as many
/// chunks as there are pieces.
pub open spec fn feed(
    buffer: Map<SessionKey, ChunkMap>,
    key: SessionKey,
    pieces: Seq<Seq<u8>>,
    order: Seq<u32>,
    steps: nat,
) -> (Map<SessionKey, ChunkMap>, ArrivalView)
    decreases steps,
{
    if steps == 0 {
        (buffer, ArrivalView::Stored)
    } else {
        let earlier = feed(buffer, key, pieces, order, (steps - 1) as nat);
        let number = order[steps - 1];
        arrive(earlier.0, key, number, pieces.len() as u32, pieces[number as int])
    }
}

/// The chunks in a session after the first `steps` arrivals.
spec fn arrived(pieces: Seq<Seq<u8>>, order: Seq<u32>, steps: nat) -> ChunkMap {
    Map::new(
        |number: u32| exists|j: int| 0 <= j < steps && #[trigger] order[j] == number,
        |number: u32| pieces[number as int],
    )
}

proof fn lemma_arrived_step(pieces: Seq<Seq<u8>>, order: Seq<u32>, steps: nat)
    requires
        is_arrival_order(order, pieces.len()),
        steps < pieces.len(),
        arrived(pieces, order, steps).dom().finite(),
        arrived(pieces, order, steps).dom().len() == steps,
    ensures
        arrived(pieces, order, steps + 1) == arrived(pieces, order, steps).insert(
            order[steps as int],
            pieces[order[steps as int] as int],
        ),
        arrived(pieces, order, steps + 1).dom().finite(),
        arrived(pieces, order, steps + 1).dom().len() == steps + 1,
{
    let before = arrived(pieces, order, steps);
    let after = arrived(pieces, order, steps + 1);
    let number = order[steps as int];
    let expected = before.insert(number, pieces[number as int]);
    assert forall|n: u32| after.dom().contains(n) implies expected.dom().contains(n) by {
        let j = choose|j: int| 0 <= j < steps + 1 && #[trigger] order[j] == n;
        if j < steps {
            assert(before.dom().contains(n));
        }
    }
    assert forall|n: u32| expected.dom().contains(n) implies after.dom().contains(n) by {
        if n == number {
            assert(order[steps as int] == n);
        } else {
            let j = choose|j: int| 0 <= j < steps && #[trigger] order[j] == n;
            assert(0 <= j < steps + 1 && order[j] == n);
        }
    }
    assert(after =~= expected);
    assert(!before.dom().contains(number)) by {
        if before.dom().contains(number) {
            let j = choose|j: int| 0 <= j < steps && #[trigger] order[j] == number;
            assert(order[j] == order[steps as int]);
        }
    }
}

proof fn lemma_feed_prefix(
    buffer: Map<SessionKey, ChunkMap>,
    key: SessionKey,
    pieces: Seq<Seq<u8>>,
    order: Seq<u32>,
    steps: nat,
)
    requires
        1 <= pieces.len() <= u32::MAX,
        is_arrival_order(order, pieces.len()),
        !buffer.dom().contains(key),
        steps < pieces.len(),
    ensures
        feed(buffer, key, pieces, order, steps).1 == ArrivalView::Stored,
        chunks_of(feed(buffer, key, pieces, order, steps).0, key) == arrived(pieces, order, steps),
        feed(buffer, key, pieces, order, steps).0.remove(key) == buffer,
        arrived(pieces, order, steps).dom().finite(),
        arrived(pieces, order, steps).dom().len() == steps,
    decreases steps,
{
    if steps == 0 {
        assert(arrived(pieces, order, 0) =~= Map::<u32, Seq<u8>>::empty());
        assert(buffer.remove(key) =~= buffer);
    } else {
        let fewer = (steps - 1) as nat;
        lemma_feed_prefix(buffer, key, pieces, order, fewer);
        lemma_arrived_step(pieces, order, fewer);
        let earlier = feed(buffer, key, pieces, order, fewer);
        let chunks = arrived(pieces, order, steps);
        assert(earlier.0.insert(key, chunks).remove(key) =~= earlier.0.remove(key));
    }
}

proof fn lemma_concat_is_joined(pieces: Seq<Seq<u8>>, chunks: ChunkMap, count: nat)
    requires
        count <= pieces.len() <= u32::MAX,
        forall|i: u32|
            #![trigger chunks.dom().contains(i)]
            i < count ==> chunks.dom().contains(i) && chunks[i] == pieces[i as int],
    ensures
        concat_chunks(chunks, count) == joined(pieces.subrange(0, count as int)),
    decreases count,
{
    if count > 0 {
        let fewer = (count - 1) as nat;
        lemma_concat_is_joined(pieces, chunks, fewer);
        let front = pieces.subrange(0, count as int);
        assert(front.drop_last() =~= pieces.subrange(0, fewer as int));
        assert(front.last() == pieces[fewer as int]);
        assert(chunks.dom().contains(fewer as u32));
        assert(chunks[fewer as u32] == pieces[fewer as int]);
    } else {
        assert(pieces.subrange(0, 0).len() == 0);
    }
}

/// The chunks of a message reassemble in any order of arrival.
///
/// Let the chunks of a message arrive, each once and in any order, at a
/// buffer that has no session for the message. Then every arrival but the
/// last is stored, the last assembles the pieces joined in ascending order
/// of chunk number, and the buffer is afterwards as it was before.
pub proof fn lemma_any_order_reassembles(
    buffer: Map<SessionKey, ChunkMap>,
    key: SessionKey,
    pieces: Seq<Seq<u8>>,
    order: Seq<u32>,
)
    requires
        1 <= pieces.len() <= u32::MAX,
        is_arrival_order(order, pieces.len()),
        !buffer.dom().contains(key),
    ensures
        forall|steps: nat|
            steps < pieces.len() ==> (#[trigger] feed(buffer, key, pieces, order, steps)).1
                == ArrivalView::Stored,
        feed(buffer, key, pieces, order, pieces.len()) == (
            buffer,
            ArrivalView::Assembled(joined(pieces)),
        ),
{
    assert forall|steps: nat| steps < pieces.len() implies (#[trigger] feed(
        buffer,
        key,
        pieces,
        order,
        steps,
    )).1 == ArrivalView::Stored by {
        lemma_feed_prefix(buffer, key, pieces, order, steps);
    }
    let count = pieces.len();
    let fewer = (count - 1) as nat;
    lemma_feed_prefix(buffer, key, pieces, order, fewer);
    lemma_arrived_step(pieces, order, fewer);
    let chunks = arrived(pieces, order, count);
    lemma_numbers_below(count);
    assert(chunks.dom().subset_of(numbers_below(count))) by {
        assert forall|n: u32| chunks.dom().contains(n) implies numbers_below(count).contains(
            n,
        ) by {
            let j = choose|j: int| 0 <= j < count && #[trigger] order[j] == n;
        }
    }
    vstd::set_lib::lemma_subset_equality(chunks.dom(), numbers_below(count));
    assert forall|i: u32| i < count implies #[trigger] chunks.dom().contains(i) && chunks[i]
        == pieces[i as int] by {
        assert(numbers_below(count).contains(i));
    }
    lemma_concat_is_joined(pieces, chunks, count);
    assert(pieces.subrange(0, count as int) =~= pieces);
}

/// One session: the chunks received so far of one message of one sender.
pub struct Session {
    sender: PeerAddr,
    msg_id: u32,
    chunks: HashMap<u32, Vec<u8>>,
}

impl Session {
    spec fn key(self) -> SessionKey {
        (self.sender, self.msg_id)
    }

    spec fn model(self) -> ChunkMap {
        chunk_values(self.chunks@)
    }
}

/// The stored chunks as byte sequences.
spec fn chunk_values(chunks: Map<u32, Vec<u8>>) -> ChunkMap {
    Map::new(|i: u32| chunks.dom().contains(i), |i: u32| chunks[i]@)
}

/// The sessions in progress.
pub struct ReassemblyBuffer {
    sessions: Vec<Session>,
}

spec fn has_key(sessions: Seq<Session>, key: SessionKey) -> bool {
    exists|i: int| 0 <= i < sessions.len() && #[trigger] sessions[i].key() == key
}

spec fn index_of(sessions: Seq<Session>, key: SessionKey) -> int {
    choose|i: int| 0 <= i < sessions.len() && #[trigger] sessions[i].key() == key
}

spec fn distinct_keys(sessions: Seq<Session>) -> bool {
    forall|i: int, j: int|
        0 <= i < j < sessions.len() ==> #[trigger] sessions[i].key() != #[trigger] sessions[j].key()
}

spec fn model_of(sessions: Seq<Session>) -> Map<SessionKey, ChunkMap> {
    Map::new(
        |key: SessionKey| has_key(sessions, key),
        |key: SessionKey| sessions[index_of(sessions, key)].model(),
    )
}

proof fn lemma_model_at(sessions: Seq<Session>, i: int)
    requires
        distinct_keys(sessions),
        0 <= i < sessions.len(),
    ensures
        model_of(sessions).dom().contains(sessions[i].key()),
        model_of(sessions)[sessions[i].key()] == sessions[i].model(),
{
    let key = sessions[i].key();
    assert(has_key(sessions, key));
    let j = index_of(sessions, key);
    assert(j == i);
}

proof fn lemma_model_push(sessions: Seq<Session>, session: Session)
    requires
        distinct_keys(sessions),
        !has_key(sessions, session.key()),
    ensures
        distinct_keys(sessions.push(session)),
        model_of(sessions.push(session)) == model_of(sessions).insert(
            session.key(),
            session.model(),
        ),
{
    let after = sessions.push(session);
    assert forall|i: int, j: int| 0 <= i < j < after.len() implies #[trigger] after[i].key()
        != #[trigger] after[j].key() by {
        if j == sessions.len() {
            assert(sessions[i].key() == after[i].key());
        } else {
            assert(sessions[i].key() == after[i].key());
            assert(sessions[j].key() == after[j].key());
        }
    }
    let expected = model_of(sessions).insert(session.key(), session.model());
    assert forall|key: SessionKey| model_of(after).dom().contains(key) implies expected.dom().contains(
        key,
    ) by {
        let i = index_of(after, key);
        if i < sessions.len() {
            assert(sessions[i].key() == key);
        }
    }
    assert forall|key: SessionKey| expected.dom().contains(key) implies model_of(
        after,
    ).dom().contains(key) by {
        if key == session.key() {
            assert(after[sessions.len() as int].key() == key);
        } else {
            let i = index_of(sessions, key);
            assert(after[i].key() == key);
        }
    }
    assert forall|key: SessionKey| expected.dom().contains(key) implies #[trigger] model_of(
        after,
    )[key] == expected[key] by {
        if key == session.key() {
            assert(after[sessions.len() as int].key() == key);
            lemma_model_at(after, sessions.len() as int);
        } else {
            let i = index_of(sessions, key);
            assert(after[i].key() == key);
            lemma_model_at(after, i);
            lemma_model_at(sessions, i);
        }
    }
    assert(model_of(after) =~= expected);
}

proof fn lemma_model_swap_remove(sessions: Seq<Session>, at: int)
    requires
        distinct_keys(sessions),
        0 <= at < sessions.len(),
    ensures
        distinct_keys(sessions.update(at, sessions.last()).drop_last()),
        !has_key(sessions.update(at, sessions.last()).drop_last(), sessions[at].key()),
        model_of(sessions.update(at, sessions.last()).drop_last()) == model_of(sessions).remove(
            sessions[at].key(),
        ),
{
    let after = sessions.update(at, sessions.last()).drop_last();
    let last = sessions.len() - 1;
    let gone = sessions[at].key();
    // Where each position of the shortened list came from.
    let origin = |i: int| if i == at { last } else { i };
    assert forall|i: int| 0 <= i < after.len() implies #[trigger] after[i].key() != gone by {
        if i == at {
            assert(after[i] == sessions[last]);
            assert(sessions[at].key() != sessions[last].key());
        } else {
            assert(after[i] == sessions[i]);
            if i < at {
                assert(sessions[i].key() != sessions[at].key());
            } else {
                assert(sessions[at].key() != sessions[i].key());
            }
        }
    }
    assert forall|i: int, j: int| 0 <= i < j < after.len() implies #[trigger] after[i].key()
        != #[trigger] after[j].key() by {
        let oi = origin(i);
        let oj = origin(j);
        assert(after[i] == sessions[oi]);
        assert(after[j] == sessions[oj]);
        if oi < oj {
            assert(sessions[oi].key() != sessions[oj].key());
        } else {
            assert(sessions[oj].key() != sessions[oi].key());
        }
    }
    let expected = model_of(sessions).remove(gone);
    assert forall|key: SessionKey| model_of(after).dom().contains(key) implies expected.dom().contains(
        key,
    ) by {
        let i = index_of(after, key);
        assert(after[i] == sessions[origin(i)]);
        assert(sessions[origin(i)].key() == key);
    }
    assert forall|key: SessionKey| expected.dom().contains(key) implies model_of(
        after,
    ).dom().contains(key) by {
        let i = index_of(sessions, key);
        assert(i != at);
        if i == last {
            assert(after[at] == sessions[last]);
            assert(after[at].key() == key);
        } else {
            assert(after[i] == sessions[i]);
            assert(after[i].key() == key);
        }
    }
    assert forall|key: SessionKey| expected.dom().contains(key) implies #[trigger] model_of(
        after,
    )[key] == expected[key] by {
        let i = index_of(sessions, key);
        lemma_model_at(sessions, i);
        if i == last {
            assert(after[at] == sessions[last]);
            lemma_model_at(after, at);
        } else {
            assert(after[i] == sessions[i]);
            lemma_model_at(after, i);
        }
    }
    assert(model_of(after) =~= expected);
}

impl View for ReassemblyBuffer {
    type V = Map<SessionKey, ChunkMap>;

    /// The sessions in progress, each with the chunks it holds.
    closed spec fn view(&self) -> Map<SessionKey, ChunkMap> {
        model_of(self.sessions@)
    }
}

impl ReassemblyBuffer {
    #[verifier::type_invariant]
    spec fn well_formed(self) -> bool {
        distinct_keys(self.sessions@)
    }

    /// A buffer without sessions.
    pub fn new() -> (r: ReassemblyBuffer)
        ensures
            r@ == Map::<SessionKey, ChunkMap>::empty(),
    {
        let r = ReassemblyBuffer { sessions: Vec::new() };
        assert(r@ =~= Map::<SessionKey, ChunkMap>::empty());
        r
    }

    /// Whether a session is in progress for this sender and message.
    pub fn has_session(&self, sender: PeerAddr, msg_id: u32) -> (r: bool)
        ensures
            r == self@.dom().contains((sender, msg_id)),
    {
        find_session(&self.sessions, sender, msg_id).is_some()
    }

    /// The number of chunks held for this sender and message; zero where no
    /// session is in progress.
    pub fn chunks_held(&self, sender: PeerAddr, msg_id: u32) -> (r: usize)
        ensures
            r == chunks_of(self@, (sender, msg_id)).dom().len(),
    {
        proof {
            use_type_invariant(self);
        }
        match find_session(&self.sessions, sender, msg_id) {
            Some(at) => {
                proof {
                    lemma_model_at(self.sessions@, at as int);
                    assert(self.sessions@[at as int].model().dom()
                        =~= self.sessions@[at as int].chunks@.dom());
                }
                self.sessions[at].chunks.len()
            },
            None => {
                assert(Map::<u32, Seq<u8>>::empty().dom() =~= Set::<u32>::empty());
                0
            },
        }
    }

    /// Takes in one chunk of a message.
    ///
    /// The chunk is stored in the session of its sender and message, which
    /// is opened if need be, and replaces an earlier chunk with the same
    /// number. Where the session then holds as many chunks as the message
    /// has, the session is closed and the chunks are joined in ascending
    /// order; where one of them is missing the message is dropped.
    pub fn insert_chunk(
        &mut self,
        sender: PeerAddr,
        msg_id: u32,
        chunk_num: u32,
        total_chunks: u32,
        data: Vec<u8>,
    ) -> (r: Arrival)
        ensures
            (final(self)@, r@) == arrive(
                old(self)@,
                (sender, msg_id),
                chunk_num,
                total_chunks,
                data@,
            ),
            r is Assembled ==> total_chunks >= 1 && chunk_num < total_chunks,
            !(r is Stored) ==> !final(self)@.dom().contains((sender, msg_id)),
    {
        proof {
            use_type_invariant(&*self);
        }
        let ghost key: SessionKey = (sender, msg_id);
        let ghost before = model_of(self.sessions@);
        let mut sessions: Vec<Session> = Vec::new();
        std::mem::swap(&mut sessions, &mut self.sessions);
        let mut session = match find_session(&sessions, sender, msg_id) {
            Some(at) => {
                proof {
                    lemma_model_at(sessions@, at as int);
                    lemma_model_swap_remove(sessions@, at as int);
                }
                sessions.swap_remove(at)
            },
            None => {
                assert(before.remove(key) =~= before);
                let fresh = Session { sender, msg_id, chunks: HashMap::new() };
                assert(fresh.model() =~= Map::<u32, Seq<u8>>::empty());
                fresh
            },
        };
        assert(session.key() == key);
        assert(session.model() == chunks_of(before, key));
        assert(model_of(sessions@) == before.remove(key));
        proof {
            assert(session.model().dom() =~= session.chunks@.dom());
            if arrive(before, key, chunk_num, total_chunks, data@).1 is Assembled {
                lemma_assembled_chunk_in_range(before, key, chunk_num, total_chunks, data@);
            }
        }
        let ghost earlier = session.model();
        session.chunks.insert(chunk_num, data);
        let ghost chunks = earlier.insert(chunk_num, data@);
        assert(session.model() =~= chunks);
        assert(chunks.dom() =~= session.chunks@.dom());
        if session.chunks.len() == total_chunks as usize {
            self.sessions = sessions;
            match join_chunks(&session.chunks, total_chunks) {
                Some(bytes) => Arrival::Assembled(bytes),
                None => Arrival::Aborted,
            }
        } else {
            proof {
                lemma_model_push(sessions@, session);
                assert(before.remove(key).insert(key, chunks) =~= before.insert(key, chunks));
            }
            sessions.push(session);
            self.sessions = sessions;
            Arrival::Stored
        }
    }
}

/// The chunks numbered below `total`, joined in ascending order; `None`
/// where one of them is missing.
fn join_chunks(chunks: &HashMap<u32, Vec<u8>>, total: u32) -> (r: Option<Vec<u8>>)
    ensures
        r is Some <==> all_present(chunk_values(chunks@), total as nat),
        r matches Some(bytes) ==> bytes@ == concat_chunks(chunk_values(chunks@), total as nat),
{
    let ghost values = chunk_values(chunks@);
    let mut bytes: Vec<u8> = Vec::new();
    let mut next: u32 = 0;
    while next < total
        invariant
            next <= total,
            values == chunk_values(chunks@),
            all_present(values, next as nat),
            bytes@ == concat_chunks(values, next as nat),
        decreases total - next,
    {
        match chunks.get(&next) {
            Some(chunk) => {
                bytes.extend_from_slice(chunk.as_slice());
                assert(bytes@ =~= concat_chunks(values, next as nat) + values[next]);
            },
            None => {
                assert(!values.dom().contains(next));
                return None;
            },
        }
        next += 1;
    }
    Some(bytes)
}

/// The position of the session of a sender and message in a list of
/// sessions.
fn find_session(sessions: &Vec<Session>, sender: PeerAddr, msg_id: u32) -> (r: Option<usize>)
    ensures
        r is Some <==> has_key(sessions@, (sender, msg_id)),
        r matches Some(at) ==> at < sessions@.len() && sessions@[at as int].key() == (
            sender,
            msg_id,
        ),
{
    let mut at: usize = 0;
    while at < sessions.len()
        invariant
            at <= sessions@.len(),
            forall|i: int| 0 <= i < at ==> #[trigger] sessions@[i].key() != (sender, msg_id),
        decreases sessions@.len() - at,
    {
        if sessions[at].sender == sender && sessions[at].msg_id == msg_id {
            assert(sessions@[at as int].key() == (sender, msg_id));
            return Some(at);
        }
        at += 1;
    }
    None
}

} // verus!
