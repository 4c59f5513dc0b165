//! What the sending side splits, the receiving side puts together again.

use crate::network::{chunk_bytes, chunk_count};
use crate::protocol::CHUNK_SIZE;
use crate::reassembly::{
    feed, is_arrival_order, joined, lemma_any_order_reassembles, ArrivalView, ChunkMap, SessionKey,
};
use vstd::prelude::*;

verus! {

/// The chunks of a message, in ascending order of chunk number.
pub open spec fn message_chunks(data: Seq<u8>) -> Seq<Seq<u8>> {
    Seq::new(chunk_count(data.len()), |i: int| chunk_bytes(data, i as nat))
}

/// The end of the first `count` chunks within a message of `len` bytes.
spec fn prefix_end(len: nat, count: nat) -> int {
    if count * CHUNK_SIZE <= len {
        (count * CHUNK_SIZE) as int
    } else {
        len as int
    }
}

proof fn lemma_chunk_prefix_joins(data: Seq<u8>, count: nat)
    requires
        count <= chunk_count(data.len()),
    ensures
        joined(message_chunks(data).subrange(0, count as int)) == data.subrange(
            0,
            prefix_end(data.len(), count),
        ),
    decreases count,
{
    let front = message_chunks(data).subrange(0, count as int);
    if count == 0 {
        assert(front.len() == 0);
        assert(data.subrange(0, 0) =~= Seq::<u8>::empty());
    } else {
        let fewer = (count - 1) as nat;
        lemma_chunk_prefix_joins(data, fewer);
        assert(front.drop_last() =~= message_chunks(data).subrange(0, fewer as int));
        assert(front.last() == chunk_bytes(data, fewer));
        assert(fewer * CHUNK_SIZE < data.len());
        assert(data.subrange(0, prefix_end(data.len(), fewer)) + chunk_bytes(data, fewer)
            =~= data.subrange(0, prefix_end(data.len(), count)));
    }
}

/// The chunks of a message, joined in ascending order, are the message.
pub proof fn lemma_chunks_join_to_message(data: Seq<u8>)
    ensures
        joined(message_chunks(data)) == data,
{
    let count = chunk_count(data.len());
    lemma_chunk_prefix_joins(data, count);
    assert(message_chunks(data).subrange(0, count as int) =~= message_chunks(data));
    assert(data.subrange(0, prefix_end(data.len(), count)) =~= data);
}

/// A message survives chunking and reassembly, whatever the order in which
/// its chunks arrive.
///
/// Let a message that is not empty be split into chunks, and let the chunks
/// arrive, each once and in any order, at a buffer that has no session for
/// the message. Then every arrival but the last is stored, the last
/// assembles the message, and the buffer is afterwards as it was before.
pub proof fn lemma_message_reassembles(
    buffer: Map<SessionKey, ChunkMap>,
    key: SessionKey,
    data: Seq<u8>,
    order: Seq<u32>,
)
    requires
        data.len() > 0,
        chunk_count(data.len()) <= u32::MAX,
        is_arrival_order(order, chunk_count(data.len())),
        !buffer.dom().contains(key),
    ensures
        forall|steps: nat|
            steps < chunk_count(data.len()) ==> (#[trigger] feed(
                buffer,
                key,
                message_chunks(data),
                order,
                steps,
            )).1 == ArrivalView::Stored,
        feed(buffer, key, message_chunks(data), order, chunk_count(data.len())) == (
            buffer,
            ArrivalView::Assembled(data),
        ),
{
    lemma_any_order_reassembles(buffer, key, message_chunks(data), order);
    lemma_chunks_join_to_message(data);
}

} // verus!
