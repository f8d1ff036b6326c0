//! The byte-stream face of a bridge: reads are served from data the node
//! sent, in order and without loss; writes become DATA messages.
//!
//! The channels and the `AsyncRead`/`AsyncWrite` plumbing are on the async
//! runtime; this module holds the buffering and the message built per write.
use vstd::prelude::*;
use crate::message::{DataMessage, Message};
use crate::text::copy_range;

verus! {

/// Bytes received from the node and not yet read.
pub struct ReadBuffer {
    pending: Vec<u8>,
}

impl View for ReadBuffer {
    type V = Seq<u8>;

    /// The bytes waiting to be read.
    closed spec fn view(&self) -> Seq<u8> {
        self.pending@
    }
}

/// How many bytes one read takes: as many as fit, at most what is there.
pub open spec fn read_size(room: nat, available: nat) -> nat {
    if room < available {
        room
    } else {
        available
    }
}

impl ReadBuffer {
    /// An empty buffer.
    pub fn new() -> (res: Self)
        ensures
            res@ == Seq::<u8>::empty(),
    {
        ReadBuffer { pending: Vec::new() }
    }

    /// Serves a read of at most `room` bytes from the buffered bytes; `None`
    /// when nothing is buffered.
    pub fn read_buffered(&mut self, room: usize) -> (res: Option<Vec<u8>>)
        ensures
            old(self)@.len() == 0 ==> res is None && final(self)@ == old(self)@,
            old(self)@.len() > 0 ==> (res matches Some(out) && out@ == old(self)@.take(
                read_size(room as nat, old(self)@.len()) as int,
            ) && final(self)@ == old(self)@.skip(read_size(room as nat, old(self)@.len()) as int)),
    {
        if self.pending.len() == 0 {
            return None;
        }
        let k = if room < self.pending.len() {
            room
        } else {
            self.pending.len()
        };
        let out = copy_range(self.pending.as_slice(), 0, k);
        self.pending = copy_range(self.pending.as_slice(), k, self.pending.len());
        assert(out@ =~= old(self)@.take(k as int));
        assert(self.pending@ =~= old(self)@.skip(k as int));
        Some(out)
    }

    /// Serves a read of at most `room` bytes from a chunk just received;
    /// what does not fit is buffered behind what was there.
    pub fn take_incoming(&mut self, data: &[u8], room: usize) -> (res: Vec<u8>)
        ensures
            res@ == data@.take(read_size(room as nat, data@.len()) as int),
            final(self)@ == old(self)@ + data@.skip(read_size(room as nat, data@.len()) as int),
    {
        let k = if room < data.len() {
            room
        } else {
            data.len()
        };
        let out = copy_range(data, 0, k);
        crate::text::extend_range(&mut self.pending, data, k, data.len());
        assert(out@ =~= data@.take(k as int));
        assert(data@.subrange(k as int, data@.len() as int) =~= data@.skip(k as int));
        out
    }
}

/// The DATA message carrying one write to a bridge.
pub fn data_message(bridge_id: &String, buf: &[u8]) -> (res: Message)
    ensures
        res == (Message::Data { data: DataMessage { bridge_id: *bridge_id, payload: res->data.payload } }),
        res->data.payload@ == buf@,
{
    let payload = copy_range(buf, 0, buf.len());
    assert(payload@ =~= buf@);
    Message::Data { data: DataMessage { bridge_id: bridge_id.clone(), payload } }
}

// ---------------------------------------------------------------------------
// Laws
// ---------------------------------------------------------------------------

/// Chunks one after the other.
pub open spec fn concat_chunks(chunks: Seq<Seq<u8>>) -> Seq<u8>
    decreases chunks.len(),
{
    if chunks.len() == 0 {
        seq![]
    } else {
        chunks[0] + concat_chunks(chunks.drop_first())
    }
}

/// One read of at most `room` bytes, as a bridge stream serves it: from the
/// buffered bytes when there are any ([`ReadBuffer::read_buffered`]), else
/// from the next chunk to arrive ([`ReadBuffer::take_incoming`]), else
/// nothing, the channel being closed. Gives the bytes read, the buffer
/// afterwards and the chunks still to arrive.
pub open spec fn read_step(pending: Seq<u8>, chunks: Seq<Seq<u8>>, room: nat) -> (
    Seq<u8>,
    Seq<u8>,
    Seq<Seq<u8>>,
) {
    if pending.len() > 0 {
        let k = read_size(room, pending.len()) as int;
        (pending.take(k), pending.skip(k), chunks)
    } else if chunks.len() > 0 {
        let k = read_size(room, chunks[0].len()) as int;
        (chunks[0].take(k), pending + chunks[0].skip(k), chunks.drop_first())
    } else {
        (seq![], pending, chunks)
    }
}

/// Successive reads with the given room: all bytes read, one read after
/// the other, the buffer afterwards and the chunks still to arrive.
pub open spec fn read_run(pending: Seq<u8>, chunks: Seq<Seq<u8>>, rooms: Seq<nat>) -> (
    Seq<u8>,
    Seq<u8>,
    Seq<Seq<u8>>,
)
    decreases rooms.len(),
{
    if rooms.len() == 0 {
        (seq![], pending, chunks)
    } else {
        let (out, p1, c1) = read_step(pending, chunks, rooms[0]);
        let (rest, p2, c2) = read_run(p1, c1, rooms.drop_first());
        (out + rest, p2, c2)
    }
}

/// How much one read places: as many bytes as fit of what is available
/// (the buffer, else the next chunk). A read with room places nothing only
/// when nothing is buffered and the channel is closed (or the next chunk is
/// empty).
pub proof fn lemma_read_step_size(pending: Seq<u8>, chunks: Seq<Seq<u8>>, room: nat)
    ensures
        ({
            let (out, p1, c1) = read_step(pending, chunks, room);
            &&& pending.len() > 0 ==> out.len() == read_size(room, pending.len())
            &&& pending.len() == 0 && chunks.len() > 0 ==> out.len() == read_size(
                room,
                chunks[0].len(),
            )
            &&& room > 0 && out.len() == 0 ==> pending.len() == 0 && (chunks.len() == 0
                || chunks[0].len() == 0)
        }),
{
}

/// No loss, duplication or reordering over any run of reads: the bytes
/// read, then what stays buffered, then the chunks yet to arrive, are the
/// bytes that were buffered followed by all chunks. So the bytes read are a
/// prefix of the data received, in order.
pub proof fn lemma_reads_preserve_order(pending: Seq<u8>, chunks: Seq<Seq<u8>>, rooms: Seq<nat>)
    ensures
        ({
            let (out, p, rest) = read_run(pending, chunks, rooms);
            &&& out + p + concat_chunks(rest) == pending + concat_chunks(chunks)
            &&& out.len() <= (pending + concat_chunks(chunks)).len()
            &&& out == (pending + concat_chunks(chunks)).take(out.len() as int)
        }),
    decreases rooms.len(),
{
    let total = pending + concat_chunks(chunks);
    let (out, p, rest) = read_run(pending, chunks, rooms);
    if rooms.len() > 0 {
        let (o1, p1, c1) = read_step(pending, chunks, rooms[0]);
        if pending.len() > 0 {
            let k = read_size(rooms[0], pending.len()) as int;
            assert(o1 + p1 + concat_chunks(c1) =~= total);
        } else if chunks.len() > 0 {
            let k = read_size(rooms[0], chunks[0].len()) as int;
            assert(pending =~= Seq::<u8>::empty());
            assert(concat_chunks(chunks) == chunks[0] + concat_chunks(chunks.drop_first()));
            assert(o1 + p1 + concat_chunks(c1) =~= total);
        } else {
            assert(o1 + p1 + concat_chunks(c1) =~= total);
        }
        lemma_reads_preserve_order(p1, c1, rooms.drop_first());
        let (r2, p2, c2) = read_run(p1, c1, rooms.drop_first());
        assert(out == o1 + r2);
        assert(out + p + concat_chunks(rest) =~= o1 + (r2 + p2 + concat_chunks(c2)));
    } else {
        assert(out + p + concat_chunks(rest) =~= total);
    }
    assert(out + p + concat_chunks(rest) == total);
    assert(total.take(out.len() as int) =~= (out + p + concat_chunks(rest)).take(out.len() as int));
    assert((out + p + concat_chunks(rest)).take(out.len() as int) =~= out);
}

} // verus!
