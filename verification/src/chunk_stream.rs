//! The stream format in which a backend sends a file's chunks to the
//! provider, and the parser that cuts it into chunks as bytes arrive.
//!
//! Format: the number of chunks `n` (8 bytes, little endian), then `n`
//! records of a chunk id (8 bytes, little endian) and the chunk's data. The
//! first `n - 1` chunks have exactly `chunk_size` bytes; the last chunk's
//! data is everything that remains.

use vstd::prelude::*;
use vstd::bytes::{spec_u64_from_le_bytes, spec_u64_to_le_bytes, u64_from_le_bytes, lemma_auto_spec_u64_to_from_le_bytes};
use crate::bytes::H256;
use crate::msp_response::MspResponse;

verus! {

/// The size of the chunk count and of each chunk id, in bytes.
pub const ID_SIZE: usize = 8;

/// The chunk count announced by a stream, once its first 8 bytes are there.
pub open spec fn stream_total(s: Seq<u8>) -> Option<u64> {
    if s.len() >= 8 { Some(spec_u64_from_le_bytes(s.take(8))) } else { None }
}

/// The index of the last chunk of a stream announcing `total` chunks; a
/// stream announcing no chunk has no chunk to write before its end (and is
/// refused there).
pub open spec fn last_index(total: u64) -> int {
    if total == 0 { 0 } else { total - 1 }
}

/// The offset of the record of chunk `k`.
pub open spec fn record_offset(chunk_size: nat, k: int) -> int {
    8 + k * (8 + chunk_size)
}

/// The `k`-th full chunk record of the stream: its id and its data.
pub open spec fn chunk_at(s: Seq<u8>, chunk_size: nat, k: int) -> (u64, Seq<u8>) {
    let off = record_offset(chunk_size, k);
    (spec_u64_from_le_bytes(s.subrange(off, off + 8)), s.subrange(off + 8, off + 8 + chunk_size))
}

/// How many leading chunks of the stream are complete and are not the last
/// one: they can be written as soon as they arrive.
pub open spec fn emitted(s: Seq<u8>, chunk_size: nat) -> int {
    match stream_total(s) {
        None => 0,
        Some(t) => {
            let avail = (s.len() - 8) / (8 + chunk_size) as int;
            if last_index(t) <= avail { last_index(t) } else { avail }
        },
    }
}

/// The bytes of one chunk record: its id, then its data.
pub open spec fn record_bytes(c: (u64, Seq<u8>)) -> Seq<u8> {
    spec_u64_to_le_bytes(c.0) + c.1
}

/// The records of `chunks`, one after the other.
pub open spec fn encode_records(chunks: Seq<(u64, Seq<u8>)>) -> Seq<u8>
    decreases chunks.len(),
{
    if chunks.len() == 0 { Seq::empty() } else { record_bytes(chunks[0]) + encode_records(chunks.drop_first()) }
}

/// The stream that sends `chunks`: their count, then their records.
pub open spec fn encode_stream(chunks: Seq<(u64, Seq<u8>)>) -> Seq<u8> {
    spec_u64_to_le_bytes(chunks.len() as u64) + encode_records(chunks)
}

proof fn lemma_records_skip(chunks: Seq<(u64, Seq<u8>)>, chunk_size: nat, k: int)
    requires
        0 <= k < chunks.len(),
        forall|j: int| 0 <= j < k ==> (#[trigger] chunks[j]).1.len() == chunk_size,
    ensures
        k * (8 + chunk_size) <= encode_records(chunks).len(),
        encode_records(chunks).skip(k * (8 + chunk_size)) == encode_records(chunks.skip(k)),
    decreases k,
{
    lemma_auto_spec_u64_to_from_le_bytes();
    if k == 0 {
        assert(chunks.skip(0) =~= chunks);
    } else {
        let rest = chunks.drop_first();
        assert forall|j: int| 0 <= j < k - 1 implies (#[trigger] rest[j]).1.len() == chunk_size by {
            assert(rest[j] == chunks[j + 1]);
        }
        lemma_records_skip(rest, chunk_size, k - 1);
        let head = record_bytes(chunks[0]);
        assert(head.len() == 8 + chunk_size);
        assert(k * (8 + chunk_size) == (8 + chunk_size) + (k - 1) * (8 + chunk_size)) by (nonlinear_arith);
        assert(rest.skip(k - 1) =~= chunks.skip(k));
        assert((head + encode_records(rest)).skip(k * (8 + chunk_size)) =~= encode_records(rest).skip((k - 1) * (8 + chunk_size)));
    }
}

/// A stream that sends `n >= 1` chunks, all of `chunk_size` bytes but the
/// last (of any size), is read back exactly: it announces `n` chunks, the
/// parser cuts the first `n - 1` records into the chunks sent, in order,
/// and what remains is the record of the last chunk.
pub proof fn law_stream_round_trip(chunks: Seq<(u64, Seq<u8>)>, chunk_size: nat)
    requires
        1 <= chunks.len() <= u64::MAX,
        forall|j: int| 0 <= j < chunks.len() - 1 ==> (#[trigger] chunks[j]).1.len() == chunk_size,
    ensures
        stream_total(encode_stream(chunks)) == Some(chunks.len() as u64),
        emitted(encode_stream(chunks), chunk_size) == chunks.len() - 1,
        forall|k: int| 0 <= k < chunks.len() - 1 ==> #[trigger] chunk_at(encode_stream(chunks), chunk_size, k) == chunks[k],
        ({
            let s = encode_stream(chunks);
            let off = record_offset(chunk_size, chunks.len() - 1);
            &&& s.len() >= off + 8
            &&& spec_u64_from_le_bytes(s.subrange(off, off + 8)) == chunks.last().0
            &&& s.subrange(off + 8, s.len() as int) == chunks.last().1
        }),
{
    lemma_auto_spec_u64_to_from_le_bytes();
    let n = chunks.len() as int;
    let s = encode_stream(chunks);
    let head = spec_u64_to_le_bytes(chunks.len() as u64);
    let body = encode_records(chunks);
    assert(head.len() == 8);
    assert(s.take(8) =~= head);
    assert(stream_total(s) == Some(chunks.len() as u64));
    assert forall|k: int| 0 <= k < n implies {
        &&& #[trigger] record_offset(chunk_size, k) + 8 <= s.len()
        &&& s.subrange(record_offset(chunk_size, k), record_offset(chunk_size, k) + 8) == spec_u64_to_le_bytes(chunks[k].0)
        &&& s.skip(record_offset(chunk_size, k) + 8) == chunks[k].1 + encode_records(chunks.skip(k + 1))
    } by {
        assert forall|j: int| 0 <= j < k implies (#[trigger] chunks[j]).1.len() == chunk_size by {}
        lemma_records_skip(chunks, chunk_size, k);
        let off = k * (8 + chunk_size);
        let tail = chunks.skip(k);
        assert(tail[0] == chunks[k]);
        assert(tail.drop_first() =~= chunks.skip(k + 1));
        assert(encode_records(tail) == record_bytes(chunks[k]) + encode_records(chunks.skip(k + 1)));
        assert(body.skip(off) == encode_records(tail));
        assert(s.skip(8 + off) =~= body.skip(off));
        assert(s.subrange(8 + off, 8 + off + 8) =~= body.skip(off).take(8));
        assert(record_bytes(chunks[k]).take(8) =~= spec_u64_to_le_bytes(chunks[k].0));
        assert(s.skip(8 + off + 8) =~= body.skip(off).skip(8));
        assert(body.skip(off).skip(8) =~= chunks[k].1 + encode_records(chunks.skip(k + 1)));
    }
    assert forall|k: int| 0 <= k < n - 1 implies #[trigger] chunk_at(s, chunk_size, k) == chunks[k] by {
        let off = record_offset(chunk_size, k);
        assert(s.subrange(off, off + 8) == spec_u64_to_le_bytes(chunks[k].0));
        assert(s.skip(off + 8) == chunks[k].1 + encode_records(chunks.skip(k + 1)));
        assert(chunks[k].1.len() == chunk_size);
        assert(off + 8 <= s.len());
        assert(s.skip(off + 8).len() == s.len() - (off + 8));
        assert(off + 8 + chunk_size <= s.len());
        assert(s.subrange(off + 8, off + 8 + chunk_size) =~= s.skip(off + 8).take(chunk_size as int));
        assert(s.skip(off + 8).take(chunk_size as int) =~= chunks[k].1);
    }
    let last = n - 1;
    let off = record_offset(chunk_size, last);
    assert(chunks.skip(last + 1) =~= Seq::<(u64, Seq<u8>)>::empty());
    assert(encode_records(chunks.skip(last + 1)) =~= Seq::<u8>::empty());
    assert(s.skip(off + 8) =~= chunks[last].1);
    assert(s.subrange(off + 8, s.len() as int) =~= s.skip(off + 8));
    assert(s.len() == off + 8 + chunks[last].1.len());
    let avail = (s.len() - 8) / (8 + chunk_size) as int;
    assert(avail >= last) by (nonlinear_arith)
        requires
            avail == (s.len() - 8) / (8 + chunk_size) as int,
            s.len() - 8 >= last * (8 + chunk_size),
            last >= 0,
    {
        assert((s.len() - 8) / (8 + chunk_size) as int >= (last * (8 + chunk_size)) / (8 + chunk_size) as int) by {
            vstd::arithmetic::div_mod::lemma_div_is_ordered(last * (8 + chunk_size), s.len() - 8, (8 + chunk_size) as int);
        }
        vstd::arithmetic::div_mod::lemma_div_by_multiple(last, (8 + chunk_size) as int);
    }
    assert(last_index(chunks.len() as u64) == last);
}

/// The chunks (but the last) that a parser hands out for the stream `s`:
/// the complete records ahead of the last one, in order.
pub open spec fn stream_chunks(s: Seq<u8>, chunk_size: nat) -> Seq<(u64, Seq<u8>)> {
    Seq::new(emitted(s, chunk_size) as nat, |j: int| chunk_at(s, chunk_size, j))
}

/// The chunks handed out by feeding `frames` to a new parser one after the
/// other, each feed giving the chunks that its contract names, in order.
pub open spec fn fed_chunks(frames: Seq<Seq<u8>>, chunk_size: nat) -> Seq<(u64, Seq<u8>)>
    decreases frames.len(),
{
    if frames.len() == 0 {
        Seq::empty()
    } else {
        let before = frames.drop_last().flatten();
        let after = frames.flatten();
        let e0 = emitted(before, chunk_size);
        fed_chunks(frames.drop_last(), chunk_size)
            + Seq::new((emitted(after, chunk_size) - e0) as nat, |j: int| chunk_at(after, chunk_size, e0 + j))
    }
}

/// Receiving more bytes never takes a chunk back: a stream hands out at
/// least the chunks of each of its prefixes, and the same ones.
proof fn lemma_prefix_chunks(s: Seq<u8>, t: Seq<u8>, cs: nat)
    requires
        s.len() <= t.len(),
        t.take(s.len() as int) == s,
    ensures
        0 <= emitted(s, cs) <= emitted(t, cs),
        forall|j: int| 0 <= j < emitted(s, cs) ==> #[trigger] chunk_at(s, cs, j) == chunk_at(t, cs, j),
{
    let d = (8 + cs) as int;
    if t.len() >= 8 {
        vstd::arithmetic::div_mod::lemma_div_pos_is_pos(t.len() - 8, d);
    }
    if s.len() >= 8 {
        assert(s.take(8) =~= t.take(8));
        let a_s = (s.len() - 8) / d;
        vstd::arithmetic::div_mod::lemma_div_pos_is_pos(s.len() - 8, d);
        vstd::arithmetic::div_mod::lemma_div_is_ordered(s.len() - 8, t.len() - 8, d);
        vstd::arithmetic::div_mod::lemma_fundamental_div_mod(s.len() - 8, d);
        vstd::arithmetic::div_mod::lemma_mod_pos_bound(s.len() - 8, d);
        assert forall|j: int| 0 <= j < emitted(s, cs) implies #[trigger] chunk_at(s, cs, j) == chunk_at(t, cs, j) by {
            let off = record_offset(cs, j);
            assert(j + 1 <= a_s);
            vstd::arithmetic::mul::lemma_mul_inequality(j + 1, a_s, d);
            assert((j + 1) * d == j * d + d) by (nonlinear_arith);
            assert(off == 8 + j * d);
            assert(a_s * d == d * a_s) by (nonlinear_arith);
            assert(off + 8 + cs <= s.len());
            assert(s.subrange(off, off + 8) =~= t.subrange(off, off + 8));
            assert(s.subrange(off + 8, off + 8 + cs) =~= t.subrange(off + 8, off + 8 + cs));
        }
    }
}

/// The chunks handed out by feeding `frames` one after the other are those
/// of the stream they make up together.
proof fn lemma_fed_chunks(frames: Seq<Seq<u8>>, cs: nat)
    ensures
        fed_chunks(frames, cs) == stream_chunks(frames.flatten(), cs),
    decreases frames.len(),
{
    if frames.len() == 0 {
        assert(stream_chunks(frames.flatten(), cs) =~= Seq::<(u64, Seq<u8>)>::empty());
    } else {
        let prev = frames.drop_last();
        lemma_fed_chunks(prev, cs);
        assert(prev.push(frames.last()) =~= frames);
        prev.lemma_flatten_push(frames.last());
        let before = prev.flatten();
        let after = frames.flatten();
        assert(after == before + frames.last());
        assert(after.take(before.len() as int) =~= before);
        lemma_prefix_chunks(before, after, cs);
        let e0 = emitted(before, cs);
        let added = Seq::new((emitted(after, cs) - e0) as nat, |j: int| chunk_at(after, cs, e0 + j));
        assert(fed_chunks(frames, cs) == stream_chunks(before, cs) + added);
        assert(stream_chunks(before, cs) + added =~= stream_chunks(after, cs));
    }
}

/// However a stream's bytes are split into frames, feeding the frames one
/// after the other hands out the same chunks, in the same order: those of
/// the whole stream. (The parser's stream is then the same too, so its end
/// gives the same result.)
pub proof fn law_frame_split_independent(frames: Seq<Seq<u8>>, other: Seq<Seq<u8>>, chunk_size: nat)
    requires
        frames.flatten() == other.flatten(),
    ensures
        fed_chunks(frames, chunk_size) == stream_chunks(frames.flatten(), chunk_size),
        fed_chunks(frames, chunk_size) == fed_chunks(other, chunk_size),
{
    lemma_fed_chunks(frames, chunk_size);
    lemma_fed_chunks(other, chunk_size);
}

/// Why a chunk stream is refused at its end.
pub enum ChunkStreamError {
    /// The stream ended before the chunk count
    MissingTotal,
    /// The stream announces no chunk at all
    NoChunks,
    /// The stream ended before all the chunks but the last
    WrongChunkCount { expected: u64, processed: u64 },
    /// The last chunk has no complete chunk id
    TruncatedLastChunk,
}

/// A chunk cut from the stream: its id and its data.
pub struct StreamChunk {
    pub chunk_id: u64,
    pub data: Vec<u8>,
}

/// Parses a chunk stream as its bytes arrive.
pub struct ChunkStreamParser {
    chunk_size: usize,
    buffer: Vec<u8>,
    total_chunks: Option<u64>,
    chunks_processed: u64,
    stream: Ghost<Seq<u8>>,
}

impl ChunkStreamParser {
    /// All the bytes received so far.
    pub closed spec fn stream(&self) -> Seq<u8> {
        self.stream@
    }

    /// The size of all chunks but the last.
    pub closed spec fn chunk_size(&self) -> nat {
        self.chunk_size as nat
    }

    /// The parser's state matches the bytes received.
    pub closed spec fn wf(&self) -> bool {
        let s = self.stream@;
        &&& self.chunk_size + 8 <= usize::MAX
        &&& self.total_chunks == stream_total(s)
        &&& self.chunks_processed == emitted(s, self.chunk_size as nat)
        &&& self.total_chunks is None ==> self.buffer@ == s
        &&& self.total_chunks is Some ==> self.buffer@ == s.skip(record_offset(self.chunk_size as nat, self.chunks_processed as int))
        &&& self.total_chunks is Some ==> record_offset(self.chunk_size as nat, self.chunks_processed as int) <= s.len()
    }

    /// A parser for chunks of `chunk_size` bytes that has received nothing.
    pub fn new(chunk_size: usize) -> (r: ChunkStreamParser)
        requires
            chunk_size + 8 <= usize::MAX,
        ensures
            r.wf(),
            r.stream() == Seq::<u8>::empty(),
            r.chunk_size() == chunk_size,
    {
        ChunkStreamParser {
            chunk_size,
            buffer: Vec::new(),
            total_chunks: None,
            chunks_processed: 0,
            stream: Ghost(Seq::empty()),
        }
    }

    /// Receives `bytes`; returns, in order, the chunks (but the last) that
    /// they complete.
    pub fn feed(&mut self, bytes: &[u8]) -> (r: Vec<StreamChunk>)
        requires
            old(self).wf(),
        ensures
            final(self).wf(),
            final(self).chunk_size() == old(self).chunk_size(),
            final(self).stream() == old(self).stream() + bytes@,
            stream_total(final(self).stream()) == Some(0u64) ==> r@.len() == 0,
            r@.len() == emitted(final(self).stream(), final(self).chunk_size()) - emitted(old(self).stream(), old(self).chunk_size()),
            forall|j: int| 0 <= j < r@.len() ==> (#[trigger] r@[j]).chunk_id == chunk_at(final(self).stream(), final(self).chunk_size(), emitted(old(self).stream(), old(self).chunk_size()) + j).0
                && r@[j].data@ == chunk_at(final(self).stream(), final(self).chunk_size(), emitted(old(self).stream(), old(self).chunk_size()) + j).1,
    {
        let ghost s0 = self.stream@;
        let ghost s = s0 + bytes@;
        let ghost cs = self.chunk_size as nat;
        let ghost e0 = emitted(s0, cs);
        let mut k: usize = 0;
        while k < bytes.len()
            invariant
                k <= bytes@.len(),
                self.total_chunks is None ==> self.buffer@ == s0 + bytes@.take(k as int),
                self.total_chunks is Some ==> self.buffer@ == s0.skip(record_offset(cs, self.chunks_processed as int)) + bytes@.take(k as int),
                self.total_chunks == old(self).total_chunks,
                self.chunks_processed == old(self).chunks_processed,
                self.chunk_size == old(self).chunk_size,
            decreases bytes@.len() - k,
        {
            self.buffer.push(bytes[k]);
            proof {
                assert(bytes@.take(k + 1) =~= bytes@.take(k as int).push(bytes@[k as int]));
            }
            k = k + 1;
        }
        proof {
            assert(bytes@.take(k as int) =~= bytes@);
            if old(self).total_chunks is Some {
                assert(self.buffer@ =~= s.skip(record_offset(cs, self.chunks_processed as int)));
            }
        }
        self.stream = Ghost(s);
        let mut pos: usize = 0;
        if self.total_chunks.is_none() {
            if self.buffer.len() < 8 {
                proof {
                    assert(stream_total(s) is None);
                }
                return Vec::new();
            }
            let total = u64_from_le_bytes(vstd::slice::slice_subrange(self.buffer.as_slice(), 0, 8));
            proof {
                assert(self.buffer@.subrange(0, 8) =~= s.take(8));
            }
            self.total_chunks = Some(total);
            pos = 8;
        }
        let total = match self.total_chunks { Some(t) => t, None => 0 };
        let last: u64 = if total == 0 { 0 } else { total - 1 };
        let ghost base: int = record_offset(cs, self.chunks_processed as int) - pos;
        proof {
            assert(record_offset(cs, self.chunks_processed as int) == 8 + (self.chunks_processed as int) * (8 + cs));
            if old(self).total_chunks is None {
                assert(self.chunks_processed == 0);
                assert(record_offset(cs, 0) == 8) by (nonlinear_arith);
                assert(base == 0);
                assert(self.buffer@ == s);
            } else {
                assert(base == record_offset(cs, self.chunks_processed as int));
                assert(s.take(8) =~= s0.take(8));
                let a0 = (s0.len() - 8) / (8 + cs) as int;
                let a1 = (s.len() - 8) / (8 + cs) as int;
                vstd::arithmetic::div_mod::lemma_div_is_ordered(s0.len() - 8, s.len() - 8, (8 + cs) as int);
                assert(a0 <= a1);
            }
            assert(self.buffer@ == s.skip(base));
        }
        let mut out: Vec<StreamChunk> = Vec::new();
        let rec = 8 + self.chunk_size;
        while self.chunks_processed < last && self.buffer.len() - pos >= rec
            invariant
                self.buffer@ == s.skip(base),
                self.stream@ == s,
                base >= 0,
                base + self.buffer@.len() == s.len(),
                pos <= self.buffer@.len(),
                base + pos == record_offset(cs, self.chunks_processed as int),
                rec == 8 + cs,
                cs == self.chunk_size,
                self.chunk_size + 8 <= usize::MAX,
                self.total_chunks == Some(total),
                stream_total(s) == Some(total),
                last as int == last_index(total),
                e0 <= self.chunks_processed,
                self.chunks_processed <= emitted(s, cs),
                out@.len() == self.chunks_processed - e0,
                forall|j: int| 0 <= j < out@.len() ==> (#[trigger] out@[j]).chunk_id == chunk_at(s, cs, e0 + j).0
                    && out@[j].data@ == chunk_at(s, cs, e0 + j).1,
            decreases last - self.chunks_processed,
        {
            let b = self.buffer.as_slice();
            let id = u64_from_le_bytes(vstd::slice::slice_subrange(b, pos, pos + 8));
            let data = vstd::slice::slice_to_vec(vstd::slice::slice_subrange(b, pos + 8, pos + rec));
            proof {
                let off = record_offset(cs, self.chunks_processed as int);
                assert(b@.subrange(pos as int, pos + 8) =~= s.subrange(off, off + 8));
                assert(b@.subrange(pos + 8, pos + rec) =~= s.subrange(off + 8, off + 8 + cs));
            }
            let ghost prev = out@;
            out.push(StreamChunk { chunk_id: id, data });
            proof {
                let p = self.chunks_processed as int;
                assert(record_offset(cs, p + 1) == record_offset(cs, p) + 8 + cs) by (nonlinear_arith)
                    requires record_offset(cs, p + 1) == 8 + (p + 1) * (8 + cs), record_offset(cs, p) == 8 + p * (8 + cs);
                let avail = (s.len() - 8) / (8 + cs) as int;
                assert(p + 1 <= avail) by (nonlinear_arith)
                    requires 8 + p * (8 + cs) + 8 + cs <= s.len(), avail == (s.len() - 8) / (8 + cs) as int, p >= 0;
                assert(out@[out@.len() - 1].chunk_id == chunk_at(s, cs, e0 + (out@.len() - 1)).0);
            }
            pos = pos + rec;
            self.chunks_processed = self.chunks_processed + 1;
        }
        proof {
            let p = self.chunks_processed as int;
            let avail = (s.len() - 8) / (8 + cs) as int;
            if p < last_index(total) {
                assert(s.len() - record_offset(cs, p) < 8 + cs);
                assert(avail <= p) by (nonlinear_arith)
                    requires s.len() - (8 + p * (8 + cs)) < 8 + cs, avail == (s.len() - 8) / (8 + cs) as int, p >= 0;
            }
            assert(p == emitted(s, cs));
        }
        let rest = vstd::slice::slice_to_vec(vstd::slice::slice_subrange(self.buffer.as_slice(), pos, self.buffer.len()));
        proof {
            assert(rest@ =~= s.skip(record_offset(cs, self.chunks_processed as int)));
        }
        self.buffer = rest;
        out
    }

    /// Ends the stream: the last chunk, cut from what remains, or why the
    /// stream is refused.
    pub fn finish(&self) -> (r: Result<StreamChunk, ChunkStreamError>)
        requires
            self.wf(),
        ensures
            stream_total(self.stream()) is None ==> r matches Err(ChunkStreamError::MissingTotal),
            stream_total(self.stream()) matches Some(t) ==> {
                let p = emitted(self.stream(), self.chunk_size());
                let off = record_offset(self.chunk_size(), p);
                &&& t == 0 ==> (r matches Err(ChunkStreamError::NoChunks))
                &&& t != 0 && p != last_index(t) ==> (r matches Err(ChunkStreamError::WrongChunkCount { expected, processed })
                    && expected == last_index(t) && processed == p)
                &&& t != 0 && p == last_index(t) && self.stream().len() < off + 8 ==> (r matches Err(ChunkStreamError::TruncatedLastChunk))
                &&& t != 0 && p == last_index(t) && self.stream().len() >= off + 8 ==> (r matches Ok(c)
                    && c.chunk_id == spec_u64_from_le_bytes(self.stream().subrange(off, off + 8))
                    && c.data@ == self.stream().subrange(off + 8, self.stream().len() as int))
            },
    {
        let total = match self.total_chunks {
            None => { return Err(ChunkStreamError::MissingTotal); },
            Some(t) => t,
        };
        if total == 0 {
            return Err(ChunkStreamError::NoChunks);
        }
        let last: u64 = total - 1;
        if self.chunks_processed != last {
            return Err(ChunkStreamError::WrongChunkCount { expected: last, processed: self.chunks_processed });
        }
        if self.buffer.len() < 8 {
            return Err(ChunkStreamError::TruncatedLastChunk);
        }
        let b = self.buffer.as_slice();
        let id = u64_from_le_bytes(vstd::slice::slice_subrange(b, 0, 8));
        let data = vstd::slice::slice_to_vec(vstd::slice::slice_subrange(b, 8, b.len()));
        proof {
            let off = record_offset(self.chunk_size as nat, self.chunks_processed as int);
            assert(b@.subrange(0, 8) =~= self.stream@.subrange(off, off + 8));
            assert(b@.subrange(8, b@.len() as int) =~= self.stream@.subrange(off + 8, self.stream@.len() as int));
        }
        Ok(StreamChunk { chunk_id: id, data })
    }
}

/// What follows an uploaded file's completion: `file_key` is unregistered
/// from the file transfer service, and `response` is queued as the answer
/// to its storage request.
pub struct FileCompletion {
    pub file_key: H256,
    pub response: MspResponse,
}

/// Why an uploaded stream did not give a complete file.
pub enum StreamUploadError {
    /// The file storage still misses chunks after the last one was written
    FileIncomplete,
}

/// The end of an upload stream, once its last chunk was written:
/// `file_complete` tells whether the file storage then holds the whole
/// file. A complete file is unregistered and its storage request accepted;
/// an incomplete one is an error, and nothing follows.
pub fn after_last_chunk_written(file_key: &H256, file_complete: bool) -> (r: Result<FileCompletion, StreamUploadError>)
    ensures
        file_complete ==> (r matches Ok(c) && c.file_key == *file_key && c.response is Accept),
        !file_complete ==> (r matches Err(StreamUploadError::FileIncomplete)),
{
    if file_complete {
        Ok(FileCompletion { file_key: *file_key, response: MspResponse::Accept })
    } else {
        Err(StreamUploadError::FileIncomplete)
    }
}

} // verus!
