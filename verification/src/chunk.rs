//! RTMP chunk framing: reassembly of inbound chunks into whole messages and
//! serialization of outbound messages into fmt-0 / fmt-3 chunk runs.

use vstd::prelude::*;
use crate::bytes::{
    be24, be32, le32, be24_bytes, be32_bytes, le32_bytes, read_be24, read_be32, read_le32,
    push_be24, push_be32, push_le32,
};

verus! {

/// A fully reassembled RTMP message.
pub struct RtmpMessage {
    pub timestamp: u32,
    pub type_id: u8,
    pub stream_id: u32,
    pub payload: Vec<u8>,
}

/// The mathematical content of an [`RtmpMessage`].
#[verifier::ext_equal]
pub struct MsgView {
    pub timestamp: u32,
    pub type_id: u8,
    pub stream_id: u32,
    pub payload: Seq<u8>,
}

impl View for RtmpMessage {
    type V = MsgView;

    open spec fn view(&self) -> MsgView {
        MsgView {
            timestamp: self.timestamp,
            type_id: self.type_id,
            stream_id: self.stream_id,
            payload: self.payload@,
        }
    }
}

/// Outbound chunk size used for every response.
pub const OUT_CHUNK_SIZE: usize = 4096;

/// The 1-to-3-byte basic header for a chunk of format `fmt` on `cs_id`.
pub open spec fn basic_header_bytes(fmt: u8, cs_id: u32) -> Seq<u8>
    recommends
        fmt <= 3,
        cs_id >= 2,
{
    if cs_id <= 63 {
        seq![(fmt * 64 + cs_id) as u8]
    } else if cs_id <= 319 {
        seq![(fmt * 64) as u8, (cs_id - 64) as u8]
    } else {
        seq![(fmt * 64 + 1) as u8, ((cs_id - 64) % 0x100) as u8, (((cs_id - 64) / 0x100) % 0x100) as u8]
    }
}

/// The fmt-0 message header: 3-byte timestamp (0xFFFFFF when extended),
/// 3-byte length, type id, little-endian stream id, then the 4-byte
/// extended timestamp when the timestamp does not fit in 24 bits.
pub open spec fn fmt0_header_bytes(timestamp: u32, msg_length: u32, type_id: u8, stream_id: u32) -> Seq<u8>
    recommends
        msg_length < 0x1000000,
{
    let ts_field = if timestamp >= 0xFFFFFF {
        seq![0xFFu8, 0xFFu8, 0xFFu8]
    } else {
        be24_bytes(timestamp)
    };
    let ext = if timestamp >= 0xFFFFFF {
        be32_bytes(timestamp)
    } else {
        Seq::<u8>::empty()
    };
    ts_field + be24_bytes(msg_length) + seq![type_id] + le32_bytes(stream_id) + ext
}

/// The fmt-3 continuation chunks for the payload bytes from `offset` on.
pub open spec fn continuation_bytes(cs_id: u32, timestamp: u32, payload: Seq<u8>, offset: int) -> Seq<u8>
    recommends
        0 <= offset <= payload.len(),
    decreases payload.len() - offset,
        when 0 <= offset <= payload.len()
{
    if offset >= payload.len() {
        Seq::<u8>::empty()
    } else {
        let end = if offset + OUT_CHUNK_SIZE as int <= payload.len() {
            offset + OUT_CHUNK_SIZE as int
        } else {
            payload.len() as int
        };
        let ext = if timestamp >= 0xFFFFFF {
            be32_bytes(timestamp)
        } else {
            Seq::<u8>::empty()
        };
        basic_header_bytes(3, cs_id) + ext + payload.subrange(offset, end) + continuation_bytes(
            cs_id,
            timestamp,
            payload,
            end,
        )
    }
}

/// The full chunk serialization of one message: a fmt-0 first chunk
/// followed by fmt-3 continuations.
pub open spec fn message_bytes(
    cs_id: u32,
    timestamp: u32,
    type_id: u8,
    stream_id: u32,
    payload: Seq<u8>,
) -> Seq<u8>
    recommends
        cs_id >= 2,
        payload.len() < 0x1000000,
{
    let first_end = if payload.len() <= OUT_CHUNK_SIZE as int {
        payload.len() as int
    } else {
        OUT_CHUNK_SIZE as int
    };
    basic_header_bytes(0, cs_id) + fmt0_header_bytes(
        timestamp,
        payload.len() as u32,
        type_id,
        stream_id,
    ) + payload.subrange(0, first_end) + continuation_bytes(cs_id, timestamp, payload, first_end)
}

/// Serializes single outbound messages into chunk runs.
pub struct ChunkWriter {
    chunk_size: usize,
}

impl ChunkWriter {
    /// The writer always uses the fixed outbound chunk size.
    pub closed spec fn wf(&self) -> bool {
        self.chunk_size == OUT_CHUNK_SIZE
    }

    pub fn new() -> (r: ChunkWriter)
        ensures
            r.wf(),
    {
        ChunkWriter { chunk_size: OUT_CHUNK_SIZE }
    }

    /// Append the basic header for (`fmt`, `cs_id`) to `out`.
    fn write_basic_header(&self, out: &mut Vec<u8>, fmt: u8, cs_id: u32)
        requires
            fmt <= 3,
            cs_id >= 2,
        ensures
            final(out)@ == old(out)@ + basic_header_bytes(fmt, cs_id),
    {
        if cs_id <= 63 {
            out.push(fmt * 64 + cs_id as u8);
        } else if cs_id <= 319 {
            out.push(fmt * 64);
            out.push((cs_id - 64) as u8);
        } else {
            out.push(fmt * 64 + 1);
            let adjusted = cs_id - 64;
            out.push((adjusted % 0x100) as u8);
            out.push(((adjusted / 0x100) % 0x100) as u8);
        }
        assert(final(out)@ =~= old(out)@ + basic_header_bytes(fmt, cs_id));
    }

    /// Append the fmt-0 message header to `out`.
    fn write_fmt0_header(
        &self,
        out: &mut Vec<u8>,
        timestamp: u32,
        msg_length: u32,
        type_id: u8,
        stream_id: u32,
    )
        requires
            msg_length < 0x1000000,
        ensures
            final(out)@ == old(out)@ + fmt0_header_bytes(timestamp, msg_length, type_id, stream_id),
    {
        if timestamp >= 0xFFFFFF {
            out.push(0xFF);
            out.push(0xFF);
            out.push(0xFF);
        } else {
            push_be24(out, timestamp);
        }
        push_be24(out, msg_length);
        out.push(type_id);
        push_le32(out, stream_id);
        if timestamp >= 0xFFFFFF {
            push_be32(out, timestamp);
        }
        assert(final(out)@ =~= old(out)@ + fmt0_header_bytes(timestamp, msg_length, type_id, stream_id));
    }

    /// Serialize a message into RTMP chunks: always a fmt-0 first chunk,
    /// then fmt-3 continuations every 4096 payload bytes. A timestamp of
    /// 0xFFFFFF or more is written in extended form in every chunk.
    pub fn write_message(
        &self,
        cs_id: u32,
        timestamp: u32,
        type_id: u8,
        stream_id: u32,
        payload: &[u8],
    ) -> (r: Vec<u8>)
        requires
            self.wf(),
            cs_id >= 2,
            payload@.len() < 0x1000000,
        ensures
            r@ == message_bytes(cs_id, timestamp, type_id, stream_id, payload@),
    {
        let msg_len = payload.len();
        let mut out: Vec<u8> = Vec::new();

        self.write_basic_header(&mut out, 0, cs_id);
        self.write_fmt0_header(&mut out, timestamp, msg_len as u32, type_id, stream_id);
        let first_end = if msg_len <= self.chunk_size {
            msg_len
        } else {
            self.chunk_size
        };
        out.extend_from_slice(&payload[0..first_end]);
        assert(out@ =~= basic_header_bytes(0, cs_id) + fmt0_header_bytes(
            timestamp,
            payload@.len() as u32,
            type_id,
            stream_id,
        ) + payload@.subrange(0, first_end as int));

        let mut offset = first_end;
        while offset < msg_len
            invariant
                self.wf(),
                msg_len == payload@.len(),
                msg_len < 0x1000000,
                cs_id >= 2,
                offset <= msg_len,
                out@ + continuation_bytes(cs_id, timestamp, payload@, offset as int)
                    == message_bytes(cs_id, timestamp, type_id, stream_id, payload@),
            decreases msg_len - offset,
        {
            let ghost out0 = out@;
            self.write_basic_header(&mut out, 3, cs_id);
            if timestamp >= 0xFFFFFF {
                push_be32(&mut out, timestamp);
            }
            let end = if offset + self.chunk_size <= msg_len {
                offset + self.chunk_size
            } else {
                msg_len
            };
            out.extend_from_slice(&payload[offset..end]);
            proof {
                let ext = if timestamp >= 0xFFFFFF {
                    be32_bytes(timestamp)
                } else {
                    Seq::<u8>::empty()
                };
                assert(out@ =~= out0 + (basic_header_bytes(3, cs_id) + ext + payload@.subrange(
                    offset as int,
                    end as int,
                )));
                assert(continuation_bytes(cs_id, timestamp, payload@, offset as int)
                    =~= basic_header_bytes(3, cs_id) + ext + payload@.subrange(offset as int, end as int)
                    + continuation_bytes(cs_id, timestamp, payload@, end as int));
                assert(out@ + continuation_bytes(cs_id, timestamp, payload@, end as int)
                    =~= out0 + continuation_bytes(cs_id, timestamp, payload@, offset as int));
            }
            offset = end;
        }
        assert(continuation_bytes(cs_id, timestamp, payload@, offset as int)
            =~= Seq::<u8>::empty());
        assert(out@ =~= message_bytes(cs_id, timestamp, type_id, stream_id, payload@));
        out
    }
}


// ─── Inbound chunk reassembly ───

/// Per-chunk-stream reassembly state.
pub struct ChunkStreamState {
    pub timestamp: u32,
    pub timestamp_delta: u32,
    pub message_length: u32,
    pub type_id: u8,
    pub stream_id: u32,
    pub extended: bool,
    pub buffer: Vec<u8>,
}

/// The mathematical content of a [`ChunkStreamState`].
#[verifier::ext_equal]
pub struct CsView {
    pub timestamp: u32,
    pub timestamp_delta: u32,
    pub message_length: u32,
    pub type_id: u8,
    pub stream_id: u32,
    pub extended: bool,
    pub buffer: Seq<u8>,
}

impl View for ChunkStreamState {
    type V = CsView;

    open spec fn view(&self) -> CsView {
        CsView {
            timestamp: self.timestamp,
            timestamp_delta: self.timestamp_delta,
            message_length: self.message_length,
            type_id: self.type_id,
            stream_id: self.stream_id,
            extended: self.extended,
            buffer: self.buffer@,
        }
    }
}

/// The state a chunk stream starts from when its cs_id is first seen.
pub open spec fn cs_init() -> CsView {
    CsView {
        timestamp: 0,
        timestamp_delta: 0,
        message_length: 0,
        type_id: 0,
        stream_id: 0,
        extended: false,
        buffer: Seq::<u8>::empty(),
    }
}

/// Position of the first entry for `k`, or -1.
pub open spec fn assoc_index(s: Seq<(u32, CsView)>, k: u32) -> int
    decreases s.len(),
{
    if s.len() == 0 {
        -1
    } else if s[0].0 == k {
        0
    } else {
        let r = assoc_index(s.drop_first(), k);
        if r < 0 {
            -1
        } else {
            1 + r
        }
    }
}

/// The state recorded for `k`, or the initial state when `k` is new.
pub open spec fn assoc_find_or_init(s: Seq<(u32, CsView)>, k: u32) -> CsView {
    if assoc_index(s, k) >= 0 {
        s[assoc_index(s, k)].1
    } else {
        cs_init()
    }
}

/// Replace the entry for `k`, or append one.
pub open spec fn assoc_update(s: Seq<(u32, CsView)>, k: u32, v: CsView) -> Seq<(u32, CsView)> {
    if assoc_index(s, k) >= 0 {
        s.update(assoc_index(s, k), (k, v))
    } else {
        s.push((k, v))
    }
}

/// `assoc_index` is in range and finds `k`.
pub proof fn lemma_assoc_index_range(s: Seq<(u32, CsView)>, k: u32)
    ensures
        -1 <= assoc_index(s, k) < s.len(),
        assoc_index(s, k) >= 0 ==> s[assoc_index(s, k)].0 == k,
    decreases s.len(),
{
    if s.len() > 0 && s[0].0 != k {
        lemma_assoc_index_range(s.drop_first(), k);
    }
}

/// The first position whose key is `k` is what `assoc_index` returns.
pub proof fn lemma_assoc_index_first(s: Seq<(u32, CsView)>, k: u32, i: int)
    requires
        0 <= i <= s.len(),
        forall|j: int| 0 <= j < i ==> s[j].0 != k,
        i < s.len() ==> s[i].0 == k,
    ensures
        i < s.len() ==> assoc_index(s, k) == i,
        i == s.len() ==> assoc_index(s, k) == -1,
    decreases s.len(),
{
    if s.len() > 0 {
        if s[0].0 == k {
            assert(i == 0);
        } else {
            assert(i >= 1);
            lemma_assoc_index_first(s.drop_first(), k, i - 1);
        }
    }
}

/// 32-bit modular addition of a timestamp and a delta.
pub open spec fn add32(a: u32, b: u32) -> u32 {
    ((a + b) % 0x1_0000_0000) as u32
}

/// Parse the basic header: format bits, chunk stream id, and the position
/// of the first byte after the header. `None` when the buffer is shorter
/// than the header.
pub open spec fn parse_basic_header(buf: Seq<u8>) -> Option<(u8, u32, int)> {
    if buf.len() < 1 {
        None
    } else {
        let fmt = buf[0] / 64;
        let cs_low = buf[0] % 64;
        if cs_low == 0 {
            if buf.len() < 2 {
                None
            } else {
                Some((fmt, (buf[1] + 64) as u32, 2))
            }
        } else if cs_low == 1 {
            if buf.len() < 3 {
                None
            } else {
                Some((fmt, (buf[1] as u32 + buf[2] as u32 * 256 + 64) as u32, 3))
            }
        } else {
            Some((fmt, cs_low as u32, 1))
        }
    }
}

/// Absorb the payload part of a chunk whose header fields have been merged
/// into `s`: take `min(csize, missing)` bytes at `p`, and emit the message
/// when the accumulator reaches the recorded length.
pub open spec fn absorb_payload(
    st: Seq<(u32, CsView)>,
    csize: int,
    buf: Seq<u8>,
    cs_id: u32,
    s: CsView,
    p: int,
) -> Option<(Seq<(u32, CsView)>, int, Option<MsgView>)>
    recommends
        0 <= p <= buf.len(),
        csize >= 0,
{
    let missing = if s.message_length >= s.buffer.len() {
        s.message_length - s.buffer.len()
    } else {
        0
    };
    let d = if missing <= csize {
        missing
    } else {
        csize
    };
    if p + d > buf.len() {
        None
    } else {
        let nb = s.buffer + buf.subrange(p, p + d);
        if nb.len() >= s.message_length {
            let done = CsView { buffer: Seq::<u8>::empty(), ..s };
            let msg = MsgView {
                timestamp: s.timestamp,
                type_id: s.type_id,
                stream_id: s.stream_id,
                payload: nb,
            };
            Some((assoc_update(st, cs_id, done), p + d, Some(msg)))
        } else {
            let partial = CsView { buffer: nb, ..s };
            Some((assoc_update(st, cs_id, partial), p + d, None))
        }
    }
}

/// Parse one chunk from the head of `buf`: `None` when the buffer is
/// truncated anywhere inside the chunk (in which case nothing is consumed),
/// otherwise the updated states, the bytes consumed, and the completed
/// message if the chunk finished one.
pub open spec fn parse_chunk(st: Seq<(u32, CsView)>, csize: int, buf: Seq<u8>) -> Option<
    (Seq<(u32, CsView)>, int, Option<MsgView>),
>
    recommends
        csize >= 0,
{
    match parse_basic_header(buf) {
        None => None,
        Some((fmt, cs_id, p)) => {
            let prior = assoc_find_or_init(st, cs_id);
            if fmt == 3 {
                // continuation: no message header; an extended timestamp is
                // present exactly when the previous chunk used one
                let p2 = if prior.extended {
                    p + 4
                } else {
                    p
                };
                if p2 > buf.len() {
                    None
                } else {
                    let s = CsView {
                        timestamp: add32(prior.timestamp, prior.timestamp_delta),
                        ..prior
                    };
                    absorb_payload(st, csize, buf, cs_id, s, p2)
                }
            } else {
                let hsize: int = if fmt == 0 {
                    11
                } else if fmt == 1 {
                    7
                } else {
                    3
                };
                if p + hsize > buf.len() {
                    None
                } else {
                    let field = be24(buf[p], buf[p + 1], buf[p + 2]);
                    let mlen: u32 = if fmt == 2 {
                        prior.message_length
                    } else {
                        be24(buf[p + 3], buf[p + 4], buf[p + 5]) as u32
                    };
                    let tid: u8 = if fmt == 2 {
                        prior.type_id
                    } else {
                        buf[p + 6]
                    };
                    let sid: u32 = if fmt == 0 {
                        le32(buf[p + 7], buf[p + 8], buf[p + 9], buf[p + 10]) as u32
                    } else {
                        prior.stream_id
                    };
                    let p1 = p + hsize;
                    let ext = field == 0xFFFFFF;
                    if ext && p1 + 4 > buf.len() {
                        None
                    } else {
                        let tsf: u32 = if ext {
                            be32(buf[p1], buf[p1 + 1], buf[p1 + 2], buf[p1 + 3]) as u32
                        } else {
                            field as u32
                        };
                        let p2 = if ext {
                            p1 + 4
                        } else {
                            p1
                        };
                        let s = if fmt == 0 {
                            CsView {
                                timestamp: tsf,
                                timestamp_delta: 0,
                                message_length: mlen,
                                type_id: tid,
                                stream_id: sid,
                                extended: ext,
                                buffer: prior.buffer,
                            }
                        } else {
                            CsView {
                                timestamp: add32(prior.timestamp, tsf),
                                timestamp_delta: tsf,
                                message_length: mlen,
                                type_id: tid,
                                stream_id: sid,
                                extended: ext,
                                buffer: prior.buffer,
                            }
                        };
                        absorb_payload(st, csize, buf, cs_id, s, p2)
                    }
                }
            }
        },
    }
}

/// A parsed chunk consumes at least its basic header and never more than
/// the buffer holds.
pub proof fn lemma_parse_chunk_consumes(st: Seq<(u32, CsView)>, csize: int, buf: Seq<u8>)
    requires
        csize >= 0,
        parse_chunk(st, csize, buf) is Some,
    ensures
        1 <= parse_chunk(st, csize, buf)->Some_0.1 <= buf.len(),
{
}

/// Greedily parse chunks from `buf` until it is exhausted or truncated:
/// the final states, the unconsumed remainder, and the messages completed,
/// in order.
pub open spec fn process_buffer(st: Seq<(u32, CsView)>, csize: int, buf: Seq<u8>) -> (
    Seq<(u32, CsView)>,
    Seq<u8>,
    Seq<MsgView>,
)
    recommends
        csize >= 0,
    decreases buf.len(),
        when csize >= 0
    via process_buffer_decreases
{
    match parse_chunk(st, csize, buf) {
        None => (st, buf, Seq::<MsgView>::empty()),
        Some((st2, n, m)) => {
            let rest = process_buffer(st2, csize, buf.skip(n));
            let msgs = match m {
                None => rest.2,
                Some(msg) => seq![msg] + rest.2,
            };
            (rest.0, rest.1, msgs)
        },
    }
}

#[via_fn]
proof fn process_buffer_decreases(st: Seq<(u32, CsView)>, csize: int, buf: Seq<u8>) {
    if parse_chunk(st, csize, buf) is Some {
        lemma_parse_chunk_consumes(st, csize, buf);
    }
}


impl Default for ChunkStreamState {
    fn default() -> (r: ChunkStreamState)
        ensures
            r@ == cs_init(),
    {
        ChunkStreamState {
            timestamp: 0,
            timestamp_delta: 0,
            message_length: 0,
            type_id: 0,
            stream_id: 0,
            extended: false,
            buffer: Vec::new(),
        }
    }
}

/// Reads RTMP chunks from a byte buffer and reassembles them into messages.
pub struct ChunkReader {
    states: Vec<(u32, ChunkStreamState)>,
    max_chunk_size: usize,
    buf: Vec<u8>,
}

impl ChunkReader {
    /// The per-chunk-stream states, in first-seen order.
    pub closed spec fn states_view(&self) -> Seq<(u32, CsView)> {
        self.states@.map_values(|e: (u32, ChunkStreamState)| (e.0, e.1@))
    }

    /// The unconsumed input bytes.
    pub closed spec fn buf_view(&self) -> Seq<u8> {
        self.buf@
    }

    /// The inbound chunk size currently in force.
    pub closed spec fn chunk_size_view(&self) -> int {
        self.max_chunk_size as int
    }

    /// The chunk size always fits the protocol's 32-bit field.
    pub closed spec fn wf(&self) -> bool {
        self.max_chunk_size <= 0xFFFF_FFFF
    }

    pub fn new() -> (r: ChunkReader)
        ensures
            r.wf(),
            r.states_view() == Seq::<(u32, CsView)>::empty(),
            r.buf_view() == Seq::<u8>::empty(),
            r.chunk_size_view() == 128,
    {
        let r = ChunkReader { states: Vec::new(), max_chunk_size: 128, buf: Vec::new() };
        proof {
            assert(r.states_view() =~= Seq::<(u32, CsView)>::empty());
        }
        r
    }

    /// Change the inbound chunk size; takes effect for subsequent chunks.
    pub fn set_chunk_size(&mut self, size: u32)
        requires
            old(self).wf(),
        ensures
            final(self).wf(),
            final(self).chunk_size_view() == size,
            final(self).states_view() == old(self).states_view(),
            final(self).buf_view() == old(self).buf_view(),
    {
        self.max_chunk_size = size as usize;
    }

    /// Append incoming bytes to the internal buffer.
    pub fn extend(&mut self, data: &[u8])
        requires
            old(self).wf(),
        ensures
            final(self).wf(),
            final(self).chunk_size_view() == old(self).chunk_size_view(),
            final(self).states_view() == old(self).states_view(),
            final(self).buf_view() == old(self).buf_view() + data@,
    {
        self.buf.extend_from_slice(data);
    }

    /// Index of the state recorded for `cs_id`, when one exists.
    fn find_state(&self, cs_id: u32) -> (r: Option<usize>)
        ensures
            match r {
                Some(i) => i < self.states@.len() && assoc_index(self.states_view(), cs_id)
                    == i,
                None => assoc_index(self.states_view(), cs_id) == -1,
            },
    {
        let mut i: usize = 0;
        while i < self.states.len()
            invariant
                i <= self.states@.len(),
                forall|j: int| 0 <= j < i ==> self.states_view()[j].0 != cs_id,
            decreases self.states@.len() - i,
        {
            if self.states[i].0 == cs_id {
                proof {
                    lemma_assoc_index_first(self.states_view(), cs_id, i as int);
                }
                return Some(i);
            }
            i = i + 1;
        }
        proof {
            lemma_assoc_index_first(self.states_view(), cs_id, self.states@.len() as int);
        }
        None
    }

    /// Try to read one chunk from the head of the buffer: `None` when the
    /// buffer is truncated anywhere inside the chunk (in which case no
    /// state changes), `Some(None)` when a chunk was absorbed without
    /// completing a message, and `Some(Some(msg))` when it completed one.
    #[verifier::rlimit(100)]
    #[verifier::spinoff_prover]
    fn try_read_chunk(&mut self) -> (r: Option<Option<RtmpMessage>>)
        requires
            old(self).wf(),
        ensures
            final(self).wf(),
            final(self).chunk_size_view() == old(self).chunk_size_view(),
            ({
                let pr = parse_chunk(
                    old(self).states_view(),
                    old(self).chunk_size_view(),
                    old(self).buf_view(),
                );
                match pr {
                    None => {
                        &&& r is None
                        &&& final(self).states_view() == old(self).states_view()
                        &&& final(self).buf_view() == old(self).buf_view()
                    },
                    Some(step) => {
                        &&& final(self).states_view() == step.0
                        &&& final(self).buf_view() == old(self).buf_view().skip(step.1)
                        &&& match (r, step.2) {
                            (Some(Some(msg)), Some(mv)) => msg@ == mv,
                            (Some(None), None) => true,
                            _ => false,
                        }
                    },
                }
            }),
    {
        let ghost st0 = self.states_view();
        let ghost buf0 = self.buf_view();
        let ghost csize = self.chunk_size_view();

        let blen = self.buf.len();
        // ── basic header ──
        if blen < 1 {
            return None;
        }
        let b0 = self.buf[0];
        let fmt = b0 / 64;
        let cs_low = b0 % 64;
        let cs_id: u32;
        let p: usize;
        if cs_low == 0 {
            if blen < 2 {
                return None;
            }
            cs_id = self.buf[1] as u32 + 64;
            p = 2;
        } else if cs_low == 1 {
            if blen < 3 {
                return None;
            }
            cs_id = self.buf[1] as u32 + self.buf[2] as u32 * 256 + 64;
            p = 3;
        } else {
            cs_id = cs_low as u32;
            p = 1;
        }
        assert(parse_basic_header(buf0) == Some((fmt, cs_id, p as int)));

        // ── prior state for this chunk stream ──
        let idx_opt = self.find_state(cs_id);
        let ghost prior = assoc_find_or_init(st0, cs_id);
        let pts: u32;
        let pdelta: u32;
        let pmlen: u32;
        let ptid: u8;
        let psid: u32;
        let pext: bool;
        let pblen: usize;
        match idx_opt {
            Some(i) => {
                proof {
                    lemma_assoc_index_range(st0, cs_id);
                }
                let e = &self.states[i];
                pts = e.1.timestamp;
                pdelta = e.1.timestamp_delta;
                pmlen = e.1.message_length;
                ptid = e.1.type_id;
                psid = e.1.stream_id;
                pext = e.1.extended;
                pblen = e.1.buffer.len();
            },
            None => {
                pts = 0;
                pdelta = 0;
                pmlen = 0;
                ptid = 0;
                psid = 0;
                pext = false;
                pblen = 0;
            },
        }
        assert(pts == prior.timestamp && pdelta == prior.timestamp_delta && pmlen
            == prior.message_length && ptid == prior.type_id && psid == prior.stream_id && pext
            == prior.extended && pblen == prior.buffer.len());

        // ── message header and extended timestamp ──
        let ts: u32;
        let delta: u32;
        let mlen: u32;
        let tid: u8;
        let sid: u32;
        let ext: bool;
        let p2: usize;
        if fmt == 3 {
            if pext {
                if blen < p + 4 {
                    return None;
                }
                p2 = p + 4;
            } else {
                p2 = p;
            }
            ts = ((pts as u64 + pdelta as u64) % 0x1_0000_0000) as u32;
            delta = pdelta;
            mlen = pmlen;
            tid = ptid;
            sid = psid;
            ext = pext;
            assert(ts == add32(prior.timestamp, prior.timestamp_delta));
        } else {
            let hsize: usize = if fmt == 0 {
                11
            } else if fmt == 1 {
                7
            } else {
                3
            };
            if p + hsize > blen {
                return None;
            }
            let field = read_be24(self.buf[p], self.buf[p + 1], self.buf[p + 2]);
            mlen = if fmt == 2 {
                pmlen
            } else {
                read_be24(self.buf[p + 3], self.buf[p + 4], self.buf[p + 5])
            };
            tid = if fmt == 2 {
                ptid
            } else {
                self.buf[p + 6]
            };
            sid = if fmt == 0 {
                read_le32(self.buf[p + 7], self.buf[p + 8], self.buf[p + 9], self.buf[p + 10])
            } else {
                psid
            };
            let p1 = p + hsize;
            ext = field == 0xFFFFFF;
            let tsf: u32;
            if ext {
                if p1 + 4 > blen {
                    return None;
                }
                tsf = read_be32(self.buf[p1], self.buf[p1 + 1], self.buf[p1 + 2], self.buf[p1 + 3]);
                p2 = p1 + 4;
            } else {
                tsf = field;
                p2 = p1;
            }
            if fmt == 0 {
                ts = tsf;
                delta = 0;
            } else {
                ts = ((pts as u64 + tsf as u64) % 0x1_0000_0000) as u32;
                delta = tsf;
                assert(ts == add32(prior.timestamp, tsf));
            }
        }
        let ghost shdr = CsView {
            timestamp: ts,
            timestamp_delta: delta,
            message_length: mlen,
            type_id: tid,
            stream_id: sid,
            extended: ext,
            buffer: prior.buffer,
        };

        proof {
            assert(p2 <= blen);
            assert(parse_chunk(st0, csize, buf0) == absorb_payload(st0, csize, buf0, cs_id, shdr, p2 as int));
        }
        self.absorb_chunk(cs_id, idx_opt, ts, delta, mlen, tid, sid, ext, p2)
    }

    /// Absorb the payload of a chunk whose header has been read: take
    /// `min(chunk size, missing)` bytes at `p2`, update the chunk stream's
    /// state, and emit the message when it completes.
    #[verifier::rlimit(100)]
    #[verifier::spinoff_prover]
    fn absorb_chunk(
        &mut self,
        cs_id: u32,
        idx_opt: Option<usize>,
        ts: u32,
        delta: u32,
        mlen: u32,
        tid: u8,
        sid: u32,
        ext: bool,
        p2: usize,
    ) -> (r: Option<Option<RtmpMessage>>)
        requires
            old(self).wf(),
            p2 <= old(self).buf_view().len(),
            match idx_opt {
                Some(i) => i < old(self).states_view().len() && assoc_index(
                    old(self).states_view(),
                    cs_id,
                ) == i,
                None => assoc_index(old(self).states_view(), cs_id) == -1,
            },
        ensures
            final(self).wf(),
            final(self).chunk_size_view() == old(self).chunk_size_view(),
            ({
                let shdr = CsView {
                    timestamp: ts,
                    timestamp_delta: delta,
                    message_length: mlen,
                    type_id: tid,
                    stream_id: sid,
                    extended: ext,
                    buffer: assoc_find_or_init(old(self).states_view(), cs_id).buffer,
                };
                let pr = absorb_payload(
                    old(self).states_view(),
                    old(self).chunk_size_view(),
                    old(self).buf_view(),
                    cs_id,
                    shdr,
                    p2 as int,
                );
                match pr {
                    None => {
                        &&& r is None
                        &&& final(self).states_view() == old(self).states_view()
                        &&& final(self).buf_view() == old(self).buf_view()
                    },
                    Some(step) => {
                        &&& final(self).states_view() == step.0
                        &&& final(self).buf_view() == old(self).buf_view().skip(step.1)
                        &&& match (r, step.2) {
                            (Some(Some(msg)), Some(mv)) => msg@ == mv,
                            (Some(None), None) => true,
                            _ => false,
                        }
                    },
                }
            }),
    {
        let ghost st0 = self.states_view();
        let ghost buf0 = self.buf_view();
        let ghost csize = self.chunk_size_view();
        let ghost prior = assoc_find_or_init(st0, cs_id);
        let ghost shdr = CsView {
            timestamp: ts,
            timestamp_delta: delta,
            message_length: mlen,
            type_id: tid,
            stream_id: sid,
            extended: ext,
            buffer: prior.buffer,
        };
        let blen = self.buf.len();
        let pblen: usize = match idx_opt {
            Some(i) => {
                proof {
                    lemma_assoc_index_range(st0, cs_id);
                }
                self.states[i].1.buffer.len()
            },
            None => 0,
        };
        assert(pblen == prior.buffer.len());
        let missing: usize = if mlen as usize >= pblen {
            mlen as usize - pblen
        } else {
            0
        };
        let d: usize = if missing <= self.max_chunk_size {
            missing
        } else {
            self.max_chunk_size
        };
        if d > blen - p2 {
            return None;
        }
        let n = p2 + d;

        let mut stt: ChunkStreamState = match idx_opt {
            Some(i) => {
                let entry = self.states.remove(i);
                entry.1
            },
            None => ChunkStreamState::default(),
        };
        stt.timestamp = ts;
        stt.timestamp_delta = delta;
        stt.message_length = mlen;
        stt.type_id = tid;
        stt.stream_id = sid;
        stt.extended = ext;
        stt.buffer.extend_from_slice(&self.buf[p2..n]);
        assert(stt.buffer@ == prior.buffer + buf0.subrange(p2 as int, n as int));

        let complete = stt.buffer.len() >= mlen as usize;
        let out_msg: Option<RtmpMessage>;
        if complete {
            let payload = stt.buffer;
            stt.buffer = Vec::new();
            out_msg = Some(RtmpMessage { timestamp: ts, type_id: tid, stream_id: sid, payload });
        } else {
            out_msg = None;
        }
        match idx_opt {
            Some(i) => {
                self.states.insert(i, (cs_id, stt));
            },
            None => {
                self.states.push((cs_id, stt));
            },
        }

        // consume the chunk's bytes
        let mut rest: Vec<u8> = Vec::new();
        rest.extend_from_slice(&self.buf[n..blen]);
        self.buf = rest;

        proof {
            let nb = prior.buffer + buf0.subrange(p2 as int, n as int);
            assert(self.buf_view() =~= buf0.skip(n as int));
            let newv = stt@;
            match idx_opt {
                Some(i) => {
                    assert(self.states_view() =~= st0.update(i as int, (cs_id, newv)));
                    assert(assoc_index(st0, cs_id) == i);
                    assert(self.states_view() =~= assoc_update(st0, cs_id, newv));
                },
                None => {
                    assert(self.states_view() =~= st0.push((cs_id, newv)));
                    assert(self.states_view() =~= assoc_update(st0, cs_id, newv));
                },
            }
            if complete {
                assert(newv =~= CsView { buffer: Seq::<u8>::empty(), ..shdr });
            } else {
                assert(newv =~= CsView { buffer: nb, ..shdr });
            }
            let pr = absorb_payload(st0, csize, buf0, cs_id, shdr, p2 as int);
            assert(pr is Some);
            let step = pr->Some_0;
            assert(step.0 =~~= self.states_view());
            assert(step.1 == n as int);
        }
        Some(out_msg)
    }

    /// Read every complete message the buffer holds. Restartable: a
    /// truncated trailing chunk consumes nothing and is retried when more
    /// bytes arrive.
    pub fn read_messages(&mut self) -> (msgs: Vec<RtmpMessage>)
        requires
            old(self).wf(),
        ensures
            final(self).wf(),
            final(self).chunk_size_view() == old(self).chunk_size_view(),
            ({
                let r = process_buffer(
                    old(self).states_view(),
                    old(self).chunk_size_view(),
                    old(self).buf_view(),
                );
                &&& final(self).states_view() == r.0
                &&& final(self).buf_view() == r.1
                &&& msgs@.map_values(|m: RtmpMessage| m@) == r.2
            }),
    {
        let mut msgs: Vec<RtmpMessage> = Vec::new();
        let ghost csize = self.chunk_size_view();
        proof {
            assert(msgs@.map_values(|m: RtmpMessage| m@) =~= Seq::<MsgView>::empty());
        }
        loop
            invariant
                self.wf(),
                csize >= 0,
                self.chunk_size_view() == csize,
                old(self).chunk_size_view() == csize,
                ({
                    let r0 = process_buffer(
                        old(self).states_view(),
                        csize,
                        old(self).buf_view(),
                    );
                    let rc = process_buffer(self.states_view(), csize, self.buf_view());
                    &&& r0.0 == rc.0
                    &&& r0.1 == rc.1
                    &&& r0.2 == msgs@.map_values(|m: RtmpMessage| m@) + rc.2
                }),
            ensures
                self.wf(),
                self.chunk_size_view() == csize,
                ({
                    let r0 = process_buffer(
                        old(self).states_view(),
                        csize,
                        old(self).buf_view(),
                    );
                    &&& r0.0 == self.states_view()
                    &&& r0.1 == self.buf_view()
                    &&& r0.2 == msgs@.map_values(|m: RtmpMessage| m@)
                }),
            decreases self.buf_view().len(),
        {
            let ghost stc = self.states_view();
            let ghost bufc = self.buf_view();
            let ghost msgs0 = msgs@;
            let step = self.try_read_chunk();
            match step {
                None => {
                    proof {
                        let rc = process_buffer(stc, csize, bufc);
                        assert(rc.0 == stc && rc.1 == bufc && rc.2 =~= Seq::<MsgView>::empty());
                        assert(msgs@.map_values(|m: RtmpMessage| m@) + rc.2 =~= msgs@.map_values(
                            |m: RtmpMessage| m@,
                        ));
                    }
                    break ;
                },
                Some(m) => {
                    proof {
                        lemma_parse_chunk_consumes(stc, csize, bufc);
                    }
                    if let Some(msg) = m {
                        msgs.push(msg);
                        proof {
                            assert(msgs@.map_values(|m2: RtmpMessage| m2@) =~= msgs0.map_values(
                                |m2: RtmpMessage| m2@,
                            ) + seq![msgs@[msgs@.len() - 1]@]);
                        }
                    }
                    proof {
                        let pr = parse_chunk(stc, csize, bufc);
                        let step_spec = pr->Some_0;
                        let rc = process_buffer(stc, csize, bufc);
                        let rn = process_buffer(self.states_view(), csize, self.buf_view());
                        assert(rc.0 == rn.0 && rc.1 == rn.1);
                        match step_spec.2 {
                            None => {
                                assert(rc.2 =~= rn.2);
                                assert(msgs@ == msgs0);
                                assert(msgs@.map_values(|m2: RtmpMessage| m2@) + rn.2 =~= msgs0.map_values(
                                    |m2: RtmpMessage| m2@,
                                ) + rc.2);
                            },
                            Some(mv) => {
                                assert(rc.2 =~= seq![mv] + rn.2);
                                assert(msgs@.map_values(|m2: RtmpMessage| m2@) + rn.2 =~= msgs0.map_values(
                                    |m2: RtmpMessage| m2@,
                                ) + rc.2);
                            },
                        }
                    }
                },
            }
        }
        msgs
    }
}


/// A basic header parsed from a prefix parses identically from any
/// extension of that prefix.
pub proof fn lemma_parse_basic_header_prefix(b: Seq<u8>, e: Seq<u8>)
    requires
        parse_basic_header(b) is Some,
    ensures
        parse_basic_header(b + e) == parse_basic_header(b),
{
    assert(b.len() >= 1);
    assert((b + e)[0] == b[0]);
    if b[0] % 64 == 0 {
        assert((b + e)[1] == b[1]);
    } else if b[0] % 64 == 1 {
        assert((b + e)[1] == b[1]);
        assert((b + e)[2] == b[2]);
    }
}

/// A payload absorbed from a prefix is absorbed identically from any
/// extension of that prefix.
pub proof fn lemma_absorb_payload_prefix(
    st: Seq<(u32, CsView)>,
    csize: int,
    b: Seq<u8>,
    e: Seq<u8>,
    cs_id: u32,
    s: CsView,
    p: int,
)
    requires
        csize >= 0,
        0 <= p <= b.len(),
        absorb_payload(st, csize, b, cs_id, s, p) is Some,
    ensures
        absorb_payload(st, csize, b + e, cs_id, s, p) == absorb_payload(st, csize, b, cs_id, s, p),
{
    let missing = if s.message_length >= s.buffer.len() {
        s.message_length - s.buffer.len()
    } else {
        0
    };
    let d = if missing <= csize {
        missing
    } else {
        csize
    };
    assert(p + d <= b.len());
    assert((b + e).subrange(p, p + d) =~= b.subrange(p, p + d));
}

/// A chunk parsed whole from a prefix parses identically from any
/// extension of that prefix: parsing is determined by the bytes consumed.
pub proof fn lemma_parse_chunk_prefix(st: Seq<(u32, CsView)>, csize: int, b: Seq<u8>, e: Seq<u8>)
    requires
        csize >= 0,
        parse_chunk(st, csize, b) is Some,
    ensures
        parse_chunk(st, csize, b + e) == parse_chunk(st, csize, b),
{
    lemma_parse_basic_header_prefix(b, e);
    let (fmt, cs_id, p) = parse_basic_header(b)->Some_0;
    let prior = assoc_find_or_init(st, cs_id);
    let c = b + e;
    if fmt == 3 {
        let p2 = if prior.extended {
            p + 4
        } else {
            p
        };
        assert(p2 <= b.len());
        let s = CsView { timestamp: add32(prior.timestamp, prior.timestamp_delta), ..prior };
        lemma_absorb_payload_prefix(st, csize, b, e, cs_id, s, p2);
    } else {
        let hsize: int = if fmt == 0 {
            11
        } else if fmt == 1 {
            7
        } else {
            3
        };
        assert(p + hsize <= b.len());
        assert forall|i: int| 0 <= i < b.len() implies c[i] == b[i] by {}
        let field = be24(b[p], b[p + 1], b[p + 2]);
        let p1 = p + hsize;
        let ext = field == 0xFFFFFF;
        if ext {
            assert(p1 + 4 <= b.len());
        }
        let p2 = if ext {
            p1 + 4
        } else {
            p1
        };
        let pr = parse_chunk(st, csize, b);
        assert(pr is Some);
        // the merged header state is built from bytes below p2 either way
        let tsf: u32 = if ext {
            be32(b[p1], b[p1 + 1], b[p1 + 2], b[p1 + 3]) as u32
        } else {
            field as u32
        };
        let mlen: u32 = if fmt == 2 {
            prior.message_length
        } else {
            be24(b[p + 3], b[p + 4], b[p + 5]) as u32
        };
        let tid: u8 = if fmt == 2 {
            prior.type_id
        } else {
            b[p + 6]
        };
        let sid: u32 = if fmt == 0 {
            le32(b[p + 7], b[p + 8], b[p + 9], b[p + 10]) as u32
        } else {
            prior.stream_id
        };
        let s = if fmt == 0 {
            CsView {
                timestamp: tsf,
                timestamp_delta: 0,
                message_length: mlen,
                type_id: tid,
                stream_id: sid,
                extended: ext,
                buffer: prior.buffer,
            }
        } else {
            CsView {
                timestamp: add32(prior.timestamp, tsf),
                timestamp_delta: tsf,
                message_length: mlen,
                type_id: tid,
                stream_id: sid,
                extended: ext,
                buffer: prior.buffer,
            }
        };
        assert(absorb_payload(st, csize, b, cs_id, s, p2) is Some);
        lemma_absorb_payload_prefix(st, csize, b, e, cs_id, s, p2);
    }
}

/// Split-independence of reassembly: processing a byte stream in two
/// batches — the first batch now, the second appended to its leftover
/// later — ends in the same states and remainder and yields the same
/// messages, in the same order, as processing all the bytes at once.
pub proof fn lemma_process_split(st: Seq<(u32, CsView)>, csize: int, b1: Seq<u8>, b2: Seq<u8>)
    requires
        csize >= 0,
    ensures
        ({
            let whole = process_buffer(st, csize, b1 + b2);
            let first = process_buffer(st, csize, b1);
            let second = process_buffer(first.0, csize, first.1 + b2);
            &&& whole.0 == second.0
            &&& whole.1 == second.1
            &&& whole.2 == first.2 + second.2
        }),
    decreases b1.len(),
{
    let whole = process_buffer(st, csize, b1 + b2);
    let first = process_buffer(st, csize, b1);
    let second = process_buffer(first.0, csize, first.1 + b2);
    match parse_chunk(st, csize, b1) {
        None => {
            assert(first == (st, b1, Seq::<MsgView>::empty()));
            assert(second == whole);
            assert(first.2 + second.2 =~= whole.2);
        },
        Some(step) => {
            let (st2, n, m) = step;
            lemma_parse_chunk_consumes(st, csize, b1);
            lemma_parse_chunk_prefix(st, csize, b1, b2);
            assert((b1 + b2).skip(n) =~= b1.skip(n) + b2);
            lemma_process_split(st2, csize, b1.skip(n), b2);
            let wrest = process_buffer(st2, csize, b1.skip(n) + b2);
            let frest = process_buffer(st2, csize, b1.skip(n));
            let srest = process_buffer(frest.0, csize, frest.1 + b2);
            assert(whole.0 == wrest.0 && whole.1 == wrest.1);
            assert(first.0 == frest.0 && first.1 == frest.1);
            assert(second == srest);
            match m {
                None => {
                    assert(whole.2 =~= wrest.2);
                    assert(first.2 =~= frest.2);
                    assert(whole.2 =~= first.2 + second.2);
                },
                Some(mv) => {
                    assert(whole.2 =~= seq![mv] + wrest.2);
                    assert(first.2 =~= seq![mv] + frest.2);
                    assert(whole.2 =~= first.2 + second.2);
                },
            }
        },
    }
}

} // verus!
