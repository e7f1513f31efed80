//! Tiny length-prefix framing for GoldSrc datagrams over Reticulum links.
//!
//! Reticulum's link payload ceiling (the MDU) is smaller than a GoldSrc UDP
//! datagram can be, so the bridge fragments each datagram into MDU-sized
//! chunks and reassembles them on the far side.
//!
//! Wire format per chunk: one header byte + up to `MAX_CHUNK` payload bytes.
//!   header bit 0 (0x01): final chunk of this datagram
//! Everything else in the header is reserved/zero.
//!
//! Reassembly: accumulate chunks until the "final" bit arrives, then emit the
//! whole datagram. This is per-link state; the relay owns one reassembly
//! buffer per direction it cares about.
use vstd::prelude::*;

verus! {

/// The largest payload handed to one link packet. A typical GoldSrc datagram
/// (~1400 bytes) fits in a single chunk.
pub const MAX_CHUNK: usize = 1900;

/// Header bit that marks the last chunk of a datagram.
pub const FLAG_FINAL: u8 = 0x01;

/// The largest datagram the reassembler hands out (the UDP maximum); a longer
/// reassembly is dropped.
pub const MAX_DATAGRAM: usize = 65_535;

/// Whether a chunk header carries the final-chunk bit.
pub open spec fn is_final_header(header: u8) -> bool {
    header & FLAG_FINAL != 0
}

/// The chunks `frame` produces for a datagram: `MAX_CHUNK`-byte slices in
/// order, each behind a zero header, and the remaining (possibly empty) tail
/// behind a `FLAG_FINAL` header.
pub open spec fn frame_spec(datagram: Seq<u8>) -> Seq<Seq<u8>>
    decreases datagram.len(),
{
    if datagram.len() <= MAX_CHUNK {
        seq![seq![FLAG_FINAL] + datagram]
    } else {
        seq![seq![0u8] + datagram.take(MAX_CHUNK as int)] + frame_spec(
            datagram.skip(MAX_CHUNK as int),
        )
    }
}

/// One step of reassembly: the buffer after `chunk` and the datagram it
/// completes, if any.
pub open spec fn push_spec(buf: Seq<u8>, chunk: Seq<u8>) -> (Seq<u8>, Option<Seq<u8>>) {
    if chunk.len() == 0 {
        (buf, None)
    } else {
        let acc = buf + chunk.drop_first();
        if is_final_header(chunk[0]) {
            if acc.len() > MAX_DATAGRAM {
                (Seq::empty(), None)
            } else {
                (Seq::empty(), Some(acc))
            }
        } else {
            (acc, None)
        }
    }
}

/// Feeding a stream of chunks, in order, to a reassembler holding `buf`: the
/// final buffer and the datagrams completed along the way.
pub open spec fn reassemble_spec(buf: Seq<u8>, chunks: Seq<Seq<u8>>) -> (Seq<u8>, Seq<Seq<u8>>)
    decreases chunks.len(),
{
    if chunks.len() == 0 {
        (buf, Seq::empty())
    } else {
        let (b1, out) = push_spec(buf, chunks[0]);
        let (b2, rest) = reassemble_spec(b1, chunks.drop_first());
        match out {
            Some(d) => (b2, seq![d] + rest),
            None => (b2, rest),
        }
    }
}

/// The chunks of every datagram in `datagrams`, one datagram after the other.
pub open spec fn frame_all_spec(datagrams: Seq<Seq<u8>>) -> Seq<Seq<u8>>
    decreases datagrams.len(),
{
    if datagrams.len() == 0 {
        Seq::empty()
    } else {
        frame_spec(datagrams[0]) + frame_all_spec(datagrams.drop_first())
    }
}

/// The byte contents of an optional buffer.
pub open spec fn bytes_opt_view(o: Option<Vec<u8>>) -> Option<Seq<u8>> {
    match o {
        Some(v) => Some(v@),
        None => None,
    }
}

proof fn lemma_headers()
    ensures
        is_final_header(FLAG_FINAL),
        !is_final_header(0u8),
{
    assert(0x01u8 & 0x01u8 != 0) by (bit_vector);
    assert(0u8 & 0x01u8 == 0) by (bit_vector);
}

/// Reassembling a stream in two parts is reassembling the first part, then
/// the second from where the first left the buffer.
proof fn lemma_reassemble_append(buf: Seq<u8>, xs: Seq<Seq<u8>>, ys: Seq<Seq<u8>>)
    ensures
        reassemble_spec(buf, xs + ys) == ({
            let (b1, o1) = reassemble_spec(buf, xs);
            let (b2, o2) = reassemble_spec(b1, ys);
            (b2, o1 + o2)
        }),
    decreases xs.len(),
{
    if xs.len() == 0 {
        assert(xs + ys =~= ys);
        assert(Seq::<Seq<u8>>::empty() + reassemble_spec(buf, ys).1 =~= reassemble_spec(buf, ys).1);
    } else {
        assert((xs + ys)[0] == xs[0]);
        assert((xs + ys).drop_first() =~= xs.drop_first() + ys);
        let (b1, out) = push_spec(buf, xs[0]);
        lemma_reassemble_append(b1, xs.drop_first(), ys);
        let (c1, p1) = reassemble_spec(b1, xs.drop_first());
        let (c2, p2) = reassemble_spec(c1, ys);
        match out {
            Some(d) => {
                assert(seq![d] + (p1 + p2) =~= (seq![d] + p1) + p2);
            },
            None => {},
        }
    }
}

/// The chunks of `datagram`, fed to a reassembler already holding `buf`,
/// complete `buf` followed by the datagram, or drop it when the whole is
/// longer than `MAX_DATAGRAM`; either way the buffer ends empty.
proof fn lemma_frame_reassemble_from(buf: Seq<u8>, datagram: Seq<u8>)
    ensures
        reassemble_spec(buf, frame_spec(datagram)) == (if buf.len() + datagram.len()
            <= MAX_DATAGRAM {
            (Seq::<u8>::empty(), seq![buf + datagram])
        } else {
            (Seq::<u8>::empty(), Seq::<Seq<u8>>::empty())
        }),
    decreases datagram.len(),
{
    lemma_headers();
    let chunks = frame_spec(datagram);
    if datagram.len() <= MAX_CHUNK {
        let c = seq![FLAG_FINAL] + datagram;
        assert(chunks == seq![c]);
        assert(c.drop_first() =~= datagram);
        assert(chunks.drop_first() =~= Seq::<Seq<u8>>::empty());
        assert(c[0] == FLAG_FINAL);
        assert(push_spec(buf, c).0 =~= Seq::<u8>::empty());
        assert(seq![buf + datagram] + Seq::<Seq<u8>>::empty() =~= seq![buf + datagram]);
        assert(reassemble_spec(Seq::<u8>::empty(), chunks.drop_first()) == (
            Seq::<u8>::empty(),
            Seq::<Seq<u8>>::empty(),
        ));
    } else {
        let head = datagram.take(MAX_CHUNK as int);
        let tail = datagram.skip(MAX_CHUNK as int);
        let c = seq![0u8] + head;
        assert(chunks == seq![c] + frame_spec(tail));
        assert(chunks[0] == c);
        assert(chunks.drop_first() =~= frame_spec(tail));
        assert(c.drop_first() =~= head);
        assert(c[0] == 0u8);
        assert(push_spec(buf, c) == (buf + head, None::<Seq<u8>>));
        lemma_frame_reassemble_from(buf + head, tail);
        assert(buf + head + tail =~= buf + datagram);
        assert(reassemble_spec(buf, chunks) == reassemble_spec(buf + head, frame_spec(tail)));
    }
}

/// Law (the wire contract): framing a datagram of at most `MAX_DATAGRAM`
/// bytes and feeding its chunks, in order, to a fresh reassembler yields
/// exactly that datagram, once, and leaves the reassembler empty.
pub proof fn frame_then_reassemble(datagram: Seq<u8>)
    requires
        datagram.len() <= MAX_DATAGRAM,
    ensures
        reassemble_spec(Seq::empty(), frame_spec(datagram)) == (
            Seq::<u8>::empty(),
            seq![datagram],
        ),
{
    lemma_frame_reassemble_from(Seq::empty(), datagram);
    assert(Seq::<u8>::empty() + datagram =~= datagram);
}

/// Law: a datagram longer than `MAX_DATAGRAM` is dropped by the far side,
/// and the reassembler is left empty, so the datagrams after it still
/// come through.
pub proof fn oversized_datagram_is_dropped(datagram: Seq<u8>)
    requires
        datagram.len() > MAX_DATAGRAM,
    ensures
        reassemble_spec(Seq::empty(), frame_spec(datagram)) == (
            Seq::<u8>::empty(),
            Seq::<Seq<u8>>::empty(),
        ),
{
    lemma_frame_reassemble_from(Seq::empty(), datagram);
}

/// Law: a link carrying the framed datagrams one after the other delivers
/// exactly those datagrams, in order, when none exceeds `MAX_DATAGRAM`.
pub proof fn framed_stream_round_trips(datagrams: Seq<Seq<u8>>)
    requires
        forall|i: int| 0 <= i < datagrams.len() ==> #[trigger] datagrams[i].len() <= MAX_DATAGRAM,
    ensures
        reassemble_spec(Seq::empty(), frame_all_spec(datagrams)) == (
            Seq::<u8>::empty(),
            datagrams,
        ),
    decreases datagrams.len(),
{
    if datagrams.len() == 0 {
        assert(frame_all_spec(datagrams) =~= Seq::<Seq<u8>>::empty());
        assert(datagrams =~= Seq::<Seq<u8>>::empty());
    } else {
        let first = datagrams[0];
        let rest = datagrams.drop_first();
        assert forall|i: int| 0 <= i < rest.len() implies #[trigger] rest[i].len()
            <= MAX_DATAGRAM by {
            assert(rest[i] == datagrams[i + 1]);
        }
        lemma_reassemble_append(Seq::empty(), frame_spec(first), frame_all_spec(rest));
        frame_then_reassemble(first);
        framed_stream_round_trips(rest);
        assert(seq![first] + rest =~= datagrams);
    }
}

/// Law (chunk shape): every chunk is a header byte plus at most `MAX_CHUNK`
/// payload bytes, exactly the last one carries the final bit, and a datagram
/// of `n > 0` bytes takes `ceil(n / MAX_CHUNK)` chunks (an empty one, one).
pub proof fn frame_chunk_shape(datagram: Seq<u8>)
    ensures
        frame_spec(datagram).len() == (if datagram.len() == 0 {
            1
        } else {
            (datagram.len() + MAX_CHUNK - 1) / (MAX_CHUNK as int)
        }),
        forall|i: int|
            #![trigger frame_spec(datagram)[i]]
            0 <= i < frame_spec(datagram).len() ==> {
                let c = frame_spec(datagram)[i];
                &&& 1 <= c.len() <= MAX_CHUNK + 1
                &&& is_final_header(c[0]) <==> i == frame_spec(datagram).len() - 1
            },
    decreases datagram.len(),
{
    lemma_headers();
    let chunks = frame_spec(datagram);
    if datagram.len() <= MAX_CHUNK {
        assert(chunks[0] == seq![FLAG_FINAL] + datagram);
    } else {
        let tail = datagram.skip(MAX_CHUNK as int);
        let c = seq![0u8] + datagram.take(MAX_CHUNK as int);
        frame_chunk_shape(tail);
        assert(chunks == seq![c] + frame_spec(tail));
        assert forall|i: int|
            #![trigger chunks[i]]
            0 <= i < chunks.len() implies {
            let ci = chunks[i];
            &&& 1 <= ci.len() <= MAX_CHUNK + 1
            &&& is_final_header(ci[0]) <==> i == chunks.len() - 1
        } by {
            if i > 0 {
                assert(chunks[i] == frame_spec(tail)[i - 1]);
            } else {
                assert(chunks[0] == c);
                assert(c[0] == 0u8);
            }
        }
    }
}

/// Frame one GoldSrc datagram into a sequence of link-packet payloads (each
/// at most `MAX_CHUNK + 1` bytes). Returns the chunks in order.
pub fn frame(datagram: &[u8]) -> (out: Vec<Vec<u8>>)
    ensures
        out@.map_values(|c: Vec<u8>| c@) == frame_spec(datagram@),
{
    if datagram.len() == 0 {
        // A zero-length datagram is degenerate; emit a single final chunk with
        // no payload so the reassembler still produces an empty datagram.
        let mut only: Vec<u8> = Vec::new();
        only.push(FLAG_FINAL);
        let mut out: Vec<Vec<u8>> = Vec::new();
        out.push(only);
        assert(out@.map_values(|c: Vec<u8>| c@) =~= frame_spec(datagram@));
        return out;
    }
    let ghost d = datagram@;
    let len = datagram.len();
    let mut out: Vec<Vec<u8>> = Vec::new();
    let mut offset: usize = 0;
    assert(d.skip(0) =~= d);
    assert(out@.map_values(|c: Vec<u8>| c@) =~= Seq::<Seq<u8>>::empty());
    assert(out@.map_values(|c: Vec<u8>| c@) + frame_spec(d.skip(0)) =~= frame_spec(d));
    while offset < len
        invariant
            len == d.len(),
            d == datagram@,
            0 < len,
            offset <= len,
            offset < len ==> out@.map_values(|c: Vec<u8>| c@) + frame_spec(d.skip(offset as int))
                == frame_spec(d),
            offset == len ==> out@.map_values(|c: Vec<u8>| c@) == frame_spec(d),
        decreases len - offset,
    {
        let ghost rest = d.skip(offset as int);
        let ghost before = out@.map_values(|c: Vec<u8>| c@);
        let end = if len - offset > MAX_CHUNK {
            offset + MAX_CHUNK
        } else {
            len
        };
        let is_final = end == len;
        let mut chunk: Vec<u8> = Vec::new();
        chunk.push(if is_final {
            FLAG_FINAL
        } else {
            0u8
        });
        chunk.extend_from_slice(&datagram[offset..end]);
        proof {
            let header = if is_final {
                FLAG_FINAL
            } else {
                0u8
            };
            assert(chunk@ =~= seq![header] + d.subrange(offset as int, end as int));
            if is_final {
                assert(rest.len() <= MAX_CHUNK);
                assert(d.subrange(offset as int, end as int) =~= rest);
                assert(frame_spec(rest) =~= seq![chunk@]);
            } else {
                assert(rest.take(MAX_CHUNK as int) =~= d.subrange(offset as int, end as int));
                assert(rest.skip(MAX_CHUNK as int) =~= d.skip(end as int));
                assert(frame_spec(rest) =~= seq![chunk@] + frame_spec(d.skip(end as int)));
            }
        }
        out.push(chunk);
        proof {
            assert(out@.map_values(|c: Vec<u8>| c@) =~= before.push(chunk@));
            if is_final {
                assert(before.push(chunk@) =~= before + frame_spec(rest));
            } else {
                assert(before.push(chunk@) + frame_spec(d.skip(end as int)) =~= before
                    + frame_spec(rest));
            }
        }
        offset = end;
    }
    out
}

/// A per-direction reassembly buffer. Feed it chunks from `frame`; `push`
/// returns `Some(complete_datagram)` when the final chunk arrives.
pub struct Reassembler {
    buf: Vec<u8>,
}

impl View for Reassembler {
    type V = Seq<u8>;

    /// The bytes accumulated toward the datagram in progress.
    closed spec fn view(&self) -> Seq<u8> {
        self.buf@
    }
}

impl Default for Reassembler {
    fn default() -> (r: Self)
        ensures
            r@ == Seq::<u8>::empty(),
    {
        Reassembler { buf: Vec::new() }
    }
}

impl Reassembler {
    /// Feed one chunk. Returns the whole datagram when `chunk` carries the
    /// final bit; an empty chunk is ignored; a reassembly longer than
    /// `MAX_DATAGRAM` is dropped.
    pub fn push(&mut self, chunk: &[u8]) -> (r: Option<Vec<u8>>)
        ensures
            (final(self)@, bytes_opt_view(r)) == push_spec(old(self)@, chunk@),
    {
        if chunk.len() == 0 {
            return None;
        }
        let header = chunk[0];
        let body = &chunk[1..chunk.len()];
        self.buf.extend_from_slice(body);
        assert(self.buf@ =~= old(self)@ + chunk@.drop_first());
        if header & FLAG_FINAL != 0 {
            let mut complete: Vec<u8> = Vec::new();
            std::mem::swap(&mut complete, &mut self.buf);
            // A GoldSrc datagram is at most ~64 KiB (UDP max). If reassembly
            // runs past that, drop the buffer to avoid unbounded growth on a
            // malformed stream.
            if complete.len() > MAX_DATAGRAM {
                self.buf.clear();
                return None;
            }
            Some(complete)
        } else {
            None
        }
    }

    /// Drop any partially reassembled datagram.
    pub fn reset(&mut self)
        ensures
            final(self)@ == Seq::<u8>::empty(),
    {
        self.buf.clear();
    }
}

} // verus!
