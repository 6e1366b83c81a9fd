//! The stream framer: synchronizes on frame starts inside an arbitrary
//! byte stream, extracts complete IPv4 frames, and emits one record per
//! frame that passes the noise filter.
//!
//! The extraction policy over the buffered bytes is the spec function
//! [`scan`]: skip bytes that cannot start a frame, slide by a single byte
//! past a candidate whose declared length is structurally invalid, stop
//! and wait at a candidate whose header or body is not yet buffered, and
//! otherwise consume exactly the declared number of bytes as one frame.

use vstd::prelude::*;
use crate::addr::{is_broadcast, is_unspecified};
use crate::decode::parse_ipv4_at;
use crate::record::{frame_noisy, make_record, rec_of_frame, PacketUpdate, RecordView};

verus! {

/// The byte that can open a frame: IPv4, five 32-bit header words.
pub const FRAME_START: u8 = 0x45;

/// Bytes in a minimal header; no frame is shorter.
pub const MIN_FRAME_LEN: usize = 20;

/// Default ceiling on buffered, unconsumed bytes.
pub const DEFAULT_CEILING: usize = 8192;

/// A byte at which extraction may attempt a frame.
pub open spec fn is_frame_start(b: u8) -> bool {
    b == 0x45
}

/// Declared total length of the frame starting at the head of `s`:
/// the big-endian pair at offsets 2 and 3.
pub open spec fn total_of(s: Seq<u8>) -> int {
    s[2] * 256 + s[3]
}

/// One extraction pass over `s`: the records emitted, and how many bytes
/// are consumed from the front. Unconsumed bytes wait for further input.
pub open spec fn scan(s: Seq<u8>) -> (Seq<RecordView>, int)
    decreases s.len(),
{
    if s.len() == 0 {
        (Seq::empty(), 0)
    } else if !is_frame_start(s[0]) {
        let r = scan(s.skip(1));
        (r.0, r.1 + 1)
    } else if s.len() < 20 {
        (Seq::empty(), 0)
    } else if total_of(s) < 20 {
        let r = scan(s.skip(1));
        (r.0, r.1 + 1)
    } else if s.len() < total_of(s) {
        (Seq::empty(), 0)
    } else {
        let f = s.take(total_of(s));
        let r = scan(s.skip(total_of(s)));
        if frame_noisy(f) {
            (r.0, r.1 + total_of(s))
        } else {
            (seq![rec_of_frame(f)] + r.0, r.1 + total_of(s))
        }
    }
}

/// What a scan leaves behind.
pub open spec fn scan_rest(s: Seq<u8>) -> Seq<u8> {
    s.skip(scan(s).1)
}

/// What one `ingest` call does, at the level of byte sequences: append
/// the chunk, evict the oldest bytes down to the ceiling, then scan.
pub open spec fn ingest_step(buf: Seq<u8>, chunk: Seq<u8>, cap: int) -> (Seq<RecordView>, Seq<u8>) {
    let s0 = buf + chunk;
    let s = if s0.len() > cap {
        s0.skip(s0.len() - cap)
    } else {
        s0
    };
    (scan(s).0, scan_rest(s))
}

/// A scan consumes between none and all of the bytes.
pub proof fn lemma_scan_used_bounds(s: Seq<u8>)
    ensures
        0 <= scan(s).1 <= s.len(),
    decreases s.len(),
{
    if s.len() == 0 {
    } else if !is_frame_start(s[0]) {
        lemma_scan_used_bounds(s.skip(1));
    } else if s.len() < 20 {
    } else if total_of(s) < 20 {
        lemma_scan_used_bounds(s.skip(1));
    } else if s.len() < total_of(s) {
    } else {
        lemma_scan_used_bounds(s.skip(total_of(s)));
    }
}

/// The framer: buffered unconsumed bytes under a configured ceiling.
pub struct StreamFramer {
    buf: Vec<u8>,
    ceiling: usize,
}

impl StreamFramer {
    /// The unconsumed bytes, oldest first.
    pub closed spec fn bytes(self) -> Seq<u8> {
        self.buf@
    }

    /// The configured ceiling on buffered bytes.
    pub closed spec fn cap(self) -> int {
        self.ceiling as int
    }

    /// The buffer never outgrows its ceiling.
    pub open spec fn wf(self) -> bool {
        self.bytes().len() <= self.cap()
    }

    pub fn new(ceiling: usize) -> (r: StreamFramer)
        ensures
            r.bytes() == Seq::<u8>::empty(),
            r.cap() == ceiling as int,
            r.wf(),
    {
        StreamFramer { buf: Vec::new(), ceiling }
    }

    /// How many bytes are buffered and unconsumed.
    pub fn buffered_len(&self) -> (r: usize)
        ensures
            r as int == self.bytes().len(),
    {
        self.buf.len()
    }

    /// Appends a chunk, evicts the oldest bytes if the ceiling is passed,
    /// and extracts every frame that is now complete, in stream order.
    pub fn ingest(&mut self, chunk: &[u8]) -> (out: Vec<PacketUpdate>)
        ensures
            final(self).cap() == old(self).cap(),
            out@.map_values(|r: PacketUpdate| r@) == ingest_step(
                old(self).bytes(),
                chunk@,
                old(self).cap(),
            ).0,
            final(self).bytes() == ingest_step(old(self).bytes(), chunk@, old(self).cap()).1,
            final(self).wf(),
            forall|i: int| 0 <= i < out@.len() ==> out@[i].wf(),
    {
        // Append the chunk.
        let ghost buf0 = self.buf@;
        let mut j: usize = 0;
        while j < chunk.len()
            invariant
                j <= chunk.len(),
                self.buf@ == buf0 + chunk@.take(j as int),
                self.ceiling == old(self).ceiling,
            decreases chunk.len() - j,
        {
            let b = chunk[j];
            self.buf.push(b);
            proof {
                assert(buf0 + chunk@.take(j as int) + seq![chunk@[j as int]] =~= buf0
                    + chunk@.take(j + 1));
            }
            j = j + 1;
        }
        proof {
            assert(chunk@.take(chunk@.len() as int) =~= chunk@);
        }

        // Evict from the front once the ceiling is passed.
        if self.buf.len() > self.ceiling {
            let start = self.buf.len() - self.ceiling;
            let mut kept: Vec<u8> = Vec::new();
            let mut i: usize = start;
            while i < self.buf.len()
                invariant
                    start <= i <= self.buf@.len(),
                    self.buf@ == buf0 + chunk@,
                    start == self.buf@.len() - self.ceiling,
                    kept@ == self.buf@.subrange(start as int, i as int),
                    self.ceiling == old(self).ceiling,
                decreases self.buf@.len() - i,
            {
                let b = self.buf[i];
                kept.push(b);
                proof {
                    assert(self.buf@.subrange(start as int, i as int) + seq![self.buf@[i as int]]
                        =~= self.buf@.subrange(start as int, i + 1));
                }
                i = i + 1;
            }
            proof {
                assert(kept@ =~= (buf0 + chunk@).skip((buf0 + chunk@).len() - self.ceiling));
            }
            self.buf = kept;
        }

        let ghost stream = self.buf@;
        proof {
            assert(stream.skip(0) =~= stream);
        }

        // Extract complete frames.
        let mut out: Vec<PacketUpdate> = Vec::new();
        let mut i: usize = 0;
        proof {
            assert(out@.map_values(|r: PacketUpdate| r@) =~= Seq::<RecordView>::empty());
        }
        loop
            invariant
                i <= self.buf@.len(),
                self.buf@ == stream,
                self.ceiling == old(self).ceiling,
                scan(stream).0 =~= out@.map_values(|r: PacketUpdate| r@) + scan(
                    stream.skip(i as int),
                ).0,
                scan(stream).1 == i + scan(stream.skip(i as int)).1,
                forall|p: int| 0 <= p < out@.len() ==> out@[p].wf(),
            ensures
                i <= stream.len(),
                scan(stream.skip(i as int)).0 == Seq::<RecordView>::empty(),
                scan(stream.skip(i as int)).1 == 0,
            decreases self.buf@.len() - i,
        {
            let ghost tail = stream.skip(i as int);
            proof {
                assert(tail.len() == stream.len() - i);
                if i < stream.len() {
                    assert(tail[0] == stream[i as int]);
                }
            }
            if i >= self.buf.len() {
                proof {
                    assert(tail =~= Seq::<u8>::empty());
                }
                break ;
            }
            let b = self.buf[i];
            if b != FRAME_START {
                proof {
                    assert(tail.skip(1) =~= stream.skip(i + 1));
                }
                i = i + 1;
                continue ;
            }
            if self.buf.len() - i < MIN_FRAME_LEN {
                break ;
            }
            let ho = parse_ipv4_at(&self.buf, i);
            let h = ho.unwrap();
            let total = h.total_len as usize;
            proof {
                assert(tail[2] == stream[i + 2]);
                assert(tail[3] == stream[i + 3]);
                assert(total as int == total_of(tail));
            }
            if total < MIN_FRAME_LEN {
                proof {
                    assert(tail.skip(1) =~= stream.skip(i + 1));
                }
                i = i + 1;
                continue ;
            }
            if self.buf.len() - i < total {
                break ;
            }
            // The frame is complete: slice it out.
            let mut frame: Vec<u8> = Vec::new();
            let end = i + total;
            let mut k: usize = i;
            while k < end
                invariant
                    i <= k <= end,
                    end == i + total,
                    end <= self.buf@.len(),
                    self.buf@ == stream,
                    frame@ == stream.subrange(i as int, k as int),
                decreases end - k,
            {
                let b2 = self.buf[k];
                frame.push(b2);
                proof {
                    assert(stream.subrange(i as int, k as int) + seq![stream[k as int]] =~= stream
                        .subrange(i as int, k + 1));
                }
                k = k + 1;
            }
            proof {
                assert(frame@ =~= tail.take(total as int));
                assert(frame@[12] == tail[12] && frame@[13] == tail[13] && frame@[14] == tail[14]
                    && frame@[15] == tail[15]);
                assert(frame@[16] == tail[16] && frame@[17] == tail[17] && frame@[18] == tail[18]
                    && frame@[19] == tail[19]);
                assert(h.src == crate::record::frame_src(frame@));
                assert(h.dst == crate::record::frame_dst(frame@));
                assert(tail.skip(total as int) =~= stream.skip(i + total));
            }
            let keep = !(is_unspecified(h.src) || is_unspecified(h.dst) || is_broadcast(h.src)
                || is_broadcast(h.dst));
            if keep {
                let rec = make_record(frame);
                proof {
                    let ghost prev = out@;
                    assert(!frame_noisy(tail.take(total as int)));
                    assert(prev.push(rec).map_values(|r: PacketUpdate| r@) =~= prev.map_values(
                        |r: PacketUpdate| r@,
                    ).push(rec@));
                    assert(prev.map_values(|r: PacketUpdate| r@) + (seq![
                        rec_of_frame(tail.take(total as int))] + scan(stream.skip(i + total)).0)
                        =~= prev.push(rec).map_values(|r: PacketUpdate| r@) + scan(
                        stream.skip(i + total),
                    ).0);
                }
                out.push(rec);
            } else {
                proof {
                    assert(frame_noisy(tail.take(total as int)));
                }
            }
            i = i + total;
        }
        // What the pass consumed is dropped; the rest waits for input.
        proof {
            assert(scan(stream).1 == i);
        }
        let mut kept: Vec<u8> = Vec::new();
        let mut m: usize = i;
        while m < self.buf.len()
            invariant
                i <= m <= self.buf@.len(),
                self.buf@ == stream,
                self.ceiling == old(self).ceiling,
                kept@ == stream.subrange(i as int, m as int),
            decreases self.buf@.len() - m,
        {
            let b3 = self.buf[m];
            kept.push(b3);
            proof {
                assert(stream.subrange(i as int, m as int) + seq![stream[m as int]] =~= stream
                    .subrange(i as int, m + 1));
            }
            m = m + 1;
        }
        proof {
            assert(kept@ =~= stream.skip(i as int));
        }
        self.buf = kept;
        proof {
            assert(out@.map_values(|r: PacketUpdate| r@) =~= scan(stream).0);
        }
        out
    }
}

/// Scanning a stream extended by more bytes first yields everything the
/// stream alone yields, then continues from the bytes the first scan
/// left waiting.
#[verifier::rlimit(40)]
pub proof fn lemma_scan_extend(s: Seq<u8>, t: Seq<u8>)
    ensures
        scan(s + t).0 == scan(s).0 + scan(scan_rest(s) + t).0,
        scan(s + t).1 == scan(s).1 + scan(scan_rest(s) + t).1,
    decreases s.len(),
{
    lemma_scan_used_bounds(s);
    let u = s + t;
    if s.len() == 0 {
        assert(u =~= t);
        assert(scan_rest(s) + t =~= t);
        assert(scan(s).0 + scan(t).0 =~= scan(t).0);
    } else if !is_frame_start(s[0]) {
        assert(u[0] == s[0]);
        assert(u.skip(1) =~= s.skip(1) + t);
        lemma_scan_extend(s.skip(1), t);
        lemma_scan_used_bounds(s.skip(1));
        assert(scan_rest(s.skip(1)) =~= scan_rest(s));
        assert(scan(u).0 == scan(s).0 + scan(scan_rest(s) + t).0);
    } else if s.len() < 20 {
        assert(scan_rest(s) =~= s);
        assert(scan_rest(s) + t =~= u);
        assert(scan(s).0 + scan(u).0 =~= scan(u).0);
    } else if total_of(s) < 20 {
        assert(u[0] == s[0] && u[2] == s[2] && u[3] == s[3]);
        assert(total_of(u) == total_of(s));
        assert(u.skip(1) =~= s.skip(1) + t);
        lemma_scan_extend(s.skip(1), t);
        lemma_scan_used_bounds(s.skip(1));
        assert(scan_rest(s.skip(1)) =~= scan_rest(s));
        assert(scan(u).0 == scan(s).0 + scan(scan_rest(s) + t).0);
    } else if s.len() < total_of(s) {
        assert(scan_rest(s) =~= s);
        assert(scan_rest(s) + t =~= u);
        assert(scan(s).0 + scan(u).0 =~= scan(u).0);
    } else {
        let total = total_of(s);
        assert(u[0] == s[0] && u[2] == s[2] && u[3] == s[3]);
        assert(total_of(u) == total);
        assert(u.len() >= total);
        assert(u.take(total) =~= s.take(total));
        assert(u.skip(total) =~= s.skip(total) + t);
        lemma_scan_extend(s.skip(total), t);
        lemma_scan_used_bounds(s.skip(total));
        assert(s.skip(total).skip(scan(s.skip(total)).1) =~= scan_rest(s));
        let f = s.take(total);
        let mid = scan(scan_rest(s) + t);
        if frame_noisy(f) {
            assert(scan(u).0 == scan(s.skip(total)).0 + mid.0);
            assert(scan(s).0 + mid.0 == scan(u).0);
        } else {
            assert(scan(u).0 == seq![rec_of_frame(f)] + (scan(s.skip(total)).0 + mid.0));
            assert(seq![rec_of_frame(f)] + (scan(s.skip(total)).0 + mid.0) =~= (seq![
                rec_of_frame(f)] + scan(s.skip(total)).0) + mid.0);
        }
    }
}

/// The bytes left waiting after scanning an extended stream are those
/// left after scanning the first scan's leftover plus the extension.
pub proof fn lemma_scan_rest_extend(s: Seq<u8>, t: Seq<u8>)
    ensures
        scan_rest(s + t) == scan_rest(scan_rest(s) + t),
{
    lemma_scan_extend(s, t);
    lemma_scan_used_bounds(s);
    lemma_scan_used_bounds(scan_rest(s) + t);
    let c = scan(s).1;
    let d = scan(scan_rest(s) + t).1;
    assert((s + t).skip(c + d) =~= (scan_rest(s) + t).skip(d)) by {
        assert(scan_rest(s).len() == s.len() - c);
        assert forall|j: int| 0 <= j < (s + t).len() - (c + d) implies (s + t).skip(c + d)[j]
            == (scan_rest(s) + t).skip(d)[j] by {
            if d + j < s.len() - c {
                assert((scan_rest(s) + t)[d + j] == s[c + d + j]);
            } else {
                assert((scan_rest(s) + t)[d + j] == t[d + j - (s.len() - c)]);
            }
        }
    }
}

/// State after feeding a sequence of chunks through repeated `ingest`
/// steps under a ceiling: the records emitted so far and the buffered
/// leftover.
pub open spec fn feed_all(chunks: Seq<Seq<u8>>, cap: int) -> (Seq<RecordView>, Seq<u8>)
    decreases chunks.len(),
{
    if chunks.len() == 0 {
        (Seq::empty(), Seq::empty())
    } else {
        let p = feed_all(chunks.drop_last(), cap);
        let step = ingest_step(p.1, chunks.last(), cap);
        (p.0 + step.0, step.1)
    }
}

/// Chunking invariance: however a stream that fits under the ceiling is
/// split into `ingest` calls, they emit exactly the records of one scan
/// pass over the concatenation, and leave the same bytes waiting. (For
/// a stream longer than the ceiling the split can matter: one split may
/// evict bytes that another extracts in time.)
pub proof fn lemma_chunking_invariance(chunks: Seq<Seq<u8>>, cap: int)
    requires
        chunks.flatten().len() <= cap,
    ensures
        feed_all(chunks, cap).0 == scan(chunks.flatten()).0,
        feed_all(chunks, cap).1 == scan_rest(chunks.flatten()),
    decreases chunks.len(),
{
    if chunks.len() == 0 {
        assert(chunks.flatten() == Seq::<Seq<u8>>::empty().flatten());
        assert(scan(chunks.flatten()).0 == Seq::<RecordView>::empty());
        assert(chunks.flatten().skip(0) =~= chunks.flatten());
    } else {
        let front = chunks.drop_last().flatten();
        assert(chunks.drop_last().push(chunks.last()) =~= chunks);
        chunks.drop_last().lemma_flatten_push(chunks.last());
        assert(chunks.flatten() == front + chunks.last());
        lemma_chunking_invariance(chunks.drop_last(), cap);
        lemma_scan_used_bounds(front);
        // The step's input fits under the ceiling, so nothing is evicted.
        assert(scan_rest(front).len() + chunks.last().len() <= cap);
        lemma_scan_extend(front, chunks.last());
        lemma_scan_rest_extend(front, chunks.last());
    }
}

/// A stream of well-formed, filter-safe frames separated by noise: no
/// noise byte can open a frame, each frame declares its own length and
/// passes the noise filter.
pub open spec fn noise_free(n: Seq<u8>) -> bool {
    forall|i: int| 0 <= i < n.len() ==> !is_frame_start(#[trigger] n[i])
}

/// A complete frame as the framer accepts it: it opens with the frame
/// signature, declares exactly its own length, and survives the filter.
pub open spec fn well_formed_frame(f: Seq<u8>) -> bool {
    &&& f.len() >= 20
    &&& is_frame_start(f[0])
    &&& total_of(f) == f.len()
    &&& !frame_noisy(f)
}

/// `noises[0] + frames[0] + noises[1] + ... + frames[n-1] + noises[n]`.
pub open spec fn interleave(noises: Seq<Seq<u8>>, frames: Seq<Seq<u8>>) -> Seq<u8>
    decreases frames.len(),
{
    if frames.len() == 0 {
        if noises.len() == 0 {
            Seq::empty()
        } else {
            noises[0]
        }
    } else {
        noises[0] + frames[0] + interleave(noises.skip(1), frames.skip(1))
    }
}

/// Scanning consumes leading noise without emitting anything.
pub proof fn lemma_scan_past_noise(n: Seq<u8>, r: Seq<u8>)
    requires
        noise_free(n),
    ensures
        scan(n + r).0 == scan(r).0,
        scan(n + r).1 == n.len() + scan(r).1,
    decreases n.len(),
{
    if n.len() == 0 {
        assert(n + r =~= r);
    } else {
        assert((n + r)[0] == n[0]);
        assert((n + r).skip(1) =~= n.skip(1) + r);
        assert(noise_free(n.skip(1)));
        lemma_scan_past_noise(n.skip(1), r);
    }
}

/// Scanning from a well-formed frame consumes exactly that frame and
/// emits exactly its record.
pub proof fn lemma_scan_whole_frame(f: Seq<u8>, r: Seq<u8>)
    requires
        well_formed_frame(f),
    ensures
        scan(f + r).0 == seq![rec_of_frame(f)] + scan(r).0,
        scan(f + r).1 == f.len() + scan(r).1,
{
    let u = f + r;
    assert(u[0] == f[0] && u[2] == f[2] && u[3] == f[3]);
    assert(total_of(u) == total_of(f));
    assert(u.take(total_of(f)) =~= f);
    assert(u.skip(total_of(f)) =~= r);
}

/// For a stream of well-formed, filter-safe frames at arbitrary offsets,
/// separated by arbitrary noise that cannot open a frame, one scan pass
/// emits exactly one record per frame, in stream order, with the fields
/// the frame's bytes dictate, and consumes the whole stream.
pub proof fn lemma_clean_stream_extraction(noises: Seq<Seq<u8>>, frames: Seq<Seq<u8>>)
    requires
        noises.len() == frames.len() + 1,
        forall|i: int| 0 <= i < noises.len() ==> noise_free(#[trigger] noises[i]),
        forall|i: int| 0 <= i < frames.len() ==> well_formed_frame(#[trigger] frames[i]),
    ensures
        scan(interleave(noises, frames)).0 == frames.map_values(|f: Seq<u8>| rec_of_frame(f)),
        scan(interleave(noises, frames)).1 == interleave(noises, frames).len(),
    decreases frames.len(),
{
    let s = interleave(noises, frames);
    if frames.len() == 0 {
        assert(s == noises[0]);
        assert(s + Seq::<u8>::empty() =~= s);
        lemma_scan_past_noise(noises[0], Seq::<u8>::empty());
        assert(frames.map_values(|f: Seq<u8>| rec_of_frame(f)) =~= Seq::<RecordView>::empty());
    } else {
        let rest = interleave(noises.skip(1), frames.skip(1));
        assert(forall|i: int|
            0 <= i < noises.skip(1).len() ==> noise_free(#[trigger] noises.skip(1)[i]));
        assert(forall|i: int|
            0 <= i < frames.skip(1).len() ==> well_formed_frame(#[trigger] frames.skip(1)[i]));
        lemma_clean_stream_extraction(noises.skip(1), frames.skip(1));
        lemma_scan_whole_frame(frames[0], rest);
        assert(noise_free(noises[0]));
        assert(noises[0] + (frames[0] + rest) =~= s);
        lemma_scan_past_noise(noises[0], frames[0] + rest);
        assert(seq![rec_of_frame(frames[0])] + frames.skip(1).map_values(
            |f: Seq<u8>| rec_of_frame(f),
        ) =~= frames.map_values(|f: Seq<u8>| rec_of_frame(f)));
    }
}

} // verus!
