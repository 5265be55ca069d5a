//! Framing engine: assembles one complete, correctly aligned packet out of a
//! stream of arbitrarily chunked byte reads.
//!
//! The engine is a state machine. Its state is the candidate packet collected
//! so far; each read's bytes are handed to [`FramingReader::accept_chunk`],
//! which either completes a packet or asks for more data. When a chunk holds
//! more bytes than the current candidate still needs, a newer packet has
//! started: the stale candidate is discarded and accumulation restarts from
//! the latest start marker found in the trailing window of the chunk, so the
//! freshest packet always wins.

use vstd::prelude::*;

use crate::PAYLOAD_SIZE;
use crate::hvec::hvec_clear;
use crate::hvec::hvec_contents;
use crate::hvec::hvec_extend_from_slice;
use crate::hvec::hvec_len;
use crate::hvec::hvec_new;
use crate::hvec::hvec_take_array;
use vstd::slice::slice_subrange;

verus! {

/// Every packet begins with this marker byte.
pub const START_MARKER: u8 = 0xff;

/// Index of the last start marker in `s`, or -1 when `s` holds none.
pub open spec fn last_marker(s: Seq<u8>) -> int
    decreases s.len(),
{
    if s.len() == 0 {
        -1
    } else if s.last() == START_MARKER {
        s.len() - 1
    } else {
        last_marker(s.drop_last())
    }
}

/// `last_marker` points at a marker byte with none after it, and answers -1
/// exactly when the sequence holds no marker at all.
pub proof fn lemma_last_marker_props(s: Seq<u8>)
    ensures
        -1 <= last_marker(s) < s.len(),
        last_marker(s) == -1 ==> forall|j: int| 0 <= j < s.len() ==> s[j] != START_MARKER,
        last_marker(s) >= 0 ==> s[last_marker(s)] == START_MARKER,
        last_marker(s) >= 0 ==> forall|j: int|
            last_marker(s) < j < s.len() ==> s[j] != START_MARKER,
    decreases s.len(),
{
    if s.len() > 0 && s.last() != START_MARKER {
        lemma_last_marker_props(s.drop_last());
        assert forall|j: int| last_marker(s) < j < s.len() && last_marker(s) >= 0 implies s[j]
            != START_MARKER by {
            if j < s.len() - 1 {
                assert(s.drop_last()[j] == s[j]);
            }
        }
        assert forall|j: int| 0 <= j < s.len() && last_marker(s) == -1 implies s[j]
            != START_MARKER by {
            if j < s.len() - 1 {
                assert(s.drop_last()[j] == s[j]);
            }
        }
    }
}

/// A marker at `i` with none after it is the last marker.
pub proof fn lemma_last_marker_at(s: Seq<u8>, i: int)
    requires
        0 <= i < s.len(),
        s[i] == START_MARKER,
        forall|j: int| i < j < s.len() ==> s[j] != START_MARKER,
    ensures
        last_marker(s) == i,
    decreases s.len(),
{
    if i < s.len() - 1 {
        assert forall|j: int| i < j < s.drop_last().len() implies s.drop_last()[j]
            != START_MARKER by {
            assert(s.drop_last()[j] == s[j]);
        }
        lemma_last_marker_at(s.drop_last(), i);
    }
}

/// One round of the engine over the body bytes at hand, starting from a
/// candidate `state` (the bytes collected so far, fewer than a packet).
/// Yields the state left behind and the completed packet, if any.
///
/// When the body holds exactly the bytes still needed, the candidate
/// completes. When it holds fewer, they are all appended and more data is
/// awaited. When it holds more, the candidate is stale: it is discarded and
/// the trailing window of the body (one packet length) is rescanned for the
/// latest start marker to begin a fresh candidate.
pub open spec fn consume_body(state: Seq<u8>, body: Seq<u8>) -> (Seq<u8>, Option<Seq<u8>>)
    decreases body.len(), state.len() via consume_body_decreases
{
    let needed = PAYLOAD_SIZE - state.len();
    if body.len() == needed {
        (Seq::<u8>::empty(), Some(state + body))
    } else if body.len() < needed {
        (state + body, None)
    } else {
        let wstart = if body.len() <= PAYLOAD_SIZE {
            0int
        } else {
            body.len() - PAYLOAD_SIZE
        };
        let window = body.skip(wstart);
        let m = last_marker(window);
        if m == -1 {
            (Seq::<u8>::empty(), None)
        } else {
            consume_body(Seq::<u8>::empty(), window.skip(m))
        }
    }
}

#[via_fn]
proof fn consume_body_decreases(state: Seq<u8>, body: Seq<u8>) {
    let needed = PAYLOAD_SIZE - state.len();
    if body.len() > needed {
        let wstart = if body.len() <= PAYLOAD_SIZE {
            0int
        } else {
            body.len() - PAYLOAD_SIZE
        };
        let window = body.skip(wstart);
        lemma_last_marker_props(window);
    }
}

/// The engine's transition on one read: with an empty candidate the chunk is
/// scanned for its latest start marker (a chunk without one is ignored); with
/// a partial candidate the whole chunk extends it.
pub open spec fn step(state: Seq<u8>, chunk: Seq<u8>) -> (Seq<u8>, Option<Seq<u8>>) {
    if state.len() == 0 {
        let m = last_marker(chunk);
        if m == -1 {
            (Seq::<u8>::empty(), None)
        } else {
            consume_body(Seq::<u8>::empty(), chunk.skip(m))
        }
    } else {
        consume_body(state, chunk)
    }
}

/// Assembles packets from a stream of byte chunks, preferring the newest
/// packet boundary whenever more data is available than the current
/// candidate needs.
pub struct FramingReader {
    package: heapless::Vec<u8, PAYLOAD_SIZE>,
    needed: usize,
}

impl FramingReader {
    /// The bytes collected so far of the current candidate packet.
    pub closed spec fn contents(&self) -> Seq<u8> {
        hvec_contents(self.package)
    }

    /// The candidate is always shorter than a packet and begins at a start
    /// marker, and `needed` counts the bytes still missing.
    pub closed spec fn wf(&self) -> bool {
        &&& self.contents().len() < PAYLOAD_SIZE
        &&& self.needed == PAYLOAD_SIZE - self.contents().len()
        &&& (self.contents().len() == 0 || self.contents()[0] == START_MARKER)
    }

    /// A fresh reader with an empty candidate.
    pub fn new() -> (r: FramingReader)
        ensures
            r.wf(),
            r.contents() == Seq::<u8>::empty(),
    {
        FramingReader { package: hvec_new(), needed: PAYLOAD_SIZE }
    }

    /// Feeds the engine the bytes of one stream read. Returns the completed
    /// packet as soon as one is assembled, exactly as [`step`] describes; a
    /// returned packet always begins with the start marker.
    pub fn accept_chunk(&mut self, chunk: &[u8]) -> (r: Option<[u8; PAYLOAD_SIZE]>)
        requires
            old(self).wf(),
        ensures
            final(self).wf(),
            ({
                let (s2, out) = step(old(self).contents(), chunk@);
                &&& final(self).contents() == s2
                &&& (match r {
                    Some(p) => out == Some(p@) && p@[0] == START_MARKER,
                    None => out is None,
                })
            }),
    {
        proof {
            assert(chunk@.skip(0) =~= chunk@);
        }
        if hvec_len(&self.package) == 0 {
            match find_last_marker(chunk, 0) {
                None => None,
                Some(m) => self.consume(chunk, m),
            }
        } else {
            self.consume(chunk, 0)
        }
    }

    /// Runs the engine over the body `chunk[start..]`, as [`consume_body`]
    /// describes.
    fn consume(&mut self, chunk: &[u8], start: usize) -> (r: Option<[u8; PAYLOAD_SIZE]>)
        requires
            old(self).wf(),
            start <= chunk@.len(),
            old(self).contents().len() == 0 && start < chunk@.len() ==> chunk@[start as int]
                == START_MARKER,
        ensures
            final(self).wf(),
            ({
                let (s2, out) = consume_body(old(self).contents(), chunk@.skip(start as int));
                &&& final(self).contents() == s2
                &&& (match r {
                    Some(p) => out == Some(p@) && p@[0] == START_MARKER,
                    None => out is None,
                })
            }),
        decreases chunk@.len() - start, old(self).contents().len(),
    {
        let ghost body = chunk@.skip(start as int);
        let body_len = chunk.len() - start;
        if body_len == self.needed {
            let tail = slice_subrange(chunk, start, chunk.len());
            proof {
                assert(tail@ =~= body);
            }
            hvec_extend_from_slice(&mut self.package, tail);
            let arr = hvec_take_array(&mut self.package);
            self.needed = PAYLOAD_SIZE;
            Some(arr)
        } else if body_len < self.needed {
            let tail = slice_subrange(chunk, start, chunk.len());
            proof {
                assert(tail@ =~= body);
            }
            hvec_extend_from_slice(&mut self.package, tail);
            self.needed = self.needed - body_len;
            None
        } else {
            hvec_clear(&mut self.package);
            self.needed = PAYLOAD_SIZE;
            let wstart = if body_len <= PAYLOAD_SIZE {
                start
            } else {
                chunk.len() - PAYLOAD_SIZE
            };
            proof {
                assert(chunk@.skip(wstart as int) =~= body.skip(
                    if body.len() <= PAYLOAD_SIZE {
                        0int
                    } else {
                        body.len() - PAYLOAD_SIZE
                    },
                ));
            }
            match find_last_marker(chunk, wstart) {
                None => None,
                Some(m) => {
                    proof {
                        assert(chunk@.skip(m as int) =~= chunk@.skip(wstart as int).skip(
                            m - wstart,
                        ));
                    }
                    self.consume(chunk, m)
                },
            }
        }
    }
}

/// Law, one round: starting from an empty candidate or one that begins at a
/// start marker, [`consume_body`] leaves such a candidate behind — still
/// shorter than a packet — and any packet it completes is exactly one packet
/// long and begins with the start marker.
pub proof fn lemma_consume_body_aligned(state: Seq<u8>, body: Seq<u8>)
    requires
        state.len() < PAYLOAD_SIZE,
        state.len() == 0 || state[0] == START_MARKER,
        state.len() == 0 && body.len() > 0 ==> body[0] == START_MARKER,
    ensures
        ({
            let (s2, out) = consume_body(state, body);
            &&& s2.len() < PAYLOAD_SIZE
            &&& (s2.len() == 0 || s2[0] == START_MARKER)
            &&& (out is Some ==> out.unwrap().len() == PAYLOAD_SIZE && out.unwrap()[0]
                == START_MARKER)
        }),
    decreases body.len(), state.len(),
{
    let needed = PAYLOAD_SIZE - state.len();
    if body.len() > needed {
        let wstart = if body.len() <= PAYLOAD_SIZE {
            0int
        } else {
            body.len() - PAYLOAD_SIZE
        };
        let window = body.skip(wstart);
        lemma_last_marker_props(window);
        let m = last_marker(window);
        if m != -1 {
            lemma_consume_body_aligned(Seq::<u8>::empty(), window.skip(m));
        }
    }
}

/// Law: every packet the engine returns is correctly aligned. Whatever bytes
/// a read delivers, the candidate left behind is empty or begins at a start
/// marker, and a completed packet is exactly `PAYLOAD_SIZE` bytes with the
/// start marker in byte 0 — the packet invariant of the wire format.
pub proof fn lemma_step_packet_aligned(state: Seq<u8>, chunk: Seq<u8>)
    requires
        state.len() < PAYLOAD_SIZE,
        state.len() == 0 || state[0] == START_MARKER,
    ensures
        ({
            let (s2, out) = step(state, chunk);
            &&& s2.len() < PAYLOAD_SIZE
            &&& (s2.len() == 0 || s2[0] == START_MARKER)
            &&& (out is Some ==> out.unwrap().len() == PAYLOAD_SIZE && out.unwrap()[0]
                == START_MARKER)
        }),
{
    if state.len() == 0 {
        lemma_last_marker_props(chunk);
        let m = last_marker(chunk);
        if m != -1 {
            lemma_consume_body_aligned(Seq::<u8>::empty(), chunk.skip(m));
        }
    } else {
        lemma_consume_body_aligned(state, chunk);
    }
}

/// Law: when one read carries two complete back-to-back packets, the engine
/// returns the second — never the first — and is left empty. The second
/// packet must carry the start marker only in its first byte: a marker inside
/// its body would itself be taken for a newer boundary.
pub proof fn lemma_resync_prefers_newest(stale: Seq<u8>, fresh: Seq<u8>)
    requires
        stale.len() == PAYLOAD_SIZE,
        fresh.len() == PAYLOAD_SIZE,
        fresh[0] == START_MARKER,
        forall|j: int| 1 <= j < fresh.len() ==> fresh[j] != START_MARKER,
    ensures
        step(Seq::<u8>::empty(), stale + fresh) == (Seq::<u8>::empty(), Some(fresh)),
{
    let chunk = stale + fresh;
    assert forall|j: int| PAYLOAD_SIZE < j < chunk.len() implies chunk[j] != START_MARKER by {
        assert(chunk[j] == fresh[j - PAYLOAD_SIZE]);
    }
    lemma_last_marker_at(chunk, PAYLOAD_SIZE as int);
    assert(chunk.skip(PAYLOAD_SIZE as int) =~= fresh);
    assert(Seq::<u8>::empty() + fresh =~= fresh);
}

/// Law: a chunk shorter than one packet can never complete an empty reader;
/// at most it starts a new candidate. In particular, a start marker followed
/// by only part of a body leaves the engine waiting, so a stream that closes
/// there ends without a packet.
pub proof fn lemma_short_chunk_pending(chunk: Seq<u8>)
    requires
        chunk.len() < PAYLOAD_SIZE,
    ensures
        step(Seq::<u8>::empty(), chunk).1 is None,
{
    lemma_last_marker_props(chunk);
}

/// Law: a chunk holding no start marker at all is consumed and ignored by an
/// empty reader, and a complete packet in a later read is still returned
/// intact — the skipped bytes corrupt nothing.
pub proof fn lemma_no_marker_then_packet(garbage: Seq<u8>, p: Seq<u8>)
    requires
        forall|j: int| 0 <= j < garbage.len() ==> garbage[j] != START_MARKER,
        p.len() == PAYLOAD_SIZE,
        p[0] == START_MARKER,
        forall|j: int| 1 <= j < p.len() ==> p[j] != START_MARKER,
    ensures
        step(Seq::<u8>::empty(), garbage) == (Seq::<u8>::empty(), None::<Seq<u8>>),
        step(Seq::<u8>::empty(), p) == (Seq::<u8>::empty(), Some(p)),
{
    lemma_last_marker_props(garbage);
    if last_marker(garbage) >= 0 {
        assert(garbage[last_marker(garbage)] == START_MARKER);
    }
    lemma_last_marker_at(p, 0);
    assert(p.skip(0) =~= p);
    assert(Seq::<u8>::empty() + p =~= p);
}

/// Scans `chunk[from..]` backward for the latest start marker, returning its
/// absolute index.
fn find_last_marker(chunk: &[u8], from: usize) -> (r: Option<usize>)
    requires
        from <= chunk@.len(),
    ensures
        match r {
            Some(i) => from <= i < chunk@.len() && chunk@[i as int] == START_MARKER && i - from
                == last_marker(chunk@.skip(from as int)),
            None => last_marker(chunk@.skip(from as int)) == -1,
        },
{
    let mut i = chunk.len();
    while i > from
        invariant
            from <= i <= chunk@.len(),
            forall|j: int| i <= j < chunk@.len() ==> chunk@[j] != START_MARKER,
        decreases i,
    {
        i = i - 1;
        if chunk[i] == START_MARKER {
            proof {
                lemma_last_marker_at(chunk@.skip(from as int), i - from);
            }
            return Some(i);
        }
    }
    proof {
        lemma_last_marker_props(chunk@.skip(from as int));
    }
    None
}

} // verus!
