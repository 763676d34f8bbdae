//! Properties of the decoder that hold across calls and across encoder and decoder.
use crate::codec::{
    decoded, first_newline, frame_of, frame_step, lemma_first_newline, no_newline, read_limit,
    view_wf, CodecView, Framing, NEWLINE,
};
use crate::transform::{b64_encode_of, is_b64_symbol, well_encoded};
use vstd::prelude::*;

verus! {

/// A search that starts later finds the same newline, as long as it skips none.
proof fn lemma_first_newline_from(s: Seq<u8>, a: int, b: int, hi: int)
    requires
        0 <= a <= b <= hi <= s.len(),
        no_newline(s, a, b),
    ensures
        first_newline(s, a, hi) == first_newline(s, b, hi),
    decreases b - a,
{
    if a < b {
        lemma_first_newline_from(s, a + 1, b, hi);
    }
}

/// A range without newlines gives no match.
proof fn lemma_first_newline_none(s: Seq<u8>, lo: int, hi: int)
    requires
        0 <= lo,
        hi <= s.len(),
        no_newline(s, lo, hi),
    ensures
        first_newline(s, lo, hi) is None,
{
    lemma_first_newline(s, lo, hi);
}

/// The decoder's start state for a configuration.
pub open spec fn seeking(v: CodecView) -> CodecView {
    CodecView { scan_cursor: 0, discarding: false, ..v }
}

/// Round trip: a decoder in its start state, given the frame that the encoder
/// appends for `p` (whose contract gives `well_encoded(p)`), returns `p`, empties the buffer and is back in its start
/// state. The frame's text must fit the maximum frame length, the content
/// length limit `min_capacity`, and the transform's own length arithmetic.
pub proof fn lemma_round_trip(v: CodecView, p: Seq<u8>)
    requires
        view_wf(v),
        well_encoded(p),
        b64_encode_of(p).len() <= v.max_length,
        b64_encode_of(p).len() + 1 <= v.min_capacity,
        b64_encode_of(p).len() + 3 <= usize::MAX,
    ensures
        frame_step(seeking(v), frame_of(p)).0 == seeking(v),
        frame_step(seeking(v), frame_of(p)).1 == Seq::<u8>::empty(),
        decoded(frame_step(seeking(v), frame_of(p)).2) == Ok::<Option<Seq<u8>>, crate::transform::CodecError>(Some(p)),
{
    let t = b64_encode_of(p);
    let buf = frame_of(p);
    let n = t.len() as int;
    assert forall|k: int| 0 <= k < n implies buf[k] != NEWLINE by {
        assert(is_b64_symbol(t[k]));
    }
    assert(buf[n] == NEWLINE);
    lemma_first_newline(buf, 0, n + 1);
    assert(first_newline(buf, 0, n + 1) == Some(n));
    assert(buf.take(n) =~= t);
    assert(buf.skip(n + 1) =~= Seq::<u8>::empty());
}

/// A decoder in seeking mode, given bytes without a newline that fit the
/// limits, returns no frame, keeps the buffer and moves its cursor to the end.
pub proof fn lemma_pending(v: CodecView, buf: Seq<u8>)
    requires
        view_wf(v),
        !v.discarding,
        v.scan_cursor <= buf.len(),
        no_newline(buf, 0, buf.len() as int),
        buf.len() <= v.max_length,
        buf.len() <= v.min_capacity,
    ensures
        frame_step(v, buf) == (CodecView { scan_cursor: buf.len(), ..v }, buf, Framing::Pending),
{
    lemma_first_newline_none(buf, v.scan_cursor as int, buf.len() as int);
}

/// Where the bytes before a seeking decoder's cursor hold no newline, the
/// cursor does not change what a call finds or leaves in the buffer, nor
/// whether it enters discard mode; a call that returns no frame leaves the
/// same state as from the start state.
pub proof fn lemma_cursor_transparent(v: CodecView, buf: Seq<u8>)
    requires
        view_wf(v),
        !v.discarding,
        v.scan_cursor <= buf.len(),
        v.scan_cursor <= v.max_length,
        no_newline(buf, 0, v.scan_cursor as int),
    ensures
        frame_step(v, buf).1 == frame_step(seeking(v), buf).1,
        frame_step(v, buf).2 == frame_step(seeking(v), buf).2,
        frame_step(v, buf).0.discarding == frame_step(seeking(v), buf).0.discarding,
        buf.len() <= v.min_capacity && frame_step(v, buf).2 == Framing::Pending ==> frame_step(
            v,
            buf,
        ).0 == frame_step(seeking(v), buf).0,
{
    let hi = read_limit(v, buf.len()) as int;
    lemma_first_newline_from(buf, 0, v.scan_cursor as int, hi);
}

/// Appends each piece in turn to `buf`, calling `decode` after each: the
/// state, buffer and finding of the last call.
pub open spec fn feed(v: CodecView, buf: Seq<u8>, pieces: Seq<Seq<u8>>) -> (
    CodecView,
    Seq<u8>,
    Framing,
)
    decreases pieces.len(),
{
    if pieces.len() == 0 {
        (v, buf, Framing::Pending)
    } else {
        let step = frame_step(v, buf + pieces[0]);
        if pieces.len() == 1 {
            step
        } else {
            feed(step.0, step.1, pieces.drop_first())
        }
    }
}

/// Incremental delivery: bytes delivered in any number of pieces, with
/// `decode` called after each, give in the last call the same finding and
/// leave the same buffer as the whole delivered at once to a decoder in its
/// start state. Up to the last piece the bytes hold no newline and fit the
/// limits; the whole fits the content length limit.
pub proof fn lemma_incremental(v: CodecView, buf: Seq<u8>, pieces: Seq<Seq<u8>>)
    requires
        view_wf(v),
        !v.discarding,
        v.scan_cursor <= buf.len(),
        pieces.len() >= 1,
        no_newline(
            buf + pieces.drop_last().flatten(),
            0,
            (buf + pieces.drop_last().flatten()).len() as int,
        ),
        (buf + pieces.drop_last().flatten()).len() <= v.max_length,
        (buf + pieces.flatten()).len() <= v.min_capacity,
    ensures
        feed(v, buf, pieces).1 == frame_step(seeking(v), buf + pieces.flatten()).1,
        feed(v, buf, pieces).2 == frame_step(seeking(v), buf + pieces.flatten()).2,
    decreases pieces.len(),
{
    let before = buf + pieces.drop_last().flatten();
    assert(buf =~= before.take(buf.len() as int));
    assert(no_newline(buf, 0, buf.len() as int)) by {
        assert forall|k: int| 0 <= k < buf.len() implies buf[k] != NEWLINE by {
            assert(buf[k] == before[k]);
        }
    }
    if pieces.len() == 1 {
        pieces.lemma_flatten_one_element();
        lemma_cursor_transparent(v, buf + pieces[0]);
        assert(no_newline(buf + pieces[0], 0, v.scan_cursor as int)) by {
            assert forall|k: int| 0 <= k < v.scan_cursor implies (buf + pieces[0])[k]
                != NEWLINE by {
                assert((buf + pieces[0])[k] == buf[k]);
            }
        }
    } else {
        let p0 = pieces[0];
        let tail = pieces.drop_first();
        let b1 = buf + p0;
        assert(pieces.drop_last()[0] == p0);
        assert(pieces.drop_last().drop_first() =~= tail.drop_last());
        assert(pieces.drop_last().flatten() == p0 + tail.drop_last().flatten());
        assert(pieces.flatten() == p0 + tail.flatten());
        assert(b1 + tail.drop_last().flatten() =~= before);
        assert(b1 + tail.flatten() =~= buf + pieces.flatten());
        assert(no_newline(b1, 0, b1.len() as int)) by {
            assert forall|k: int| 0 <= k < b1.len() implies b1[k] != NEWLINE by {
                assert(b1[k] == before[k]);
            }
        }
        lemma_pending(v, b1);
        let v1 = frame_step(v, b1).0;
        assert(seeking(v1) == seeking(v));
        lemma_incremental(v1, b1, tail);
    }
}

/// The number of bytes that a call searches in a buffer of `len` bytes.
pub open spec fn scan_width(v: CodecView, len: nat) -> int {
    read_limit(v, len) - v.scan_cursor
}

/// The bytes searched in total when `s` arrives one byte at a time after its
/// first `k` bytes, with `decode` called after each byte.
pub open spec fn work_one_at_a_time(v: CodecView, s: Seq<u8>, k: nat) -> int
    decreases s.len() - k,
{
    if k >= s.len() {
        0
    } else {
        let b = s.take(k + 1 as int);
        scan_width(v, b.len()) + work_one_at_a_time(frame_step(v, b).0, s, k + 1)
    }
}

/// No rescan: when bytes without a newline arrive one at a time and `decode`
/// is called after each, each call searches only the one new byte and moves
/// the cursor to the end, so the search work is linear in the length.
pub proof fn lemma_linear_scan(v: CodecView, s: Seq<u8>, k: nat)
    requires
        view_wf(v),
        !v.discarding,
        v.scan_cursor == k,
        k <= s.len(),
        no_newline(s, 0, s.len() as int),
        s.len() <= v.max_length,
        s.len() <= v.min_capacity,
    ensures
        work_one_at_a_time(v, s, k) == s.len() - k,
    decreases s.len() - k,
{
    if k < s.len() {
        let b = s.take(k + 1 as int);
        assert(no_newline(b, 0, k + 1 as int));
        lemma_first_newline_none(b, k as int, k + 1 as int);
        let v1 = frame_step(v, b).0;
        assert(v1 == CodecView { scan_cursor: (k + 1) as nat, ..v });
        lemma_linear_scan(v1, s, k + 1);
    }
}

/// Oversize: a decoder in seeking mode, given more than `max_length` bytes
/// with no newline, reports the length error, keeps the buffer and enters
/// discard mode.
pub proof fn lemma_oversize(v: CodecView, buf: Seq<u8>)
    requires
        view_wf(v),
        !v.discarding,
        v.scan_cursor <= buf.len(),
        no_newline(buf, 0, buf.len() as int),
        buf.len() > v.max_length,
        buf.len() <= v.min_capacity,
    ensures
        frame_step(v, buf) == (CodecView { discarding: true, ..v }, buf, Framing::TooLong),
{
    lemma_first_newline_none(buf, v.scan_cursor as int, read_limit(v, buf.len()) as int);
}

/// In discard mode, while no newline is within reach, a call drops the bytes
/// it searched and stays in discard mode.
pub proof fn lemma_discard_more(v: CodecView, buf: Seq<u8>)
    requires
        view_wf(v),
        v.discarding,
        v.scan_cursor <= buf.len(),
        no_newline(buf, 0, read_limit(v, buf.len()) as int),
        buf.len() <= v.min_capacity,
    ensures
        frame_step(v, buf) == (
            CodecView { scan_cursor: 0, ..v },
            buf.skip(read_limit(v, buf.len()) as int),
            Framing::Pending,
        ),
{
    lemma_first_newline_none(buf, v.scan_cursor as int, read_limit(v, buf.len()) as int);
}

/// Recovery: in discard mode, once the newline that ends the over-long frame
/// is within reach, a call drops exactly through it and then decodes what
/// follows as a decoder in its start state would.
pub proof fn lemma_resync(v: CodecView, junk: Seq<u8>, rest: Seq<u8>)
    requires
        view_wf(v),
        v.discarding,
        v.scan_cursor <= junk.len(),
        no_newline(junk, 0, junk.len() as int),
        junk.len() <= v.max_length,
        junk.len() + 1 + rest.len() <= v.min_capacity,
    ensures
        frame_step(v, junk.push(NEWLINE) + rest) == frame_step(seeking(v), rest),
{
    let buf = junk.push(NEWLINE) + rest;
    let n = junk.len() as int;
    assert forall|k: int| 0 <= k < n implies buf[k] != NEWLINE by {
        assert(buf[k] == junk[k]);
    }
    assert(buf[n] == NEWLINE);
    lemma_first_newline_from(buf, v.scan_cursor as int, n, read_limit(v, buf.len()) as int);
    assert(buf.skip(n + 1) =~= rest);
}

} // verus!
