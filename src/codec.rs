//! The frame codec: an incremental decoder that splits a growing buffer into
//! newline-delimited frames, and an encoder that appends one frame.
use crate::buffer::{bytes_of, contents};
use crate::transform::{
    b64_encode_of, decode_payload, encode_text, encoded_len, encoded_size,
    payload_of, well_encoded, CodecError,
};
use bytes::BytesMut;
use vstd::prelude::*;

verus! {

/// The byte that ends every frame.
pub const NEWLINE: u8 = 10;

/// Index of the first newline of `s` in `[lo, hi)`, if any.
pub open spec fn first_newline(s: Seq<u8>, lo: int, hi: int) -> Option<int>
    decreases hi - lo,
{
    if lo >= hi {
        None
    } else if s[lo] == NEWLINE {
        Some(lo)
    } else {
        first_newline(s, lo + 1, hi)
    }
}

/// No byte of `s` in `[lo, hi)` is a newline.
pub open spec fn no_newline(s: Seq<u8>, lo: int, hi: int) -> bool {
    forall|k: int| lo <= k < hi ==> s[k] != NEWLINE
}

/// What the first newline search finds: the first newline in range, with none before it.
pub proof fn lemma_first_newline(s: Seq<u8>, lo: int, hi: int)
    requires
        0 <= lo,
        hi <= s.len(),
    ensures
        match first_newline(s, lo, hi) {
            Some(i) => lo <= i < hi && s[i] == NEWLINE && no_newline(s, lo, i),
            None => no_newline(s, lo, hi),
        },
    decreases hi - lo,
{
    if lo < hi && s[lo] != NEWLINE {
        lemma_first_newline(s, lo + 1, hi);
    }
}

/// The decoder's state and configuration as plain values.
pub struct CodecView {
    /// Offset up to which the current buffer is known to hold no newline.
    pub scan_cursor: nat,
    /// Longest frame text accepted; `usize::MAX` means unbounded.
    pub max_length: nat,
    /// Capacity hint, and the content length beyond which a call returns at once.
    pub min_capacity: nat,
    /// Whether the rest of an over-long frame is being skipped.
    pub discarding: bool,
}

/// What one decoding step yields, before the payload is decoded.
pub enum Framing {
    /// No complete frame yet.
    Pending,
    /// A complete frame, holding its text without the newline.
    Line(Seq<u8>),
    /// A frame exceeded the maximum length.
    TooLong,
}

/// How far into a buffer of `len` bytes the newline search may go.
pub open spec fn read_limit(v: CodecView, len: nat) -> nat {
    if v.max_length + 1 < len {
        (v.max_length + 1) as nat
    } else {
        len
    }
}

/// One step outside discard mode: take a frame, report an over-long one, or
/// remember how far the search went.
pub open spec fn seek_step(v: CodecView, buf: Seq<u8>) -> (CodecView, Seq<u8>, Framing) {
    let hi = read_limit(v, buf.len());
    match first_newline(buf, v.scan_cursor as int, hi as int) {
        Some(i) => (CodecView { scan_cursor: 0, ..v }, buf.skip(i + 1), Framing::Line(buf.take(i))),
        None => if buf.len() > v.max_length {
            (CodecView { discarding: true, ..v }, buf, Framing::TooLong)
        } else {
            (CodecView { scan_cursor: hi, ..v }, buf, Framing::Pending)
        },
    }
}

/// One decoding step: in discard mode, drop through the next newline and
/// seek a frame after it, or drop what was searched.
pub open spec fn scan_step(v: CodecView, buf: Seq<u8>) -> (CodecView, Seq<u8>, Framing) {
    if v.discarding {
        let hi = read_limit(v, buf.len());
        match first_newline(buf, v.scan_cursor as int, hi as int) {
            Some(i) => seek_step(
                CodecView { scan_cursor: 0, discarding: false, ..v },
                buf.skip(i + 1),
            ),
            None => (CodecView { scan_cursor: 0, ..v }, buf.skip(hi as int), Framing::Pending),
        }
    } else {
        seek_step(v, buf)
    }
}

/// A call of `decode`: state after, buffer after, and what was found. A buffer
/// longer than `min_capacity` is left alone.
pub open spec fn frame_step(v: CodecView, buf: Seq<u8>) -> (CodecView, Seq<u8>, Framing) {
    if buf.len() > v.min_capacity {
        (v, buf, Framing::Pending)
    } else {
        scan_step(v, buf)
    }
}

/// The result `decode` gives for a step's finding.
pub open spec fn decoded(f: Framing) -> Result<Option<Seq<u8>>, CodecError> {
    match f {
        Framing::Pending => Ok(None),
        Framing::TooLong => Err(CodecError::LengthExceeded),
        Framing::Line(t) => match payload_of(t) {
            Ok(p) => Ok(Some(p)),
            Err(e) => Err(e),
        },
    }
}

/// The plain values of a result of `decode`.
pub open spec fn result_view(r: Result<Option<Vec<u8>>, CodecError>) -> Result<
    Option<Seq<u8>>,
    CodecError,
> {
    match r {
        Ok(Some(v)) => Ok(Some(v@)),
        Ok(None) => Ok(None),
        Err(e) => Err(e),
    }
}

/// The bytes that `encode` appends for payload `p`: its text and a newline.
pub open spec fn frame_of(p: Seq<u8>) -> Seq<u8> {
    b64_encode_of(p).push(NEWLINE)
}

/// A decoder and encoder of newline-delimited base64 frames.
pub struct Base64Codec {
    next_index: usize,
    max_length: usize,
    min_capacity: usize,
    is_discarding: bool,
}

impl View for Base64Codec {
    type V = CodecView;

    closed spec fn view(&self) -> CodecView {
        CodecView {
            scan_cursor: self.next_index as nat,
            max_length: self.max_length as nat,
            min_capacity: self.min_capacity as nat,
            discarding: self.is_discarding,
        }
    }
}

/// The state invariant: the cursor never passes the search limit.
pub open spec fn view_wf(v: CodecView) -> bool {
    &&& v.scan_cursor <= v.max_length + 1
    &&& v.max_length <= usize::MAX
    &&& v.min_capacity <= usize::MAX
}

/// Searches `s[lo..hi]` for a newline.
fn find_newline(s: &[u8], lo: usize, hi: usize) -> (r: Option<usize>)
    requires
        lo <= hi <= s@.len(),
    ensures
        match r {
            Some(i) => first_newline(s@, lo as int, hi as int) == Some(i as int),
            None => first_newline(s@, lo as int, hi as int) is None,
        },
{
    let mut k: usize = lo;
    while k < hi
        invariant
            lo <= k <= hi <= s@.len(),
            first_newline(s@, lo as int, hi as int) == first_newline(s@, k as int, hi as int),
        decreases hi - k,
    {
        if s[k] == NEWLINE {
            return Some(k);
        }
        k = k + 1;
    }
    None
}

impl Base64Codec {
    /// The state invariant.
    pub open spec fn wf(&self) -> bool {
        view_wf(self@)
    }

    /// A codec with no upper bound on the frame length.
    pub fn new(min_capacity: usize) -> (r: Self)
        ensures
            r@ == (CodecView {
                scan_cursor: 0,
                max_length: usize::MAX as nat,
                min_capacity: min_capacity as nat,
                discarding: false,
            }),
            r.wf(),
    {
        Base64Codec { next_index: 0, min_capacity, max_length: usize::MAX, is_discarding: false }
    }

    /// A codec that rejects frames whose text is longer than `max_length`.
    pub fn new_with_max_length(max_length: usize, min_capacity: usize) -> (r: Self)
        ensures
            r@ == (CodecView {
                scan_cursor: 0,
                max_length: max_length as nat,
                min_capacity: min_capacity as nat,
                discarding: false,
            }),
            r.wf(),
    {
        Base64Codec { max_length, ..Base64Codec::new(min_capacity) }
    }

    /// The maximum frame length.
    pub fn max_length(&self) -> (r: usize)
        ensures
            r as nat == self@.max_length,
    {
        self.max_length
    }

    /// Offset up to which the current buffer has been searched.
    pub fn scan_cursor(&self) -> (r: usize)
        ensures
            r as nat == self@.scan_cursor,
    {
        self.next_index
    }

    fn read_to(&self, len: usize) -> (r: usize)
        ensures
            r as nat == read_limit(self@, len as nat),
    {
        if self.max_length < len && self.max_length + 1 < len {
            self.max_length + 1
        } else {
            len
        }
    }

    /// Takes the next frame's text off the front of `buf`, without decoding it.
    pub fn split_frame(&mut self, buf: &mut BytesMut) -> (r: Result<Option<BytesMut>, CodecError>)
        requires
            old(self).wf(),
            old(self)@.scan_cursor <= bytes_of(*old(buf)).len(),
        ensures
            final(self).wf(),
            final(self)@.scan_cursor <= bytes_of(*final(buf)).len(),
            final(self)@ == frame_step(old(self)@, bytes_of(*old(buf))).0,
            bytes_of(*final(buf)) == frame_step(old(self)@, bytes_of(*old(buf))).1,
            match frame_step(old(self)@, bytes_of(*old(buf))).2 {
                Framing::Pending => r is Ok && r->Ok_0 is None,
                Framing::TooLong => r == Err::<Option<BytesMut>, CodecError>(
                    CodecError::LengthExceeded,
                ),
                Framing::Line(t) => r is Ok && r->Ok_0 is Some && bytes_of(r->Ok_0->Some_0) == t,
            },
    {
        let len = buf.len();
        if len < self.min_capacity {
            // Capacity hint only: room for `min_capacity` bytes.
            buf.reserve(self.min_capacity - len);
        }
        if len > self.min_capacity {
            return Ok(None);
        }
        if self.is_discarding {
            let read_to = self.read_to(len);
            let found = find_newline(contents(buf), self.next_index, read_to);
            proof {
                lemma_first_newline(bytes_of(*buf), self.next_index as int, read_to as int);
            }
            match found {
                Some(i) => {
                    let _ = buf.split_to(i + 1);
                    self.is_discarding = false;
                    self.next_index = 0;
                },
                None => {
                    let _ = buf.split_to(read_to);
                    self.next_index = 0;
                    return Ok(None);
                },
            }
        }
        let len = buf.len();
        let read_to = self.read_to(len);
        let found = find_newline(contents(buf), self.next_index, read_to);
        proof {
            lemma_first_newline(bytes_of(*buf), self.next_index as int, read_to as int);
        }
        match found {
            Some(i) => {
                self.next_index = 0;
                let mut line = buf.split_to(i + 1);
                line.truncate(i);
                Ok(Some(line))
            },
            None => {
                if len > self.max_length {
                    self.is_discarding = true;
                    Err(CodecError::LengthExceeded)
                } else {
                    self.next_index = read_to;
                    Ok(None)
                }
            },
        }
    }

    /// Takes the next frame off the front of `buf` and decodes its payload.
    /// Returns `Ok(None)` when no complete frame is there yet.
    pub fn decode(&mut self, buf: &mut BytesMut) -> (r: Result<Option<Vec<u8>>, CodecError>)
        requires
            old(self).wf(),
            old(self)@.scan_cursor <= bytes_of(*old(buf)).len(),
        ensures
            final(self).wf(),
            final(self)@.scan_cursor <= bytes_of(*final(buf)).len(),
            final(self)@ == frame_step(old(self)@, bytes_of(*old(buf))).0,
            bytes_of(*final(buf)) == frame_step(old(self)@, bytes_of(*old(buf))).1,
            result_view(r) == decoded(frame_step(old(self)@, bytes_of(*old(buf))).2),
    {
        match self.split_frame(buf) {
            Ok(Some(line)) => match decode_payload(contents(&line)) {
                Ok(p) => Ok(Some(p)),
                Err(e) => Err(e),
            },
            Ok(None) => Ok(None),
            Err(e) => Err(e),
        }
    }

    /// Appends the base64 text of `line` and a newline to `buf`.
    pub fn encode(&self, line: &[u8], buf: &mut BytesMut)
        requires
            bytes_of(*old(buf)).len() + encoded_len(line@.len()) + 1 <= usize::MAX,
        ensures
            bytes_of(*final(buf)) == bytes_of(*old(buf)) + frame_of(line@),
            well_encoded(line@),
    {
        let bound = encoded_size(line.len()) + 1;
        buf.reserve(bound);
        let mut text = encode_text(line);
        text.push(NEWLINE);
        buf.extend_from_slice(text.as_slice());
        proof {
            assert(bytes_of(*buf) =~= bytes_of(*old(buf)) + frame_of(line@));
        }
    }
}

} // verus!
