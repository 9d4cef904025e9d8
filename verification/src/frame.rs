//! The log frame format and the reader that walks a log region.
//!
//! A frame is an 8-byte timestamp, a 4-byte payload length and the payload,
//! both integers in the machine's byte order:
//!
//! ```text
//! | timestamp (u64) | payload length (u32) | payload ... |
//! ```
//!
//! A reader walks frames from the start of a region and stops at the first
//! place where fewer than a header's bytes remain, where the length field is
//! zero (the unwritten, zero-filled rest of a region), or where the payload
//! would run past the end of the region.

use crate::byte_order::{read_u32_ne, read_u64_ne, u32_ne, u32_of_ne, u64_ne, u64_of_ne};
use vstd::prelude::*;
use vstd::slice::slice_subrange;

verus! {

/// Bytes in a frame header: the timestamp and the payload length.
pub const FRAME_HEADER_LEN: usize = 12;

/// One log record: when it was taken and what it carries.
pub struct LogRecord {
    pub timestamp: u64,
    pub payload: Seq<u8>,
}

/// The bytes of one frame.
pub open spec fn frame_bytes(timestamp: u64, payload: Seq<u8>) -> Seq<u8> {
    u64_ne(timestamp) + u32_ne(payload.len() as u32) + payload
}

/// A record that a reader gets back from its frame: a non-empty payload whose
/// length fits the 32-bit length field.
pub open spec fn readable_record(r: LogRecord) -> bool {
    0 < r.payload.len() <= u32::MAX
}

/// The frames of `records`, one after another.
pub open spec fn encode_records(records: Seq<LogRecord>) -> Seq<u8>
    decreases records.len(),
{
    if records.len() == 0 {
        Seq::empty()
    } else {
        let last = records.last();
        encode_records(records.drop_last()) + frame_bytes(last.timestamp, last.payload)
    }
}

/// Where a frame that a reader found stands in the region.
pub struct FrameSpan {
    pub timestamp: u64,
    pub start: nat,
    pub len: nat,
}

/// The payload length of the frame whose header starts at `off`.
pub open spec fn length_field(buf: Seq<u8>, off: nat) -> nat {
    u32_of_ne(buf.subrange(off + 8int, off + 12int)) as nat
}

/// Whether the reader takes a frame at `off`.
pub open spec fn frame_at(buf: Seq<u8>, off: nat) -> bool {
    &&& off + FRAME_HEADER_LEN <= buf.len()
    &&& length_field(buf, off) != 0
    &&& off + FRAME_HEADER_LEN + length_field(buf, off) <= buf.len()
}

/// The frames a reader finds in `buf` from offset `off` on.
pub open spec fn frames_from(buf: Seq<u8>, off: nat) -> Seq<FrameSpan>
    decreases buf.len() - off,
{
    if frame_at(buf, off) {
        let len = length_field(buf, off);
        let span = FrameSpan {
            timestamp: u64_of_ne(buf.subrange(off as int, off + 8int)),
            start: (off + FRAME_HEADER_LEN) as nat,
            len,
        };
        seq![span] + frames_from(buf, (off + FRAME_HEADER_LEN + len) as nat)
    } else {
        Seq::empty()
    }
}

/// Where a reader that starts at `off` stops: the end of its last frame.
pub open spec fn scan_end(buf: Seq<u8>, off: nat) -> nat
    decreases buf.len() - off,
{
    if frame_at(buf, off) {
        scan_end(buf, (off + FRAME_HEADER_LEN + length_field(buf, off)) as nat)
    } else {
        off
    }
}

/// The record that a span of `buf` holds.
pub open spec fn record_of(buf: Seq<u8>, s: FrameSpan) -> LogRecord {
    LogRecord { timestamp: s.timestamp, payload: buf.subrange(s.start as int, (s.start + s.len) as int) }
}

/// The records that the spans of `buf` hold.
pub open spec fn records_of(buf: Seq<u8>, spans: Seq<FrameSpan>) -> Seq<LogRecord> {
    spans.map_values(|s: FrameSpan| record_of(buf, s))
}

/// The records a reader finds in `buf`.
pub open spec fn read_records(buf: Seq<u8>) -> Seq<LogRecord> {
    records_of(buf, frames_from(buf, 0))
}

/// A frame found by the reader: its timestamp and where its payload stands.
#[derive(Clone, Copy, Debug, PartialEq, Eq)]
pub struct ScannedFrame {
    pub timestamp: u64,
    pub start: usize,
    pub len: usize,
}

impl View for ScannedFrame {
    type V = FrameSpan;

    open spec fn view(&self) -> FrameSpan {
        FrameSpan { timestamp: self.timestamp, start: self.start as nat, len: self.len as nat }
    }
}

/// What a walk over a region found: its frames and how many bytes they fill.
#[derive(Debug, PartialEq, Eq)]
pub struct LogScan {
    pub frames: Vec<ScannedFrame>,
    pub bytes_read: usize,
}

/// The spans of a sequence of scanned frames.
pub open spec fn spans_of(frames: Seq<ScannedFrame>) -> Seq<FrameSpan> {
    frames.map_values(|f: ScannedFrame| f@)
}

/// Walks `buf` from its start and returns every frame up to the first place
/// where no further frame can be read, with the number of bytes those frames
/// fill.
pub fn scan_log(buf: &[u8]) -> (r: LogScan)
    ensures
        spans_of(r.frames@) == frames_from(buf@, 0),
        r.bytes_read == scan_end(buf@, 0),
{
    let mut frames: Vec<ScannedFrame> = Vec::new();
    let mut offset: usize = 0;
    let n = buf.len();
    while n >= FRAME_HEADER_LEN && offset <= n - FRAME_HEADER_LEN
        invariant
            n == buf@.len(),
            offset <= n,
            spans_of(frames@) + frames_from(buf@, offset as nat) == frames_from(buf@, 0),
            scan_end(buf@, offset as nat) == scan_end(buf@, 0),
        ensures
            !frame_at(buf@, offset as nat),
        decreases n - offset,
    {
        let timestamp = read_u64_ne(buf, offset);
        let len32 = read_u32_ne(buf, offset + 8);
        let len = len32 as usize;
        let body = offset + FRAME_HEADER_LEN;
        if len == 0 || len > n - body {
            break;
        }
        let ghost old_spans = spans_of(frames@);
        frames.push(ScannedFrame { timestamp, start: body, len });
        proof {
            let rest = frames_from(buf@, (body + len) as nat);
            assert(frames_from(buf@, offset as nat) == seq![frames@.last()@] + rest);
            assert(spans_of(frames@) =~= old_spans.push(frames@.last()@));
            assert(spans_of(frames@) + rest =~= old_spans + (seq![frames@.last()@] + rest));
        }
        offset = body + len;
    }
    proof {
        assert(frames_from(buf@, offset as nat) =~= Seq::<FrameSpan>::empty());
        assert(spans_of(frames@) + frames_from(buf@, offset as nat) =~= spans_of(frames@));
    }
    LogScan { frames, bytes_read: offset }
}


/// The spans moved `k` bytes further into a region.
pub open spec fn shift_spans(spans: Seq<FrameSpan>, k: nat) -> Seq<FrameSpan> {
    spans.map_values(|s: FrameSpan| FrameSpan { timestamp: s.timestamp, start: s.start + k, len: s.len })
}

/// Every span a reader finds lies inside the region.
pub open spec fn spans_within(spans: Seq<FrameSpan>, n: nat) -> bool {
    forall|i: int| 0 <= i < spans.len() ==> #[trigger] spans[i].start + spans[i].len <= n
}

/// A region whose bytes are all zero.
pub open spec fn zero_filled(s: Seq<u8>) -> bool {
    forall|i: int| 0 <= i < s.len() ==> #[trigger] s[i] == 0
}

/// The frames a reader finds lie inside the region, and it stops inside it.
pub proof fn lemma_frames_within(buf: Seq<u8>, off: nat)
    requires
        off <= buf.len(),
    ensures
        spans_within(frames_from(buf, off), buf.len()),
        off <= scan_end(buf, off) <= buf.len(),
    decreases buf.len() - off,
{
    if frame_at(buf, off) {
        let next = (off + FRAME_HEADER_LEN + length_field(buf, off)) as nat;
        lemma_frames_within(buf, next);
        let head = FrameSpan {
            timestamp: u64_of_ne(buf.subrange(off as int, off + 8int)),
            start: (off + FRAME_HEADER_LEN) as nat,
            len: length_field(buf, off),
        };
        assert(frames_from(buf, off) == seq![head] + frames_from(buf, next));
        let all = frames_from(buf, off);
        assert forall|i: int| 0 <= i < all.len() implies #[trigger] all[i].start + all[i].len
            <= buf.len() by {
            if i > 0 {
                assert(all[i] == frames_from(buf, next)[i - 1]);
            }
        }
    }
}

/// Putting bytes in front of a region moves what a reader finds there by
/// as many bytes, and changes nothing else.
pub proof fn lemma_frames_after_prefix(pre: Seq<u8>, rest: Seq<u8>, off: nat)
    requires
        off <= rest.len(),
    ensures
        frames_from(pre + rest, pre.len() + off) == shift_spans(frames_from(rest, off), pre.len()),
        scan_end(pre + rest, pre.len() + off) == pre.len() + scan_end(rest, off),
    decreases rest.len() - off,
{
    let buf = pre + rest;
    let p = pre.len();
    let at = (p + off) as nat;
    if off + FRAME_HEADER_LEN <= rest.len() {
        assert(buf.subrange(at + 8int, at + 12int) =~= rest.subrange(off + 8int, off + 12int));
        assert(buf.subrange(at as int, at + 8int) =~= rest.subrange(off as int, off + 8int));
    }
    if frame_at(rest, off) {
        let len = length_field(rest, off);
        let next = (off + FRAME_HEADER_LEN + len) as nat;
        lemma_frames_after_prefix(pre, rest, next);
        assert(frame_at(buf, at));
        assert((at + FRAME_HEADER_LEN + len) as nat == p + next);
        let head = FrameSpan {
            timestamp: u64_of_ne(rest.subrange(off as int, off + 8int)),
            start: (off + FRAME_HEADER_LEN) as nat,
            len,
        };
        assert(frames_from(rest, off) == seq![head] + frames_from(rest, next));
        assert(shift_spans(frames_from(rest, off), p) =~= shift_spans(seq![head], p)
            + shift_spans(frames_from(rest, next), p));
    } else {
        assert(!frame_at(buf, at));
        assert(shift_spans(frames_from(rest, off), p) =~= Seq::<FrameSpan>::empty());
    }
}

/// The records of spans moved past a prefix, read in the longer region, are
/// the records of the spans in the shorter one.
pub proof fn lemma_records_after_prefix(pre: Seq<u8>, rest: Seq<u8>, spans: Seq<FrameSpan>)
    requires
        spans_within(spans, rest.len()),
    ensures
        records_of(pre + rest, shift_spans(spans, pre.len())) == records_of(rest, spans),
{
    let buf = pre + rest;
    let p = pre.len();
    let lhs = records_of(buf, shift_spans(spans, p));
    let rhs = records_of(rest, spans);
    assert forall|i: int| 0 <= i < spans.len() implies #[trigger] lhs[i] == rhs[i] by {
        let s = spans[i];
        assert(s.start + s.len <= rest.len());
        assert(buf.subrange((s.start + p) as int, (s.start + p + s.len) as int) =~= rest.subrange(
            s.start as int,
            (s.start + s.len) as int,
        ));
    }
    assert(lhs =~= rhs);
}

/// A reader finds a readable record's frame, then whatever follows it: the
/// frame format round-trips.
pub proof fn lemma_frame_roundtrip(timestamp: u64, payload: Seq<u8>, rest: Seq<u8>)
    requires
        readable_record(LogRecord { timestamp, payload }),
    ensures
        read_records(frame_bytes(timestamp, payload) + rest) == seq![
            LogRecord { timestamp, payload },
        ] + read_records(rest),
        scan_end(frame_bytes(timestamp, payload) + rest, 0) == frame_bytes(timestamp, payload).len()
            + scan_end(rest, 0),
{
    let f = frame_bytes(timestamp, payload);
    let buf = f + rest;
    let n = payload.len();
    crate::byte_order::lemma_u64_ne_roundtrip(timestamp);
    crate::byte_order::lemma_u32_ne_roundtrip(n as u32);
    assert(f.len() == 12 + n);
    assert(buf.subrange(0, 8) =~= u64_ne(timestamp));
    assert(buf.subrange(8, 12) =~= u32_ne(n as u32));
    assert(length_field(buf, 0) == n);
    assert(frame_at(buf, 0));
    let next = (FRAME_HEADER_LEN + n) as nat;
    assert(next == f.len() + 0);
    lemma_frames_after_prefix(f, rest, 0);
    lemma_frames_within(rest, 0);
    lemma_records_after_prefix(f, rest, frames_from(rest, 0));
    let head = FrameSpan { timestamp, start: 12, len: n };
    assert(frames_from(buf, 0) == seq![head] + frames_from(buf, next));
    assert(buf.subrange(12, 12 + n as int) =~= payload);
    let spans = frames_from(buf, 0);
    let tail_spans = shift_spans(frames_from(rest, 0), f.len());
    assert(records_of(buf, spans) =~= seq![record_of(buf, head)] + records_of(buf, tail_spans));
}

/// Reading a region that holds the frames of readable records, then other
/// bytes, gives back those records, then what the other bytes hold.
pub proof fn lemma_read_back(records: Seq<LogRecord>, tail: Seq<u8>)
    requires
        forall|i: int| 0 <= i < records.len() ==> readable_record(#[trigger] records[i]),
    ensures
        read_records(encode_records(records) + tail) == records + read_records(tail),
        scan_end(encode_records(records) + tail, 0) == encode_records(records).len() + scan_end(
            tail,
            0,
        ),
    decreases records.len(),
{
    if records.len() == 0 {
        assert(encode_records(records) + tail =~= tail);
        assert(records + read_records(tail) =~= read_records(tail));
    } else {
        let init = records.drop_last();
        let last = records.last();
        let f = frame_bytes(last.timestamp, last.payload);
        let tail2 = f + tail;
        assert(readable_record(records[records.len() - 1]));
        lemma_frame_roundtrip(last.timestamp, last.payload, tail);
        assert forall|i: int| 0 <= i < init.len() implies readable_record(#[trigger] init[i]) by {
            assert(init[i] == records[i]);
        }
        lemma_read_back(init, tail2);
        assert(encode_records(records) + tail =~= encode_records(init) + tail2);
        assert(records =~= init + seq![last]);
        assert(records + read_records(tail) =~= init + (seq![last] + read_records(tail)));
    }
}

/// A reader finds nothing in zero-filled bytes.
pub proof fn lemma_zero_filled_reads_nothing(z: Seq<u8>)
    requires
        zero_filled(z),
    ensures
        frames_from(z, 0) == Seq::<FrameSpan>::empty(),
        read_records(z) == Seq::<LogRecord>::empty(),
        scan_end(z, 0) == 0,
{
    if FRAME_HEADER_LEN <= z.len() {
        let h = z.subrange(8, 12);
        assert(h[0] == z[8] && h[1] == z[9] && h[2] == z[10] && h[3] == z[11]);
        crate::byte_order::lemma_u32_of_zero_bytes_ne(h);
    }
    assert(!frame_at(z, 0));
    assert(read_records(z) =~= Seq::<LogRecord>::empty());
}

} // verus!
