//! An append-only log written frame by frame into a memory-mapped region.

use crate::entry::LogEntry;
use crate::frame::{
    encode_records, frame_bytes, lemma_read_back, lemma_zero_filled_reads_nothing, read_records,
    readable_record, scan_end, zero_filled, LogRecord, FRAME_HEADER_LEN,
};
use crate::byte_order::{u32_to_ne_bytes, u64_to_ne_bytes};
use crate::region::{region_bytes, region_contents, region_len, region_write, splice};
use vstd::prelude::*;

verus! {

/// Why a log entry was not stored.
#[derive(Clone, Copy, Debug, PartialEq, Eq)]
pub enum StorageError {
    /// The entry's frame does not fit in what is left of the region.
    LogFull,
}

/// A log stored in a memory-mapped region: each entry's frame is written at
/// the write offset, which then moves past it. An entry whose frame does not
/// fit in the rest of the region is refused and changes nothing.
pub struct MmappedLogStorage {
    region: memmap2::MmapMut,
    offset: usize,
    /// What the region held when the log was started over it.
    initial: Ghost<Seq<u8>>,
    /// The records whose frames were written, in order.
    written: Ghost<Seq<LogRecord>>,
}

/// The number of bytes the frame of an entry with this payload takes.
pub open spec fn frame_len(payload: Seq<u8>) -> nat {
    (FRAME_HEADER_LEN + payload.len()) as nat
}

/// The region's bytes and the write offset after the frames of `records` were
/// written one after another, starting at `offset` in `bytes`.
pub open spec fn after_writes(bytes: Seq<u8>, offset: nat, records: Seq<LogRecord>) -> (Seq<u8>, nat)
    decreases records.len(),
{
    if records.len() == 0 {
        (bytes, offset)
    } else {
        let (b, o) = after_writes(bytes, offset, records.drop_last());
        let r = records.last();
        (splice(b, o as int, frame_bytes(r.timestamp, r.payload)), o + frame_len(r.payload))
    }
}

/// The record an entry is written as.
pub open spec fn record_of_entry(entry: LogEntry) -> LogRecord {
    LogRecord { timestamp: entry.timestamp, payload: entry.payload@ }
}

impl MmappedLogStorage {
    /// The bytes the region holds.
    pub closed spec fn bytes(&self) -> Seq<u8> {
        region_contents(self.region)
    }

    /// The write offset: the total size of the frames written so far.
    pub closed spec fn offset(&self) -> nat {
        self.offset as nat
    }

    /// What the region held when the log was started over it.
    pub closed spec fn initial_bytes(&self) -> Seq<u8> {
        self.initial@
    }

    /// The records whose frames were written, in the order they were written.
    pub closed spec fn records(&self) -> Seq<LogRecord> {
        self.written@
    }

    /// The log is what writing its records, in order, from the start of the
    /// region it was started over makes of that region, and it fits there.
    pub open spec fn well_formed(&self) -> bool {
        &&& after_writes(self.initial_bytes(), 0, self.records()) == (self.bytes(), self.offset())
        &&& self.bytes().len() == self.initial_bytes().len()
        &&& self.offset() <= self.bytes().len()
        &&& self.bytes().len() <= usize::MAX
    }

    /// A log over `region`, written from its start.
    pub fn from_region(region: memmap2::MmapMut) -> (s: Self)
        ensures
            s.bytes() == region_contents(region),
            s.initial_bytes() == region_contents(region),
            s.records() == Seq::<LogRecord>::empty(),
            s.offset() == 0,
            s.bytes().len() <= usize::MAX,
            s.well_formed(),
    {
        let _len = region_len(&region);
        MmappedLogStorage {
            region,
            offset: 0,
            initial: Ghost(region_contents(region)),
            written: Ghost(Seq::empty()),
        }
    }

    /// Writes the entry's frame (timestamp, payload length, payload) into the
    /// region at the write offset and moves the offset past it. When the frame
    /// does not fit in the rest of the region the log is full: nothing is
    /// written and the offset stays.
    pub fn write_entry(&mut self, entry: LogEntry) -> (r: Result<(), StorageError>)
        ensures
            r is Ok <==> old(self).offset() + frame_len(entry.payload@) <= old(self).bytes().len(),
            r is Ok ==> {
                &&& final(self).bytes() == splice(
                    old(self).bytes(),
                    old(self).offset() as int,
                    frame_bytes(entry.timestamp, entry.payload@),
                )
                &&& final(self).offset() == old(self).offset() + frame_len(entry.payload@)
                &&& final(self).records() == old(self).records().push(record_of_entry(entry))
                &&& final(self).initial_bytes() == old(self).initial_bytes()
            },
            r is Err ==> r == Err::<(), StorageError>(StorageError::LogFull) && *final(self) == *old(
                self,
            ),
            final(self).bytes().len() == old(self).bytes().len(),
            final(self).bytes().len() <= usize::MAX,
            old(self).well_formed() ==> final(self).well_formed(),
    {
        let payload = entry.payload;
        let offset = self.offset;
        let len = region_len(&self.region);
        let n = payload.len();
        if n > len || len - n < FRAME_HEADER_LEN || offset > len - n - FRAME_HEADER_LEN {
            return Err(StorageError::LogFull);
        }
        let entry_size = FRAME_HEADER_LEN + n;
        let ghost before = region_contents(self.region);
        let ts = u64_to_ne_bytes(entry.timestamp);
        let nb = u32_to_ne_bytes(n as u32);
        region_write(&mut self.region, offset, &ts);
        region_write(&mut self.region, offset + 8, &nb);
        region_write(&mut self.region, offset + FRAME_HEADER_LEN, payload);
        self.offset = offset + entry_size;
        let ghost rec = record_of_entry(entry);
        proof {
            let f = frame_bytes(entry.timestamp, payload@);
            assert(f =~= ts@ + nb@ + payload@);
            assert(region_contents(self.region) =~= splice(before, offset as int, f));
            let rs = self.written@.push(rec);
            assert(rs.drop_last() =~= self.written@);
        }
        self.written = Ghost(self.written@.push(rec));
        Ok(())
    }

    /// The total number of bytes of the frames written to the log.
    pub fn bytes_written(&self) -> (n: usize)
        ensures
            n == self.offset(),
    {
        self.offset
    }

    /// The bytes the region holds.
    pub fn contents(&self) -> (r: &[u8])
        ensures
            r@ == self.bytes(),
    {
        region_bytes(&self.region)
    }
}

/// Writing frames one after another moves the offset on by exactly their
/// total size: the length of the records' frames laid end to end.
pub proof fn lemma_writes_offset(bytes: Seq<u8>, records: Seq<LogRecord>)
    ensures
        after_writes(bytes, 0, records).1 == encode_records(records).len(),
    decreases records.len(),
{
    if records.len() > 0 {
        let r = records.last();
        lemma_writes_offset(bytes, records.drop_last());
        crate::byte_order::lemma_u64_ne_roundtrip(r.timestamp);
        crate::byte_order::lemma_u32_ne_roundtrip(r.payload.len() as u32);
    }
}

/// Frames written one after another from the start of a region, where they
/// fit, lie there end to end in the order they were written, and the rest of
/// the region is as it was.
pub proof fn lemma_writes_layout(bytes: Seq<u8>, records: Seq<LogRecord>)
    requires
        encode_records(records).len() <= bytes.len(),
    ensures
        after_writes(bytes, 0, records).0 == encode_records(records) + bytes.subrange(
            encode_records(records).len() as int,
            bytes.len() as int,
        ),
    decreases records.len(),
{
    if records.len() > 0 {
        let init = records.drop_last();
        let r = records.last();
        let f = frame_bytes(r.timestamp, r.payload);
        assert(encode_records(records) == encode_records(init) + f);
        lemma_writes_layout(bytes, init);
        lemma_writes_offset(bytes, init);
        let e = encode_records(init);
        let b = after_writes(bytes, 0, init).0;
        assert(splice(b, e.len() as int, f) =~= encode_records(records) + bytes.subrange(
            encode_records(records).len() as int,
            bytes.len() as int,
        ));
    }
}

/// The frames of the first `i` records are where the frames of all the
/// records start.
pub proof fn lemma_encode_prefix(records: Seq<LogRecord>, i: int)
    requires
        0 <= i <= records.len(),
    ensures
        encode_records(records.take(i)).len() <= encode_records(records).len(),
        encode_records(records).subrange(0, encode_records(records.take(i)).len() as int)
            == encode_records(records.take(i)),
    decreases records.len(),
{
    if i == records.len() {
        assert(records.take(i) =~= records);
        assert(encode_records(records).subrange(0, encode_records(records).len() as int)
            =~= encode_records(records));
    } else {
        let init = records.drop_last();
        assert(records.take(i) =~= init.take(i));
        lemma_encode_prefix(init, i);
        let last = records.last();
        assert(encode_records(records) == encode_records(init) + frame_bytes(
            last.timestamp,
            last.payload,
        ));
        assert(encode_records(records).subrange(0, encode_records(init.take(i)).len() as int)
            =~= encode_records(init).subrange(0, encode_records(init.take(i)).len() as int));
    }
}

/// The frame of record `i` lies in the frames of all the records right after
/// the frames of the records before it.
pub proof fn lemma_frame_position(records: Seq<LogRecord>, i: int)
    requires
        0 <= i < records.len(),
    ensures
        encode_records(records.take(i + 1)).len() <= encode_records(records).len(),
        encode_records(records.take(i + 1)).len() == encode_records(records.take(i)).len()
            + frame_bytes(records[i].timestamp, records[i].payload).len(),
        encode_records(records).subrange(
            encode_records(records.take(i)).len() as int,
            encode_records(records.take(i + 1)).len() as int,
        ) == frame_bytes(records[i].timestamp, records[i].payload),
{
    lemma_encode_prefix(records, i + 1);
    let all = encode_records(records);
    let t = records.take(i + 1);
    assert(t.drop_last() =~= records.take(i));
    assert(t.last() == records[i]);
    let a = encode_records(records.take(i));
    let f = frame_bytes(records[i].timestamp, records[i].payload);
    assert(encode_records(t) == a + f);
    let p = encode_records(t);
    assert(all.subrange(a.len() as int, p.len() as int) =~= all.subrange(0, p.len() as int).subrange(
        a.len() as int,
        p.len() as int,
    ));
    assert((a + f).subrange(a.len() as int, p.len() as int) =~= f);
}

/// The frame of record `i` lies at the same place when other bytes follow the
/// frames of all the records.
pub proof fn lemma_frame_before_rest(records: Seq<LogRecord>, rest: Seq<u8>, i: int)
    requires
        0 <= i < records.len(),
    ensures
        (encode_records(records) + rest).subrange(
            encode_records(records.take(i)).len() as int,
            encode_records(records.take(i + 1)).len() as int,
        ) == frame_bytes(records[i].timestamp, records[i].payload),
{
    lemma_frame_position(records, i);
    let all = encode_records(records);
    let x = encode_records(records.take(i)).len() as int;
    let y = encode_records(records.take(i + 1)).len() as int;
    assert((all + rest).subrange(x, y) =~= all.subrange(x, y));
}

/// In a well-formed log the offset is the total size of the frames of its
/// records; the frame of record `i` lies right after those of the records
/// before it, in the order they were written; and past the offset the region
/// holds what it held when the log was started.
pub proof fn lemma_log_layout(s: MmappedLogStorage)
    requires
        s.well_formed(),
    ensures
        s.offset() == encode_records(s.records()).len(),
        s.bytes() == encode_records(s.records()) + s.initial_bytes().subrange(
            s.offset() as int,
            s.bytes().len() as int,
        ),
        forall|i: int|
            0 <= i < s.records().len() ==> s.bytes().subrange(
                encode_records(s.records().take(i)).len() as int,
                encode_records(s.records().take(i + 1)).len() as int,
            ) == frame_bytes(#[trigger] s.records()[i].timestamp, s.records()[i].payload),
{
    let rs = s.records();
    lemma_writes_offset(s.initial_bytes(), rs);
    lemma_writes_layout(s.initial_bytes(), rs);
    let all = encode_records(rs);
    let rest = s.initial_bytes().subrange(s.offset() as int, s.bytes().len() as int);
    assert(s.bytes() == all + rest);
    assert forall|i: int| 0 <= i < rs.len() implies s.bytes().subrange(
        encode_records(rs.take(i)).len() as int,
        encode_records(rs.take(i + 1)).len() as int,
    ) == frame_bytes(#[trigger] rs[i].timestamp, rs[i].payload) by {
        lemma_frame_before_rest(rs, rest, i);
    }
}

/// A log started over a zero-filled region, whose records can all be read
/// back, reads back as its records, and the reader stops at the offset.
pub proof fn lemma_log_reads_back(s: MmappedLogStorage)
    requires
        s.well_formed(),
        zero_filled(s.initial_bytes()),
        forall|i: int| 0 <= i < s.records().len() ==> readable_record(#[trigger] s.records()[i]),
    ensures
        read_records(s.bytes()) == s.records(),
        scan_end(s.bytes(), 0) == s.offset(),
{
    lemma_log_layout(s);
    let tail = s.initial_bytes().subrange(s.offset() as int, s.bytes().len() as int);
    assert(zero_filled(tail)) by {
        assert forall|i: int| 0 <= i < tail.len() implies #[trigger] tail[i] == 0 by {
            assert(tail[i] == s.initial_bytes()[i + s.offset()]);
        }
    }
    lemma_read_back(s.records(), tail);
    lemma_zero_filled_reads_nothing(tail);
    assert(s.records() + Seq::<LogRecord>::empty() =~= s.records());
}

} // verus!
