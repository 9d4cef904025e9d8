//! The log collector's decision for each completed multishot receive: which
//! provided buffer holds the packet, what its payload is, and whether it was
//! logged.

use crate::entry::{unix_millis_now, whole_millis, LogEntry};
use crate::frame::{encode_records, frame_bytes, LogRecord, FRAME_HEADER_LEN};
use crate::recvmsg::{packet_payload, payload_start, provided_buffer_id, recvmsg_payload};
use crate::region::splice;
use crate::storage::{frame_len, MmappedLogStorage, StorageError};
use vstd::prelude::*;

verus! {

/// Bytes in each provided receive buffer.
pub const BUF_SIZE: usize = 2048;

/// Number of provided receive buffers.
pub const BUF_COUNT: usize = 512;

/// Buffer group the provided buffers are registered under.
pub const BUF_GROUP_ID: u16 = 1;

/// What the collector does after a completion.
#[derive(Clone, Copy, Debug, PartialEq, Eq)]
pub enum CompletionAction {
    /// The receive failed or returned nothing; `result` is the completion's
    /// result (a negated errno, or zero). Report it and go on.
    RecvFailed { result: i32 },
    /// The packet's payload was logged with this timestamp; `packets` packets
    /// have been logged so far and the log's write offset is `bytes_written`.
    Logged { timestamp: u64, packets: u64, bytes_written: usize },
    /// The payload could not be stored. Stop collecting.
    StorageFailed(StorageError),
    /// The system clock reads a time before the Unix epoch, so no timestamp
    /// could be taken.
    ClockBeforeEpoch,
}

/// The collector's state: its log and the number of packets logged.
pub struct LogAgent {
    pub storage: MmappedLogStorage,
    pub packets: u64,
    /// The name length of the `msghdr` the multishot receive was submitted with.
    pub name_len: u32,
    /// The control length of that `msghdr`.
    pub control_len: usize,
}

/// Where in the buffer pool the provided buffer that `flags` names starts.
pub open spec fn buffer_start(flags: u32) -> int {
    ((flags >> 16u32) & 0xffff) * BUF_SIZE
}

/// The bytes of a completed receive: `result` bytes from the start of the
/// provided buffer that `flags` names.
pub open spec fn received_bytes(pool: Seq<u8>, result: i32, flags: u32) -> Seq<u8> {
    pool.subrange(buffer_start(flags), buffer_start(flags) + result)
}

/// The collector after `payload` was offered to its log with the clock
/// reading `millis`, and what it does next: no reading, no log entry; a
/// reading whose frame fits is logged with the reading's low 64 bits as the
/// timestamp and counted; one whose frame does not fit is refused and the
/// collector stops.
pub open spec fn logged_as(
    old_agent: LogAgent,
    new_agent: LogAgent,
    payload: Seq<u8>,
    millis: Option<u128>,
    act: CompletionAction,
) -> bool {
    let st = old_agent.storage;
    let fits = st.offset() + frame_len(payload) <= st.bytes().len();
    &&& new_agent.name_len == old_agent.name_len
    &&& new_agent.control_len == old_agent.control_len
    &&& match millis {
        None => act == CompletionAction::ClockBeforeEpoch && new_agent == old_agent,
        Some(m) => if fits {
            let ts = m as u64;
            &&& act == (CompletionAction::Logged {
                timestamp: ts,
                packets: (old_agent.packets + 1) as u64,
                bytes_written: (st.offset() + frame_len(payload)) as usize,
            })
            &&& new_agent.packets == old_agent.packets + 1
            &&& new_agent.storage.bytes() == splice(
                st.bytes(),
                st.offset() as int,
                frame_bytes(ts, payload),
            )
            &&& new_agent.storage.offset() == st.offset() + frame_len(payload)
            &&& new_agent.storage.records() == st.records().push(
                LogRecord { timestamp: ts, payload },
            )
            &&& new_agent.storage.initial_bytes() == st.initial_bytes()
            &&& (st.well_formed() ==> new_agent.storage.well_formed())
        } else {
            act == CompletionAction::StorageFailed(StorageError::LogFull) && new_agent
                == old_agent
        },
    }
}

impl LogAgent {
    /// A collector that has logged nothing yet, for a multishot receive
    /// submitted with a `msghdr` of these name and control lengths.
    pub fn new(storage: MmappedLogStorage, name_len: u32, control_len: usize) -> (a: Self)
        ensures
            a.storage == storage,
            a.packets == 0,
            a.name_len == name_len,
            a.control_len == control_len,
    {
        LogAgent { storage, packets: 0, name_len, control_len }
    }

    /// Offers `payload` to the log with the clock reading `millis` (whole
    /// milliseconds since the Unix epoch, `None` when the clock reads before
    /// it): stamps it, writes it and counts it.
    pub fn log_payload(&mut self, payload: &[u8], millis: Option<u128>) -> (act: CompletionAction)
        requires
            millis is Some && old(self).storage.offset() + frame_len(payload@) <= old(
                self,
            ).storage.bytes().len() ==> old(self).packets < u64::MAX,
        ensures
            logged_as(*old(self), *final(self), payload@, millis, act),
            act matches CompletionAction::Logged { timestamp, packets, bytes_written } ==> {
                &&& millis == Some(millis->0)
                &&& timestamp == millis->0 as u64
                &&& packets == final(self).packets
                &&& bytes_written == final(self).storage.offset()
                &&& final(self).storage.records() == old(self).storage.records().push(
                    LogRecord { timestamp, payload: payload@ },
                )
            },
    {
        let millis = match millis {
            Some(m) => m,
            None => return CompletionAction::ClockBeforeEpoch,
        };
        let entry = LogEntry::at_time(payload, millis);
        let timestamp = entry.timestamp;
        match self.storage.write_entry(entry) {
            Ok(()) => {
                self.packets = self.packets + 1;
                CompletionAction::Logged {
                    timestamp,
                    packets: self.packets,
                    bytes_written: self.storage.bytes_written(),
                }
            },
            Err(e) => CompletionAction::StorageFailed(e),
        }
    }

    /// Handles one completion of the multishot receive: a failed one is
    /// reported; otherwise the payload of the packet in the provided buffer
    /// that `flags` names is stamped with the system clock's reading and
    /// offered to the log.
    pub fn on_completion(&mut self, pool: &[u8], result: i32, flags: u32) -> (act:
        CompletionAction)
        requires
            result > 0 ==> {
                let bytes = received_bytes(pool@, result, flags);
                let payload = recvmsg_payload(bytes, old(self).name_len, old(self).control_len);
                &&& buffer_start(flags) + result <= pool@.len()
                &&& payload_start(old(self).name_len, old(self).control_len) <= result
                &&& old(self).storage.offset() + frame_len(payload) <= old(self).storage.bytes().len()
                    ==> old(self).packets < u64::MAX
            },
        ensures
            result <= 0 ==> act == (CompletionAction::RecvFailed { result }) && *final(self) == *old(
                self,
            ),
            result > 0 ==> {
                let payload = recvmsg_payload(
                    received_bytes(pool@, result, flags),
                    old(self).name_len,
                    old(self).control_len,
                );
                ||| logged_as(*old(self), *final(self), payload, None, act)
                ||| exists|secs: u64, nanos: u32|
                    nanos < 1_000_000_000 && logged_as(
                        *old(self),
                        *final(self),
                        payload,
                        Some(#[trigger] whole_millis(secs, nanos) as u128),
                        act,
                    )
            },
            act matches CompletionAction::Logged { timestamp, packets, bytes_written } ==> {
                let id = flags as int / 0x10000;
                let packet = pool@.subrange(id * BUF_SIZE, id * BUF_SIZE + result);
                &&& result > 0
                &&& packets == final(self).packets
                &&& bytes_written == final(self).storage.offset()
                &&& final(self).storage.records() == old(self).storage.records().push(
                    LogRecord {
                        timestamp,
                        payload: recvmsg_payload(packet, old(self).name_len, old(self).control_len),
                    },
                )
            },
    {
        if result <= 0 {
            return CompletionAction::RecvFailed { result };
        }
        proof {
            lemma_buffer_start(flags);
        }
        let start = provided_buffer_id(flags) * BUF_SIZE;
        let packet = vstd::slice::slice_subrange(pool, start, start + result as usize);
        let payload = packet_payload(packet, self.name_len, self.control_len).unwrap();
        let millis = unix_millis_now();
        self.log_payload(payload.as_slice(), millis)
    }
}

/// The provided buffer that a completion names starts at its id, the upper
/// sixteen bits of the flags, times the buffer size: every one of the
/// 65536 ids the flags can name has a buffer of its own.
pub proof fn lemma_buffer_start(flags: u32)
    ensures
        buffer_start(flags) == (flags as int / 0x10000) * BUF_SIZE,
        0 <= buffer_start(flags) <= 0xffff * BUF_SIZE,
{
    assert((flags >> 16u32) & 0xffff == flags / 0x10000) by (bit_vector);
    assert(flags / 0x10000 <= 0xffff) by (bit_vector);
}

/// A completion reads `result` bytes from the start of the provided buffer
/// that its flags name.
pub proof fn lemma_received_bytes_location(pool: Seq<u8>, result: i32, flags: u32)
    ensures
        received_bytes(pool, result, flags) == pool.subrange(
            (flags as int / 0x10000) * BUF_SIZE,
            (flags as int / 0x10000) * BUF_SIZE + result,
        ),
{
    lemma_buffer_start(flags);
}

/// When a payload is logged with a clock reading, the action reports the
/// reading's low 64 bits as the timestamp, the new packet count, and the
/// log's write offset afterwards, which in a well-formed log is the total
/// size of every frame written so far; and the log's records gain exactly
/// that payload with that timestamp.
pub proof fn lemma_logged_reports_totals(
    old_agent: LogAgent,
    new_agent: LogAgent,
    payload: Seq<u8>,
    millis: u128,
    act: CompletionAction,
)
    requires
        logged_as(old_agent, new_agent, payload, Some(millis), act),
        old_agent.storage.well_formed(),
        act is Logged,
    ensures
        act->timestamp == millis as u64,
        act->packets == new_agent.packets == old_agent.packets + 1,
        act->bytes_written == new_agent.storage.offset(),
        act->bytes_written == old_agent.storage.offset() + FRAME_HEADER_LEN + payload.len(),
        act->bytes_written == encode_records(new_agent.storage.records()).len(),
        new_agent.storage.records() == old_agent.storage.records().push(
            LogRecord { timestamp: millis as u64, payload },
        ),
{
    crate::storage::lemma_log_layout(new_agent.storage);
}

} // verus!
