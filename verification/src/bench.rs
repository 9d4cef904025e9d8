//! The UDP benchmark's configuration, its progress reports and its totals.

use vstd::prelude::*;

verus! {

/// Where the benchmark sends when no target is given.
pub const DEFAULT_TARGET: &'static str = "127.0.0.1:9000";

/// Packets sent when no count is given.
pub const DEFAULT_PACKET_COUNT: usize = 100000;

/// Payload bytes per packet when no size is given.
pub const DEFAULT_PACKET_SIZE: usize = 512;

/// Packets between progress reports when no batch size is given.
pub const DEFAULT_BATCH_SIZE: usize = 100;

/// Whether `c` is an ASCII decimal digit.
pub open spec fn is_decimal_digit(c: char) -> bool {
    '0' <= c && c <= '9'
}

/// The value of a string of decimal digits.
pub open spec fn decimal_value(ds: Seq<char>) -> nat
    decreases ds.len(),
{
    if ds.len() == 0 {
        0
    } else {
        decimal_value(ds.drop_last()) * 10 + (ds.last() as nat - '0' as nat) as nat
    }
}

/// The digits of an unsigned number: the text after an optional leading `+`.
pub open spec fn unsigned_digits(s: Seq<char>) -> Seq<char> {
    if s.len() > 0 && s[0] == '+' {
        s.drop_first()
    } else {
        s
    }
}

/// The `usize` that `s` denotes: an optional `+` then one or more decimal
/// digits, with a value that fits; `None` for any other text.
pub open spec fn usize_from_text(s: Seq<char>) -> Option<usize> {
    let ds = unsigned_digits(s);
    if ds.len() > 0 && (forall|i: int| 0 <= i < ds.len() ==> is_decimal_digit(#[trigger] ds[i]))
        && decimal_value(ds) <= usize::MAX {
        Some(decimal_value(ds) as usize)
    } else {
        None
    }
}

/// `<usize as core::str::FromStr>::from_str` through `str::parse`, its error
/// turned into `None`. As std documents it, the text must be an optional `+`
/// followed by one or more ASCII digits whose value fits in a `usize`.
#[verifier::external_body]
fn parse_usize(s: &str) -> (r: Option<usize>)
    ensures
        r == usize_from_text(s@),
{
    s.parse::<usize>().ok()
}

/// The number that argument `i` gives, or `default` when there is no such
/// argument or it is not a number.
pub open spec fn count_arg(args: Seq<String>, i: int, default: usize) -> usize {
    if i < args.len() {
        match usize_from_text(args[i]@) {
            Some(v) => v,
            None => default,
        }
    } else {
        default
    }
}

/// How the benchmark runs.
pub struct BenchConfig {
    pub target: String,
    pub packet_count: usize,
    pub packet_size: usize,
    pub batch_size: usize,
}

/// The number that argument `i` gives, or `default`.
fn count_arg_or(args: &Vec<String>, i: usize, default: usize) -> (r: usize)
    ensures
        r == count_arg(args@, i as int, default),
        i < args@.len() && usize_from_text(args@[i as int]@) is Some ==> r == usize_from_text(
            args@[i as int]@,
        )->0,
        i < args@.len() && usize_from_text(args@[i as int]@) is None ==> r == default,
        i >= args@.len() ==> r == default,
{
    if i < args.len() {
        match parse_usize(args[i].as_str()) {
            Some(v) => v,
            None => default,
        }
    } else {
        default
    }
}

impl BenchConfig {
    /// The configuration that the command line `args` gives (the program's
    /// name first): the target, packet count, packet size and batch size in
    /// that order, each taking its default when it is missing, and each count
    /// taking its default when it is not a number.
    pub fn from_args(args: &Vec<String>) -> (c: BenchConfig)
        ensures
            c.target@ == (if args@.len() > 1 {
                args@[1]@
            } else {
                DEFAULT_TARGET@
            }),
            c.packet_count == count_arg(args@, 2, DEFAULT_PACKET_COUNT),
            c.packet_size == count_arg(args@, 3, DEFAULT_PACKET_SIZE),
            c.batch_size == count_arg(args@, 4, DEFAULT_BATCH_SIZE),
            args@.len() > 2 && usize_from_text(args@[2]@) is Some ==> c.packet_count
                == usize_from_text(args@[2]@)->0,
            args@.len() > 3 && usize_from_text(args@[3]@) is Some ==> c.packet_size
                == usize_from_text(args@[3]@)->0,
            args@.len() > 4 && usize_from_text(args@[4]@) is Some ==> c.batch_size
                == usize_from_text(args@[4]@)->0,
    {
        let target = if args.len() > 1 {
            args[1].clone()
        } else {
            DEFAULT_TARGET.to_owned()
        };
        BenchConfig {
            target,
            packet_count: count_arg_or(args, 2, DEFAULT_PACKET_COUNT),
            packet_size: count_arg_or(args, 3, DEFAULT_PACKET_SIZE),
            batch_size: count_arg_or(args, 4, DEFAULT_BATCH_SIZE),
        }
    }
}

/// The integer results of a benchmark run.
#[derive(Clone, Copy, Debug, PartialEq, Eq)]
pub struct BenchTotals {
    pub total_packets: usize,
    pub total_bytes: usize,
    pub avg_latency_ns: u64,
}

impl BenchTotals {
    /// The totals of sending `packet_count` packets of `packet_size` bytes in
    /// `elapsed_nanos` nanoseconds: the bytes sent, and the time per packet in
    /// whole nanoseconds (of the elapsed time's low 64 bits).
    pub fn calculate(packet_count: usize, packet_size: usize, elapsed_nanos: u128) -> (t:
        BenchTotals)
        requires
            packet_count > 0,
            packet_count * packet_size <= usize::MAX,
        ensures
            t.total_packets == packet_count,
            t.total_bytes == packet_count * packet_size,
            t.avg_latency_ns == (elapsed_nanos as u64) / (packet_count as u64),
    {
        BenchTotals {
            total_packets: packet_count,
            total_bytes: packet_count * packet_size,
            avg_latency_ns: (elapsed_nanos as u64) / (packet_count as u64),
        }
    }
}

/// How far the benchmark's send loop has got.
pub struct SendProgress {
    pub sent: usize,
    pub total: usize,
    pub batch_size: usize,
}

impl SendProgress {
    /// The progress of a run of `total` packets, reported every `batch_size`.
    pub fn new(total: usize, batch_size: usize) -> (p: Self)
        ensures
            p.sent == 0,
            p.total == total,
            p.batch_size == batch_size,
    {
        SendProgress { sent: 0, total, batch_size }
    }

    /// Whether every packet has been sent.
    pub fn is_done(&self) -> (b: bool)
        ensures
            b == (self.sent >= self.total),
    {
        self.sent >= self.total
    }

    /// Counts one more packet sent; true when a batch has just been completed
    /// and progress is due to be reported.
    pub fn record_send(&mut self) -> (report: bool)
        requires
            old(self).sent < old(self).total,
            old(self).batch_size > 0,
        ensures
            final(self).sent == old(self).sent + 1,
            final(self).total == old(self).total,
            final(self).batch_size == old(self).batch_size,
            report == (final(self).sent % final(self).batch_size == 0),
    {
        self.sent = self.sent + 1;
        self.sent % self.batch_size == 0
    }
}

/// An argument that is a number gives that number, whatever the default.
pub proof fn lemma_count_arg_reads_number(args: Seq<String>, i: int, default: usize)
    requires
        0 <= i < args.len(),
        usize_from_text(args[i]@) is Some,
    ensures
        count_arg(args, i, default) == usize_from_text(args[i]@)->0,
        count_arg(args, i, default) == decimal_value(unsigned_digits(args[i]@)),
{
}

/// Which number an argument gives does not depend on the arguments after it:
/// adding arguments at the end changes no count that was already given.
pub proof fn lemma_count_arg_ignores_later(
    args: Seq<String>,
    extra: Seq<String>,
    i: int,
    default: usize,
)
    requires
        0 <= i < args.len(),
    ensures
        count_arg(args + extra, i, default) == count_arg(args, i, default),
{
    assert((args + extra)[i] == args[i]);
}

/// A missing argument, or one that is not a number, gives the default.
pub proof fn lemma_count_arg_default(args: Seq<String>, i: int, default: usize)
    requires
        0 <= i,
        i >= args.len() || usize_from_text(args[i]@) is None,
    ensures
        count_arg(args, i, default) == default,
{
}

} // verus!
