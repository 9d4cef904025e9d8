//! Byte codecs for the integers of a log frame header, in the machine's byte
//! order (`to_ne_bytes` / `from_ne_bytes`), described through the
//! little-endian digits and vstd's `endianness()` of the running machine.

use vstd::endian::{endianness, Endian};
use vstd::prelude::*;

verus! {

/// The four bytes of `x`, least significant first.
pub open spec fn u32_le(x: u32) -> Seq<u8> {
    seq![
        (x & 0xff) as u8,
        ((x >> 8u32) & 0xff) as u8,
        ((x >> 16u32) & 0xff) as u8,
        ((x >> 24u32) & 0xff) as u8,
    ]
}

/// The `u32` whose little-endian bytes are `b[0..4]`.
pub open spec fn u32_of_le(b: Seq<u8>) -> u32 {
    (b[0] as u32) | ((b[1] as u32) << 8u32) | ((b[2] as u32) << 16u32) | ((b[3] as u32) << 24u32)
}

/// The eight bytes of `x`, least significant first.
pub open spec fn u64_le(x: u64) -> Seq<u8> {
    seq![
        (x & 0xff) as u8,
        ((x >> 8u64) & 0xff) as u8,
        ((x >> 16u64) & 0xff) as u8,
        ((x >> 24u64) & 0xff) as u8,
        ((x >> 32u64) & 0xff) as u8,
        ((x >> 40u64) & 0xff) as u8,
        ((x >> 48u64) & 0xff) as u8,
        ((x >> 56u64) & 0xff) as u8,
    ]
}

/// The `u64` whose little-endian bytes are `b[0..8]`.
pub open spec fn u64_of_le(b: Seq<u8>) -> u64 {
    (b[0] as u64) | ((b[1] as u64) << 8u64) | ((b[2] as u64) << 16u64) | ((b[3] as u64) << 24u64)
        | ((b[4] as u64) << 32u64) | ((b[5] as u64) << 40u64) | ((b[6] as u64) << 48u64) | ((
    b[7] as u64) << 56u64)
}

/// Decoding the encoding of a `u32` gives the value back.
pub proof fn lemma_u32_le_roundtrip(x: u32)
    ensures
        u32_le(x).len() == 4,
        u32_of_le(u32_le(x)) == x,
{
    let b = u32_le(x);
    let (b0, b1, b2, b3) = (b[0], b[1], b[2], b[3]);
    assert(b0 == (x & 0xff) as u8 && b1 == ((x >> 8u32) & 0xff) as u8 && b2 == ((x >> 16u32)
        & 0xff) as u8 && b3 == ((x >> 24u32) & 0xff) as u8);
    assert(b0 == (x & 0xff) as u8 && b1 == ((x >> 8u32) & 0xff) as u8 && b2 == ((x >> 16u32)
        & 0xff) as u8 && b3 == ((x >> 24u32) & 0xff) as u8 ==> (b0 as u32) | ((b1 as u32) << 8u32)
        | ((b2 as u32) << 16u32) | ((b3 as u32) << 24u32) == x) by (bit_vector);
}

/// Decoding the encoding of a `u64` gives the value back.
pub proof fn lemma_u64_le_roundtrip(x: u64)
    ensures
        u64_le(x).len() == 8,
        u64_of_le(u64_le(x)) == x,
{
    let b = u64_le(x);
    let (b0, b1, b2, b3, b4, b5, b6, b7) = (b[0], b[1], b[2], b[3], b[4], b[5], b[6], b[7]);
    assert(b0 == (x & 0xff) as u8 && b1 == ((x >> 8u64) & 0xff) as u8 && b2 == ((x >> 16u64)
        & 0xff) as u8 && b3 == ((x >> 24u64) & 0xff) as u8 && b4 == ((x >> 32u64) & 0xff) as u8
        && b5 == ((x >> 40u64) & 0xff) as u8 && b6 == ((x >> 48u64) & 0xff) as u8 && b7 == ((x
        >> 56u64) & 0xff) as u8 ==> (b0 as u64) | ((b1 as u64) << 8u64) | ((b2 as u64) << 16u64)
        | ((b3 as u64) << 24u64) | ((b4 as u64) << 32u64) | ((b5 as u64) << 40u64) | ((
    b6 as u64) << 48u64) | ((b7 as u64) << 56u64) == x) by (bit_vector);
}

/// Four zero bytes decode to zero.
pub proof fn lemma_u32_of_zero_bytes(b: Seq<u8>)
    requires
        b.len() >= 4,
        b[0] == 0 && b[1] == 0 && b[2] == 0 && b[3] == 0,
    ensures
        u32_of_le(b) == 0,
{
    let (b0, b1, b2, b3) = (b[0], b[1], b[2], b[3]);
    assert(b0 == 0 && b1 == 0 && b2 == 0 && b3 == 0 ==> (b0 as u32) | ((b1 as u32) << 8u32) | ((
    b2 as u32) << 16u32) | ((b3 as u32) << 24u32) == 0) by (bit_vector);
}

/// Little-endian bytes put in the machine's byte order: as they are on a
/// little-endian machine, reversed on a big-endian one.
pub open spec fn in_machine_order(le: Seq<u8>) -> Seq<u8> {
    match endianness() {
        Endian::Little => le,
        Endian::Big => le.reverse(),
    }
}

/// The four bytes of `x` in the machine's byte order.
pub open spec fn u32_ne(x: u32) -> Seq<u8> {
    in_machine_order(u32_le(x))
}

/// The eight bytes of `x` in the machine's byte order.
pub open spec fn u64_ne(x: u64) -> Seq<u8> {
    in_machine_order(u64_le(x))
}

/// The `u32` whose bytes in the machine's byte order are `b[0..4]`.
pub open spec fn u32_of_ne(b: Seq<u8>) -> u32 {
    u32_of_le(in_machine_order(b.subrange(0, 4)))
}

/// The `u64` whose bytes in the machine's byte order are `b[0..8]`.
pub open spec fn u64_of_ne(b: Seq<u8>) -> u64 {
    u64_of_le(in_machine_order(b.subrange(0, 8)))
}

/// Putting bytes in the machine's order twice gives them back.
proof fn lemma_machine_order_twice(b: Seq<u8>)
    ensures
        in_machine_order(in_machine_order(b)) == b,
        in_machine_order(b).len() == b.len(),
{
    match endianness() {
        Endian::Little => {},
        Endian::Big => {
            assert(b.reverse().reverse() =~= b);
        },
    }
}

/// Decoding the machine-order bytes of a `u32` gives the value back.
pub proof fn lemma_u32_ne_roundtrip(x: u32)
    ensures
        u32_ne(x).len() == 4,
        u32_of_ne(u32_ne(x)) == x,
{
    lemma_u32_le_roundtrip(x);
    lemma_machine_order_twice(u32_le(x));
    assert(u32_ne(x).subrange(0, 4) =~= u32_ne(x));
}

/// Decoding the machine-order bytes of a `u64` gives the value back.
pub proof fn lemma_u64_ne_roundtrip(x: u64)
    ensures
        u64_ne(x).len() == 8,
        u64_of_ne(u64_ne(x)) == x,
{
    lemma_u64_le_roundtrip(x);
    lemma_machine_order_twice(u64_le(x));
    assert(u64_ne(x).subrange(0, 8) =~= u64_ne(x));
}

/// Four zero bytes decode to zero in either byte order.
pub proof fn lemma_u32_of_zero_bytes_ne(b: Seq<u8>)
    requires
        b.len() >= 4,
        b[0] == 0 && b[1] == 0 && b[2] == 0 && b[3] == 0,
    ensures
        u32_of_ne(b) == 0,
{
    let z = b.subrange(0, 4);
    let m = in_machine_order(z);
    lemma_machine_order_twice(z);
    match endianness() {
        Endian::Little => {},
        Endian::Big => {
            assert(m[0] == z[3] && m[1] == z[2] && m[2] == z[1] && m[3] == z[0]);
        },
    }
    lemma_u32_of_zero_bytes(m);
}

/// `u32::to_ne_bytes`: the bytes of `x` in the machine's byte order.
#[verifier::external_body]
pub(crate) fn u32_to_ne_bytes(x: u32) -> (r: [u8; 4])
    ensures
        r@ == u32_ne(x),
{
    x.to_ne_bytes()
}

/// `u64::to_ne_bytes`: the bytes of `x` in the machine's byte order.
#[verifier::external_body]
pub(crate) fn u64_to_ne_bytes(x: u64) -> (r: [u8; 8])
    ensures
        r@ == u64_ne(x),
{
    x.to_ne_bytes()
}

/// `u32::from_ne_bytes`: the `u32` whose bytes in the machine's byte order
/// are `b`.
#[verifier::external_body]
fn u32_from_ne_bytes(b: [u8; 4]) -> (r: u32)
    ensures
        r == u32_of_ne(b@),
{
    u32::from_ne_bytes(b)
}

/// `u64::from_ne_bytes`: the `u64` whose bytes in the machine's byte order
/// are `b`.
#[verifier::external_body]
fn u64_from_ne_bytes(b: [u8; 8]) -> (r: u64)
    ensures
        r == u64_of_ne(b@),
{
    u64::from_ne_bytes(b)
}

/// The `u32` stored in the machine's byte order in `buf[at..at + 4]`.
pub fn read_u32_ne(buf: &[u8], at: usize) -> (r: u32)
    requires
        at + 4 <= buf@.len(),
    ensures
        r == u32_of_ne(buf@.subrange(at as int, at + 4)),
{
    let b = [buf[at], buf[at + 1], buf[at + 2], buf[at + 3]];
    assert(b@.subrange(0, 4) =~= buf@.subrange(at as int, at + 4).subrange(0, 4));
    u32_from_ne_bytes(b)
}

/// The `u64` stored in the machine's byte order in `buf[at..at + 8]`.
pub fn read_u64_ne(buf: &[u8], at: usize) -> (r: u64)
    requires
        at + 8 <= buf@.len(),
    ensures
        r == u64_of_ne(buf@.subrange(at as int, at + 8)),
{
    let b = [
        buf[at],
        buf[at + 1],
        buf[at + 2],
        buf[at + 3],
        buf[at + 4],
        buf[at + 5],
        buf[at + 6],
        buf[at + 7],
    ];
    assert(b@.subrange(0, 8) =~= buf@.subrange(at as int, at + 8).subrange(0, 8));
    u64_from_ne_bytes(b)
}

} // verus!
