//! The memory-mapped region that a log is written into: `memmap2::MmapMut`,
//! seen through what it holds.

use vstd::prelude::*;

verus! {

/// `memmap2::MmapMut`, carried as an opaque value.
#[verifier::external_type_specification]
#[verifier::external_body]
pub struct ExMmapMut(memmap2::MmapMut);

/// The bytes that a mapped region holds. The contracts here read a mapping as
/// this process's own: no other process writes to or truncates the file that
/// is mapped while the log uses it.
pub uninterp spec fn region_contents(m: memmap2::MmapMut) -> Seq<u8>;

/// `bytes` with `data` written over it from position `at` on.
pub open spec fn splice(bytes: Seq<u8>, at: int, data: Seq<u8>) -> Seq<u8> {
    bytes.subrange(0, at) + data + bytes.subrange(at + data.len(), bytes.len() as int)
}

/// The length of the mapped region: `<[u8]>::len` through `MmapMut`'s `Deref`,
/// which is the number of bytes the region holds.
#[verifier::external_body]
pub(crate) fn region_len(m: &memmap2::MmapMut) -> (n: usize)
    ensures
        n == region_contents(*m).len(),
{
    m.len()
}

/// Writes `bytes` into the region at `at`: `<[u8]>::copy_from_slice` on the
/// range `at..at + bytes.len()` through `MmapMut`'s `DerefMut`. The region then
/// holds `bytes` there and is unchanged elsewhere.
#[verifier::external_body]
pub(crate) fn region_write(m: &mut memmap2::MmapMut, at: usize, bytes: &[u8])
    requires
        at + bytes@.len() <= region_contents(*old(m)).len(),
    ensures
        region_contents(*final(m)) == splice(region_contents(*old(m)), at as int, bytes@),
{
    m[at..][..bytes.len()].copy_from_slice(bytes);
}

/// The region's bytes as a slice, through `MmapMut`'s `Deref`.
#[verifier::external_body]
pub(crate) fn region_bytes(m: &memmap2::MmapMut) -> (r: &[u8])
    ensures
        r@ == region_contents(*m),
{
    &m[..]
}

} // verus!
