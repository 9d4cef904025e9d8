//! Reading a packet out of a buffer that a multishot `recvmsg` filled.
//!
//! The kernel writes a 16-byte header (name length, control length, payload
//! length, flags; 32 bits each, in the machine's byte order), then the name
//! field, then the control field, then the payload. The name and control
//! fields take exactly the sizes given in the request's `msghdr`.

use crate::byte_order::u32_of_ne;
use vstd::prelude::*;

verus! {

/// Bytes of the header that precedes a multishot `recvmsg` result.
pub const RECVMSG_HEADER_LEN: usize = 16;

/// Where the payload starts in a result buffer.
pub open spec fn payload_start(name_len: u32, control_len: usize) -> int {
    RECVMSG_HEADER_LEN + name_len + control_len
}

/// The payload length that the kernel wrote in the header.
pub open spec fn header_payload_len(buffer: Seq<u8>) -> int {
    u32_of_ne(buffer.subrange(8, 12)) as int
}

/// The payload of a result buffer: from the payload start on, the length the
/// header gives, cut at the end of the buffer.
pub open spec fn recvmsg_payload(buffer: Seq<u8>, name_len: u32, control_len: usize) -> Seq<u8> {
    let start = payload_start(name_len, control_len);
    let avail = buffer.len() - start;
    let len = if header_payload_len(buffer) < avail {
        header_payload_len(buffer)
    } else {
        avail
    };
    buffer.subrange(start, start + len)
}

/// `io_uring::types::RecvMsgOut::parse`, then `payload_data`, for a request
/// whose `msghdr` has these name and control lengths (the only fields `parse`
/// reads; the pointers are left null). The payload is handed back as an owned
/// copy, because `payload_data` borrows from the parsed value. It fails exactly
/// when the buffer is shorter than the header and the two fields; otherwise
/// the payload is the window after them, as long as the header's payload
/// length (read in the machine's byte order) or the rest of the buffer,
/// whichever is shorter.
#[verifier::external_body]
fn parse_recvmsg_payload(buffer: &[u8], name_len: u32, control_len: usize) -> (r: Option<Vec<u8>>)
    ensures
        r is None <==> buffer@.len() < payload_start(name_len, control_len),
        r matches Some(p) ==> p@ == recvmsg_payload(buffer@, name_len, control_len),
{
    let hdr = libc::msghdr {
        msg_name: std::ptr::null_mut(),
        msg_namelen: name_len,
        msg_iov: std::ptr::null_mut(),
        msg_iovlen: 0,
        msg_control: std::ptr::null_mut(),
        msg_controllen: control_len,
        msg_flags: 0,
    };
    match io_uring::types::RecvMsgOut::parse(buffer, &hdr) {
        Ok(out) => Some(out.payload_data().to_vec()),
        Err(()) => None,
    }
}

/// The payload of a multishot `recvmsg` result buffer, for a request whose
/// `msghdr` has these name and control lengths; `None` when the buffer is too
/// short to hold the header and those fields.
pub fn packet_payload(buffer: &[u8], name_len: u32, control_len: usize) -> (r: Option<Vec<u8>>)
    ensures
        r is None <==> buffer@.len() < payload_start(name_len, control_len),
        r matches Some(p) ==> p@ == recvmsg_payload(buffer@, name_len, control_len),
{
    parse_recvmsg_payload(buffer, name_len, control_len)
}

/// The id of the provided buffer that a completion's flags name: the upper
/// sixteen bits.
pub fn provided_buffer_id(flags: u32) -> (id: usize)
    ensures
        id == (flags >> 16u32) & 0xffff,
        id == flags / 0x10000,
{
    assert((flags >> 16u32) & 0xffff == flags / 0x10000) by (bit_vector);
    ((flags >> 16u32) & 0xffff) as usize
}

} // verus!
