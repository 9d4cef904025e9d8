use ur_io::frame::{scan_log, ScannedFrame, FRAME_HEADER_LEN};
use ur_io::byte_order::{read_u32_ne, read_u64_ne};

fn frame(ts: u64, payload: &[u8]) -> Vec<u8> {
    let mut v = Vec::new();
    v.extend_from_slice(&ts.to_ne_bytes());
    v.extend_from_slice(&(payload.len() as u32).to_ne_bytes());
    v.extend_from_slice(payload);
    v
}

#[test]
fn reads_machine_order_at_offset() {
    let mut buf = vec![9u8];
    buf.extend_from_slice(&0x1234_5678u32.to_ne_bytes());
    buf.extend_from_slice(&0x8000_0000_0000_0001u64.to_ne_bytes());
    assert_eq!(read_u32_ne(&buf, 1), 0x1234_5678);
    assert_eq!(read_u64_ne(&buf, 5), 0x8000_0000_0000_0001);
    assert_eq!(read_u32_ne(&[0, 0, 0, 0], 0), 0);
    assert_eq!(read_u32_ne(&[0xff; 4], 0), u32::MAX);
}

#[test]
fn header_len_is_twelve() {
    assert_eq!(FRAME_HEADER_LEN, 12);
}

#[test]
fn scan_reads_frames_until_zero_length() {
    let mut buf = frame(1_700_000_000_000, b"log message 1\n");
    buf.extend(frame(1_700_000_000_001, b"log message 2\n"));
    let used = buf.len();
    buf.extend(vec![0u8; 64]);
    let scan = scan_log(&buf);
    assert_eq!(scan.bytes_read, used);
    assert_eq!(
        scan.frames,
        vec![
            ScannedFrame { timestamp: 1_700_000_000_000, start: 12, len: 14 },
            ScannedFrame { timestamp: 1_700_000_000_001, start: 38, len: 14 },
        ]
    );
    let f = scan.frames[1];
    assert_eq!(&buf[f.start..f.start + f.len], b"log message 2\n");
}

#[test]
fn scan_stops_at_truncated_frame() {
    let mut buf = frame(7, b"abc");
    let mut cut = frame(8, b"defgh");
    cut.truncate(15);
    buf.extend(cut);
    let scan = scan_log(&buf);
    assert_eq!(scan.frames, vec![ScannedFrame { timestamp: 7, start: 12, len: 3 }]);
    assert_eq!(scan.bytes_read, 15);
}

#[test]
fn scan_stops_when_header_does_not_fit() {
    let mut buf = frame(7, b"abc");
    buf.extend_from_slice(&[1, 2, 3, 4, 5, 6, 7, 8, 9, 10, 11]);
    let scan = scan_log(&buf);
    assert_eq!(scan.frames.len(), 1);
    assert_eq!(scan.bytes_read, 15);
}

#[test]
fn scan_of_empty_and_zero_regions() {
    assert_eq!(scan_log(&[]).frames.len(), 0);
    assert_eq!(scan_log(&[]).bytes_read, 0);
    let z = vec![0u8; 100];
    let scan = scan_log(&z);
    assert!(scan.frames.is_empty());
    assert_eq!(scan.bytes_read, 0);
}

#[test]
fn scan_stops_at_zero_length_frame_even_with_data_after() {
    let mut buf = frame(3, b"");
    buf.extend(frame(4, b"later"));
    let scan = scan_log(&buf);
    assert!(scan.frames.is_empty());
    assert_eq!(scan.bytes_read, 0);
}
