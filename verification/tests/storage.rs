use memmap2::MmapMut;
use ur_io::entry::LogEntry;
use ur_io::frame::scan_log;
use ur_io::storage::{MmappedLogStorage, StorageError};

fn region(n: usize) -> MmapMut {
    MmapMut::map_anon(n).expect("anonymous map")
}

#[test]
fn new_storage_starts_empty() {
    let s = MmappedLogStorage::from_region(region(32));
    assert_eq!(s.bytes_written(), 0);
    assert_eq!(s.contents(), &[0u8; 32][..]);
}

#[test]
fn write_entry_lays_out_frame() {
    let mut s = MmappedLogStorage::from_region(region(40));
    let payload = b"hello";
    s.write_entry(LogEntry::at_time(payload, 0x0102_0304_0506_0708)).unwrap();
    assert_eq!(s.bytes_written(), 17);
    let c = s.contents();
    assert_eq!(&c[0..8], &0x0102_0304_0506_0708u64.to_ne_bytes());
    assert_eq!(&c[8..12], &5u32.to_ne_bytes());
    assert_eq!(&c[12..17], b"hello");
    assert!(c[17..].iter().all(|b| *b == 0));
}

#[test]
fn second_entry_follows_first() {
    let mut s = MmappedLogStorage::from_region(region(64));
    s.write_entry(LogEntry::at_time(b"ab", 1)).unwrap();
    s.write_entry(LogEntry::at_time(b"cde", 2)).unwrap();
    assert_eq!(s.bytes_written(), 14 + 15);
    let c = s.contents();
    assert_eq!(&c[14..22], &2u64.to_ne_bytes());
    assert_eq!(&c[22..26], &3u32.to_ne_bytes());
    assert_eq!(&c[26..29], b"cde");
}

#[test]
fn frame_that_fills_region_exactly_fits() {
    let mut s = MmappedLogStorage::from_region(region(16));
    assert_eq!(s.write_entry(LogEntry::at_time(b"wxyz", 9)), Ok(()));
    assert_eq!(s.bytes_written(), 16);
}

#[test]
fn full_log_is_refused_and_changes_nothing() {
    let mut s = MmappedLogStorage::from_region(region(20));
    s.write_entry(LogEntry::at_time(b"abc", 1)).unwrap();
    let before = s.contents().to_vec();
    assert_eq!(s.write_entry(LogEntry::at_time(b"defgh", 2)), Err(StorageError::LogFull));
    assert_eq!(s.bytes_written(), 15);
    assert_eq!(s.contents(), &before[..]);
    // A 12-byte frame is still too big for the 5 bytes left.
    assert_eq!(s.write_entry(LogEntry::at_time(b"", 3)), Err(StorageError::LogFull));
    assert_eq!(s.bytes_written(), 15);
}

#[test]
fn refused_write_leaves_room_for_smaller_one() {
    let mut s = MmappedLogStorage::from_region(region(16));
    assert_eq!(s.write_entry(LogEntry::at_time(b"hello", 1)), Err(StorageError::LogFull));
    assert_eq!(s.bytes_written(), 0);
    assert_eq!(s.write_entry(LogEntry::at_time(b"ab", 2)), Ok(()));
    assert_eq!(&s.contents()[12..14], b"ab");
    assert_eq!(s.bytes_written(), 14);
}

#[test]
fn written_log_reads_back() {
    let mut s = MmappedLogStorage::from_region(region(1024));
    let msgs: [&[u8]; 3] = [b"log message 1\n", b"log message 2\n", b"x"];
    for (i, m) in msgs.iter().enumerate() {
        s.write_entry(LogEntry::at_time(m, 100 + i as u128)).unwrap();
    }
    let scan = scan_log(s.contents());
    assert_eq!(scan.bytes_read, s.bytes_written());
    assert_eq!(scan.frames.len(), 3);
    for (i, f) in scan.frames.iter().enumerate() {
        assert_eq!(f.timestamp, 100 + i as u64);
        assert_eq!(&s.contents()[f.start..f.start + f.len], msgs[i]);
    }
}

#[test]
fn empty_payload_frame_ends_the_readable_log() {
    let mut s = MmappedLogStorage::from_region(region(128));
    s.write_entry(LogEntry::at_time(b"first", 1)).unwrap();
    s.write_entry(LogEntry::at_time(b"", 2)).unwrap();
    s.write_entry(LogEntry::at_time(b"third", 3)).unwrap();
    let scan = scan_log(s.contents());
    assert_eq!(scan.frames.len(), 1);
    assert_eq!(scan.bytes_read, 17);
}
