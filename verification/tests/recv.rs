use memmap2::MmapMut;
use ur_io::agent::{CompletionAction, LogAgent, BUF_COUNT, BUF_GROUP_ID, BUF_SIZE};
use ur_io::frame::scan_log;
use ur_io::recvmsg::{packet_payload, provided_buffer_id, RECVMSG_HEADER_LEN};
use ur_io::storage::{MmappedLogStorage, StorageError};

fn recv_out(name: &[u8], control: &[u8], payload: &[u8], payload_len: u32) -> Vec<u8> {
    let mut v = Vec::new();
    v.extend_from_slice(&(name.len() as u32).to_ne_bytes());
    v.extend_from_slice(&(control.len() as u32).to_ne_bytes());
    v.extend_from_slice(&payload_len.to_ne_bytes());
    v.extend_from_slice(&0u32.to_ne_bytes());
    v.extend_from_slice(name);
    v.extend_from_slice(control);
    v.extend_from_slice(payload);
    v
}

#[test]
fn constants_match_pool_layout() {
    assert_eq!(RECVMSG_HEADER_LEN, 16);
    assert_eq!(BUF_SIZE * BUF_COUNT, 1 << 20);
    assert_eq!(BUF_GROUP_ID, 1);
}

#[test]
fn buffer_id_is_upper_half_of_flags() {
    assert_eq!(provided_buffer_id(0x0003_0001), 3);
    assert_eq!(provided_buffer_id(0xffff_ffff), 0xffff);
    assert_eq!(provided_buffer_id(0x0000_ffff), 0);
}

#[test]
fn payload_follows_header() {
    let buf = recv_out(b"", b"", b"log message\n", 12);
    assert_eq!(packet_payload(&buf, 0, 0), Some(b"log message\n".to_vec()));
}

#[test]
fn payload_skips_name_and_control_fields() {
    let buf = recv_out(b"NNNN", b"CC", b"data", 4);
    assert_eq!(packet_payload(&buf, 4, 2), Some(b"data".to_vec()));
}

#[test]
fn payload_cut_at_buffer_end_or_header_length() {
    let buf = recv_out(b"", b"", b"abcdef", 100);
    assert_eq!(packet_payload(&buf, 0, 0), Some(b"abcdef".to_vec()));
    let buf = recv_out(b"", b"", b"abcdef", 2);
    assert_eq!(packet_payload(&buf, 0, 0), Some(b"ab".to_vec()));
}

#[test]
fn short_buffer_has_no_payload() {
    let buf = recv_out(b"", b"", b"", 0);
    assert_eq!(packet_payload(&buf[..15], 0, 0), None);
    assert_eq!(packet_payload(&buf, 1, 0), None);
    assert_eq!(packet_payload(&buf, 0, 0), Some(b"".to_vec()));
}

fn agent(region_len: usize) -> LogAgent {
    let region = MmapMut::map_anon(region_len).unwrap();
    LogAgent::new(MmappedLogStorage::from_region(region), 0, 0)
}

fn pool_with(buf_id: usize, packet: &[u8]) -> Vec<u8> {
    let mut pool = vec![0u8; BUF_SIZE * 4];
    pool[buf_id * BUF_SIZE..buf_id * BUF_SIZE + packet.len()].copy_from_slice(packet);
    pool
}

#[test]
fn failed_receive_is_reported() {
    let mut a = agent(64);
    let pool = vec![0u8; BUF_SIZE];
    assert_eq!(a.on_completion(&pool, -11, 0), CompletionAction::RecvFailed { result: -11 });
    assert_eq!(a.on_completion(&pool, 0, 0), CompletionAction::RecvFailed { result: 0 });
    assert_eq!(a.packets, 0);
    assert_eq!(a.storage.bytes_written(), 0);
}

#[test]
fn packet_in_named_buffer_is_logged() {
    let mut a = agent(256);
    let packet = recv_out(b"", b"", b"log message 1\n", 14);
    let pool = pool_with(2, &packet);
    let act = a.on_completion(&pool, packet.len() as i32, (2 << 16) | 1);
    match act {
        CompletionAction::Logged { packets, bytes_written, .. } => {
            assert_eq!(packets, 1);
            assert_eq!(bytes_written, 12 + 14);
        }
        other => panic!("unexpected {:?}", other),
    }
    let scan = scan_log(a.storage.contents());
    assert_eq!(scan.frames.len(), 1);
    let f = scan.frames[0];
    assert_eq!(&a.storage.contents()[f.start..f.start + f.len], b"log message 1\n");
}

#[test]
fn full_log_stops_the_agent() {
    let mut a = agent(20);
    let packet = recv_out(b"", b"", b"0123456789", 10);
    let pool = pool_with(0, &packet);
    let act = a.on_completion(&pool, packet.len() as i32, 1);
    assert_eq!(act, CompletionAction::StorageFailed(StorageError::LogFull));
    assert_eq!(a.packets, 0);
    assert_eq!(a.storage.bytes_written(), 0);
    assert!(a.storage.contents().iter().all(|b| *b == 0));
}

#[test]
fn log_payload_without_clock_reading_logs_nothing() {
    let mut a = agent(64);
    assert_eq!(a.log_payload(b"abc", None), CompletionAction::ClockBeforeEpoch);
    assert_eq!(a.packets, 0);
    assert_eq!(a.storage.bytes_written(), 0);
}

#[test]
fn log_payload_stamps_with_reading() {
    let mut a = agent(64);
    let act = a.log_payload(b"abc", Some((1u128 << 64) + 42));
    assert_eq!(
        act,
        CompletionAction::Logged { timestamp: 42, packets: 1, bytes_written: 15 }
    );
    assert_eq!(&a.storage.contents()[0..8], &42u64.to_ne_bytes());
    assert_eq!(&a.storage.contents()[12..15], b"abc");
    let act = a.log_payload(&[7u8; 40], Some(43));
    assert_eq!(act, CompletionAction::StorageFailed(StorageError::LogFull));
    assert_eq!(a.packets, 1);
    assert_eq!(a.storage.bytes_written(), 15);
}
