use sp2p::protocol::{encode_string_block, encode_u64_block, ProtocolError};
use sp2p::receiver::{ReceivePhase, ReceiveSession, ReceiveStep};
use sp2p::sender::SendSession;

fn header(s: &mut ReceiveSession, inbox: &str, name: &str, size: u64) {
    assert!(matches!(s.on_block(encode_string_block(inbox)), ReceiveStep::Continue));
    assert!(matches!(s.on_block(encode_string_block(name)), ReceiveStep::Continue));
    assert!(matches!(s.on_block(encode_u64_block(size)), ReceiveStep::OpenDestination));
}

#[test]
fn whole_file_is_received_and_acknowledged() {
    let data = b"Hello World From App 1".to_vec();
    let mut recv = ReceiveSession::new();
    header(&mut recv, "test_inbox", "hello.txt", data.len() as u64);
    assert_eq!(recv.inbox(), "test_inbox");
    assert_eq!(recv.file_name(), "hello.txt");
    assert_eq!(recv.file_size(), 22);
    let offset = recv.on_destination(None);
    assert_eq!(offset, 0);
    assert_eq!(recv.current_phase(), ReceivePhase::Data);

    let mut send = SendSession::new(data.len() as u64, offset);
    let n = send.next_read_len(10);
    assert_eq!(n, 10);
    assert_eq!(send.on_chunk(&data[..10]), 10);
    let rest = send.next_read_len(4 * 1024 * 1024);
    assert_eq!(rest, 12);
    assert_eq!(send.on_chunk(&data[10..]), 22);
    let digest = send.finish().unwrap();
    assert_eq!(digest, *blake3::hash(&data).as_bytes());

    match recv.on_block(data[..10].to_vec()) {
        ReceiveStep::Write { data: d, overflow } => {
            assert_eq!(d, data[..10].to_vec());
            assert!(!overflow);
        }
        _ => panic!("expected a write"),
    }
    assert!(matches!(recv.on_block(data[10..].to_vec()), ReceiveStep::Write { overflow: false, .. }));
    assert_eq!(recv.current_phase(), ReceivePhase::Digest);
    assert!(matches!(recv.on_block(digest.to_vec()), ReceiveStep::Finish { accepted: true }));
    assert_eq!(recv.current_phase(), ReceivePhase::Done);
}

#[test]
fn corrupted_data_is_rejected() {
    let mut recv = ReceiveSession::new();
    header(&mut recv, "i", "f", 3);
    recv.on_destination(None);
    recv.on_block(vec![1, 2, 4]);
    let digest = *blake3::hash(&[1, 2, 3]).as_bytes();
    assert!(matches!(recv.on_block(digest.to_vec()), ReceiveStep::Finish { accepted: false }));
}

#[test]
fn partial_file_is_resumed() {
    let file: Vec<u8> = (0..100u32).map(|i| (i * 7) as u8).collect();
    let mut recv = ReceiveSession::new();
    header(&mut recv, "i", "big.bin", 100);
    assert_eq!(recv.on_destination(Some(40)), 40);
    assert_eq!(recv.current_phase(), ReceivePhase::Existing);
    assert_eq!(recv.existing_left(), 40);
    recv.on_existing(&file[..25]);
    assert_eq!(recv.existing_left(), 15);
    recv.on_existing(&file[25..40]);
    assert_eq!(recv.current_phase(), ReceivePhase::Data);

    let mut send = SendSession::new(100, 40);
    assert_eq!(send.prefix_remaining(), 40);
    assert_eq!(send.remaining(), 60);
    assert_eq!(send.next_read_len(1000), 40);
    send.on_prefix(&file[..40]);
    assert_eq!(send.prefix_remaining(), 0);
    assert_eq!(send.next_read_len(1000), 60);
    assert_eq!(send.on_chunk(&file[40..]), 100);
    assert!(matches!(recv.on_block(file[40..].to_vec()), ReceiveStep::Write { overflow: false, .. }));
    let digest = send.finish().unwrap();
    assert_eq!(digest, *blake3::hash(&file).as_bytes());
    assert!(matches!(recv.on_block(digest.to_vec()), ReceiveStep::Finish { accepted: true }));
}

#[test]
fn stale_prefix_on_disk_is_rejected() {
    let file = vec![5u8; 20];
    let mut stale = file.clone();
    stale[3] = 6;
    let mut recv = ReceiveSession::new();
    header(&mut recv, "i", "f", 20);
    assert_eq!(recv.on_destination(Some(8)), 8);
    recv.on_existing(&stale[..8]);
    let mut send = SendSession::new(20, 8);
    send.on_prefix(&file[..8]);
    send.on_chunk(&file[8..]);
    recv.on_block(file[8..].to_vec());
    let digest = send.finish().unwrap();
    assert!(matches!(recv.on_block(digest.to_vec()), ReceiveStep::Finish { accepted: false }));
}

#[test]
fn block_before_existing_part_is_unexpected() {
    let mut recv = ReceiveSession::new();
    header(&mut recv, "i", "f", 10);
    recv.on_destination(Some(4));
    assert!(matches!(recv.on_block(vec![1]), ReceiveStep::Fail(ProtocolError::UnexpectedBlock)));
}

#[test]
fn longer_existing_file_starts_over() {
    let mut recv = ReceiveSession::new();
    header(&mut recv, "i", "f", 10);
    assert_eq!(recv.on_destination(Some(11)), 0);
}

#[test]
fn complete_existing_file_goes_straight_to_hash() {
    let file = vec![3u8; 10];
    let mut recv = ReceiveSession::new();
    header(&mut recv, "i", "f", 10);
    assert_eq!(recv.on_destination(Some(10)), 10);
    recv.on_existing(&file);
    assert_eq!(recv.current_phase(), ReceivePhase::Digest);
    let mut send = SendSession::new(10, 10);
    send.on_prefix(&file);
    assert_eq!(send.remaining(), 0);
    let digest = send.finish().unwrap();
    assert_eq!(digest, *blake3::hash(&file).as_bytes());
    assert!(matches!(recv.on_block(digest.to_vec()), ReceiveStep::Finish { accepted: true }));
}

#[test]
fn too_much_data_is_refused() {
    let mut recv = ReceiveSession::new();
    header(&mut recv, "i", "f", 2);
    recv.on_destination(None);
    assert!(matches!(recv.on_block(vec![1, 2, 3]), ReceiveStep::Write { overflow: true, .. }));
    assert_eq!(recv.current_phase(), ReceivePhase::Failed);
}

#[test]
fn traversal_and_bad_blocks_fail() {
    let mut recv = ReceiveSession::new();
    recv.on_block(encode_string_block("inbox"));
    assert!(matches!(recv.on_block(encode_string_block("../../evil")), ReceiveStep::Fail(ProtocolError::PathTraversal)));

    let mut recv = ReceiveSession::new();
    assert!(matches!(recv.on_block(encode_string_block("..")), ReceiveStep::Fail(ProtocolError::PathTraversal)));

    let mut recv = ReceiveSession::new();
    recv.on_block(encode_string_block("inbox"));
    assert!(matches!(recv.on_block(encode_string_block("/abs/path")), ReceiveStep::Fail(ProtocolError::PathTraversal)));

    let mut recv = ReceiveSession::new();
    assert!(matches!(recv.on_block(vec![0, 0]), ReceiveStep::Fail(ProtocolError::StringBlockTooShort)));

    let mut recv = ReceiveSession::new();
    recv.on_block(encode_string_block("inbox"));
    recv.on_block(encode_string_block("f"));
    assert!(matches!(recv.on_block(vec![0; 7]), ReceiveStep::Fail(ProtocolError::InvalidFileSizeBlock)));
    assert!(matches!(recv.on_block(vec![0; 8]), ReceiveStep::Fail(ProtocolError::UnexpectedBlock)));
}

#[test]
fn sender_reports_a_shrunk_file() {
    let mut send = SendSession::new(10, 0);
    send.on_chunk(&[0; 4]);
    assert_eq!(send.finish(), Err(ProtocolError::FileShrank));
    let mut send = SendSession::new(10, 6);
    send.on_prefix(&[0; 5]);
    assert_eq!(send.finish(), Err(ProtocolError::FileShrank));
    assert_eq!(ProtocolError::FileShrank.message(), "File shrank during transfer");
}
