use sp2p::protocol::{
    ack_block, encode_frame, encode_string_block, encode_u64_block, frame_length, is_accepted,
    is_safe_file_name, is_safe_inbox_name, parse_resume_offset, parse_string_block, parse_u64_block, ProtocolError,
};

#[test]
fn string_block_layout() {
    assert_eq!(encode_string_block("ab"), vec![0, 0, 0, 2, b'a', b'b']);
    assert_eq!(encode_string_block(""), vec![0, 0, 0, 0]);
    // length counts bytes, not characters
    assert_eq!(encode_string_block("é"), vec![0, 0, 0, 2, 0xc3, 0xa9]);
}

#[test]
fn string_block_roundtrip() {
    for s in ["test_inbox", "photos/summer/pic.jpg", "", "ünïcödé/名前.txt"] {
        assert_eq!(parse_string_block(&encode_string_block(s)).unwrap(), s);
    }
    let longest = "x".repeat(1024);
    assert_eq!(parse_string_block(&encode_string_block(&longest)).unwrap(), longest);
}

#[test]
fn string_block_errors() {
    assert_eq!(parse_string_block(&[0, 0, 0]), Err(ProtocolError::StringBlockTooShort));
    assert_eq!(parse_string_block(&[0, 0, 0, 5, b'a']), Err(ProtocolError::InvalidStringLength));
    let too_long = "x".repeat(1025);
    assert_eq!(parse_string_block(&encode_string_block(&too_long)), Err(ProtocolError::InvalidStringLength));
    assert_eq!(parse_string_block(&[0, 0, 0, 1, 0xff]), Err(ProtocolError::InvalidUtf8));
    // bytes past the string are ignored
    assert_eq!(parse_string_block(&[0, 0, 0, 1, b'a', b'b']).unwrap(), "a");
}

#[test]
fn u64_block_roundtrip() {
    for x in [0u64, 1, 255, 256, 22, u64::MAX, 0x0102030405060708] {
        let b = encode_u64_block(x);
        assert_eq!(b, x.to_be_bytes().to_vec());
        assert_eq!(parse_u64_block(&b), Some(x));
    }
    assert_eq!(parse_u64_block(&[1, 2, 3]), None);
}

#[test]
fn resume_offset_checks() {
    assert_eq!(parse_resume_offset(&5u64.to_be_bytes(), 10), Ok(5));
    assert_eq!(parse_resume_offset(&10u64.to_be_bytes(), 10), Ok(10));
    assert_eq!(parse_resume_offset(&11u64.to_be_bytes(), 10), Err(ProtocolError::InvalidResumeOffset));
    assert_eq!(parse_resume_offset(&[0, 1], 10), Err(ProtocolError::InvalidOffsetBlock));
    assert_eq!(ProtocolError::InvalidResumeOffset.message(), "Server provided invalid resume offset");
    assert_eq!(ProtocolError::InvalidOffsetBlock.message(), "Invalid offset length from server");
}

#[test]
fn acknowledgement_blocks() {
    assert_eq!(ack_block(true), vec![1]);
    assert_eq!(ack_block(false), vec![0]);
    assert!(is_accepted(&[1]));
    assert!(!is_accepted(&[0]));
    assert!(!is_accepted(&[1, 1]));
    assert!(!is_accepted(&[]));
}

#[test]
fn path_traversal_names_are_refused() {
    assert!(is_safe_file_name("photos/summer/pic.jpg"));
    assert!(is_safe_file_name("a.b.c"));
    assert!(!is_safe_file_name("../etc/passwd"));
    assert!(!is_safe_file_name("a/../../b"));
    assert!(!is_safe_file_name(".."));
    assert!(is_safe_file_name("."));
    assert!(is_safe_file_name(""));
    assert!(!is_safe_file_name("/etc/passwd"));
    assert!(!is_safe_file_name("\\server\\share"));
    assert!(!is_safe_file_name("C:\\Windows\\x.dll"));
    assert!(is_safe_file_name("a\\b.txt"));
    assert!(is_safe_inbox_name("photos"));
    assert!(!is_safe_inbox_name(".."));
    assert!(!is_safe_inbox_name("a/b"));
    assert!(!is_safe_inbox_name("a\\b"));
    assert!(!is_safe_inbox_name("C:"));
    assert!(!is_safe_inbox_name(""));
    assert!(!is_safe_inbox_name("."));
    assert!(is_safe_inbox_name("notes:2024"));
    assert!(is_safe_file_name("report:v2.txt"));
    assert!(!is_safe_file_name("D:relative.txt"));
}

#[test]
fn frames_carry_their_length() {
    assert_eq!(encode_frame(&[7, 8, 9]), vec![0, 3, 7, 8, 9]);
    let big = vec![1u8; 300];
    let f = encode_frame(&big);
    assert_eq!(&f[..2], &[1, 44]);
    assert_eq!(frame_length([f[0], f[1]]), 300);
    assert_eq!(frame_length([0xff, 0xff]), 65535);
}
