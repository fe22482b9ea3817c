use vstd::prelude::*;
use vstd::utf8::{decode_utf8, encode_utf8, valid_utf8};

use crate::strings::string_from_utf8;

verus! {

broadcast use {vstd::utf8::encode_utf8_valid_utf8, vstd::utf8::encode_utf8_decode_utf8};

/// Longest inbox or file name, in bytes, that a receiver takes.
pub const MAX_NAME_LEN: usize = 1024;

/// Largest message that one Noise frame carries.
pub const MAX_FRAME_LEN: usize = 65535;

/// Why a block of the transfer protocol was refused.
#[derive(PartialEq, Eq, Structural, Clone, Copy, Debug)]
pub enum ProtocolError {
    /// A string block shorter than its length prefix.
    StringBlockTooShort,
    /// A string block whose length is over the limit or past its end.
    InvalidStringLength,
    /// A string block whose bytes are not UTF-8.
    InvalidUtf8,
    /// A file name that could climb out of the inbox.
    PathTraversal,
    /// A file size block that is not 8 bytes long.
    InvalidFileSizeBlock,
    /// A resume offset block that is not 8 bytes long.
    InvalidOffsetBlock,
    /// A resume offset past the end of the file.
    InvalidResumeOffset,
    /// More file data than announced.
    TooManyBytes,
    /// The file ended before all of it was sent.
    FileShrank,
    /// The receiver did not acknowledge the file.
    Rejected,
    /// A block that came when none was expected.
    UnexpectedBlock,
}

impl ProtocolError {
    pub open spec fn spec_message(self) -> Seq<char> {
        match self {
            ProtocolError::StringBlockTooShort => "String block too short"@,
            ProtocolError::InvalidStringLength => "String too long or invalid length"@,
            ProtocolError::InvalidUtf8 => "String is not valid UTF-8"@,
            ProtocolError::PathTraversal => "Invalid file path (path traversal attempt)"@,
            ProtocolError::InvalidFileSizeBlock => "Invalid file size block length"@,
            ProtocolError::InvalidOffsetBlock => "Invalid offset length from server"@,
            ProtocolError::InvalidResumeOffset => "Server provided invalid resume offset"@,
            ProtocolError::TooManyBytes => "Received more bytes than expected"@,
            ProtocolError::FileShrank => "File shrank during transfer"@,
            ProtocolError::Rejected => "File transfer rejected by server (hash mismatch?)"@,
            ProtocolError::UnexpectedBlock => "Unexpected block"@,
        }
    }

    /// The text that the error is reported with.
    pub fn message(&self) -> (res: &'static str)
        ensures
            res@ == self.spec_message(),
    {
        match self {
            ProtocolError::StringBlockTooShort => "String block too short",
            ProtocolError::InvalidStringLength => "String too long or invalid length",
            ProtocolError::InvalidUtf8 => "String is not valid UTF-8",
            ProtocolError::PathTraversal => "Invalid file path (path traversal attempt)",
            ProtocolError::InvalidFileSizeBlock => "Invalid file size block length",
            ProtocolError::InvalidOffsetBlock => "Invalid offset length from server",
            ProtocolError::InvalidResumeOffset => "Server provided invalid resume offset",
            ProtocolError::TooManyBytes => "Received more bytes than expected",
            ProtocolError::FileShrank => "File shrank during transfer",
            ProtocolError::Rejected => "File transfer rejected by server (hash mismatch?)",
            ProtocolError::UnexpectedBlock => "Unexpected block",
        }
    }
}

// ---------------------------------------------------------------------------
// Big-endian integers

/// The four bytes of `x`, most significant first.
pub open spec fn be32_bytes(x: u32) -> Seq<u8> {
    seq![(x >> 24u32) as u8, (x >> 16u32) as u8, (x >> 8u32) as u8, x as u8]
}

/// The number whose big-endian bytes are the first four of `b`.
pub open spec fn be32_value(b: Seq<u8>) -> u32
    recommends
        b.len() >= 4,
{
    ((b[0] as u32) << 24u32) | ((b[1] as u32) << 16u32) | ((b[2] as u32) << 8u32) | (b[3] as u32)
}

/// The eight bytes of `x`, most significant first.
pub open spec fn be64_bytes(x: u64) -> Seq<u8> {
    seq![
        (x >> 56u64) as u8, (x >> 48u64) as u8, (x >> 40u64) as u8, (x >> 32u64) as u8,
        (x >> 24u64) as u8, (x >> 16u64) as u8, (x >> 8u64) as u8, x as u8,
    ]
}

/// The number whose big-endian bytes are the first eight of `b`.
pub open spec fn be64_value(b: Seq<u8>) -> u64
    recommends
        b.len() >= 8,
{
    ((b[0] as u64) << 56u64) | ((b[1] as u64) << 48u64) | ((b[2] as u64) << 40u64)
        | ((b[3] as u64) << 32u64) | ((b[4] as u64) << 24u64) | ((b[5] as u64) << 16u64)
        | ((b[6] as u64) << 8u64) | (b[7] as u64)
}

/// Reading back the bytes of a 32-bit number gives the number.
pub proof fn lemma_be32_roundtrip(x: u32)
    ensures
        be32_value(be32_bytes(x)) == x,
{
    let b = be32_bytes(x);
    let (b0, b1, b2, b3) = (b[0], b[1], b[2], b[3]);
    assert(b0 == (x >> 24u32) as u8 && b1 == (x >> 16u32) as u8 && b2 == (x >> 8u32) as u8 && b3 == x as u8);
    assert(b0 == (x >> 24u32) as u8 && b1 == (x >> 16u32) as u8 && b2 == (x >> 8u32) as u8 && b3 == x as u8
        ==> ((b0 as u32) << 24u32) | ((b1 as u32) << 16u32) | ((b2 as u32) << 8u32) | (b3 as u32) == x)
        by (bit_vector);
}

/// Reading back the bytes of a 64-bit number gives the number.
pub proof fn lemma_be64_roundtrip(x: u64)
    ensures
        be64_value(be64_bytes(x)) == x,
{
    let b = be64_bytes(x);
    let (b0, b1, b2, b3, b4, b5, b6, b7) = (b[0], b[1], b[2], b[3], b[4], b[5], b[6], b[7]);
    assert(b0 == (x >> 56u64) as u8 && b1 == (x >> 48u64) as u8 && b2 == (x >> 40u64) as u8
        && b3 == (x >> 32u64) as u8 && b4 == (x >> 24u64) as u8 && b5 == (x >> 16u64) as u8
        && b6 == (x >> 8u64) as u8 && b7 == x as u8);
    assert(b0 == (x >> 56u64) as u8 && b1 == (x >> 48u64) as u8 && b2 == (x >> 40u64) as u8
        && b3 == (x >> 32u64) as u8 && b4 == (x >> 24u64) as u8 && b5 == (x >> 16u64) as u8
        && b6 == (x >> 8u64) as u8 && b7 == x as u8
        ==> ((b0 as u64) << 56u64) | ((b1 as u64) << 48u64) | ((b2 as u64) << 40u64)
        | ((b3 as u64) << 32u64) | ((b4 as u64) << 24u64) | ((b5 as u64) << 16u64)
        | ((b6 as u64) << 8u64) | (b7 as u64) == x) by (bit_vector);
}

fn push_be32(out: &mut Vec<u8>, x: u32)
    ensures
        final(out)@ == old(out)@ + be32_bytes(x),
{
    out.push((x >> 24u32) as u8);
    out.push((x >> 16u32) as u8);
    out.push((x >> 8u32) as u8);
    out.push(x as u8);
    assert(final(out)@ =~= old(out)@ + be32_bytes(x));
}

/// The big-endian bytes of `x`, as the transfer protocol carries file sizes and offsets.
pub fn encode_u64_block(x: u64) -> (res: Vec<u8>)
    ensures
        res@ == be64_bytes(x),
{
    let mut out: Vec<u8> = Vec::new();
    out.push((x >> 56u64) as u8);
    out.push((x >> 48u64) as u8);
    out.push((x >> 40u64) as u8);
    out.push((x >> 32u64) as u8);
    out.push((x >> 24u64) as u8);
    out.push((x >> 16u64) as u8);
    out.push((x >> 8u64) as u8);
    out.push(x as u8);
    assert(out@ =~= be64_bytes(x));
    out
}

/// The number that an 8-byte block carries; `None` for a block of another length.
pub fn parse_u64_block(block: &[u8]) -> (res: Option<u64>)
    ensures
        res == (if block@.len() == 8 { Some(be64_value(block@)) } else { None::<u64> }),
{
    if block.len() != 8 {
        return None;
    }
    let v: u64 = ((block[0] as u64) << 56u64) | ((block[1] as u64) << 48u64) | ((block[2] as u64) << 40u64)
        | ((block[3] as u64) << 32u64) | ((block[4] as u64) << 24u64) | ((block[5] as u64) << 16u64)
        | ((block[6] as u64) << 8u64) | (block[7] as u64);
    Some(v)
}

// ---------------------------------------------------------------------------
// String blocks

/// A string as the sender puts it in one block: its length in bytes
/// (as 32 bits, big-endian) and then its UTF-8 bytes.
pub open spec fn string_block(s: Seq<char>) -> Seq<u8> {
    be32_bytes(encode_utf8(s).len() as u32) + encode_utf8(s)
}

/// What a receiver makes of a string block.
pub open spec fn parse_string_block_spec(b: Seq<u8>) -> Result<Seq<char>, ProtocolError> {
    if b.len() < 4 {
        Err(ProtocolError::StringBlockTooShort)
    } else {
        let n = be32_value(b) as int;
        if n > MAX_NAME_LEN || n > b.len() - 4 {
            Err(ProtocolError::InvalidStringLength)
        } else if !valid_utf8(b.subrange(4, 4 + n)) {
            Err(ProtocolError::InvalidUtf8)
        } else {
            Ok(decode_utf8(b.subrange(4, 4 + n)))
        }
    }
}

/// The block that carries `s`.
pub fn encode_string_block(s: &str) -> (res: Vec<u8>)
    ensures
        res@ == string_block(s@),
{
    let bytes = s.as_bytes();
    let mut out: Vec<u8> = Vec::new();
    push_be32(&mut out, bytes.len() as u32);
    let ghost head = out@;
    let mut i: usize = 0;
    while i < bytes.len()
        invariant
            i <= bytes@.len(),
            out@ == head + bytes@.subrange(0, i as int),
        decreases bytes@.len() - i,
    {
        out.push(bytes[i]);
        assert(bytes@.subrange(0, i + 1) =~= bytes@.subrange(0, i as int).push(bytes@[i as int]));
        i = i + 1;
    }
    assert(bytes@.subrange(0, bytes@.len() as int) =~= bytes@);
    out
}

/// Reads a string block: a length prefix of at most `MAX_NAME_LEN` that fits in
/// the block, then that many bytes of UTF-8. Bytes past the string are ignored.
pub fn parse_string_block(block: &[u8]) -> (res: Result<String, ProtocolError>)
    ensures
        match res {
            Ok(s) => parse_string_block_spec(block@) == Ok::<Seq<char>, ProtocolError>(s@),
            Err(e) => parse_string_block_spec(block@) == Err::<Seq<char>, ProtocolError>(e),
        },
{
    if block.len() < 4 {
        return Err(ProtocolError::StringBlockTooShort);
    }
    let n: u32 = ((block[0] as u32) << 24u32) | ((block[1] as u32) << 16u32) | ((block[2] as u32) << 8u32)
        | (block[3] as u32);
    let len = n as usize;
    if len > MAX_NAME_LEN || len > block.len() - 4 {
        return Err(ProtocolError::InvalidStringLength);
    }
    let total = block.len();
    let mut bytes: Vec<u8> = Vec::new();
    let mut i: usize = 0;
    while i < len
        invariant
            i <= len,
            total == block@.len(),
            block@.len() >= 4,
            len <= block@.len() - 4,
            bytes@ == block@.subrange(4, 4 + i),
        decreases len - i,
    {
        bytes.push(block[4 + i]);
        assert(block@.subrange(4, 4 + i + 1) =~= block@.subrange(4, 4 + i).push(block@[4 + i]));
        i = i + 1;
    }
    match string_from_utf8(bytes) {
        Some(s) => Ok(s),
        None => Err(ProtocolError::InvalidUtf8),
    }
}

/// A name of at most `MAX_NAME_LEN` bytes comes back out of its block unchanged.
pub proof fn lemma_string_block_roundtrip(s: Seq<char>)
    requires
        encode_utf8(s).len() <= MAX_NAME_LEN,
    ensures
        parse_string_block_spec(string_block(s)) == Ok::<Seq<char>, ProtocolError>(s),
{
    let bytes = encode_utf8(s);
    let n = bytes.len() as u32;
    let b = string_block(s);
    lemma_be32_roundtrip(n);
    assert(b.subrange(0, 4) =~= be32_bytes(n));
    assert(be32_value(b) == be32_value(be32_bytes(n)));
    assert(b.subrange(4, 4 + bytes.len() as int) =~= bytes);
}

/// A number comes back out of its block unchanged.
pub proof fn lemma_u64_block_roundtrip(x: u64)
    ensures
        be64_bytes(x).len() == 8,
        be64_value(be64_bytes(x)) == x,
{
    lemma_be64_roundtrip(x);
}

/// The offset a receiver answers with, never past the file, is one the sender
/// takes: its block is 8 bytes and reads back as the same offset within the file.
pub proof fn lemma_resume_offset_accepted(offset: u64, file_size: u64)
    requires
        offset <= file_size,
    ensures
        be64_bytes(offset).len() == 8,
        be64_value(be64_bytes(offset)) == offset,
        be64_value(be64_bytes(offset)) <= file_size,
{
    lemma_be64_roundtrip(offset);
}

// ---------------------------------------------------------------------------
// File names

/// `b` holds two dots in a row.
pub open spec fn has_dot_dot(b: Seq<u8>) -> bool {
    exists|i: int| 0 <= i < b.len() - 1 && #[trigger] b[i] == 0x2eu8 && b[i + 1] == 0x2eu8
}

/// `/` or `\`, the bytes that separate folders in a path.
pub open spec fn is_separator(c: u8) -> bool {
    c == 0x2fu8 || c == 0x5cu8
}

/// `b` starts at a root: a leading `/` or `\`, or a drive such as `C:`.
pub open spec fn starts_at_root(b: Seq<u8>) -> bool {
    ||| (b.len() > 0 && is_separator(b[0]))
    ||| (b.len() > 1 && b[1] == 0x3au8)
}

/// A file path that stays inside the inbox folder: no `..` anywhere, and it does
/// not start at a root.
pub open spec fn safe_file_path(b: Seq<u8>) -> bool {
    &&& !has_dot_dot(b)
    &&& !starts_at_root(b)
}

/// An inbox name that names one folder directly inside the inbox root: not empty,
/// not `.`, no `..`, no separator, and not a drive.
pub open spec fn safe_inbox_name(b: Seq<u8>) -> bool {
    &&& b.len() > 0
    &&& b != seq![0x2eu8]
    &&& !has_dot_dot(b)
    &&& !starts_at_root(b)
    &&& forall|i: int| 0 <= i < b.len() ==> !is_separator(#[trigger] b[i])
}

fn has_dot_dot_bytes(b: &[u8]) -> (res: bool)
    ensures
        res == has_dot_dot(b@),
{
    if b.len() < 2 {
        return false;
    }
    let mut i: usize = 0;
    while i < b.len() - 1
        invariant
            b@.len() >= 2,
            i <= b@.len() - 1,
            forall|k: int| 0 <= k < i && k < b@.len() - 1 ==> !(#[trigger] b@[k] == 0x2eu8 && b@[k + 1] == 0x2eu8),
        decreases b@.len() - i,
    {
        if b[i] == 0x2eu8 && b[i + 1] == 0x2eu8 {
            return true;
        }
        i = i + 1;
    }
    false
}

fn starts_at_root_bytes(b: &[u8]) -> (res: bool)
    ensures
        res == starts_at_root(b@),
{
    (b.len() > 0 && (b[0] == 0x2fu8 || b[0] == 0x5cu8)) || (b.len() > 1 && b[1] == 0x3au8)
}

/// The bytes of a path hold no two dots in a row, it does not begin with `/` or
/// `\`, and its second byte is not `:`. Any other byte, spaces and dots among
/// them, may stand anywhere.
pub open spec fn path_stays_inside(b: Seq<u8>) -> bool {
    &&& forall|i: int| 0 <= i && i + 1 < b.len() ==> !(b[i] == 0x2eu8 && #[trigger] b[i + 1] == 0x2eu8)
    &&& (b.len() > 0 ==> b[0] != 0x2fu8 && b[0] != 0x5cu8)
    &&& (b.len() > 1 ==> b[1] != 0x3au8)
}

/// A file path is refused only to keep the file inside the inbox: it is taken
/// exactly when it holds no `..`, does not start at a root and names no drive.
pub proof fn lemma_file_path_check_is_exact(b: Seq<u8>)
    ensures
        safe_file_path(b) <==> path_stays_inside(b),
        safe_file_path(b) <==> {
            &&& forall|i: int| 0 <= i && i + 1 < b.len() ==> !(b[i] == 0x2eu8 && #[trigger] b[i + 1] == 0x2eu8)
            &&& (b.len() > 0 ==> b[0] != 0x2fu8 && b[0] != 0x5cu8)
            &&& (b.len() > 1 ==> b[1] != 0x3au8)
        },
{
    if has_dot_dot(b) {
        let i = choose|i: int| 0 <= i < b.len() - 1 && #[trigger] b[i] == 0x2eu8 && b[i + 1] == 0x2eu8;
        assert(!(b[i] == 0x2eu8 && b[i + 1] == 0x2eu8) ==> false);
    }
    if !path_stays_inside(b) && !starts_at_root(b) {
        let i = choose|i: int| 0 <= i && i + 1 < b.len() && (b[i] == 0x2eu8 && #[trigger] b[i + 1] == 0x2eu8);
        assert(b[i] == 0x2eu8 && b[i + 1] == 0x2eu8);
        assert(has_dot_dot(b));
    }
}

/// A file path that the receiver writes: see `safe_file_path`.
pub fn is_safe_file_name(name: &str) -> (res: bool)
    ensures
        res == safe_file_path(encode_utf8(name@)),
        res == path_stays_inside(encode_utf8(name@)),
{
    let b = name.as_bytes();
    proof {
        lemma_file_path_check_is_exact(b@);
    }
    !has_dot_dot_bytes(b) && !starts_at_root_bytes(b)
}

/// An inbox name that the receiver files into: see `safe_inbox_name`.
pub fn is_safe_inbox_name(name: &str) -> (res: bool)
    ensures
        res == safe_inbox_name(encode_utf8(name@)),
{
    let b = name.as_bytes();
    if b.len() == 0 || (b.len() == 1 && b[0] == 0x2eu8) {
        assert(b.len() == 1 ==> b@ =~= seq![0x2eu8]);
        return false;
    }
    assert(b@ != seq![0x2eu8]) by {
        if b@ == seq![0x2eu8] {
            assert(b@[0] == 0x2eu8);
        }
    }
    if has_dot_dot_bytes(b) || starts_at_root_bytes(b) {
        return false;
    }
    let mut i: usize = 0;
    while i < b.len()
        invariant
            i <= b@.len(),
            b@ == encode_utf8(name@),
            b@.len() > 0,
            b@ != seq![0x2eu8],
            !has_dot_dot(b@),
            !starts_at_root(b@),
            forall|k: int| 0 <= k < i ==> !is_separator(#[trigger] b@[k]),
        decreases b@.len() - i,
    {
        if b[i] == 0x2fu8 || b[i] == 0x5cu8 {
            return false;
        }
        i = i + 1;
    }
    true
}

// ---------------------------------------------------------------------------
// Acknowledgement

/// The block a receiver answers a complete, intact file with.
pub open spec fn ack_accepted() -> Seq<u8> {
    seq![1u8]
}

/// The block a receiver answers a corrupted file with.
pub open spec fn ack_rejected() -> Seq<u8> {
    seq![0u8]
}

/// The acknowledgement block for `accepted`.
pub fn ack_block(accepted: bool) -> (res: Vec<u8>)
    ensures
        res@ == (if accepted { ack_accepted() } else { ack_rejected() }),
{
    let mut v: Vec<u8> = Vec::new();
    if accepted {
        v.push(1u8);
    } else {
        v.push(0u8);
    }
    assert(v@ =~= (if accepted { ack_accepted() } else { ack_rejected() }));
    v
}

/// Whether the receiver's answer accepts the file: exactly the one byte `1`.
pub fn is_accepted(block: &[u8]) -> (res: bool)
    ensures
        res == (block@ == ack_accepted()),
{
    let r = block.len() == 1 && block[0] == 1u8;
    assert(r ==> block@ =~= ack_accepted());
    r
}

/// The resume offset in the receiver's answer, checked against the size of the file.
pub fn parse_resume_offset(block: &[u8], file_size: u64) -> (res: Result<u64, ProtocolError>)
    ensures
        block@.len() != 8 ==> res == Err::<u64, ProtocolError>(ProtocolError::InvalidOffsetBlock),
        block@.len() == 8 && be64_value(block@) > file_size ==> res == Err::<u64, ProtocolError>(ProtocolError::InvalidResumeOffset),
        block@.len() == 8 && be64_value(block@) <= file_size ==> res == Ok::<u64, ProtocolError>(be64_value(block@)),
{
    match parse_u64_block(block) {
        None => Err(ProtocolError::InvalidOffsetBlock),
        Some(offset) => {
            if offset > file_size {
                Err(ProtocolError::InvalidResumeOffset)
            } else {
                Ok(offset)
            }
        },
    }
}

// ---------------------------------------------------------------------------
// Frames on the wire

/// A message on the wire: its length as 16 bits, big-endian, then the message.
pub open spec fn frame(msg: Seq<u8>) -> Seq<u8> {
    seq![(msg.len() / 256) as u8, (msg.len() % 256) as u8] + msg
}

/// The frame that carries `msg`.
pub fn encode_frame(msg: &[u8]) -> (res: Vec<u8>)
    requires
        msg@.len() <= MAX_FRAME_LEN,
    ensures
        res@ == frame(msg@),
{
    let n = msg.len();
    let mut out: Vec<u8> = Vec::new();
    out.push((n / 256) as u8);
    out.push((n % 256) as u8);
    let ghost head = out@;
    let mut i: usize = 0;
    while i < n
        invariant
            n == msg@.len(),
            i <= n,
            out@ == head + msg@.subrange(0, i as int),
        decreases n - i,
    {
        out.push(msg[i]);
        assert(msg@.subrange(0, i + 1) =~= msg@.subrange(0, i as int).push(msg@[i as int]));
        i = i + 1;
    }
    assert(msg@.subrange(0, n as int) =~= msg@);
    assert(out@ =~= frame(msg@));
    out
}

/// The length of the message that follows a frame header.
pub fn frame_length(header: [u8; 2]) -> (res: usize)
    ensures
        res == header@[0] * 256 + header@[1],
{
    (header[0] as usize) * 256 + (header[1] as usize)
}

} // verus!
