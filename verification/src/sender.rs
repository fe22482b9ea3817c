use vstd::prelude::*;

use crate::digest::{blake3_absorbed, blake3_digest, hasher_finalize, hasher_new, hasher_update};
use crate::protocol::ProtocolError;

verus! {

/// The sending side of one file transfer. The closing hash covers the whole
/// file: the part before the resume offset, which the receiver already has, is
/// hashed first without being sent; then the rest is sent and hashed.
pub struct SendSession {
    file_size: u64,
    offset: u64,
    prefix_remaining: u64,
    remaining: u64,
    hasher: blake3::Hasher,
}

impl SendSession {
    pub closed spec fn size(&self) -> u64 {
        self.file_size
    }

    /// Where the data of this connection starts in the file.
    pub closed spec fn start(&self) -> u64 {
        self.offset
    }

    /// The bytes of the file hashed so far: the part before the offset, then the
    /// data sent over this connection.
    pub closed spec fn hashed(&self) -> Seq<u8> {
        blake3_absorbed(self.hasher)
    }

    /// Bytes before the offset still to be hashed.
    pub closed spec fn prefix_left(&self) -> u64 {
        self.prefix_remaining
    }

    /// Bytes of the file still to send.
    pub closed spec fn left(&self) -> u64 {
        self.remaining
    }

    /// The invariant: the part before the offset is hashed before anything is
    /// sent, and what was hashed and what is left make up the file.
    pub closed spec fn wf(&self) -> bool {
        &&& self.offset <= self.file_size
        &&& self.prefix_remaining <= self.offset
        &&& self.remaining <= self.file_size - self.offset
        &&& self.prefix_remaining > 0 ==> self.remaining == self.file_size - self.offset
        &&& self.hashed().len() + self.prefix_remaining + self.remaining == self.file_size
    }

    /// A session that has hashed its prefix and sent everything has hashed the
    /// whole file.
    pub proof fn lemma_finished_covers_file(&self)
        requires
            self.wf(),
            self.prefix_left() == 0,
            self.left() == 0,
        ensures
            self.hashed().len() == self.size(),
    {
    }

    /// A transfer of a file of `file_size` bytes that the receiver resumes at `offset`.
    pub fn new(file_size: u64, offset: u64) -> (res: SendSession)
        requires
            offset <= file_size,
        ensures
            res.wf(),
            res.size() == file_size,
            res.start() == offset,
            res.hashed() == Seq::<u8>::empty(),
            res.prefix_left() == offset,
            res.left() == file_size - offset,
    {
        SendSession {
            file_size,
            offset,
            prefix_remaining: offset,
            remaining: file_size - offset,
            hasher: hasher_new(),
        }
    }

    /// Bytes before the offset still to be hashed.
    pub fn prefix_remaining(&self) -> (res: u64)
        ensures
            res == self.prefix_left(),
    {
        self.prefix_remaining
    }

    /// Bytes of the file still to send.
    pub fn remaining(&self) -> (res: u64)
        ensures
            res == self.left(),
    {
        self.remaining
    }

    /// How many bytes the next read of the file asks for: what is left of the
    /// prefix while it is being hashed, then what is left to send; at most `buf_len`.
    pub fn next_read_len(&self, buf_len: usize) -> (res: usize)
        ensures
            ({
                let want: int = if self.prefix_left() > 0 { self.prefix_left() as int } else { self.left() as int };
                res as int == (if want < (buf_len as int) { want } else { buf_len as int })
            }),
    {
        let want: u64 = if self.prefix_remaining > 0 { self.prefix_remaining } else { self.remaining };
        if (want as u128) < (buf_len as u128) {
            want as usize
        } else {
            buf_len
        }
    }

    /// Hashes a piece of the part before the offset, read in order from the start
    /// of the file; it is not sent.
    pub fn on_prefix(&mut self, data: &[u8])
        requires
            old(self).wf(),
            data@.len() <= old(self).prefix_left(),
        ensures
            final(self).wf(),
            final(self).hashed() == old(self).hashed() + data@,
            final(self).prefix_left() == old(self).prefix_left() - data@.len(),
            final(self).left() == old(self).left(),
            final(self).size() == old(self).size(),
            final(self).start() == old(self).start(),
    {
        hasher_update(&mut self.hasher, data);
        self.prefix_remaining = self.prefix_remaining - data.len() as u64;
    }

    /// Records a piece of the file that went out; returns how far into the file the transfer now is.
    pub fn on_chunk(&mut self, data: &[u8]) -> (res: u64)
        requires
            old(self).wf(),
            old(self).prefix_left() == 0,
            data@.len() <= old(self).left(),
        ensures
            final(self).wf(),
            final(self).hashed() == old(self).hashed() + data@,
            final(self).prefix_left() == 0,
            final(self).left() == old(self).left() - data@.len(),
            final(self).size() == old(self).size(),
            final(self).start() == old(self).start(),
            res == final(self).size() - final(self).left(),
    {
        hasher_update(&mut self.hasher, data);
        self.remaining = self.remaining - data.len() as u64;
        self.file_size - self.remaining
    }

    /// The hash of the whole file, to close the transfer with; an error when the
    /// file ran out before its announced size.
    pub fn finish(&self) -> (res: Result<[u8; 32], ProtocolError>)
        requires
            self.wf(),
        ensures
            (self.prefix_left() > 0 || self.left() > 0) ==> res == Err::<[u8; 32], ProtocolError>(ProtocolError::FileShrank),
            (self.prefix_left() == 0 && self.left() == 0) ==> res is Ok && res->Ok_0@ == blake3_digest(self.hashed())
                && self.hashed().len() == self.size(),
    {
        if self.prefix_remaining > 0 || self.remaining > 0 {
            Err(ProtocolError::FileShrank)
        } else {
            Ok(hasher_finalize(&self.hasher))
        }
    }
}

} // verus!
