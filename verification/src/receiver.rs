use vstd::prelude::*;
use vstd::utf8::encode_utf8;

use crate::digest::{blake3_absorbed, blake3_digest, digest_matches, hasher_finalize, hasher_new, hasher_update};
use crate::sender::SendSession;
use crate::protocol::{
    be64_value, is_safe_file_name, is_safe_inbox_name, safe_file_path, safe_inbox_name, parse_string_block, parse_string_block_spec,
    parse_u64_block, ProtocolError,
};

verus! {

/// Where a receiving connection stands.
#[derive(PartialEq, Eq, Structural, Clone, Copy, Debug)]
pub enum ReceivePhase {
    /// Waiting for the name of the inbox.
    Inbox,
    /// Waiting for the path of the file inside the inbox.
    FileName,
    /// Waiting for the size of the file.
    FileSize,
    /// Waiting for the length of what is already on disk.
    Destination,
    /// Taking in the part of the file already on disk, before any new data.
    Existing,
    /// Taking in file data.
    Data,
    /// Waiting for the sender's hash of the data.
    Digest,
    /// The acknowledgement has been decided.
    Done,
    /// The connection is to be dropped.
    Failed,
}

/// What the connection does next.
pub enum ReceiveStep {
    /// Read the next block.
    Continue,
    /// The header is complete: find the destination file, then report what it holds.
    OpenDestination,
    /// Append `data` to the destination file; when `overflow`, drop the connection after.
    Write { data: Vec<u8>, overflow: bool },
    /// All data is in: answer with the acknowledgement for `accepted`. A file
    /// that is not accepted is emptied, so that the next attempt starts over.
    Finish { accepted: bool },
    /// Drop the connection.
    Fail(ProtocolError),
}

/// The receiving side of one file transfer, block by block.
pub struct ReceiveSession {
    phase: ReceivePhase,
    inbox: String,
    file_name: String,
    file_size: u64,
    offset: u64,
    received: u64,
    existing_read: u64,
    hasher: blake3::Hasher,
}

impl ReceiveSession {
    pub closed spec fn phase(&self) -> ReceivePhase {
        self.phase
    }

    pub closed spec fn inbox_name(&self) -> Seq<char> {
        self.inbox@
    }

    pub closed spec fn file_path(&self) -> Seq<char> {
        self.file_name@
    }

    pub closed spec fn size(&self) -> u64 {
        self.file_size
    }

    /// Where the data of this connection starts in the file.
    pub closed spec fn resume_offset(&self) -> u64 {
        self.offset
    }

    /// The bytes of the file taken in so far: first the part that was already on
    /// disk, then the data that this connection carried.
    pub closed spec fn data(&self) -> Seq<u8> {
        blake3_absorbed(self.hasher)
    }

    /// The invariant: the resume offset lies within the file, the part on disk is
    /// taken in before any new data, and no more comes than the file holds.
    pub closed spec fn wf(&self) -> bool {
        &&& (self.phase == ReceivePhase::Existing || self.phase == ReceivePhase::Data
            || self.phase == ReceivePhase::Digest) ==> self.offset <= self.file_size
        &&& self.phase == ReceivePhase::Existing ==> {
            &&& self.data().len() < self.offset
            &&& self.existing_read == self.data().len()
            &&& self.received == 0
        }
        &&& (self.phase == ReceivePhase::Data || self.phase == ReceivePhase::Digest) ==> {
            &&& self.data().len() == self.offset + self.received
            &&& self.received <= self.file_size - self.offset
        }
        &&& self.phase == ReceivePhase::Data ==> self.received < self.file_size - self.offset
        &&& self.phase == ReceivePhase::Digest ==> self.received == self.file_size - self.offset
        &&& (self.phase == ReceivePhase::FileName || self.has_header()) ==> safe_inbox_name(encode_utf8(self.inbox@))
        &&& self.has_header() ==> safe_file_path(encode_utf8(self.file_name@))
        &&& self.phase == ReceivePhase::Destination ==> self.data().len() == 0
        &&& self.phase == ReceivePhase::FileSize ==> self.data().len() == 0
        &&& self.phase == ReceivePhase::FileName ==> self.data().len() == 0
        &&& self.phase == ReceivePhase::Inbox ==> self.data().len() == 0
    }

    /// The inbox and the file path are known and checked: the phases from the
    /// file size up to the closing hash.
    pub open spec fn has_header(&self) -> bool {
        ||| self.phase() == ReceivePhase::FileSize
        ||| self.phase() == ReceivePhase::Destination
        ||| self.phase() == ReceivePhase::Existing
        ||| self.phase() == ReceivePhase::Data
        ||| self.phase() == ReceivePhase::Digest
    }

    /// Once the header is in, the file goes to `<inbox root>/<inbox>/<path>`, where
    /// the inbox is one folder directly inside the root and the path stays below it.
    pub proof fn lemma_destination_inside_inbox(&self)
        requires
            self.wf(),
            self.has_header(),
        ensures
            safe_inbox_name(encode_utf8(self.inbox_name())),
            safe_file_path(encode_utf8(self.file_path())),
    {
    }

    /// A connection that has just completed the handshake.
    pub fn new() -> (res: ReceiveSession)
        ensures
            res.wf(),
            res.phase() == ReceivePhase::Inbox,
            res.data() == Seq::<u8>::empty(),
    {
        ReceiveSession {
            phase: ReceivePhase::Inbox,
            inbox: String::new(),
            file_name: String::new(),
            file_size: 0,
            offset: 0,
            received: 0,
            existing_read: 0,
            hasher: hasher_new(),
        }
    }

    pub fn current_phase(&self) -> (res: ReceivePhase)
        ensures
            res == self.phase(),
    {
        self.phase
    }

    /// The inbox the file is for.
    pub fn inbox(&self) -> (res: &String)
        ensures
            res@ == self.inbox_name(),
    {
        &self.inbox
    }

    /// The path of the file inside the inbox, with `/` between folders.
    pub fn file_name(&self) -> (res: &String)
        ensures
            res@ == self.file_path(),
    {
        &self.file_name
    }

    /// The size of the whole file.
    pub fn file_size(&self) -> (res: u64)
        ensures
            res == self.size(),
    {
        self.file_size
    }

    /// Takes the next decrypted block of the connection.
    pub fn on_block(&mut self, block: Vec<u8>) -> (res: ReceiveStep)
        requires
            old(self).wf(),
        ensures
            final(self).wf(),
            old(self).phase() == ReceivePhase::Inbox ==> match parse_string_block_spec(block@) {
                Ok(s) => if !safe_inbox_name(encode_utf8(s)) {
                    res == ReceiveStep::Fail(ProtocolError::PathTraversal) && final(self).phase() == ReceivePhase::Failed
                } else {
                    res is Continue && final(self).phase() == ReceivePhase::FileName
                        && final(self).inbox_name() == s && final(self).data() == old(self).data()
                },
                Err(e) => res == ReceiveStep::Fail(e) && final(self).phase() == ReceivePhase::Failed,
            },
            old(self).phase() == ReceivePhase::FileName ==> match parse_string_block_spec(block@) {
                Ok(s) => if !safe_file_path(encode_utf8(s)) {
                    res == ReceiveStep::Fail(ProtocolError::PathTraversal) && final(self).phase() == ReceivePhase::Failed
                } else {
                    res is Continue && final(self).phase() == ReceivePhase::FileSize
                        && final(self).file_path() == s && final(self).inbox_name() == old(self).inbox_name()
                        && final(self).data() == old(self).data()
                },
                Err(e) => res == ReceiveStep::Fail(e) && final(self).phase() == ReceivePhase::Failed,
            },
            old(self).phase() == ReceivePhase::FileSize ==> if block@.len() == 8 {
                res is OpenDestination && final(self).phase() == ReceivePhase::Destination
                    && final(self).size() == be64_value(block@)
                    && final(self).inbox_name() == old(self).inbox_name()
                    && final(self).file_path() == old(self).file_path()
            } else {
                res == ReceiveStep::Fail(ProtocolError::InvalidFileSizeBlock) && final(self).phase() == ReceivePhase::Failed
            },
            old(self).phase() == ReceivePhase::Data ==> {
                let room = old(self).size() - old(self).data().len();
                if block@.len() > room {
                    res == (ReceiveStep::Write { data: block, overflow: true })
                        && final(self).phase() == ReceivePhase::Failed
                } else {
                    &&& res == (ReceiveStep::Write { data: block, overflow: false })
                    &&& final(self).data() == old(self).data() + block@
                    &&& final(self).phase() == (if block@.len() == room { ReceivePhase::Digest } else { ReceivePhase::Data })
                    &&& final(self).size() == old(self).size()
                    &&& final(self).resume_offset() == old(self).resume_offset()
                    &&& final(self).inbox_name() == old(self).inbox_name()
                    &&& final(self).file_path() == old(self).file_path()
                }
            },
            old(self).phase() == ReceivePhase::Digest ==> {
                &&& res == (ReceiveStep::Finish { accepted: block@ == blake3_digest(old(self).data()) })
                &&& old(self).data().len() == old(self).size()
                &&& final(self).phase() == ReceivePhase::Done
                &&& final(self).data() == old(self).data()
                &&& final(self).size() == old(self).size()
                &&& final(self).resume_offset() == old(self).resume_offset()
            },
            (old(self).phase() == ReceivePhase::Destination || old(self).phase() == ReceivePhase::Existing
                || old(self).phase() == ReceivePhase::Done
                || old(self).phase() == ReceivePhase::Failed) ==> res == ReceiveStep::Fail(
                ProtocolError::UnexpectedBlock,
            ) && final(self).phase() == ReceivePhase::Failed,
    {
        match self.phase {
            ReceivePhase::Inbox => {
                match parse_string_block(block.as_slice()) {
                    Ok(s) => {
                        if !is_safe_inbox_name(s.as_str()) {
                            self.phase = ReceivePhase::Failed;
                            ReceiveStep::Fail(ProtocolError::PathTraversal)
                        } else {
                            self.inbox = s;
                            self.phase = ReceivePhase::FileName;
                            ReceiveStep::Continue
                        }
                    },
                    Err(e) => {
                        self.phase = ReceivePhase::Failed;
                        ReceiveStep::Fail(e)
                    },
                }
            },
            ReceivePhase::FileName => {
                match parse_string_block(block.as_slice()) {
                    Ok(s) => {
                        if !is_safe_file_name(s.as_str()) {
                            self.phase = ReceivePhase::Failed;
                            ReceiveStep::Fail(ProtocolError::PathTraversal)
                        } else {
                            self.file_name = s;
                            self.phase = ReceivePhase::FileSize;
                            ReceiveStep::Continue
                        }
                    },
                    Err(e) => {
                        self.phase = ReceivePhase::Failed;
                        ReceiveStep::Fail(e)
                    },
                }
            },
            ReceivePhase::FileSize => {
                match parse_u64_block(block.as_slice()) {
                    Some(n) => {
                        self.file_size = n;
                        self.phase = ReceivePhase::Destination;
                        ReceiveStep::OpenDestination
                    },
                    None => {
                        self.phase = ReceivePhase::Failed;
                        ReceiveStep::Fail(ProtocolError::InvalidFileSizeBlock)
                    },
                }
            },
            ReceivePhase::Data => {
                let room: u64 = self.file_size - self.offset - self.received;
                let len = block.len();
                if len as u64 > room {
                    self.phase = ReceivePhase::Failed;
                    ReceiveStep::Write { data: block, overflow: true }
                } else {
                    hasher_update(&mut self.hasher, block.as_slice());
                    self.received = self.received + len as u64;
                    if len as u64 == room {
                        self.phase = ReceivePhase::Digest;
                    }
                    ReceiveStep::Write { data: block, overflow: false }
                }
            },
            ReceivePhase::Digest => {
                let digest = hasher_finalize(&self.hasher);
                let accepted = digest_matches(block.as_slice(), &digest);
                self.phase = ReceivePhase::Done;
                ReceiveStep::Finish { accepted }
            },
            _ => {
                self.phase = ReceivePhase::Failed;
                ReceiveStep::Fail(ProtocolError::UnexpectedBlock)
            },
        }
    }

    /// Reports what the destination file already holds (`None` when it does not
    /// exist or cannot be read). A file no longer than the announced size is
    /// resumed where it ends; otherwise the transfer starts over. Returns the
    /// offset to answer the sender with; at 0 the file is to be truncated. Before
    /// the offset goes out, the bytes already on disk are handed in with
    /// `on_existing`, so that the closing hash covers the whole file.
    pub fn on_destination(&mut self, existing_len: Option<u64>) -> (res: u64)
        requires
            old(self).wf(),
            old(self).phase() == ReceivePhase::Destination,
        ensures
            final(self).wf(),
            res == (match existing_len {
                Some(n) => if n <= old(self).size() { n } else { 0 },
                None => 0,
            }),
            res <= old(self).size(),
            final(self).resume_offset() == res,
            final(self).size() == old(self).size(),
            final(self).inbox_name() == old(self).inbox_name(),
            final(self).file_path() == old(self).file_path(),
            final(self).data() == Seq::<u8>::empty(),
            final(self).phase() == (if res > 0 {
                ReceivePhase::Existing
            } else if res < old(self).size() {
                ReceivePhase::Data
            } else {
                ReceivePhase::Digest
            }),
    {
        let offset = match existing_len {
            Some(n) => if n <= self.file_size { n } else { 0 },
            None => 0,
        };
        self.offset = offset;
        self.received = 0;
        self.existing_read = 0;
        if offset > 0 {
            self.phase = ReceivePhase::Existing;
        } else if offset < self.file_size {
            self.phase = ReceivePhase::Data;
        } else {
            self.phase = ReceivePhase::Digest;
        }
        offset
    }

    /// Bytes of the part already on disk that are still to be handed in.
    pub fn existing_left(&self) -> (res: u64)
        requires
            self.wf(),
            self.phase() == ReceivePhase::Existing,
        ensures
            res == self.resume_offset() - self.data().len(),
            res > 0,
    {
        self.offset - self.existing_read
    }

    /// Takes in the next piece of the part already on disk, read from its start.
    /// Once all of it is in, new data is awaited, or the closing hash when the file
    /// is already complete.
    pub fn on_existing(&mut self, chunk: &[u8])
        requires
            old(self).wf(),
            old(self).phase() == ReceivePhase::Existing,
            old(self).data().len() + chunk@.len() <= old(self).resume_offset(),
        ensures
            final(self).wf(),
            final(self).data() == old(self).data() + chunk@,
            final(self).phase() == (if final(self).data().len() < old(self).resume_offset() {
                ReceivePhase::Existing
            } else if old(self).resume_offset() < old(self).size() {
                ReceivePhase::Data
            } else {
                ReceivePhase::Digest
            }),
            final(self).size() == old(self).size(),
            final(self).resume_offset() == old(self).resume_offset(),
            final(self).inbox_name() == old(self).inbox_name(),
            final(self).file_path() == old(self).file_path(),
    {
        hasher_update(&mut self.hasher, chunk);
        self.existing_read = self.existing_read + chunk.len() as u64;
        if self.existing_read == self.offset {
            if self.offset < self.file_size {
                self.phase = ReceivePhase::Data;
            } else {
                self.phase = ReceivePhase::Digest;
            }
        }
    }
}

/// A file that arrives whole is acknowledged: when the sender has hashed its
/// whole file and the receiver holds the same bytes (the part it already had,
/// then the new data), the receiver holds exactly the announced size and the
/// sender's closing hash is the hash that the receiver checks against.
pub proof fn lemma_intact_file_is_accepted(s: SendSession, r: ReceiveSession)
    requires
        s.wf(),
        s.prefix_left() == 0,
        s.left() == 0,
        r.wf(),
        r.phase() == ReceivePhase::Digest,
        r.data() == s.hashed(),
    ensures
        r.data().len() == r.size(),
        r.size() == s.size(),
        blake3_digest(s.hashed()) == blake3_digest(r.data()),
{
    s.lemma_finished_covers_file();
}

} // verus!
