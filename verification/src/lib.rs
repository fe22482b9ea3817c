//! sp2p: peer-to-peer file transfer through folders.
//!
//! The library holds the decisions of the program: who owns which inbox,
//! how blocks of the transfer protocol are framed and checked, how a received
//! file is accounted for, which files of the send queue go where, and how
//! arrival notifications are grouped. The binary around it does the I/O.

pub mod net;

pub use net::{IpAddress, PeerAddr};
pub mod strings;
pub mod router;
pub mod protocol;
pub mod digest;
pub mod receiver;
pub mod sender;
pub mod transfer_state;
pub mod crypto;
pub mod noise;
pub mod paths;
pub mod send_queue;
pub mod notifications;
pub mod inboxes;
pub mod discovery;
pub mod config;
pub mod app_dirs;
pub mod upnp;
pub mod dashboard;
