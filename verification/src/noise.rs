use vstd::prelude::*;

use crate::protocol::{encode_frame, frame, MAX_FRAME_LEN};

verus! {

/// `snow::params::NoiseParams`, a parsed Noise protocol name, carried through opaque.
#[verifier::external_type_specification]
#[verifier::external_body]
pub struct ExNoiseParams(snow::params::NoiseParams);

/// `snow::HandshakeState`, a Noise handshake under way, carried through opaque.
#[verifier::external_type_specification]
#[verifier::external_body]
pub struct ExHandshakeState(snow::HandshakeState);

/// `snow::TransportState`, an established Noise session, carried through opaque.
#[verifier::external_type_specification]
#[verifier::external_body]
pub struct ExTransportState(snow::TransportState);

/// `snow::Error`, carried through opaque.
#[verifier::external_type_specification]
#[verifier::external_body]
pub struct ExSnowError(snow::Error);

/// The Noise protocol of transfer connections: no static keys, the group key as a
/// pre-shared key at the start, X25519, ChaCha20-Poly1305 and BLAKE2s.
pub const NOISE_PATTERN: &'static str = "Noise_NNpsk0_25519_ChaChaPoly_BLAKE2s";

/// Length of the tag that Noise adds to each message.
pub const TAG_LEN: usize = 16;

/// Largest piece of data that one transport message carries.
pub const CHUNK_LEN: usize = 65000;

/// Why a Noise step failed.
#[derive(PartialEq, Eq, Structural, Clone, Copy, Debug)]
pub enum NoiseError {
    /// The handshake state could not be set up.
    Setup,
    /// A handshake message could not be written or was refused.
    Handshake,
    /// A transport message could not be sealed or did not open.
    Transport,
}

/// The parameters that `str::parse::<snow::params::NoiseParams>` makes of a
/// protocol name.
pub uninterp spec fn noise_params_named(name: Seq<char>) -> snow::params::NoiseParams;

/// The handshake state that `snow::Builder::new(params).psk(0, psk).build_initiator()`
/// builds. Building draws no randomness: the ephemeral key is made when the first
/// message is written.
pub uninterp spec fn noise_initiator_state(params: snow::params::NoiseParams, psk: Seq<u8>) -> snow::HandshakeState;

/// The handshake state that `snow::Builder::new(params).psk(0, psk).build_responder()`
/// builds.
pub uninterp spec fn noise_responder_state(params: snow::params::NoiseParams, psk: Seq<u8>) -> snow::HandshakeState;

/// `str::parse::<snow::params::NoiseParams>`. Claimed: the result is the named
/// parameters of the name, and the name of the transfer protocol parses (snow's
/// `FromStr` splits it at `_` and knows each of its five parts).
#[verifier::external_body]
fn parse_noise_params(name: &str) -> (res: Result<snow::params::NoiseParams, snow::Error>)
    ensures
        res matches Ok(p) ==> p == noise_params_named(name@),
        name@ == "Noise_NNpsk0_25519_ChaChaPoly_BLAKE2s"@ ==> res is Ok,
{
    name.parse()
}

/// `snow::Builder::build_initiator` on a builder made from `params` with `psk` as
/// the pre-shared key at slot 0. Claimed: the result is the named initiator state;
/// for the parameters of the transfer protocol it is built (the pattern needs no
/// static or remote key, and the key has the 32 bytes that snow checks for).
#[verifier::external_body]
fn build_initiator(params: snow::params::NoiseParams, psk: &[u8; 32]) -> (res: Result<snow::HandshakeState, snow::Error>)
    ensures
        res matches Ok(hs) ==> hs == noise_initiator_state(params, psk@),
        params == noise_params_named("Noise_NNpsk0_25519_ChaChaPoly_BLAKE2s"@) ==> res is Ok,
{
    snow::Builder::new(params).psk(0, psk).build_initiator()
}

/// `snow::Builder::build_responder` on a builder made from `params` with `psk` as
/// the pre-shared key at slot 0. Claimed as for `build_initiator`.
#[verifier::external_body]
fn build_responder(params: snow::params::NoiseParams, psk: &[u8; 32]) -> (res: Result<snow::HandshakeState, snow::Error>)
    ensures
        res matches Ok(hs) ==> hs == noise_responder_state(params, psk@),
        params == noise_params_named("Noise_NNpsk0_25519_ChaChaPoly_BLAKE2s"@) ==> res is Ok,
{
    snow::Builder::new(params).psk(0, psk).build_responder()
}

/// `snow::HandshakeState::write_message` with an empty payload into a buffer of the
/// largest message size. Claimed: a message fits that size.
#[verifier::external_body]
fn handshake_write(hs: &mut snow::HandshakeState) -> (res: Result<Vec<u8>, snow::Error>)
    ensures
        res matches Ok(m) ==> m@.len() <= MAX_FRAME_LEN,
{
    let mut buf = vec![0u8; 65535];
    hs.write_message(&[], &mut buf).map(|len| buf[..len].to_vec())
}

/// What `snow::HandshakeState::read_message`, with no room for a payload, makes of
/// `message` on a handshake in state `hs`: the state after it, or `None` when it
/// refuses the message. Reading draws no randomness.
pub uninterp spec fn noise_handshake_read(hs: snow::HandshakeState, message: Seq<u8>) -> Option<snow::HandshakeState>;

/// `snow::HandshakeState::is_handshake_finished`: every message of the pattern has passed.
pub uninterp spec fn noise_handshake_finished(hs: snow::HandshakeState) -> bool;

/// The session that `snow::HandshakeState::into_transport_mode` makes of a finished
/// handshake in state `hs`.
pub uninterp spec fn noise_transport_of(hs: snow::HandshakeState) -> snow::TransportState;

/// `snow::HandshakeState::read_message` with no room for a payload. Claimed: it takes
/// the message exactly when the named reading does, and then leaves the named state.
/// What a refused message leaves behind is not claimed (snow restores only part of it).
#[verifier::external_body]
fn handshake_read(hs: &mut snow::HandshakeState, message: &[u8]) -> (res: Result<usize, snow::Error>)
    ensures
        res is Ok <==> noise_handshake_read(*old(hs), message@) is Some,
        res is Ok ==> noise_handshake_read(*old(hs), message@) == Some(*final(hs)),
{
    hs.read_message(message, &mut [])
}

/// `snow::HandshakeState::into_transport_mode`. Claimed, from the crate's source: it
/// fails exactly when the handshake is not finished, and otherwise gives the named session.
#[verifier::external_body]
fn handshake_into_transport(hs: snow::HandshakeState) -> (res: Result<snow::TransportState, snow::Error>)
    ensures
        res is Ok <==> noise_handshake_finished(hs),
        res matches Ok(t) ==> t == noise_transport_of(hs),
{
    hs.into_transport_mode()
}

/// The message that `snow::TransportState::write_message` seals `payload` into, on a
/// session in state `ts` (its keys and its sending nonce).
pub uninterp spec fn noise_sealed(ts: snow::TransportState, payload: Seq<u8>) -> Seq<u8>;

/// Whether a session in state `ts` seals a payload that fits a message: its side may
/// send, its sending key is set, and its sending nonce is below snow's limit.
pub uninterp spec fn noise_can_send(ts: snow::TransportState) -> bool;

/// The state of a session in state `ts` after it has sealed a message: the same
/// keys, the sending nonce one further. Which payload was sealed does not matter.
pub uninterp spec fn noise_after_write(ts: snow::TransportState) -> snow::TransportState;

/// What `snow::TransportState::read_message` makes of `message` on a session in
/// state `ts`: the payload, or `None` when it refuses the message.
pub uninterp spec fn noise_opened(ts: snow::TransportState, message: Seq<u8>) -> Option<Seq<u8>>;

/// The state of a session in state `ts` after it has opened a message: the same
/// keys, the receiving nonce one further.
pub uninterp spec fn noise_after_read(ts: snow::TransportState) -> snow::TransportState;

/// `snow::TransportState::write_message` into a buffer of the largest message size.
/// Claimed, from the crate's source: a payload that would not fit with its tag is
/// refused; a sealed message is the named sealing, the payload length plus the
/// 16-byte tag, and moves the sending nonce on; a payload that fits is sealed
/// exactly when the session can send; a refusal (every check comes before the nonce
/// moves) leaves the session as it was.
#[verifier::external_body]
fn transport_write(ts: &mut snow::TransportState, payload: &[u8]) -> (res: Result<Vec<u8>, snow::Error>)
    ensures
        payload@.len() + TAG_LEN > MAX_FRAME_LEN ==> res is Err,
        payload@.len() + TAG_LEN <= MAX_FRAME_LEN ==> (res is Ok <==> noise_can_send(*old(ts))),
        res matches Ok(m) ==> m@ == noise_sealed(*old(ts), payload@) && m@.len() == payload@.len() + TAG_LEN
            && *final(ts) == noise_after_write(*old(ts)),
        res is Err ==> *final(ts) == *old(ts),
{
    let mut buf = vec![0u8; 65535];
    ts.write_message(payload, &mut buf).map(|len| buf[..len].to_vec())
}

/// `snow::TransportState::read_message` into a buffer of the largest message size.
/// Claimed, from the crate's source: a message over the largest size or shorter than
/// the tag is refused; an opened payload is the named opening, the message less its
/// tag, and moves the receiving nonce on; a refusal leaves the session as it was.
#[verifier::external_body]
fn transport_read(ts: &mut snow::TransportState, message: &[u8]) -> (res: Result<Vec<u8>, snow::Error>)
    ensures
        message@.len() > MAX_FRAME_LEN ==> res is Err,
        message@.len() < TAG_LEN ==> res is Err,
        res matches Ok(p) ==> noise_opened(*old(ts), message@) == Some(p@) && p@.len() + TAG_LEN == message@.len()
            && *final(ts) == noise_after_read(*old(ts)),
        res is Err ==> noise_opened(*old(ts), message@) is None && *final(ts) == *old(ts),
{
    let mut buf = vec![0u8; 65535];
    ts.read_message(message, &mut buf).map(|len| buf[..len].to_vec())
}

/// The handshake state of the transfer protocol for one side, keyed with `psk`.
pub open spec fn handshake_for(psk: Seq<u8>, initiator: bool) -> snow::HandshakeState {
    let params = noise_params_named(NOISE_PATTERN@);
    if initiator { noise_initiator_state(params, psk) } else { noise_responder_state(params, psk) }
}

fn handshake_state(psk: &[u8; 32], initiator: bool) -> (res: Result<snow::HandshakeState, NoiseError>)
    ensures
        res matches Ok(hs) && hs == handshake_for(psk@, initiator),
{
    let params = match parse_noise_params(NOISE_PATTERN) {
        Ok(p) => p,
        Err(_) => return Err(NoiseError::Setup),
    };
    let built = if initiator { build_initiator(params, psk) } else { build_responder(params, psk) };
    match built {
        Ok(hs) => Ok(hs),
        Err(_) => Err(NoiseError::Setup),
    }
}

/// The handshake state of the side that opens a connection, keyed with the group key.
pub fn noise_initiator(psk: &[u8; 32]) -> (res: Result<snow::HandshakeState, NoiseError>)
    ensures
        res matches Ok(hs) && hs == handshake_for(psk@, true),
{
    handshake_state(psk, true)
}

/// The handshake state of the side that accepts a connection, keyed with the group key.
pub fn noise_responder(psk: &[u8; 32]) -> (res: Result<snow::HandshakeState, NoiseError>)
    ensures
        res matches Ok(hs) && hs == handshake_for(psk@, false),
{
    handshake_state(psk, false)
}

/// The next handshake message of this side, framed for the wire.
pub fn handshake_frame(hs: &mut snow::HandshakeState) -> (res: Result<Vec<u8>, NoiseError>)
    ensures
        res matches Ok(f) ==> f@.len() >= 2 && f@ == frame(f@.skip(2)) && f@.len() - 2 <= MAX_FRAME_LEN,
        res matches Err(e) ==> e == NoiseError::Handshake,
{
    match handshake_write(hs) {
        Ok(m) => {
            let f = encode_frame(m.as_slice());
            assert(f@.skip(2) =~= m@);
            Ok(f)
        },
        Err(_) => Err(NoiseError::Handshake),
    }
}

/// Takes in the peer's handshake message (the bytes after the frame header): it is
/// taken exactly when snow's reading takes it, and the handshake then stands where
/// that reading leaves it.
pub fn handshake_receive(hs: &mut snow::HandshakeState, message: &[u8]) -> (res: Result<(), NoiseError>)
    ensures
        res is Ok <==> noise_handshake_read(*old(hs), message@) is Some,
        res is Ok ==> noise_handshake_read(*old(hs), message@) == Some(*final(hs)),
        res matches Err(e) ==> e == NoiseError::Handshake,
{
    match handshake_read(hs, message) {
        Ok(_) => Ok(()),
        Err(_) => Err(NoiseError::Handshake),
    }
}

/// The established session once both handshake messages have passed; a handshake
/// that is not finished is refused.
pub fn into_transport(hs: snow::HandshakeState) -> (res: Result<snow::TransportState, NoiseError>)
    ensures
        res is Ok <==> noise_handshake_finished(hs),
        res matches Ok(t) ==> t == noise_transport_of(hs),
        res matches Err(e) ==> e == NoiseError::Handshake,
{
    match handshake_into_transport(hs) {
        Ok(t) => Ok(t),
        Err(_) => Err(NoiseError::Handshake),
    }
}

/// How many transport messages `len` bytes of data take.
pub open spec fn chunk_count(len: nat) -> nat {
    if len == 0 { 0 } else { ((len - 1) / CHUNK_LEN as int + 1) as nat }
}

/// The length of the `k`-th piece of `len` bytes cut into pieces of `CHUNK_LEN`.
pub open spec fn chunk_len(len: nat, k: int) -> int {
    if len - k * CHUNK_LEN < CHUNK_LEN { len - k * CHUNK_LEN } else { CHUNK_LEN as int }
}

/// The `k`-th piece of `data` cut into pieces of `CHUNK_LEN` bytes.
pub open spec fn chunk_of(data: Seq<u8>, k: int) -> Seq<u8> {
    data.subrange(k * CHUNK_LEN, k * CHUNK_LEN + chunk_len(data.len(), k))
}

/// The pieces one after another.
pub open spec fn joined(pieces: Seq<Seq<u8>>) -> Seq<u8>
    decreases pieces.len(),
{
    if pieces.len() == 0 {
        Seq::empty()
    } else {
        joined(pieces.drop_last()) + pieces.last()
    }
}

/// The state of a session in state `ts` after `k` sealed messages.
pub open spec fn after_writes(ts: snow::TransportState, k: nat) -> snow::TransportState
    decreases k,
{
    if k == 0 { ts } else { noise_after_write(after_writes(ts, (k - 1) as nat)) }
}

/// The `k`-th piece of `data`, as `chunk_of` says.
pub fn chunk_at(data: &[u8], k: usize) -> (res: &[u8])
    requires
        (k as int) < chunk_count(data@.len() as nat),
    ensures
        res@ == chunk_of(data@, k as int),
{
    let n = data.len();
    proof {
        lemma_chunk_start(n as int, k as int);
    }
    let start = k * CHUNK_LEN;
    let end = if n - start < CHUNK_LEN { n } else { start + CHUNK_LEN };
    &data[start..end]
}

proof fn lemma_chunk_start(n: int, k: int)
    requires
        0 <= k,
        0 < n,
        k < (n - 1) / 65000 + 1,
    ensures
        k * 65000 < n,
{
    assert(k * 65000 < n) by (nonlinear_arith)
        requires
            0 <= k,
            0 < n,
            k < (n - 1) / 65000 + 1,
    ;
}

/// Reading back the pieces of `data`, each in turn, gives `data`: when what the
/// peer opened from the `k`-th frame is the `k`-th piece, what it opened, joined,
/// is the data sent.
pub proof fn lemma_frames_read_back(data: Seq<u8>, opened: Seq<Seq<u8>>)
    requires
        opened.len() == chunk_count(data.len()),
        forall|k: int| 0 <= k < opened.len() ==> #[trigger] opened[k] == chunk_of(data, k),
    ensures
        joined(opened) == data,
{
    lemma_joined_prefix(data, opened, opened.len() as int);
    assert(opened.take(opened.len() as int) =~= opened);
    if data.len() > 0 {
        let c = opened.len() as int;
        assert((c - 1) * 65000 < data.len()) by {
            lemma_chunk_start(data.len() as int, c - 1);
        }
        assert(data.len() <= c * 65000) by (nonlinear_arith)
            requires
                c == (data.len() - 1) / 65000 + 1,
                data.len() > 0,
        ;
    }
    assert(data.subrange(0, data.len() as int) =~= data);
}

proof fn lemma_joined_prefix(data: Seq<u8>, opened: Seq<Seq<u8>>, m: int)
    requires
        opened.len() == chunk_count(data.len()),
        forall|k: int| 0 <= k < opened.len() ==> #[trigger] opened[k] == chunk_of(data, k),
        0 <= m <= opened.len(),
    ensures
        joined(opened.take(m)) == data.subrange(0, if m * 65000 < data.len() { m * 65000 } else { data.len() as int }),
    decreases m,
{
    if m == 0 {
        assert(opened.take(0) =~= Seq::<Seq<u8>>::empty());
        assert(data.subrange(0, 0) =~= Seq::<u8>::empty());
    } else {
        lemma_joined_prefix(data, opened, m - 1);
        assert(opened.take(m).drop_last() =~= opened.take(m - 1));
        assert(opened.take(m).last() == opened[m - 1]);
        let n = data.len() as int;
        assert((m - 1) * 65000 < n) by {
            lemma_chunk_start(n, m - 1);
        }
        assert(m * 65000 == (m - 1) * 65000 + 65000) by (nonlinear_arith);
        let lo = (m - 1) * 65000;
        let hi = if m * 65000 < n { m * 65000 } else { n };
        assert(chunk_of(data, m - 1) == data.subrange(lo, hi));
        assert(data.subrange(0, lo) + data.subrange(lo, hi) =~= data.subrange(0, hi));
    }
}

/// Seals `data` for the wire: cut into pieces of at most `CHUNK_LEN` bytes, each
/// sealed, in order, into one transport message and framed with its length. Empty
/// data makes no frame. Frame `k` carries the sealing of piece `k` by the session
/// after `k` messages; on a refusal, the pieces before it were sealed and the
/// session stands after them.
pub fn seal_frames(ts: &mut snow::TransportState, data: &[u8]) -> (res: Result<Vec<Vec<u8>>, NoiseError>)
    ensures
        data@.len() == 0 ==> (res matches Ok(frames) && frames@.len() == 0),
        res matches Ok(frames) ==> {
            &&& frames@.len() == chunk_count(data@.len())
            &&& forall|k: int| 0 <= k < frames@.len() ==> {
                &&& (#[trigger] frames@[k])@.len() == 2 + chunk_len(data@.len(), k) + TAG_LEN
                &&& frames@[k]@ == frame(noise_sealed(after_writes(*old(ts), k as nat), chunk_of(data@, k)))
            }
            &&& *final(ts) == after_writes(*old(ts), frames@.len() as nat)
        },
        (forall|j: nat| j < chunk_count(data@.len()) ==> #[trigger] noise_can_send(after_writes(*old(ts), j)))
            ==> res is Ok,
        res is Err ==> exists|j: nat| j < chunk_count(data@.len()) && !noise_can_send(after_writes(*old(ts), j))
            && #[trigger] after_writes(*old(ts), j) == *final(ts),
        res matches Err(e) ==> e == NoiseError::Transport,
{
    let ghost ts0 = *ts;
    let mut frames: Vec<Vec<u8>> = Vec::new();
    let n = data.len();
    let mut k: usize = 0;
    let count: usize = if n == 0 { 0 } else { (n - 1) / CHUNK_LEN + 1 };
    while k < count
        invariant
            n == data@.len(),
            count == chunk_count(n as nat),
            ts0 == *old(ts),
            k <= count,
            frames@.len() == k,
            *ts == after_writes(ts0, k as nat),
            forall|j: int| 0 <= j < k ==> {
                &&& (#[trigger] frames@[j])@.len() == 2 + chunk_len(n as nat, j) + TAG_LEN
                &&& frames@[j]@ == frame(noise_sealed(after_writes(ts0, j as nat), chunk_of(data@, j)))
            },
        decreases count - k,
    {
        let piece = chunk_at(data, k);
        proof {
            lemma_chunk_start(n as int, k as int);
        }
        let sealed = match transport_write(ts, piece) {
            Ok(m) => m,
            Err(_) => {
                assert(*ts == after_writes(ts0, k as nat));
                assert(!noise_can_send(after_writes(ts0, k as nat)));
                return Err(NoiseError::Transport);
            },
        };
        let f = encode_frame(sealed.as_slice());
        frames.push(f);
        k = k + 1;
    }
    Ok(frames)
}

/// Opens one transport message (the bytes after the frame header): the named
/// opening by the session, which then stands one message further; a refused
/// message leaves the session as it was.
pub fn open_message(ts: &mut snow::TransportState, message: &[u8]) -> (res: Result<Vec<u8>, NoiseError>)
    ensures
        res matches Ok(p) ==> noise_opened(*old(ts), message@) == Some(p@) && p@.len() + TAG_LEN == message@.len()
            && *final(ts) == noise_after_read(*old(ts)),
        res is Err ==> noise_opened(*old(ts), message@) is None && *final(ts) == *old(ts),
        message@.len() < TAG_LEN ==> res is Err,
        res matches Err(e) ==> e == NoiseError::Transport,
{
    match transport_read(ts, message) {
        Ok(p) => Ok(p),
        Err(_) => Err(NoiseError::Transport),
    }
}

} // verus!
