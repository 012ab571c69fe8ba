//! Federation — the cross-node tier (the address namespace IS the node).
//!
//! Each node runs a federation server; nodes mutually register (`namespace ↔ peer`) and
//! exchange canonical envelopes over a symmetrically encrypted link. This module owns the
//! **wire protocol** between federation servers — the sealed-frame framing and the peer
//! directory — and what a server decides about a message that leaves or comes in. Moving
//! sealed bytes is a layered hook above.
//!
//! ## Trust — symmetric AEAD, hand-delivered pre-shared keys
//!
//! A peer is authenticated **by possession of the shared key**: the AEAD verify gives
//! authentication + integrity, so a wrong-key or tampered frame fails to [`open`]
//! (fail-closed). The opened message is still treated as **untrusted ingress** downstream
//! — node-auth is not data-trust.
//!
//! ## Wire protocol
//!
//! ```text
//! header = version:u8 ‖ auth_method:u8 ‖ sender_len:u16(BE) ‖ sender:utf8
//! frame  = header ‖ nonce:24 ‖ XChaCha20Poly1305(key, nonce, encode_envelope(env), aad=header)
//! ```
//! version = 1, auth_method = 0 (pre-shared-key). The header carries the *sender's node
//! identity*, bound into the AEAD associated data.

use chacha20poly1305::aead::Aead;
use chacha20poly1305::{KeyInit, XChaCha20Poly1305, XNonce};
use vstd::prelude::*;

use crate::address;
use crate::codec;
use crate::error::{ErrorView, PipelineError};
use crate::grammar;
use crate::markup;
use crate::numbers;
use crate::provenance;
use crate::strmap::StrMap;
use crate::text;
use crate::wire;
use crate::wire::{Address, Envelope, EnvelopeView, MetaView, Provenance, Segment, SegmentView};

verus! {

/// A 256-bit symmetric key for a peer link, hand-delivered out of band.
pub type PeerKey = [u8; 32];

/// XChaCha20-Poly1305 nonce length.
pub const NONCE_LEN: usize = 24;

/// Current wire-protocol version.
pub const VERSION: u8 = 1;

/// Auth method: pre-shared-key AEAD (the only one for now; reserved values upgrade it).
pub const AUTH_PSK: u8 = 0;

/// Errors from the federation wire layer.
#[derive(Debug)]
pub enum FederationError {
    /// No peer registered for the (authenticated) sender namespace.
    UnknownPeer(String),
    /// The frame is malformed / shorter than its declared structure.
    MalformedFrame,
    /// Unsupported protocol version.
    UnsupportedVersion(u8),
    /// Unsupported auth method.
    UnsupportedAuth(u8),
    /// Decrypt/authentication failed — wrong key or a tampered frame/header.
    OpenFailed,
    /// Could not gather randomness for the nonce.
    Nonce,
    /// The envelope has no destination address.
    NoDestination,
    /// The destination's leading segment is not a registered remote node.
    NotRemote(String),
    /// The transport failed to send the frame.
    Transport(String),
    /// Local delivery of an inbound envelope failed.
    Delivery(String),
    /// The authorizer rejected this origin→target crossing (fail-closed).
    Unauthorized(String),
    /// Envelope encode/decode failed.
    Codec(PipelineError),
}

/// The model of a [`FederationError`].
pub enum FederationFault {
    UnknownPeer(Seq<char>),
    MalformedFrame,
    UnsupportedVersion(u8),
    UnsupportedAuth(u8),
    OpenFailed,
    Nonce,
    NoDestination,
    NotRemote(Seq<char>),
    Transport(Seq<char>),
    Delivery(Seq<char>),
    Unauthorized(Seq<char>),
    Codec(ErrorView),
}

impl View for FederationError {
    type V = FederationFault;

    open spec fn view(&self) -> FederationFault {
        match self {
            FederationError::UnknownPeer(s) => FederationFault::UnknownPeer(s@),
            FederationError::MalformedFrame => FederationFault::MalformedFrame,
            FederationError::UnsupportedVersion(v) => FederationFault::UnsupportedVersion(*v),
            FederationError::UnsupportedAuth(a) => FederationFault::UnsupportedAuth(*a),
            FederationError::OpenFailed => FederationFault::OpenFailed,
            FederationError::Nonce => FederationFault::Nonce,
            FederationError::NoDestination => FederationFault::NoDestination,
            FederationError::NotRemote(s) => FederationFault::NotRemote(s@),
            FederationError::Transport(s) => FederationFault::Transport(s@),
            FederationError::Delivery(s) => FederationFault::Delivery(s@),
            FederationError::Unauthorized(s) => FederationFault::Unauthorized(s@),
            FederationError::Codec(e) => FederationFault::Codec(e@),
        }
    }
}

impl FederationFault {
    /// The message of an error, where `codec` is the message of an underlying codec error.
    pub open spec fn message(self, codec: Seq<char>) -> Seq<char> {
        match self {
            FederationFault::UnknownPeer(s) => "unknown peer namespace: "@ + s,
            FederationFault::MalformedFrame => "malformed frame"@,
            FederationFault::UnsupportedVersion(v) => "unsupported federation protocol version: "@
                + numbers::decimal(v as nat),
            FederationFault::UnsupportedAuth(a) => "unsupported auth method: "@ + numbers::decimal(
                a as nat,
            ),
            FederationFault::OpenFailed =>
            "decrypt/authentication failed (wrong key or tampered frame)"@,
            FederationFault::Nonce => "nonce generation failed"@,
            FederationFault::NoDestination => "envelope has no destination address"@,
            FederationFault::NotRemote(s) => "not a remote node: "@ + s,
            FederationFault::Transport(s) => "transport error: "@ + s,
            FederationFault::Delivery(s) => "local delivery error: "@ + s,
            FederationFault::Unauthorized(s) => "unauthorized: "@ + s,
            FederationFault::Codec(_) => codec,
        }
    }
}

impl FederationError {
    /// The message of the error; that of an underlying codec error stands for itself.
    pub fn to_string(&self) -> (r: String)
        ensures
            !(self is Codec) ==> forall|codec: Seq<char>| r@ == #[trigger] self@.message(codec),
            self matches FederationError::Codec(e) ==> e.is_displayed_as(r@),
    {
        match self {
            FederationError::UnknownPeer(s) => text::cat("unknown peer namespace: ", s.as_str()),
            FederationError::MalformedFrame => "malformed frame".to_owned(),
            FederationError::UnsupportedVersion(v) => {
                let n = numbers::u64_text(*v as u64);
                text::cat("unsupported federation protocol version: ", n.as_str())
            },
            FederationError::UnsupportedAuth(a) => {
                let n = numbers::u64_text(*a as u64);
                text::cat("unsupported auth method: ", n.as_str())
            },
            FederationError::OpenFailed => {
                "decrypt/authentication failed (wrong key or tampered frame)".to_owned()
            },
            FederationError::Nonce => "nonce generation failed".to_owned(),
            FederationError::NoDestination => "envelope has no destination address".to_owned(),
            FederationError::NotRemote(s) => text::cat("not a remote node: ", s.as_str()),
            FederationError::Transport(s) => text::cat("transport error: ", s.as_str()),
            FederationError::Delivery(s) => text::cat("local delivery error: ", s.as_str()),
            FederationError::Unauthorized(s) => text::cat("unauthorized: ", s.as_str()),
            FederationError::Codec(e) => e.to_string(),
        }
    }
}

impl From<PipelineError> for FederationError {
    fn from(e: PipelineError) -> (r: Self) {
        FederationError::Codec(e)
    }
}

impl vstd::std_specs::convert::FromSpecImpl<PipelineError> for FederationError {
    open spec fn obeys_from_spec() -> bool {
        true
    }

    open spec fn from_spec(e: PipelineError) -> Self {
        FederationError::Codec(e)
    }
}

// ── Sealing: the boundary to the cipher ──────────────────────────────

/// What XChaCha20-Poly1305 makes of a message and associated data.
pub uninterp spec fn aead_encrypted(
    key: Seq<u8>,
    nonce: Seq<u8>,
    msg: Seq<u8>,
    aad: Seq<u8>,
) -> Seq<u8>;

/// The message that XChaCha20-Poly1305 finds in a ciphertext, if it is authentic.
pub uninterp spec fn aead_decrypted(
    key: Seq<u8>,
    nonce: Seq<u8>,
    sealed: Seq<u8>,
    aad: Seq<u8>,
) -> Option<Seq<u8>>;

/// The most bytes that the cipher can encrypt under one nonce: all but two of the blocks
/// that its block counter can number.
pub const MAX_PLAINTEXT: u64 = 0x3f_ffff_ff80;

/// Whether a message is short enough for the cipher.
pub open spec fn fits_cipher(msg: Seq<u8>) -> bool {
    msg.len() <= MAX_PLAINTEXT
}

/// Whether a ciphertext, sixteen bytes longer than its message, is short enough for the
/// cipher.
pub open spec fn fits_sealed(sealed: Seq<u8>) -> bool {
    sealed.len() <= MAX_PLAINTEXT + 16
}

/// `Aead::encrypt` of `XChaCha20Poly1305`: does not fail on messages that are short enough,
/// and under the same key, nonce and associated data the result, longer by a tag of sixteen
/// bytes, decrypts to the message.
#[verifier::external_body]
fn aead_encrypt(key: &PeerKey, nonce: &[u8; 24], msg: &[u8], aad: &[u8]) -> (r: Option<Vec<u8>>)
    requires
        fits_cipher(msg@),
    ensures
        r is Some,
        r matches Some(c) ==> c@ == aead_encrypted(key@, nonce@, msg@, aad@),
        r matches Some(c) ==> c@.len() == msg@.len() + 16,
        r matches Some(c) ==> aead_decrypted(key@, nonce@, c@, aad@) == Some(msg@),
{
    let cipher = XChaCha20Poly1305::new_from_slice(key).ok()?;
    cipher.encrypt(XNonce::from_slice(nonce), chacha20poly1305::aead::Payload { msg, aad }).ok()
}

/// `Aead::decrypt` of `XChaCha20Poly1305`, whose result depends on its arguments alone.
/// That no other ciphertext is authentic is likely and not stated.
#[verifier::external_body]
fn aead_decrypt(key: &PeerKey, nonce: &[u8], sealed: &[u8], aad: &[u8]) -> (r: Option<Vec<u8>>)
    requires
        nonce@.len() == 24,
        fits_sealed(sealed@),
    ensures
        match r {
            Some(m) => aead_decrypted(key@, nonce@, sealed@, aad@) == Some(m@),
            None => aead_decrypted(key@, nonce@, sealed@, aad@) is None,
        },
{
    let cipher = XChaCha20Poly1305::new_from_slice(key).ok()?;
    cipher.decrypt(
        XNonce::from_slice(nonce),
        chacha20poly1305::aead::Payload { msg: sealed, aad },
    ).ok()
}

/// `getrandom::getrandom`: random bytes, or `None` where the system has none to give.
#[verifier::external_body]
fn random_nonce() -> (r: Option<[u8; 24]>) {
    let mut nonce = [0u8; 24];
    getrandom::getrandom(&mut nonce).ok().map(|_| nonce)
}

// ── Model of frames ──────────────────────────────────────────────────

/// The header that names `sender`. Its length is cut to sixteen bits.
pub open spec fn header_of(sender: Seq<char>) -> Seq<u8> {
    let name = text::utf8(sender);
    seq![
        VERSION,
        AUTH_PSK,
        ((name.len() / 256) % 256) as u8,
        (name.len() % 256) as u8,
    ] + name
}

/// The sender that a frame names, and how long its header is.
pub open spec fn header_in(frame: Seq<u8>) -> Result<(Seq<char>, int), FederationFault> {
    let end = 4 + frame[2] * 256 + frame[3];
    if frame.len() < 4 {
        Err(FederationFault::MalformedFrame)
    } else if frame[0] != VERSION {
        Err(FederationFault::UnsupportedVersion(frame[0]))
    } else if frame[1] != AUTH_PSK {
        Err(FederationFault::UnsupportedAuth(frame[1]))
    } else if frame.len() < end || !vstd::utf8::valid_utf8(frame.subrange(4, end)) {
        Err(FederationFault::MalformedFrame)
    } else {
        Ok((vstd::utf8::decode_utf8(frame.subrange(4, end)), end))
    }
}

/// A frame from `sender` with the given nonce and ciphertext.
pub open spec fn frame_of(sender: Seq<char>, nonce: Seq<u8>, sealed: Seq<u8>) -> Seq<u8> {
    header_of(sender) + nonce + sealed
}

/// The bytes that an envelope is written as.
pub open spec fn plaintext_of(env: EnvelopeView) -> Seq<u8> {
    text::utf8(markup::rendered(grammar::envelope_pieces(env)))
}

/// Whether `frame` is `env`, sealed by `sender` under `key` with `nonce`.
pub open spec fn is_sealed(
    frame: Seq<u8>,
    env: EnvelopeView,
    sender: Seq<char>,
    key: Seq<u8>,
    nonce: Seq<u8>,
) -> bool {
    let plain = plaintext_of(env);
    let sealed = aead_encrypted(key, nonce, plain, header_of(sender));
    &&& nonce.len() == 24
    &&& frame == frame_of(sender, nonce, sealed)
    &&& fits_sealed(sealed)
    &&& aead_decrypted(key, nonce, sealed, header_of(sender)) == Some(plain)
    &&& grammar::envelope_survives(env) ==> grammar::envelope_from(markup::markup_of(plain))
        == Ok::<_, ErrorView>(env)
}

/// Whether `frame` is `env`, sealed by `sender` under `key` with some nonce.
pub open spec fn is_sealed_somehow(
    frame: Seq<u8>,
    env: EnvelopeView,
    sender: Seq<char>,
    key: Seq<u8>,
) -> bool {
    exists|nonce: Seq<u8>| is_sealed(frame, env, sender, key, nonce)
}

/// The message that is found in a ciphertext, if it is authentic; none that is too long
/// for the cipher is.
pub open spec fn unsealed_from(
    key: Seq<u8>,
    nonce: Seq<u8>,
    sealed: Seq<u8>,
    aad: Seq<u8>,
) -> Option<Seq<u8>> {
    if fits_sealed(sealed) {
        aead_decrypted(key, nonce, sealed, aad)
    } else {
        None
    }
}

/// The envelope in a frame and its sender, authenticated by the key that the directory
/// holds for it.
pub open spec fn opened(frame: Seq<u8>, peers: Map<Seq<char>, PeerView>) -> Result<
    (EnvelopeView, Seq<char>),
    FederationFault,
> {
    match header_in(frame) {
        Err(e) => Err(e),
        Ok((sender, end)) => {
            let body = frame.skip(end);
            if !peers.contains_key(sender) {
                Err(FederationFault::UnknownPeer(sender))
            } else if body.len() < 24 {
                Err(FederationFault::MalformedFrame)
            } else {
                match unsealed_from(
                    peers[sender].key,
                    body.take(24),
                    body.skip(24),
                    frame.take(end),
                ) {
                    None => Err(FederationFault::OpenFailed),
                    Some(plain) => match grammar::envelope_from(markup::markup_of(plain)) {
                        Ok(env) => Ok((env, sender)),
                        Err(e) => Err(FederationFault::Codec(e)),
                    },
                }
            }
        },
    }
}

// ── Frames ───────────────────────────────────────────────────────────

/// Encode the authenticated header: `version ‖ auth_method ‖ sender_len ‖ sender`.
pub fn encode_header(sender: &str) -> (r: Vec<u8>)
    ensures
        r@ == header_of(sender@),
{
    let s = sender.as_bytes();
    let n: usize = s.len();
    let mut h: Vec<u8> = Vec::new();
    h.push(VERSION);
    h.push(AUTH_PSK);
    h.push(((n / 256) % 256) as u8);
    h.push((n % 256) as u8);
    h.extend_from_slice(s);
    assert(h@ =~= header_of(sender@));
    h
}

/// Parse the header; returns the sender and the length of the header.
pub fn parse_header(frame: &[u8]) -> (r: Result<(String, usize), FederationError>)
    ensures
        match (r, header_in(frame@)) {
            (Ok((sender, end)), Ok((s, n))) => sender@ == s && end == n && 4 <= end
                <= frame@.len(),
            (Err(e), Err(f)) => e@ == f,
            _ => false,
        },
{
    if frame.len() < 4 {
        return Err(FederationError::MalformedFrame);
    }
    if frame[0] != VERSION {
        return Err(FederationError::UnsupportedVersion(frame[0]));
    }
    if frame[1] != AUTH_PSK {
        return Err(FederationError::UnsupportedAuth(frame[1]));
    }
    let end: usize = 4 + frame[2] as usize * 256 + frame[3] as usize;
    if frame.len() < end {
        return Err(FederationError::MalformedFrame);
    }
    let name = vstd::slice::slice_subrange(frame, 4, end);
    match core::str::from_utf8(name) {
        Ok(s) => {
            proof {
                vstd::utf8::encode_utf8_decode_utf8(s@);
            }
            Ok((s.to_owned(), end))
        },
        Err(_) => Err(FederationError::MalformedFrame),
    }
}

/// Seal a canonical envelope from `sender` (this node) to a peer holding `key`.
///
/// `frame = header(sender) ‖ nonce ‖ AEAD(key, nonce, encode_envelope(env), aad=header)`.
/// The nonce is drawn at random; where there is no randomness to draw, nothing is sealed.
pub fn seal(envelope: &Envelope, sender: &str, key: &PeerKey) -> (r: Result<
    Vec<u8>,
    FederationError,
>)
    ensures
        match r {
            Ok(frame) => fits_cipher(plaintext_of(envelope@)) && is_sealed_somehow(
                frame@,
                envelope@,
                sender@,
                key@,
            ),
            Err(e) => e@ == FederationFault::Nonce || (e@ == FederationFault::OpenFailed
                && !fits_cipher(plaintext_of(envelope@))),
        },
{
    match random_nonce() {
        Some(nonce) => seal_with_nonce(envelope, sender, key, &nonce),
        None => Err(FederationError::Nonce),
    }
}

/// Seal a canonical envelope with the given nonce. A nonce must not be used twice with
/// one key.
pub fn seal_with_nonce(envelope: &Envelope, sender: &str, key: &PeerKey, nonce: &[u8; 24]) -> (r:
    Result<Vec<u8>, FederationError>)
    ensures
        match r {
            Ok(frame) => fits_cipher(plaintext_of(envelope@)) && is_sealed(
                frame@,
                envelope@,
                sender@,
                key@,
                nonce@,
            ),
            Err(e) => e@ == FederationFault::OpenFailed && !fits_cipher(plaintext_of(envelope@)),
        },
{
    let plaintext = match codec::encode_envelope(envelope) {
        Ok(plaintext) => plaintext,
        Err(e) => {
            return Err(FederationError::from(e));
        },
    };
    let header = encode_header(sender);
    let sealed = if plaintext.len() as u64 <= MAX_PLAINTEXT {
        aead_encrypt(key, nonce, plaintext.as_slice(), header.as_slice())
    } else {
        None
    };
    framed(sender, nonce, sealed)
}

/// The frame from `sender` around what the cipher made of an envelope, if it made anything.
pub fn framed(sender: &str, nonce: &[u8; 24], sealed: Option<Vec<u8>>) -> (r: Result<
    Vec<u8>,
    FederationError,
>)
    ensures
        match (r, sealed) {
            (Ok(frame), Some(sealed)) => frame@ == frame_of(sender@, nonce@, sealed@),
            (Err(e), None) => e@ == FederationFault::OpenFailed,
            _ => false,
        },
{
    match sealed {
        Some(sealed) => {
            let mut out = encode_header(sender);
            out.extend_from_slice(nonce.as_slice());
            out.extend_from_slice(sealed.as_slice());
            assert(out@ =~= frame_of(sender@, nonce@, sealed@));
            Ok(out)
        },
        None => Err(FederationError::OpenFailed),
    }
}

/// Open a sealed frame, authenticating the sender against the peer directory.
///
/// Reads the sender from the header, looks up *that peer's* key, and AEAD-verifies (with
/// the header as associated data). Returns the canonical envelope and the **authenticated**
/// sender namespace. Fails closed on unknown sender, wrong key, or any tampering.
pub fn open(frame: &[u8], directory: &PeerDirectory) -> (r: Result<
    (Envelope, String),
    FederationError,
>)
    ensures
        match (r, opened(frame@, directory@)) {
            (Ok((env, sender)), Ok((e, s))) => env@ == e && sender@ == s,
            (Err(e), Err(f)) => e@ == f,
            _ => false,
        },
{
    let (sender, end) = match parse_header(frame) {
        Ok(parsed) => parsed,
        Err(e) => {
            return Err(e);
        },
    };
    let peer = match directory.get(sender.as_str()) {
        Some(peer) => peer,
        None => {
            return Err(FederationError::UnknownPeer(sender));
        },
    };
    let n: usize = frame.len();
    if n - end < NONCE_LEN {
        return Err(FederationError::MalformedFrame);
    }
    let header = vstd::slice::slice_subrange(frame, 0, end);
    let nonce = vstd::slice::slice_subrange(frame, end, end + NONCE_LEN);
    let sealed = vstd::slice::slice_subrange(frame, end + NONCE_LEN, n);
    proof {
        let body = frame@.skip(end as int);
        assert(header@ =~= frame@.take(end as int));
        assert(nonce@ =~= body.take(24));
        assert(sealed@ =~= body.skip(24));
    }
    let plaintext = if sealed.len() as u64 <= MAX_PLAINTEXT + 16 {
        aead_decrypt(&peer.key, nonce, sealed, header)
    } else {
        None
    };
    unsealed(plaintext, sender)
}

/// The envelope in what the cipher found in a frame from `sender`, if it found anything.
pub fn unsealed(plaintext: Option<Vec<u8>>, sender: String) -> (r: Result<
    (Envelope, String),
    FederationError,
>)
    ensures
        match plaintext {
            None => r matches Err(e) && e@ == FederationFault::OpenFailed,
            Some(plain) => match (r, grammar::envelope_from(markup::markup_of(plain@))) {
                (Ok((env, from)), Ok(e)) => env@ == e && from@ == sender@,
                (Err(e), Err(f)) => e@ == FederationFault::Codec(f),
                _ => false,
            },
        },
{
    match plaintext {
        Some(plain) => match codec::decode_envelope(plain.as_slice()) {
            Ok(envelope) => Ok((envelope, sender)),
            Err(e) => Err(FederationError::from(e)),
        },
        None => Err(FederationError::OpenFailed),
    }
}

// ── Peers ────────────────────────────────────────────────────────────

/// A registered peer node: its namespace (= node id), transport endpoint, and shared key.
pub struct Peer {
    pub namespace: String,
    pub endpoint: String,
    pub key: PeerKey,
    /// Provenance unioned onto every envelope opened from this peer — the edge stamp.
    /// **Host-configured** (the pipeline stays policy-free about what the bits *mean*).
    pub inbound_provenance: Provenance,
}

/// The model of a [`Peer`].
pub struct PeerView {
    pub namespace: Seq<char>,
    pub endpoint: Seq<char>,
    pub key: Seq<u8>,
    pub inbound_provenance: Provenance,
}

impl View for Peer {
    type V = PeerView;

    open spec fn view(&self) -> PeerView {
        PeerView {
            namespace: self.namespace@,
            endpoint: self.endpoint@,
            key: self.key@,
            inbound_provenance: self.inbound_provenance,
        }
    }
}

impl Clone for Peer {
    fn clone(&self) -> (r: Self)
        ensures
            r@ == self@,
    {
        Peer {
            namespace: self.namespace.clone(),
            endpoint: self.endpoint.clone(),
            key: self.key,
            inbound_provenance: self.inbound_provenance,
        }
    }
}

/// The peer directory — `namespace → Peer`. Populated by mutual registration
/// (hand-configured for now). The route stage consults [`PeerDirectory::is_remote`] to
/// decide local-vs-remote before routing.
pub struct PeerDirectory {
    peers: StrMap<Peer>,
}

/// The model of the peers.
spec fn peer_views(m: Map<Seq<char>, Peer>) -> Map<Seq<char>, PeerView> {
    m.map_values(|p: Peer| p@)
}

impl View for PeerDirectory {
    type V = Map<Seq<char>, PeerView>;

    closed spec fn view(&self) -> Map<Seq<char>, PeerView> {
        peer_views(self.peers@)
    }
}

impl Default for PeerDirectory {
    fn default() -> (r: Self)
        ensures
            r@ == Map::<Seq<char>, PeerView>::empty(),
    {
        PeerDirectory::new()
    }
}

impl PeerDirectory {
    /// Every peer is registered under its own namespace.
    #[verifier::type_invariant]
    spec fn by_namespace(self) -> bool {
        forall|ns: Seq<char>| #[trigger]
            self.peers@.contains_key(ns) ==> self.peers@[ns].namespace@ == ns
    }

    /// A directory without peers.
    pub fn new() -> (r: Self)
        ensures
            r@ == Map::<Seq<char>, PeerView>::empty(),
    {
        let r = PeerDirectory { peers: StrMap::new() };
        assert(r@ =~= Map::<Seq<char>, PeerView>::empty());
        r
    }

    /// Register (or replace) a peer.
    pub fn register(&mut self, peer: Peer)
        ensures
            final(self)@ == old(self)@.insert(peer.namespace@, peer@),
    {
        proof {
            use_type_invariant(&*self);
        }
        let namespace = peer.namespace.clone();
        let mut peers: StrMap<Peer> = StrMap::new();
        std::mem::swap(&mut peers, &mut self.peers);
        peers.insert(namespace.as_str(), peer);
        self.peers = peers;
        assert(self@ =~= old(self)@.insert(peer.namespace@, peer@));
    }

    /// Look up a peer by namespace.
    pub fn get(&self, namespace: &str) -> (r: Option<&Peer>)
        ensures
            match r {
                Some(p) => self@.contains_key(namespace@) && p@ == self@[namespace@]
                    && p.namespace@ == namespace@,
                None => !self@.contains_key(namespace@),
            },
    {
        proof {
            use_type_invariant(self);
        }
        self.peers.get(namespace)
    }

    /// Whether `namespace` is a registered remote node (⇒ route via federation, not local).
    pub fn is_remote(&self, namespace: &str) -> (r: bool)
        ensures
            r == self@.contains_key(namespace@),
    {
        self.peers.contains_key(namespace)
    }
}

// ── Inbound ──────────────────────────────────────────────────────────

/// The address `from` with its namespace replaced by `namespace`: the leading segment of
/// two or more is replaced, a bare agent is prefixed.
pub open spec fn rerooted(from: Seq<SegmentView>, namespace: Seq<char>) -> Seq<SegmentView> {
    let root = SegmentView { name: namespace, key: None };
    if from.len() >= 2 {
        seq![root] + from.skip(1)
    } else {
        seq![root] + from
    }
}

/// Re-root an inbound `from` address onto the authenticated peer `namespace`, overwriting
/// whatever namespace the sender claimed. This is what makes origin **unforgeable**: a peer
/// can claim *which of its agents* sent the message, but not *which namespace* — it can
/// never assert `root` (or any namespace but its own) on the front.
pub fn reroot_origin(from: &Address, namespace: &str) -> (r: Address)
    ensures
        r@ == rerooted(from@, namespace@),
{
    let mut segments: Vec<Segment> = Vec::new();
    segments.push(Segment { name: namespace.to_owned(), key: None });
    let first: usize = if from.segments.len() >= 2 {
        1
    } else {
        0
    };
    let mut i: usize = first;
    while i < from.segments.len()
        invariant
            first <= i <= from.segments@.len(),
            first <= 1,
            segments@.len() == 1 + i - first,
            segments@[0]@ == (SegmentView { name: namespace@, key: None }),
            forall|j: int|
                1 <= j < segments@.len() ==> #[trigger] segments@[j]@ == from.segments@[j - 1
                    + first]@,
        decreases from.segments@.len() - i,
    {
        segments.push(from.segments[i].clone());
        i += 1;
    }
    let r = Address { segments };
    assert(r@ =~= rerooted(from@, namespace@));
    r
}

/// An opened envelope as it goes on from here: its origin re-rooted onto the sender, and
/// the sender's edge provenance unioned in.
pub open spec fn stamped(
    env: EnvelopeView,
    sender: Seq<char>,
    peers: Map<Seq<char>, PeerView>,
) -> EnvelopeView {
    EnvelopeView {
        meta: MetaView {
            from: rerooted(env.meta.from, sender),
            provenance: if peers.contains_key(sender) {
                provenance::union_of(env.meta.provenance, peers[sender].inbound_provenance)
            } else {
                env.meta.provenance
            },
            ..env.meta
        },
        ..env
    }
}

/// Stamps an opened envelope with the authenticated sender and its edge provenance.
pub fn stamp_inbound(envelope: Envelope, sender: &str, directory: &PeerDirectory) -> (r: Envelope)
    ensures
        r@ == stamped(envelope@, sender@, directory@),
{
    let mut env = envelope;
    env.meta.from = reroot_origin(&env.meta.from, sender);
    if let Some(peer) = directory.get(sender) {
        env.meta.provenance = env.meta.provenance.union(peer.inbound_provenance);
    }
    env
}

/// The destination as it is known locally: without this node's own namespace in front.
pub open spec fn stripped(to: Seq<SegmentView>, node: Seq<char>) -> Seq<SegmentView> {
    if to.len() > 1 && to[0].name == node {
        to.skip(1)
    } else {
        to
    }
}

/// An envelope with its destination as it is known locally.
pub open spec fn localized(env: EnvelopeView, node: Seq<char>) -> EnvelopeView {
    EnvelopeView {
        meta: MetaView {
            to: match env.meta.to {
                Some(to) => Some(stripped(to, node)),
                None => None,
            },
            ..env.meta
        },
        ..env
    }
}

/// Whether `r` is what becomes of a stamped envelope once the authorizer has answered.
pub open spec fn is_admission(
    env: EnvelopeView,
    node: Seq<char>,
    verdict: Result<(), String>,
    r: Result<Envelope, FederationError>,
) -> bool {
    match (r, verdict) {
        (Ok(out), Ok(_)) => out@ == localized(env, node),
        (Err(e), Err(why)) => e@ == FederationFault::Unauthorized(why@),
        _ => false,
    }
}

/// What becomes of a stamped envelope once the authorizer has answered: refused, or let
/// in with its destination as it is known locally.
pub fn admit_inbound(envelope: Envelope, node: &str, verdict: Result<(), String>) -> (r: Result<
    Envelope,
    FederationError,
>)
    ensures
        is_admission(envelope@, node@, verdict, r),
{
    match verdict {
        Ok(_) => {},
        Err(why) => {
            return Err(FederationError::Unauthorized(why));
        },
    }
    let mut env = envelope;
    let to = match env.meta.to {
        Some(mut to) => {
            let ghost before = to@;
            if to.segments.len() > 1 && text::same_text(to.segments[0].name.as_str(), node) {
                assert(before[0] == to.segments@[0]@);
                to.segments.remove(0);
                assert(to@ =~= before.skip(1));
            } else {
                proof {
                    if before.len() > 1 {
                        assert(before[0] == to.segments@[0]@);
                    }
                }
            }
            Some(to)
        },
        None => None,
    };
    env.meta.to = to;
    Ok(env)
}

/// Authorization at the federation seam: given the **edge-stamped, unforgeable** origin
/// `from` and the target `to`, may this crossing proceed?
///
/// The *rule* is the host's (the tenant/namespace matrix — e.g. "a namespaced remote origin
/// may never reach the `root` namespace"); the *seam* — a guaranteed call, post-stamp,
/// pre-delivery, that fails closed on rejection — is the pipeline's.
pub trait Authorizer {
    /// Whether a message may cross, or why not.
    fn authorize(&self, from: &Address, to: &Address) -> Result<(), String>;
}

/// An authorizer that permits everything — for local/trusted setups and tests. Federation
/// deployments inject a real matrix instead.
pub struct AllowAll;

impl Authorizer for AllowAll {
    fn authorize(&self, _from: &Address, _to: &Address) -> (r: Result<(), String>)
        ensures
            r is Ok,
    {
        Ok(())
    }
}

/// Inbound: open a peer frame, stamp the origin and the edge provenance, ask the
/// authorizer, and strip our own namespace. The authorizer is asked about every message
/// with a destination, after the stamp, and its refusal stands.
pub fn receive_frame<A: Authorizer>(
    node: &str,
    directory: &PeerDirectory,
    authorizer: &A,
    frame: &[u8],
) -> (r: Result<Envelope, FederationError>)
    ensures
        match opened(frame@, directory@) {
            Err(f) => r matches Err(e) && e@ == f,
            Ok((env, sender)) => {
                let inbound = stamped(env, sender, directory@);
                match inbound.meta.to {
                    None => r matches Ok(out) && out@ == localized(inbound, node@),
                    Some(target) => exists|from: Address, to: Address, verdict: Result<(), String>|
                        {
                            &&& from@ == inbound.meta.from
                            &&& to@ == target
                            &&& #[trigger] call_ensures(
                                A::authorize,
                                (authorizer, &from, &to),
                                verdict,
                            )
                            &&& is_admission(inbound, node@, verdict, r)
                        },
                }
            },
        },
{
    let (envelope, sender) = match open(frame, directory) {
        Ok(opened) => opened,
        Err(e) => {
            return Err(e);
        },
    };
    let env = stamp_inbound(envelope, sender.as_str(), directory);
    let verdict = match &env.meta.to {
        Some(to) => {
            let v = authorizer.authorize(&env.meta.from, to);
            assert(call_ensures(A::authorize, (authorizer, &env.meta.from, to), v));
            v
        },
        None => Ok(()),
    };
    admit_inbound(env, node, verdict)
}

// ── Outbound ─────────────────────────────────────────────────────────

/// The peer that an envelope leaves for: the one that its destination's leading segment
/// names.
pub open spec fn outbound_to(
    to: Option<Seq<SegmentView>>,
    peers: Map<Seq<char>, PeerView>,
) -> Result<PeerView, FederationFault> {
    match to {
        Some(to) if to.len() > 0 => if peers.contains_key(to[0].name) {
            Ok(peers[to[0].name])
        } else {
            Err(FederationFault::NotRemote(to[0].name))
        },
        _ => Err(FederationFault::NoDestination),
    }
}

/// The peer that an envelope leaves for.
pub fn outbound_peer<'a>(envelope: &Envelope, directory: &'a PeerDirectory) -> (r: Result<
    &'a Peer,
    FederationError,
>)
    ensures
        match (r, outbound_to(envelope@.meta.to, directory@)) {
            (Ok(p), Ok(w)) => p@ == w,
            (Err(e), Err(f)) => e@ == f,
            _ => false,
        },
{
    let to = match &envelope.meta.to {
        Some(to) => to,
        None => {
            return Err(FederationError::NoDestination);
        },
    };
    let node = match to.node() {
        Some(node) => node,
        None => {
            return Err(FederationError::NoDestination);
        },
    };
    match directory.get(node) {
        Some(peer) => Ok(peer),
        None => Err(FederationError::NotRemote(node.to_owned())),
    }
}

/// Outbound: the endpoint of an envelope's destination node, and the frame to send there.
///
/// The destination node is the envelope's **leading address segment** (`ringhub.bob`
/// → node `ringhub`). Fails if that segment isn't a registered peer.
pub fn send_frame(node: &str, directory: &PeerDirectory, envelope: &Envelope) -> (r: Result<
    (String, Vec<u8>),
    FederationError,
>)
    ensures
        match outbound_to(envelope@.meta.to, directory@) {
            Err(f) => r matches Err(e) && e@ == f,
            Ok(peer) => match r {
                Ok((endpoint, frame)) => {
                    &&& endpoint@ == peer.endpoint
                    &&& fits_cipher(plaintext_of(envelope@))
                    &&& is_sealed_somehow(frame@, envelope@, node@, peer.key)
                },
                Err(e) => e@ == FederationFault::Nonce || (e@ == FederationFault::OpenFailed
                    && !fits_cipher(plaintext_of(envelope@))),
            },
        },
{
    let peer = match outbound_peer(envelope, directory) {
        Ok(peer) => peer,
        Err(e) => {
            return Err(e);
        },
    };
    match seal(envelope, node, &peer.key) {
        Ok(frame) => Ok((peer.endpoint.clone(), frame)),
        Err(e) => Err(e),
    }
}

// ── Laws ─────────────────────────────────────────────────────────────

/// A header names the sender that it was made for, if its length fits in sixteen bits.
pub proof fn law_header_round_trip(sender: Seq<char>, rest: Seq<u8>)
    requires
        text::utf8(sender).len() < 0x1_0000,
    ensures
        header_in(header_of(sender) + rest) == Ok::<_, FederationFault>(
            (sender, header_of(sender).len() as int),
        ),
{
    let frame = header_of(sender) + rest;
    let name = text::utf8(sender);
    let n = name.len();
    assert(frame[0] == VERSION && frame[1] == AUTH_PSK);
    assert(frame[2] == n / 256 && frame[3] == n % 256);
    assert(frame[2] * 256 + frame[3] == n);
    assert(frame.subrange(4, 4 + n as int) =~= name);
    vstd::utf8::encode_utf8_valid_utf8(sender);
    vstd::utf8::encode_utf8_decode_utf8(sender);
}

/// What one node seals, a node that knows it under the same key opens: the same envelope,
/// from the same sender. The sender's name fits in sixteen bits of length, and the
/// envelope survives the wire.
pub proof fn law_seal_open_round_trip(
    frame: Seq<u8>,
    env: EnvelopeView,
    sender: Seq<char>,
    peers: Map<Seq<char>, PeerView>,
)
    requires
        peers.contains_key(sender),
        is_sealed_somehow(frame, env, sender, peers[sender].key),
        text::utf8(sender).len() < 0x1_0000,
        grammar::envelope_survives(env),
    ensures
        opened(frame, peers) == Ok::<_, FederationFault>((env, sender)),
{
    let nonce = choose|nonce: Seq<u8>| is_sealed(frame, env, sender, peers[sender].key, nonce);
    lemma_sealed_parts(frame, env, sender, peers[sender].key, nonce);
}

/// A frame from a sender that is not registered is not opened.
pub proof fn law_unknown_sender_rejected(
    frame: Seq<u8>,
    sender: Seq<char>,
    end: int,
    peers: Map<Seq<char>, PeerView>,
)
    requires
        header_in(frame) == Ok::<_, FederationFault>((sender, end)),
        !peers.contains_key(sender),
    ensures
        opened(frame, peers) == Err::<(EnvelopeView, Seq<char>), _>(
            FederationFault::UnknownPeer(sender),
        ),
{
}

/// A frame that the cipher finds not authentic under its sender's key is not opened.
pub proof fn law_forgery_rejected(
    frame: Seq<u8>,
    sender: Seq<char>,
    end: int,
    peers: Map<Seq<char>, PeerView>,
)
    requires
        header_in(frame) == Ok::<_, FederationFault>((sender, end)),
        peers.contains_key(sender),
        frame.len() >= end + 24,
        aead_decrypted(
            peers[sender].key,
            frame.skip(end).take(24),
            frame.skip(end).skip(24),
            frame.take(end),
        ) is None,
    ensures
        opened(frame, peers) == Err::<(EnvelopeView, Seq<char>), _>(FederationFault::OpenFailed),
{
}

/// The parts of a sealed frame: its header, which names the sender, the nonce and the
/// ciphertext.
proof fn lemma_sealed_parts(
    frame: Seq<u8>,
    env: EnvelopeView,
    sender: Seq<char>,
    key: Seq<u8>,
    nonce: Seq<u8>,
)
    requires
        is_sealed(frame, env, sender, key, nonce),
        text::utf8(sender).len() < 0x1_0000,
    ensures
        ({
            let end = header_of(sender).len() as int;
            &&& header_in(frame) == Ok::<_, FederationFault>((sender, end))
            &&& frame.len() >= end + 24
            &&& frame.take(end) == header_of(sender)
            &&& frame.skip(end).take(24) == nonce
            &&& frame.skip(end).skip(24) == aead_encrypted(
                key,
                nonce,
                plaintext_of(env),
                header_of(sender),
            )
        }),
{
    let header = header_of(sender);
    let sealed = aead_encrypted(key, nonce, plaintext_of(env), header);
    assert(frame =~= header + (nonce + sealed));
    law_header_round_trip(sender, nonce + sealed);
    let end = header.len() as int;
    let body = frame.skip(end);
    assert(frame.take(end) =~= header);
    assert(body =~= nonce + sealed);
    assert(body.take(24) =~= nonce);
    assert(body.skip(24) =~= sealed);
}

/// A sealed frame is not opened by a node that does not know its sender, nor by one that
/// knows the sender under another key, where the cipher finds it not authentic.
pub proof fn law_wrong_key_rejected(
    frame: Seq<u8>,
    env: EnvelopeView,
    sender: Seq<char>,
    key: Seq<u8>,
    nonce: Seq<u8>,
    peers: Map<Seq<char>, PeerView>,
)
    requires
        is_sealed(frame, env, sender, key, nonce),
        text::utf8(sender).len() < 0x1_0000,
    ensures
        !peers.contains_key(sender) ==> opened(frame, peers) == Err::<(EnvelopeView, Seq<char>), _>(
            FederationFault::UnknownPeer(sender),
        ),
        peers.contains_key(sender) && aead_decrypted(
            peers[sender].key,
            nonce,
            aead_encrypted(key, nonce, plaintext_of(env), header_of(sender)),
            header_of(sender),
        ) is None ==> opened(frame, peers) == Err::<(EnvelopeView, Seq<char>), _>(
            FederationFault::OpenFailed,
        ),
{
    lemma_sealed_parts(frame, env, sender, key, nonce);
}

/// Whether the cipher finds nothing authentic under `key` but the one ciphertext.
pub open spec fn rejects_all_but(
    key: Seq<u8>,
    nonce: Seq<u8>,
    sealed: Seq<u8>,
    aad: Seq<u8>,
) -> bool {
    forall|n: Seq<u8>, c: Seq<u8>, a: Seq<u8>| #[trigger]
        aead_decrypted(key, n, c, a) is Some ==> n == nonce && c == sealed && a == aad
}

/// Where the cipher rejects every forgery, a sealed frame that has been changed anywhere,
/// the header included, is not opened. One whose header is as it was, with room for a
/// nonce, is found not authentic.
pub proof fn law_changed_frame_rejected(
    frame: Seq<u8>,
    changed: Seq<u8>,
    env: EnvelopeView,
    sender: Seq<char>,
    nonce: Seq<u8>,
    peer: PeerView,
)
    requires
        is_sealed(frame, env, sender, peer.key, nonce),
        text::utf8(sender).len() < 0x1_0000,
        rejects_all_but(
            peer.key,
            nonce,
            aead_encrypted(peer.key, nonce, plaintext_of(env), header_of(sender)),
            header_of(sender),
        ),
        changed != frame,
    ensures
        opened(changed, map![sender => peer]) is Err,
        ({
            let end = header_of(sender).len() as int;
            changed.len() >= end + 24 && changed.take(end) == header_of(sender)
        }) ==> opened(changed, map![sender => peer]) == Err::<(EnvelopeView, Seq<char>), _>(
            FederationFault::OpenFailed,
        ),
{
    let peers = map![sender => peer];
    let header = header_of(sender);
    let len = header.len() as int;
    if changed.len() >= len + 24 && changed.take(len) == header {
        assert(changed =~= header + changed.skip(len));
        law_header_round_trip(sender, changed.skip(len));
    }
    if let Ok((s, end)) = header_in(changed) {
        if peers.contains_key(s) && changed.len() >= end + 24 {
            let body = changed.skip(end);
            if aead_decrypted(peer.key, body.take(24), body.skip(24), changed.take(end)) is Some {
                assert(changed =~= changed.take(end) + body.take(24) + body.skip(24));
                assert(changed == frame);
            }
        }
    }
}

/// Whatever a peer claims, the node of an inbound origin is the peer's own.
pub proof fn law_origin_is_unforgeable(
    env: EnvelopeView,
    sender: Seq<char>,
    peers: Map<Seq<char>, PeerView>,
)
    ensures
        address::node_of(stamped(env, sender, peers).meta.from) == Some(sender),
{
}

/// Labels that came with a message stay on it, and the peer's edge labels are added.
pub proof fn law_edge_provenance_added(
    env: EnvelopeView,
    sender: Seq<char>,
    peers: Map<Seq<char>, PeerView>,
)
    ensures
        env.meta.provenance@.subset_of(stamped(env, sender, peers).meta.provenance@),
        peers.contains_key(sender) ==> peers[sender].inbound_provenance@.subset_of(
            stamped(env, sender, peers).meta.provenance@,
        ),
{
    if peers.contains_key(sender) {
        provenance::law_union_never_loses(
            env.meta.provenance,
            peers[sender].inbound_provenance,
        );
    }
}

/// A node's own name in front of a destination is dropped, with whatever key it has, and
/// nothing else is changed, whatever the rest looks like.
pub proof fn law_own_name_is_dropped(
    env: EnvelopeView,
    node: Seq<char>,
    key: Option<Seq<char>>,
    rest: Seq<SegmentView>,
)
    requires
        rest.len() > 0,
        env.meta.to == Some(seq![SegmentView { name: node, key }] + rest),
    ensures
        localized(env, node).meta.to == Some(rest),
        localized(env, node).meta.from == env.meta.from,
        localized(env, node).meta.thread == env.meta.thread,
        localized(env, node).meta.provenance == env.meta.provenance,
        localized(env, node).payload == env.payload,
{
    assert((seq![SegmentView { name: node, key }] + rest).skip(1) =~= rest);
}

/// A destination that does not start with the node's own name, or is that name alone,
/// stays as it is, and so does everything else.
pub proof fn law_other_destinations_stay(env: EnvelopeView, node: Seq<char>)
    requires
        match env.meta.to {
            Some(to) => to.len() <= 1 || to[0].name != node,
            None => true,
        },
    ensures
        localized(env, node) == env,
{
}

/// A message that a node addresses to an agent of another arrives there addressed to that
/// agent: the name that made it leave is the name that is dropped.
pub proof fn law_sent_arrives_at_the_agent(
    env: EnvelopeView,
    node: Seq<char>,
    rest: Seq<SegmentView>,
    peers: Map<Seq<char>, PeerView>,
)
    requires
        rest.len() > 0,
        env.meta.to == Some(seq![SegmentView { name: node, key: None }] + rest),
        peers.contains_key(node),
    ensures
        outbound_to(env.meta.to, peers) == Ok::<_, FederationFault>(peers[node]),
        localized(env, node).meta.to == Some(rest),
{
    law_own_name_is_dropped(env, node, None, rest);
    assert((seq![SegmentView { name: node, key: None }] + rest)[0].name == node);
}

/// A peer names which of its agents a message comes from: behind the namespace that the
/// node puts in front, the address is as the peer gave it, but for its own first segment
/// where there was more than one.
pub proof fn law_origin_keeps_the_agent(
    namespace: Seq<char>,
    claimed: SegmentView,
    agent: Seq<SegmentView>,
)
    ensures
        agent.len() > 0 ==> rerooted(seq![claimed] + agent, namespace) == seq![
            SegmentView { name: namespace, key: None },
        ] + agent,
        rerooted(seq![claimed], namespace) == seq![
            SegmentView { name: namespace, key: None },
            claimed,
        ],
        rerooted(seq![], namespace) == seq![SegmentView { name: namespace, key: None }],
{
    assert((seq![claimed] + agent).skip(1) =~= agent);
    let root = SegmentView { name: namespace, key: None };
    assert(rerooted(seq![claimed], namespace) =~= seq![root, claimed]);
    assert(rerooted(seq![], namespace) =~= seq![root]);
}

/// Re-rooting twice onto one namespace is re-rooting once, if there is an agent.
pub proof fn law_rerooting_is_idempotent(from: Seq<SegmentView>, namespace: Seq<char>)
    requires
        from.len() > 0,
    ensures
        rerooted(rerooted(from, namespace), namespace) == rerooted(from, namespace),
{
    assert(rerooted(rerooted(from, namespace), namespace) =~= rerooted(from, namespace));
}

/// The stamp touches the origin and the provenance: what a message says, whom it is for and
/// its thread are the sender's. Its labels are its own and those of the edge, no others.
pub proof fn law_stamp_leaves_the_message(
    env: EnvelopeView,
    sender: Seq<char>,
    peers: Map<Seq<char>, PeerView>,
)
    requires
        peers.contains_key(sender),
    ensures
        stamped(env, sender, peers).payload == env.payload,
        stamped(env, sender, peers).meta.to == env.meta.to,
        stamped(env, sender, peers).meta.thread == env.meta.thread,
        stamped(env, sender, peers).meta.provenance@ == env.meta.provenance@.union(
            peers[sender].inbound_provenance@,
        ),
{
    provenance::law_union_is_set_union(env.meta.provenance, peers[sender].inbound_provenance);
}

/// An envelope leaves for the peer that its destination starts with, whatever stands behind
/// it, and for no other; without a destination, or with one that starts with no peer, it
/// does not leave.
pub proof fn law_outbound_goes_to_the_named_peer(
    first: SegmentView,
    rest: Seq<SegmentView>,
    peers: Map<Seq<char>, PeerView>,
)
    ensures
        peers.contains_key(first.name) ==> outbound_to(Some(seq![first] + rest), peers) == Ok::<
            _,
            FederationFault,
        >(peers[first.name]),
        !peers.contains_key(first.name) ==> outbound_to(Some(seq![first] + rest), peers) == Err::<
            PeerView,
            _,
        >(FederationFault::NotRemote(first.name)),
        outbound_to(Some(seq![]), peers) == Err::<PeerView, _>(FederationFault::NoDestination),
        outbound_to(None, peers) == Err::<PeerView, _>(FederationFault::NoDestination),
{
    assert((seq![first] + rest)[0] == first);
}

/// A header holds the version, the way of authentication, the length of the sender's name
/// in two bytes, the high one first, and the name.
pub proof fn law_header_layout(sender: Seq<char>)
    requires
        text::utf8(sender).len() < 0x1_0000,
    ensures
        header_of(sender).len() == 4 + text::utf8(sender).len(),
        header_of(sender)[0] == 1,
        header_of(sender)[1] == 0,
        header_of(sender)[2] * 256 + header_of(sender)[3] == text::utf8(sender).len(),
        header_of(sender).skip(4) == text::utf8(sender),
{
    let n = text::utf8(sender).len();
    assert((n / 256) % 256 == n / 256);
    assert(header_of(sender).skip(4) =~= text::utf8(sender));
}

/// A frame is held to its header alone before a key is looked up: what stands behind the
/// header does not change which sender it names.
pub proof fn law_header_stands_alone(frame: Seq<u8>, rest: Seq<u8>, sender: Seq<char>, end: int)
    requires
        header_in(frame) == Ok::<_, FederationFault>((sender, end)),
    ensures
        4 <= end <= frame.len(),
        text::utf8(sender) == frame.subrange(4, end),
        header_in(frame + rest) == header_in(frame),
        header_in(frame.take(end) + rest) == header_in(frame),
{
    vstd::utf8::decode_utf8_encode_utf8(frame.subrange(4, end));
    assert((frame + rest).subrange(4, end) =~= frame.subrange(4, end));
    assert((frame.take(end) + rest).subrange(4, end) =~= frame.subrange(4, end));
}

/// Frames of another version, or authenticated in another way, are refused as such,
/// whatever stands behind; and so are frames that are shorter than they say.
pub proof fn law_foreign_frames_are_refused(frame: Seq<u8>)
    ensures
        frame.len() < 4 ==> header_in(frame) == Err::<(Seq<char>, int), _>(
            FederationFault::MalformedFrame,
        ),
        frame.len() >= 4 && frame[0] != 1 ==> header_in(frame) == Err::<(Seq<char>, int), _>(
            FederationFault::UnsupportedVersion(frame[0]),
        ),
        frame.len() >= 4 && frame[0] == 1 && frame[1] != 0 ==> header_in(frame) == Err::<
            (Seq<char>, int),
            _,
        >(FederationFault::UnsupportedAuth(frame[1])),
        frame.len() >= 4 && frame[0] == 1 && frame[1] == 0 && frame.len() < 4 + frame[2] * 256
            + frame[3] ==> header_in(frame) == Err::<(Seq<char>, int), _>(
            FederationFault::MalformedFrame,
        ),
{
}

/// What the authorizer refuses does not come in, and the reason is the authorizer's; what
/// it lets in comes in, from whom and for whatever it was, and with all its labels.
pub proof fn law_the_authorizer_decides(
    env: EnvelopeView,
    node: Seq<char>,
    verdict: Result<(), String>,
    r: Result<Envelope, FederationError>,
)
    requires
        is_admission(env, node, verdict, r),
    ensures
        r is Ok <==> verdict is Ok,
        verdict matches Err(why) ==> (r matches Err(FederationError::Unauthorized(s)) && s@ == why@),
        r matches Ok(out) ==> {
            &&& out@.meta.from == env.meta.from
            &&& out@.meta.thread == env.meta.thread
            &&& out@.meta.provenance == env.meta.provenance
            &&& out@.payload == env.payload
            &&& out@.meta.to is Some <==> env.meta.to is Some
        },
{
}

/// A frame that is opened was sealed under the key of the sender that it names: the sender
/// is a peer, the cipher found it authentic under that peer's key, with the header as
/// associated data, and what it found is the envelope.
pub proof fn law_opened_is_authentic(
    frame: Seq<u8>,
    peers: Map<Seq<char>, PeerView>,
    env: EnvelopeView,
    sender: Seq<char>,
)
    requires
        opened(frame, peers) == Ok::<_, FederationFault>((env, sender)),
    ensures
        peers.contains_key(sender),
        ({
            let end = 4 + text::utf8(sender).len() as int;
            let body = frame.skip(end);
            &&& frame.len() >= end + 24
            &&& frame.subrange(4, end) == text::utf8(sender)
            &&& aead_decrypted(
                peers[sender].key,
                body.take(24),
                body.skip(24),
                frame.take(end),
            ) matches Some(plain) && grammar::envelope_from(markup::markup_of(plain)) == Ok::<
                _,
                ErrorView,
            >(env)
        }),
{
    let (s, end) = header_in(frame)->Ok_0;
    law_header_stands_alone(frame, seq![], s, end);
}

/// A frame of a known sender without room for a nonce is malformed.
pub proof fn law_short_frames_are_malformed(
    frame: Seq<u8>,
    peers: Map<Seq<char>, PeerView>,
    sender: Seq<char>,
    end: int,
)
    requires
        header_in(frame) == Ok::<_, FederationFault>((sender, end)),
        peers.contains_key(sender),
        frame.len() < end + 24,
    ensures
        opened(frame, peers) == Err::<(EnvelopeView, Seq<char>), _>(
            FederationFault::MalformedFrame,
        ),
{
    law_header_stands_alone(frame, seq![], sender, end);
}

/// What is let in is addressed as it is known here: the node's own name, once, is gone from
/// the front of the destination, and any other destination is as the sender gave it.
pub proof fn law_admitted_is_locally_routable(
    env: EnvelopeView,
    node: Seq<char>,
    key: Option<Seq<char>>,
    rest: Seq<SegmentView>,
    verdict: Result<(), String>,
    out: Envelope,
)
    requires
        is_admission(env, node, verdict, Ok(out)),
    ensures
        rest.len() > 0 && env.meta.to == Some(seq![SegmentView { name: node, key }] + rest)
            ==> out@.meta.to == Some(rest),
        match env.meta.to {
            Some(to) => to.len() <= 1 || to[0].name != node,
            None => true,
        } ==> out@ == env,
{
    if rest.len() > 0 && env.meta.to == Some(seq![SegmentView { name: node, key }] + rest) {
        law_own_name_is_dropped(env, node, key, rest);
    }
}

} // verus!
