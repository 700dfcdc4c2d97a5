//! An agent and the decisions of its protocol.
//!
//! The protocol runs over a datagram transport that the caller owns. Each
//! function here takes what was received and returns what to send, or the
//! error that ends the exchange:
//! - initiator: send `invitation()` to the target's address
//!   (`handshake_destination`), pass the answer to `introduction` and send
//!   the identity frame it returns, then pass the answer to `handshake`;
//! - responder: pass the first datagram to `check_invitation` and send the
//!   acknowledgement back, then pass the identity frame to `listen` and send
//!   back the reply it returns;
//! - messages: `send_message` returns the peer's address and the frame to
//!   send; `recv_message` takes a received frame.

use vstd::prelude::*;
use vstd::string::StringSliceAdditionalSpecFns;
use vstd::utf8::encode_utf8;

use rsa::RsaPrivateKey;

use crate::address::{address_of, SocketAddress};
use crate::directory::{
    distinct_identities, first_named, holds_identity, holds_once, lemma_upserted, upserted,
    PeerDirectory,
};
use crate::error::MitteError;
use crate::identity::{
    accepts_key, encodes, identity_frame, lemma_encoding_unique, lemma_frame_round_trip, AgentDescription, IdentityView,
    MAX_NAME_LEN,
};
use crate::keys::{
    decrypt_with, decryption_of, encrypt_for, exponent_accepted, generate_private_key,
    is_pkcs1_encryption, public_key_bytes, public_part_of, KEY_BYTES,
};
use crate::message::{
    frame_payload, has_header, is_complete_frame, lemma_message_frame_round_trip, message_frame, open,
    seal, MAX_MESSAGE_LEN,
    MESSAGE_FRAME_CAPACITY,
};

verus! {

/// The initiator's first datagram: eight zero bytes.
pub open spec fn invite_frame() -> Seq<u8> {
    Seq::new(8, |i: int| 0u8)
}

/// The responder's acknowledgement: eight bytes of value 8.
pub open spec fn ack_frame() -> Seq<u8> {
    Seq::new(8, |i: int| 8u8)
}

/// The responder's reply to an identity frame: it accepts, and says whether
/// the initiator is new to it.
pub open spec fn reply_frame(is_new: bool) -> Seq<u8> {
    seq![1u8, 1u8, if is_new { 1u8 } else { 0u8 }, 1u8]
}

/// A reply of four bytes whose first and last bytes are 1.
pub open spec fn is_padded_reply(b: Seq<u8>) -> bool {
    b.len() == 4 && b[0] == 1 && b[3] == 1
}

/// What the reply says of the initiator, new (1) or known (0), agrees with
/// whether `peers` already describe `target`.
pub open spec fn agrees_with_directory(
    b: Seq<u8>,
    peers: Seq<IdentityView>,
    target: IdentityView,
) -> bool {
    ||| b[2] == 1 && !holds_identity(peers, target)
    ||| b[2] == 0 && holds_identity(peers, target)
}

fn filled(value: u8, n: usize) -> (r: Vec<u8>)
    ensures
        r@ == Seq::new(n as nat, |i: int| value),
{
    let mut r: Vec<u8> = Vec::with_capacity(n);
    let mut i: usize = 0;
    while i < n
        invariant
            i <= n,
            r@ == Seq::new(i as nat, |j: int| value),
        decreases n - i,
    {
        r.push(value);
        i = i + 1;
    }
    r
}

fn is_filled(b: &[u8], value: u8, n: usize) -> (r: bool)
    ensures
        r == (b@ == Seq::new(n as nat, |i: int| value)),
{
    if b.len() != n {
        return false;
    }
    let mut i: usize = 0;
    while i < n
        invariant
            i <= n,
            b@.len() == n,
            forall|j: int| 0 <= j < i ==> b@[j] == value,
        decreases n - i,
    {
        if b[i] != value {
            assert(b@[i as int] != Seq::new(n as nat, |j: int| value)[i as int]);
            return false;
        }
        i = i + 1;
    }
    assert(b@ == Seq::new(n as nat, |j: int| value));
    true
}

/// The invitation that opens a handshake.
pub fn invitation() -> (r: Vec<u8>)
    ensures
        r@ == invite_frame(),
{
    filled(0, 8)
}

/// The acknowledgement of an invitation.
pub fn acknowledgement() -> (r: Vec<u8>)
    ensures
        r@ == ack_frame(),
{
    filled(8, 8)
}

/// The responder's first step: an invitation is answered with the
/// acknowledgement; anything else ends the exchange.
pub fn check_invitation(probe: &[u8]) -> (r: Result<Vec<u8>, MitteError>)
    ensures
        probe@ == invite_frame() ==> (r matches Ok(a) && a@ == ack_frame()),
        probe@ != invite_frame() ==> (r matches Err(e) && e is ListenError && e.reason()
            == "malformed input"@),
{
    if is_filled(probe, 0, 8) {
        Ok(acknowledgement())
    } else {
        Err(MitteError::ListenError(String::from_str("malformed input")))
    }
}

/// Where the initiator sends its invitation: the target's address.
pub fn handshake_destination(target: &AgentDescription) -> (r: Result<SocketAddress, MitteError>)
    ensures
        match target@.addr {
            Some(a) => r == Ok::<SocketAddress, MitteError>(a),
            None => r matches Err(e) && e is HandshakeError && e.reason()
                == "peer has no address"@,
        },
{
    match target.address() {
        Some(a) => Ok(a),
        None => Err(MitteError::HandshakeError(String::from_str("peer has no address"))),
    }
}

fn reason_of(e: MitteError) -> (r: String)
    ensures
        r@ == e.reason(),
{
    match e {
        MitteError::DescriptionFormatError(r) => r,
        MitteError::AgentCreationError(r) => r,
        MitteError::HandshakeError(r) => r,
        MitteError::ListenError(r) => r,
        MitteError::SendError(r) => r,
        MitteError::ReceiveError(r) => r,
    }
}

/// Decryption with `secret` undoes every PKCS#1 v1.5 encryption under the
/// public key `key`.
pub open spec fn decrypts_own(secret: RsaPrivateKey, key: Seq<u8>) -> bool {
    forall|m: Seq<u8>, c: Seq<u8>|
        #[trigger] is_pkcs1_encryption(key, m, c) ==> decryption_of(secret, c) == Some(m)
}

/// A local endpoint: its own description, its private key, and the peers
/// it has completed a handshake with.
pub struct Agent {
    profile: AgentDescription,
    peers: PeerDirectory,
    secret: RsaPrivateKey,
}

impl Agent {
    /// The agent's own description.
    pub closed spec fn identity(&self) -> IdentityView {
        self.profile@
    }

    /// The peers, in the order of their last confirmation.
    pub closed spec fn peer_list(&self) -> Seq<IdentityView> {
        self.peers@
    }

    /// The agent's private key.
    pub closed spec fn secret_key(&self) -> RsaPrivateKey {
        self.secret
    }

    /// The agent's directory holds no two descriptions of the same agent.
    pub closed spec fn wf(&self) -> bool {
        self.peers.wf()
    }

    /// An agent at the address that `addr` writes, named `name`, with a
    /// fresh key pair of `KEY_BITS` bits and no peers. The name and the
    /// address are checked before a key is generated.
    pub fn new(addr: &str, name: &str) -> (r: Result<Agent, MitteError>)
        ensures
            encode_utf8(name@).len() > MAX_NAME_LEN ==> (r matches Err(e) && e is AgentCreationError
                && e.reason() == "name too long"@),
            encode_utf8(name@).len() <= MAX_NAME_LEN && address_of(addr.spec_bytes()) is None ==> (
            r matches Err(e) && e is AgentCreationError && e.reason()
                == "cannot parse socket address"@),
            encode_utf8(name@).len() <= MAX_NAME_LEN && address_of(addr.spec_bytes()) is Some ==> (
            r is Ok || (r matches Err(e) && e is AgentCreationError && e.reason()
                == "cannot create key"@)),
            r matches Ok(a) ==> {
                &&& a.wf()
                &&& a.identity().addr is Some
                &&& a.identity().addr == address_of(addr.spec_bytes())
                &&& a.identity().name == name@
                &&& a.identity().key == public_part_of(a.secret_key())
                &&& decrypts_own(a.secret_key(), a.identity().key)
                &&& a.peer_list() == Seq::<IdentityView>::empty()
            },
            r matches Err(e) ==> e is AgentCreationError,
    {
        if name.as_bytes().len() > MAX_NAME_LEN {
            return Err(MitteError::AgentCreationError(String::from_str("name too long")));
        }
        if SocketAddress::parse(addr).is_none() {
            return Err(MitteError::AgentCreationError(String::from_str("cannot parse socket address")));
        }
        match generate_private_key() {
            Some(secret) => Agent::from_key(addr, name, secret),
            None => Err(MitteError::AgentCreationError(String::from_str("cannot create key"))),
        }
    }

    /// An agent at the address that `addr` writes, named `name`, that holds
    /// the private key `secret`, with no peers. Its profile carries the
    /// public part of `secret`, which must be a key that a record accepts.
    pub fn from_key(addr: &str, name: &str, secret: RsaPrivateKey) -> (r: Result<
        Agent,
        MitteError,
    >)
        ensures
            encode_utf8(name@).len() > MAX_NAME_LEN ==> (r matches Err(e) && e is AgentCreationError
                && e.reason() == "name too long"@),
            encode_utf8(name@).len() <= MAX_NAME_LEN && address_of(addr.spec_bytes()) is None ==> (
            r matches Err(e) && e is AgentCreationError && e.reason()
                == "cannot parse socket address"@),
            encode_utf8(name@).len() <= MAX_NAME_LEN && address_of(addr.spec_bytes()) is Some
                && !accepts_key(public_part_of(secret)) ==> (r matches Err(e)
                && e is AgentCreationError && e.reason() == "cannot parse public key"@),
            encode_utf8(name@).len() <= MAX_NAME_LEN && address_of(addr.spec_bytes()) is Some
                && accepts_key(public_part_of(secret)) ==> r is Ok,
            r matches Ok(a) ==> {
                &&& a.wf()
                &&& a.identity().addr is Some
                &&& a.identity().addr == address_of(addr.spec_bytes())
                &&& a.identity().name == name@
                &&& a.identity().key == public_part_of(secret)
                &&& a.secret_key() == secret
                &&& a.peer_list() == Seq::<IdentityView>::empty()
            },
            r matches Err(e) ==> e is AgentCreationError,
    {
        if name.as_bytes().len() > MAX_NAME_LEN {
            return Err(MitteError::AgentCreationError(String::from_str("name too long")));
        }
        if SocketAddress::parse(addr).is_none() {
            return Err(MitteError::AgentCreationError(String::from_str("cannot parse socket address")));
        }
        let key = public_key_bytes(&secret);
        assert(key@ + Seq::<u8>::empty() == key@);
        match AgentDescription::new(addr, name, key.as_slice()) {
            Ok(profile) => Ok(Agent { profile, peers: PeerDirectory::new(), secret }),
            Err(e) => Err(MitteError::AgentCreationError(reason_of(e))),
        }
    }

    /// The agent's own description.
    pub fn profile(&self) -> (r: &AgentDescription)
        ensures
            r@ == self.identity(),
    {
        &self.profile
    }

    /// The directory of peers.
    pub fn peers(&self) -> (r: &PeerDirectory)
        ensures
            r@ == self.peer_list(),
    {
        &self.peers
    }

    /// The initiator's second step: once the invitation is acknowledged,
    /// the agent introduces itself with the identity frame of its profile.
    pub fn introduction(&self, ack: &[u8]) -> (r: Result<Vec<u8>, MitteError>)
        ensures
            ack@ != ack_frame() ==> (r matches Err(e) && e is HandshakeError && e.reason()
                == "handshake unacknowledged"@),
            ack@ == ack_frame() ==> (r matches Ok(f) && f@ == identity_frame(self.identity())),
    {
        if !is_filled(ack, 8, 8) {
            return Err(MitteError::HandshakeError(String::from_str("handshake unacknowledged")));
        }
        Ok(self.profile.serialize())
    }

    /// The initiator's last step: the responder's reply to the identity
    /// frame decides the handshake with `target`. An accepted reply whose
    /// new-or-known byte agrees with the directory records `target`;
    /// anything else leaves the directory as it was.
    pub fn handshake(&mut self, target: &AgentDescription, reply: &[u8]) -> (r: Result<
        (),
        MitteError,
    >)
        requires
            old(self).wf(),
        ensures
            final(self).wf(),
            final(self).identity() == old(self).identity(),
            final(self).secret_key() == old(self).secret_key(),
            !is_padded_reply(reply@) ==> (r matches Err(e) && e is HandshakeError && e.reason()
                == "handshake unacknowledged"@),
            is_padded_reply(reply@) && reply@[1] == 0 ==> (r matches Err(e) && e is HandshakeError
                && e.reason() == "handshake rejected"@),
            is_padded_reply(reply@) && reply@[1] != 0 && !agrees_with_directory(
                reply@,
                old(self).peer_list(),
                target@,
            ) ==> (r matches Err(e) && e is HandshakeError && e.reason()
                == "handshake connection malformed"@),
            r is Ok <==> is_padded_reply(reply@) && reply@[1] != 0 && agrees_with_directory(
                reply@,
                old(self).peer_list(),
                target@,
            ),
            r is Ok ==> final(self).peer_list() == upserted(old(self).peer_list(), target@)
                && holds_once(final(self).peer_list(), target@),
            r is Err ==> final(self).peer_list() == old(self).peer_list(),
    {
        if reply.len() != 4 || reply[0] != 1 || reply[3] != 1 {
            return Err(MitteError::HandshakeError(String::from_str("handshake unacknowledged")));
        }
        if reply[1] == 0 {
            return Err(MitteError::HandshakeError(String::from_str("handshake rejected")));
        }
        let present = self.peers.contains(target);
        if (reply[2] == 1 && !present) || (reply[2] == 0 && present) {
            self.peers.upsert(target.duplicate());
            Ok(())
        } else {
            Err(MitteError::HandshakeError(String::from_str("handshake connection malformed")))
        }
    }

    /// The responder's last step: the initiator's identity frame is read,
    /// the initiator is recorded, replacing an earlier description of it,
    /// and the reply says whether it was new.
    pub fn listen(&mut self, frame: &[u8]) -> (r: Result<Vec<u8>, MitteError>)
        requires
            old(self).wf(),
        ensures
            final(self).wf(),
            final(self).identity() == old(self).identity(),
            final(self).secret_key() == old(self).secret_key(),
            (forall|d: IdentityView| !#[trigger] encodes(frame@, d)) ==> (r matches Err(e)
                && e is ListenError && e.reason() == "malformed description"@),
            forall|d: IdentityView| #[trigger]
                encodes(frame@, d) ==> match d.addr {
                    None => r matches Err(e) && e is ListenError && e.reason()
                        == "peer did not send address"@,
                    Some(_) => r matches Ok(reply) && reply@ == reply_frame(
                        !holds_identity(old(self).peer_list(), d),
                    ) && final(self).peer_list() == upserted(old(self).peer_list(), d)
                        && holds_once(final(self).peer_list(), d),
                },
            r is Err ==> final(self).peer_list() == old(self).peer_list(),
    {
        let peer = match AgentDescription::deserialize(frame) {
            Ok(d) => d,
            Err(_) => {
                return Err(MitteError::ListenError(String::from_str("malformed description")));
            },
        };
        proof {
            assert forall|d: IdentityView| #[trigger] encodes(frame@, d) implies d == peer@ by {
                lemma_encoding_unique(frame@, d, peer@);
            }
        }
        if peer.address().is_none() {
            return Err(MitteError::ListenError(String::from_str("peer did not send address")));
        }
        let present = self.peers.contains(&peer);
        self.peers.upsert(peer);
        let is_new: u8 = if present {
            0
        } else {
            1
        };
        let mut reply: Vec<u8> = Vec::with_capacity(4);
        reply.push(1);
        reply.push(1);
        reply.push(is_new);
        reply.push(1);
        Ok(reply)
    }

    /// Encrypts `msg` for the first peer named `peer_name` and frames it.
    /// Returns the peer's address and the frame to send there. The peer is
    /// looked up first; a message longer than `MAX_MESSAGE_LEN` is then
    /// refused before anything is encrypted.
    pub fn send_message(&self, msg: &[u8], peer_name: &str) -> (r: Result<
        (SocketAddress, Vec<u8>),
        MitteError,
    >)
        requires
            self.wf(),
        ensures
            (forall|j: int|
                0 <= j < self.peer_list().len() ==> #[trigger] self.peer_list()[j].name
                    != peer_name@) ==> (r matches Err(e) && e is SendError && e.reason()
                == "name is not in peers list"@),
            forall|i: int|
                #[trigger] first_named(self.peer_list(), peer_name@, i) && msg@.len()
                    > MAX_MESSAGE_LEN ==> (r matches Err(e) && e is SendError && e.reason()
                    == "message too long"@),
            forall|i: int|
                #[trigger] first_named(self.peer_list(), peer_name@, i) && msg@.len()
                    <= MAX_MESSAGE_LEN && self.peer_list()[i].addr is None ==> (r matches Err(e)
                    && e is SendError && e.reason() == "peer has no address"@),
            forall|i: int|
                #[trigger] first_named(self.peer_list(), peer_name@, i) && msg@.len()
                    <= MAX_MESSAGE_LEN && self.peer_list()[i].addr is Some ==> {
                    &&& r is Ok <==> exponent_accepted(self.peer_list()[i].key)
                    &&& r is Err ==> (r matches Err(e) && e is SendError && e.reason()
                        == "encryption failed"@)
                },
            r matches Ok((a, f)) ==> {
                &&& msg@.len() <= MAX_MESSAGE_LEN
                &&& exists|i: int, c: Seq<u8>|
                    #[trigger] first_named(self.peer_list(), peer_name@, i)
                        && self.peer_list()[i].addr == Some(a) && c.len() == KEY_BYTES && f@
                        == #[trigger] message_frame(c) && is_pkcs1_encryption(
                        self.peer_list()[i].key,
                        msg@,
                        c,
                    )
                &&& f@.len() == MESSAGE_FRAME_CAPACITY
            },
            r matches Err(e) ==> e is SendError,
    {
        let i = match self.peers.find_by_name(peer_name) {
            Some(i) => i,
            None => {
                return Err(MitteError::SendError(String::from_str("name is not in peers list")));
            },
        };
        if msg.len() > MAX_MESSAGE_LEN {
            return Err(MitteError::SendError(String::from_str("message too long")));
        }
        let peer = self.peers.get(i);
        let addr = match peer.address() {
            Some(a) => a,
            None => {
                return Err(MitteError::SendError(String::from_str("peer has no address")));
            },
        };
        assert(peer@.wf());
        let c = match encrypt_for(peer.key(), msg) {
            Some(c) => c,
            None => {
                return Err(MitteError::SendError(String::from_str("encryption failed")));
            },
        };
        let frame = seal(c.as_slice());
        assert(first_named(self.peer_list(), peer_name@, i as int));
        Ok((addr, frame))
    }

    /// Reads a message frame and decrypts its ciphertext with the agent's
    /// private key.
    pub fn recv_message(&self, datagram: &[u8]) -> (r: Result<Vec<u8>, MitteError>)
        ensures
            !has_header(datagram@) ==> (r matches Err(e) && e is ReceiveError && e.reason()
                == "incorrect setup values"@),
            has_header(datagram@) && !is_complete_frame(datagram@) ==> (r matches Err(e)
                && e is ReceiveError && e.reason() == "truncated message"@),
            is_complete_frame(datagram@) ==> match decryption_of(
                self.secret_key(),
                frame_payload(datagram@),
            ) {
                Some(m) => r matches Ok(x) && x@ == m,
                None => r matches Err(e) && e is ReceiveError && e.reason() == "decryption error"@,
            },
            r is Ok ==> is_complete_frame(datagram@),
            r matches Err(e) ==> e is ReceiveError,
    {
        let c = match open(datagram) {
            Ok(c) => c,
            Err(e) => return Err(e),
        };
        match decrypt_with(&self.secret, c.as_slice()) {
            Some(m) => Ok(m),
            None => Err(MitteError::ReceiveError(String::from_str("decryption error"))),
        }
    }
}

/// A handshake between an initiator `a` and a responder `b` whose
/// directories agree on whether the two have met succeeds on both sides:
/// the responder reads exactly `a` from its identity frame, the initiator
/// accepts the reply, and each then holds the other exactly once.
pub proof fn lemma_handshake_succeeds(
    a: IdentityView,
    b: IdentityView,
    a_peers: Seq<IdentityView>,
    b_peers: Seq<IdentityView>,
)
    requires
        a.wf(),
        a.addr is Some,
        distinct_identities(a_peers),
        distinct_identities(b_peers),
        holds_identity(a_peers, b) == holds_identity(b_peers, a),
    ensures
        forall|d: IdentityView| #[trigger] encodes(identity_frame(a), d) <==> d == a,
        ({
            let reply = reply_frame(!holds_identity(b_peers, a));
            is_padded_reply(reply) && reply[1] != 0 && agrees_with_directory(reply, a_peers, b)
        }),
        holds_once(upserted(a_peers, b), b),
        holds_once(upserted(b_peers, a), a),
{
    lemma_frame_round_trip(a);
    lemma_upserted(a_peers, b);
    lemma_upserted(b_peers, a);
}

/// A message sent to a peer is received as sent: the frame that carries a
/// PKCS#1 v1.5 encryption of `msg` under the receiver's public key is a
/// complete frame, and decrypting its payload with the receiver's private
/// key gives `msg` back.
pub proof fn lemma_message_round_trip(secret: RsaPrivateKey, key: Seq<u8>, msg: Seq<u8>, c: Seq<u8>)
    requires
        decrypts_own(secret, key),
        is_pkcs1_encryption(key, msg, c),
        c.len() == KEY_BYTES,
    ensures
        is_complete_frame(message_frame(c)),
        decryption_of(secret, frame_payload(message_frame(c))) == Some(msg),
{
    lemma_message_frame_round_trip(c);
}

} // verus!
