//! The identity of an agent and the fixed-size frame that carries it.
//!
//! An identity frame is laid out as bincode lays out the record
//! (address, key, name), then padded with zero bytes to `IDENTITY_FRAME_LEN`:
//! - the address: a tag byte, 0 for none, or 1 followed by the four octets
//!   of the IPv4 address and the port, low byte first;
//! - the key, as `keys::read_public_key` keeps it;
//! - the name: its length in bytes as a little-endian `u64` (a name holds at
//!   most `MAX_NAME_LEN` bytes, so only the first of the eight is not zero),
//!   then its UTF-8 bytes.

use vstd::prelude::*;
use vstd::utf8::{
    decode_utf8, decode_utf8_encode_utf8, encode_utf8, encode_utf8_decode_utf8,
    encode_utf8_valid_utf8,
};

use vstd::string::StringSliceAdditionalSpecFns;

use crate::address::{address_of, SocketAddress};
use crate::bytes::{all_zero, append_bytes, copy_range, holds_at};
use crate::error::MitteError;
use crate::keys::{
    is_key_encoding, modulus_len_of, public_key_of, read_public_key, utf8_text,
    KEY_BYTES,
};

verus! {

/// Longest name of an agent, in bytes of UTF-8.
pub const MAX_NAME_LEN: usize = 20;

/// Length of an identity frame in bytes.
pub const IDENTITY_FRAME_LEN: usize = 320;

/// Longest key encoding that a record keeps: what a frame leaves after the
/// longest address and name fields. A key of `KEY_BYTES`, as bincode writes
/// it, takes 276 bytes.
pub const MAX_KEY_LEN: usize = 285;

/// A key that a record accepts: its modulus is `KEY_BYTES` long and its
/// encoding fits a frame.
pub open spec fn accepts_key(key: Seq<u8>) -> bool {
    modulus_len_of(key) == KEY_BYTES && key.len() <= MAX_KEY_LEN
}

/// What an identity record holds, as mathematical values.
pub struct IdentityView {
    pub addr: Option<SocketAddress>,
    pub key: Seq<u8>,
    pub name: Seq<char>,
}

impl IdentityView {
    /// A record that the library accepts: a key kept as bincode writes it,
    /// which the record accepts, and a short name.
    pub open spec fn wf(self) -> bool {
        &&& is_key_encoding(self.key)
        &&& accepts_key(self.key)
        &&& encode_utf8(self.name).len() <= MAX_NAME_LEN
    }

    /// Two records describe the same agent when key and name match; the
    /// address is left out, so that an agent that moves is still known.
    pub open spec fn same_identity(self, other: IdentityView) -> bool {
        self.key == other.key && self.name == other.name
    }
}

/// The bytes that carry an optional address.
pub open spec fn address_field(a: Option<SocketAddress>) -> Seq<u8> {
    match a {
        None => seq![0u8],
        Some(a) => seq![1u8, a.ip.0, a.ip.1, a.ip.2, a.ip.3, (a.port % 256) as u8, (a.port / 256) as u8],
    }
}

/// The bytes that carry a name of at most `MAX_NAME_LEN` bytes.
pub open spec fn name_field(name: Seq<char>) -> Seq<u8> {
    seq![encode_utf8(name).len() as u8, 0u8, 0u8, 0u8, 0u8, 0u8, 0u8, 0u8] + encode_utf8(name)
}

/// The encoding of a record, before padding.
pub open spec fn record_bytes(d: IdentityView) -> Seq<u8> {
    address_field(d.addr) + d.key + name_field(d.name)
}

/// The identity frame of a record: its encoding, then zeros.
pub open spec fn identity_frame(d: IdentityView) -> Seq<u8> {
    record_bytes(d) + Seq::new((IDENTITY_FRAME_LEN - record_bytes(d).len()) as nat, |i: int| 0u8)
}

/// `bytes` begin with the encoding of the well-formed record `d`; what
/// follows the encoding is not read.
pub open spec fn encodes(bytes: Seq<u8>, d: IdentityView) -> bool {
    &&& d.wf()
    &&& record_bytes(d).len() <= bytes.len()
    &&& bytes.subrange(0, record_bytes(d).len() as int) == record_bytes(d)
}

/// The description of an agent: its address, if known, its public key and
/// its name.
#[derive(Debug)]
pub struct AgentDescription {
    addr: Option<SocketAddress>,
    key: Vec<u8>,
    name: String,
}

impl View for AgentDescription {
    type V = IdentityView;

    closed spec fn view(&self) -> IdentityView {
        IdentityView { addr: self.addr, key: self.key@, name: self.name@ }
    }
}

impl AgentDescription {
    #[verifier::type_invariant]
    pub open spec fn inv(&self) -> bool {
        self@.wf()
    }

    /// Builds a description from the text of an IPv4 socket address, a name
    /// of at most `MAX_NAME_LEN` bytes and the bincode encoding of an RSA
    /// public key whose modulus is `KEY_BYTES` long and whose encoding, as
    /// bincode writes it, is at most `MAX_KEY_LEN` bytes. The name is checked
    /// first, then the key, then the address.
    pub fn new(addr: &str, name: &str, key: &[u8]) -> (r: Result<AgentDescription, MitteError>)
        ensures
            encode_utf8(name@).len() > MAX_NAME_LEN ==> (r matches Err(e)
                && e is DescriptionFormatError && e.reason() == "name too long"@),
            encode_utf8(name@).len() <= MAX_NAME_LEN && !(public_key_of(key@) matches Some(k)
                && accepts_key(k)) ==> (r matches Err(e)
                && e is DescriptionFormatError && e.reason() == "cannot parse public key"@),
            encode_utf8(name@).len() <= MAX_NAME_LEN && (public_key_of(key@) matches Some(k)
                && accepts_key(k)) && address_of(addr.spec_bytes()) is None ==> (
            r matches Err(e) && e is DescriptionFormatError && e.reason()
                == "cannot parse socket address"@),
            encode_utf8(name@).len() <= MAX_NAME_LEN && (public_key_of(key@) matches Some(k)
                && accepts_key(k)) && address_of(addr.spec_bytes()) is Some ==> r is Ok,
            r matches Ok(d) ==> {
                &&& public_key_of(key@) == Some(d@.key)
                &&& d@.addr is Some
                &&& d@.addr == address_of(addr.spec_bytes())
                &&& d@.name == name@
                &&& d@.wf()
            },
    {
        let name_len = name.as_bytes().len();
        if name_len > MAX_NAME_LEN {
            return Err(MitteError::DescriptionFormatError(String::from_str("name too long")));
        }
        let k = match read_public_key(key) {
            Some((k, size)) => {
                if size != KEY_BYTES || k.len() > MAX_KEY_LEN {
                    return Err(
                        MitteError::DescriptionFormatError(String::from_str("cannot parse public key")),
                    );
                }
                k
            },
            None => {
                return Err(
                    MitteError::DescriptionFormatError(String::from_str("cannot parse public key")),
                );
            },
        };
        match SocketAddress::parse(addr) {
            Some(a) => Ok(AgentDescription { addr: Some(a), key: k, name: String::from_str(name) }),
            None => Err(
                MitteError::DescriptionFormatError(String::from_str("cannot parse socket address")),
            ),
        }
    }

    /// The address, if the record carries one.
    pub fn address(&self) -> (r: Option<SocketAddress>)
        ensures
            r == self@.addr,
    {
        self.addr
    }

    /// The name.
    pub fn name(&self) -> (r: &str)
        ensures
            r@ == self@.name,
    {
        self.name.as_str()
    }

    /// The kept encoding of the public key.
    pub fn key(&self) -> (r: &[u8])
        ensures
            r@ == self@.key,
    {
        self.key.as_slice()
    }

    /// A copy of the record.
    pub fn duplicate(&self) -> (r: AgentDescription)
        ensures
            r@ == self@,
    {
        proof {
            use_type_invariant(self);
        }
        let key = copy_range(self.key.as_slice(), 0, self.key.len());
        assert(self.key@.subrange(0, self.key@.len() as int) == self.key@);
        AgentDescription { addr: self.addr, key, name: self.name.clone() }
    }

    /// The identity frame of this record: its encoding padded with zeros to
    /// `IDENTITY_FRAME_LEN` bytes.
    pub fn serialize(&self) -> (r: Vec<u8>)
        ensures
            r@ == identity_frame(self@),
            r@.len() == IDENTITY_FRAME_LEN,
    {
        proof {
            use_type_invariant(self);
        }
        let name_bytes = self.name.as_str().as_bytes();
        let mut f: Vec<u8> = Vec::with_capacity(IDENTITY_FRAME_LEN);
        match self.addr {
            None => f.push(0),
            Some(a) => {
                f.push(1);
                f.push(a.ip.0);
                f.push(a.ip.1);
                f.push(a.ip.2);
                f.push(a.ip.3);
                f.push((a.port % 256) as u8);
                f.push((a.port / 256) as u8);
            },
        }
        assert(f@ == address_field(self@.addr));
        append_bytes(&mut f, self.key.as_slice());
        f.push(name_bytes.len() as u8);
        let mut z: usize = 0;
        while z < 7
            invariant
                f@ == address_field(self@.addr) + self@.key + seq![name_bytes@.len() as u8]
                    + Seq::new(z as nat, |i: int| 0u8),
                z <= 7,
            decreases 7 - z,
        {
            f.push(0);
            z = z + 1;
        }
        append_bytes(&mut f, name_bytes);
        assert(f@ == record_bytes(self@));
        while f.len() < IDENTITY_FRAME_LEN
            invariant
                record_bytes(self@).len() <= f@.len() <= IDENTITY_FRAME_LEN,
                f@ == record_bytes(self@) + Seq::new(
                    (f@.len() - record_bytes(self@).len()) as nat,
                    |i: int| 0u8,
                ),
            decreases IDENTITY_FRAME_LEN - f@.len(),
        {
            f.push(0);
        }
        f
    }

    /// Reads a record from the front of `bytes`, checking each part: the
    /// address tag; a key that bincode reads and that stands in the bytes as
    /// bincode writes it, which the record accepts; a name of at most
    /// `MAX_NAME_LEN` bytes of UTF-8. What follows the record is not read.
    /// The record read is the only one that `bytes` begin with
    /// (`lemma_encoding_unique`).
    pub fn deserialize(bytes: &[u8]) -> (r: Result<AgentDescription, MitteError>)
        ensures
            match r {
                Ok(d) => encodes(bytes@, d@),
                Err(e) => {
                    &&& forall|x: IdentityView| !#[trigger] encodes(bytes@, x)
                    &&& e is DescriptionFormatError
                    &&& e.reason() == "malformed description"@
                },
            },
    {
        let len = bytes.len();
        if len < 1 {
            proof {
                assert forall|x: IdentityView| !#[trigger] encodes(bytes@, x) by {
                    if encodes(bytes@, x) {
                        lemma_encoded_parts(bytes@, x);
                    }
                }
            }
            return Err(malformed());
        }
        let tag = bytes[0];
        let mut addr: Option<SocketAddress> = None;
        let mut p: usize = 1;
        if tag == 1 {
            if len < 7 {
                proof {
                    assert forall|x: IdentityView| !#[trigger] encodes(bytes@, x) by {
                        if encodes(bytes@, x) {
                            lemma_encoded_parts(bytes@, x);
                        }
                    }
                }
                return Err(malformed());
            }
            let port: u16 = bytes[5] as u16 + 256 * (bytes[6] as u16);
            addr = Some(SocketAddress { ip: (bytes[1], bytes[2], bytes[3], bytes[4]), port });
            p = 7;
        } else if tag != 0 {
            proof {
                assert forall|x: IdentityView| !#[trigger] encodes(bytes@, x) by {
                    if encodes(bytes@, x) {
                        lemma_encoded_parts(bytes@, x);
                    }
                }
            }
            return Err(malformed());
        }
        assert(bytes@.subrange(0, p as int) == address_field(addr));
        proof {
            assert forall|x: IdentityView| #[trigger] encodes(bytes@, x) implies x.addr == addr by {
                lemma_encoded_parts(bytes@, x);
            }
        }
        let rest = copy_range(bytes, p, len);
        let (key, size) = match read_public_key(rest.as_slice()) {
            Some(ks) => ks,
            None => {
                proof {
                    assert forall|x: IdentityView| !#[trigger] encodes(bytes@, x) by {
                        if encodes(bytes@, x) {
                            lemma_encoded_parts(bytes@, x);
                        }
                    }
                }
                return Err(malformed());
            },
        };
        proof {
            assert forall|x: IdentityView| #[trigger] encodes(bytes@, x) implies x.key == key@ by {
                lemma_encoded_parts(bytes@, x);
            }
        }
        if size != KEY_BYTES || key.len() > MAX_KEY_LEN || !holds_at(bytes, p, key.as_slice()) {
            proof {
                assert forall|x: IdentityView| !#[trigger] encodes(bytes@, x) by {
                    if encodes(bytes@, x) {
                        lemma_encoded_parts(bytes@, x);
                    }
                }
            }
            return Err(malformed());
        }
        let q = p + key.len();
        if len - q < 8 {
            proof {
                assert forall|x: IdentityView| !#[trigger] encodes(bytes@, x) by {
                    if encodes(bytes@, x) {
                        lemma_encoded_parts(bytes@, x);
                    }
                }
            }
            return Err(malformed());
        }
        let n = bytes[q] as usize;
        if n > MAX_NAME_LEN || len - q - 8 < n || !all_zero(bytes, q + 1, q + 8) {
            proof {
                assert forall|x: IdentityView| !#[trigger] encodes(bytes@, x) by {
                    if encodes(bytes@, x) {
                        lemma_encoded_parts(bytes@, x);
                    }
                }
            }
            return Err(malformed());
        }
        let name_bytes = copy_range(bytes, q + 8, q + 8 + n);
        let name = match utf8_text(name_bytes.as_slice()) {
            Some(s) => s,
            None => {
                proof {
                    assert forall|x: IdentityView| !#[trigger] encodes(bytes@, x) by {
                        if encodes(bytes@, x) {
                            lemma_encoded_parts(bytes@, x);
                            encode_utf8_valid_utf8(x.name);
                        }
                    }
                }
                return Err(malformed());
            },
        };
        proof {
            decode_utf8_encode_utf8(name_bytes@);
            let d = IdentityView { addr, key: key@, name: name@ };
            assert(encode_utf8(name@) == name_bytes@);
            assert(name_field(name@) == bytes@.subrange(q as int, q + 8 + n)) by {
                assert(bytes@.subrange(q as int, q + 8 + n) == bytes@.subrange(q as int, q + 8)
                    + bytes@.subrange(q + 8, q + 8 + n));
            }
            assert(bytes@.subrange(0, q + 8 + n) == bytes@.subrange(0, p as int)
                + bytes@.subrange(p as int, q as int) + bytes@.subrange(q as int, q + 8 + n));
            assert(record_bytes(d) == bytes@.subrange(0, q + 8 + n));
        }
        Ok(AgentDescription { addr, key, name })
    }

    /// Whether two records describe the same agent.
    pub fn same_identity(&self, other: &AgentDescription) -> (r: bool)
        ensures
            r == self@.same_identity(other@),
    {
        let same_key = self.key.len() == other.key.len() && holds_at(
            self.key.as_slice(),
            0,
            other.key.as_slice(),
        );
        proof {
            if self.key@.len() == other.key@.len() {
                assert(self.key@.subrange(0, other.key@.len() as int) == self.key@);
            }
        }
        same_key && self.name == other.name
    }
}

/// A clone is a copy of the whole record, address included.
impl Clone for AgentDescription {
    fn clone(&self) -> (r: AgentDescription)
        ensures
            r@ == self@,
    {
        self.duplicate()
    }
}

/// Records are equal when they describe the same agent, whatever their
/// addresses.
impl PartialEq for AgentDescription {
    fn eq(&self, other: &AgentDescription) -> (r: bool) {
        self.same_identity(other)
    }
}

impl vstd::std_specs::cmp::PartialEqSpecImpl for AgentDescription {
    open spec fn obeys_eq_spec() -> bool {
        true
    }

    open spec fn eq_spec(&self, other: &AgentDescription) -> bool {
        self@.same_identity(other@)
    }
}

impl Eq for AgentDescription {

}

fn malformed() -> (e: MitteError)
    ensures
        e is DescriptionFormatError,
        e.reason() == "malformed description"@,
{
    MitteError::DescriptionFormatError(String::from_str("malformed description"))
}

/// What the bytes that begin with the encoding of `x` hold, part by part.
proof fn lemma_encoded_parts(v: Seq<u8>, x: IdentityView)
    requires
        encodes(v, x),
    ensures
        ({
            let p = address_field(x.addr).len() as int;
            let q = p + x.key.len();
            let n = encode_utf8(x.name).len() as int;
            &&& v.subrange(0, p) == address_field(x.addr)
            &&& v[0] == address_field(x.addr)[0]
            &&& public_key_of(v.subrange(p, v.len() as int)) == Some(x.key)
            &&& v.subrange(p, q) == x.key
            &&& q + 8 + n <= v.len()
            &&& v[q] == n
            &&& forall|i: int| q + 1 <= i < q + 8 ==> v[i] == 0
            &&& v.subrange(q + 8, q + 8 + n) == encode_utf8(x.name)
        }),
{
    let r = record_bytes(x);
    let a = address_field(x.addr);
    let p = a.len() as int;
    let q = p + x.key.len();
    let n = encode_utf8(x.name).len() as int;
    assert forall|i: int| 0 <= i < r.len() implies v[i] == r[i] by {
        assert(v.subrange(0, r.len() as int)[i] == v[i]);
    }
    assert(v.subrange(0, p) == a);
    assert(v.subrange(p, q) == x.key);
    assert(v.subrange(q + 8, q + 8 + n) == encode_utf8(x.name));
    let t = v.subrange(q, v.len() as int);
    assert(v.subrange(p, v.len() as int) == x.key + t);
    assert(public_key_of(x.key + t) == Some(x.key));
}

/// At most one record is encoded at the front of any bytes.
pub proof fn lemma_encoding_unique(bytes: Seq<u8>, x: IdentityView, y: IdentityView)
    requires
        encodes(bytes, x),
        encodes(bytes, y),
    ensures
        x == y,
{
    lemma_encoded_parts(bytes, x);
    lemma_encoded_parts(bytes, y);
    assert(x.addr == y.addr);
    assert(x.key == y.key);
    encode_utf8_decode_utf8(x.name);
    encode_utf8_decode_utf8(y.name);
}

/// The encoding of a well-formed record fits an identity frame.
pub proof fn lemma_record_fits(d: IdentityView)
    requires
        d.wf(),
    ensures
        record_bytes(d).len() <= IDENTITY_FRAME_LEN,
{
}

/// Reading a record back from its identity frame gives that record and no
/// other: the frame of every well-formed record is decoded to the record
/// itself, address included.
pub proof fn lemma_frame_round_trip(d: IdentityView)
    requires
        d.wf(),
    ensures
        encodes(identity_frame(d), d),
        forall|y: IdentityView| #[trigger] encodes(identity_frame(d), y) ==> y == d,
{
    let f = identity_frame(d);
    assert(f.subrange(0, record_bytes(d).len() as int) == record_bytes(d));
    assert forall|y: IdentityView| #[trigger] encodes(f, y) implies y == d by {
        lemma_encoding_unique(f, d, y);
    }
}

} // verus!
