//! IPv4 transport addresses and their text, `a.b.c.d:port`.
//!
//! The text is read as the standard library reads a `SocketAddrV4`: four
//! decimal octets of one to three digits, of value at most 255 and without a
//! leading zero, separated by dots; a colon; a port of one or more decimal
//! digits, leading zeros allowed, of value at most 65535; nothing else.

use vstd::prelude::*;
use vstd::string::StringSliceAdditionalSpecFns;

verus! {

/// An IPv4 transport address: four octets and a port.
#[derive(Clone, Copy, Debug, PartialEq, Eq)]
pub struct SocketAddress {
    pub ip: (u8, u8, u8, u8),
    pub port: u16,
}

pub open spec fn is_digit(c: u8) -> bool {
    48 <= c <= 57
}

/// Number of consecutive decimal digits in `b` from position `i` on.
pub open spec fn digit_run(b: Seq<u8>, i: int) -> nat
    decreases b.len() - i,
{
    if 0 <= i < b.len() && is_digit(b[i]) {
        1 + digit_run(b, i + 1)
    } else {
        0
    }
}

/// The value of the decimal digits `b[i..j]`.
pub open spec fn decimal(b: Seq<u8>, i: int, j: int) -> nat
    decreases j - i,
{
    if j <= i {
        0
    } else {
        decimal(b, i, j - 1) * 10 + (b[j - 1] - 48) as nat
    }
}

/// The octet that starts at `i` and the position after the separator `sep`
/// that must follow it.
pub open spec fn octet_then(b: Seq<u8>, i: int, sep: u8) -> Option<(u8, int)> {
    let n = digit_run(b, i) as int;
    if 1 <= n <= 3 && (n == 1 || b[i] != 48) && decimal(b, i, i + n) <= 255 && i + n < b.len()
        && b[i + n] == sep {
        Some((decimal(b, i, i + n) as u8, i + n + 1))
    } else {
        None
    }
}

/// The port that starts at `i` and ends the text.
pub open spec fn port_at(b: Seq<u8>, i: int) -> Option<u16> {
    let n = digit_run(b, i) as int;
    if n >= 1 && i + n == b.len() && decimal(b, i, i + n) <= 65535 {
        Some(decimal(b, i, i + n) as u16)
    } else {
        None
    }
}

/// The address that the text bytes `b` write, if they write one.
pub open spec fn address_of(b: Seq<u8>) -> Option<SocketAddress> {
    match octet_then(b, 0, 46) {
        None => None,
        Some((o0, i1)) => match octet_then(b, i1, 46) {
            None => None,
            Some((o1, i2)) => match octet_then(b, i2, 46) {
                None => None,
                Some((o2, i3)) => match octet_then(b, i3, 58) {
                    None => None,
                    Some((o3, i4)) => match port_at(b, i4) {
                        None => None,
                        Some(port) => Some(SocketAddress { ip: (o0, o1, o2, o3), port }),
                    },
                },
            },
        },
    }
}

proof fn lemma_digit_run(b: Seq<u8>, i: int, j: int)
    requires
        0 <= i <= j <= b.len(),
        forall|k: int| i <= k < j ==> is_digit(b[k]),
    ensures
        digit_run(b, i) >= j - i,
        j == b.len() || !is_digit(b[j]) ==> digit_run(b, i) == j - i,
    decreases j - i,
{
    if i < j {
        lemma_digit_run(b, i + 1, j);
    }
}

/// Reads the digits from `i` on, at most `limit` of them; returns their
/// value, capped above 65535, and the position after them.
fn read_digits(b: &[u8], i: usize, limit: usize) -> (r: (u32, usize))
    requires
        i <= b@.len(),
    ensures
        i <= r.1 <= b@.len(),
        r.1 - i <= limit,
        forall|k: int| i <= k < r.1 ==> is_digit(b@[k]),
        r.1 - i < limit ==> (r.1 == b@.len() || !is_digit(b@[r.1 as int])),
        decimal(b@, i as int, r.1 as int) <= 65535 ==> r.0 == decimal(b@, i as int, r.1 as int),
        decimal(b@, i as int, r.1 as int) > 65535 ==> r.0 > 65535,
{
    let len = b.len();
    let mut j: usize = i;
    let mut v: u32 = 0;
    while j < len && j - i < limit && b[j] >= 48 && b[j] <= 57
        invariant
            len == b@.len(),
            i <= j <= len,
            j - i <= limit,
            forall|k: int| i <= k < j ==> is_digit(b@[k]),
            decimal(b@, i as int, j as int) <= 65535 ==> v == decimal(b@, i as int, j as int),
            decimal(b@, i as int, j as int) > 65535 ==> 65535 < v <= 655359,
        decreases len - j,
    {
        if v <= 65535 {
            v = v * 10 + (b[j] - 48) as u32;
        }
        j = j + 1;
    }
    (v, j)
}

/// Reads an octet at `i` followed by `sep`.
fn read_octet_then(b: &[u8], i: usize, sep: u8) -> (r: Option<(u8, usize)>)
    requires
        i <= b@.len(),
    ensures
        match r {
            Some((o, next)) => octet_then(b@, i as int, sep) == Some((o, next as int)),
            None => octet_then(b@, i as int, sep) is None,
        },
{
    let (v, j) = read_digits(b, i, 4);
    proof {
        lemma_digit_run(b@, i as int, j as int);
    }
    if j - i == 4 || j == i || (j - i > 1 && b[i] == 48) || v > 255 || j >= b.len() || b[j] != sep {
        return None;
    }
    Some((v as u8, j + 1))
}

impl SocketAddress {
    pub fn new(ip: (u8, u8, u8, u8), port: u16) -> (r: SocketAddress)
        ensures
            r.ip == ip,
            r.port == port,
    {
        SocketAddress { ip, port }
    }

    /// The address that `text` writes, or `None` where it writes none.
    pub fn parse(text: &str) -> (r: Option<SocketAddress>)
        ensures
            r == address_of(text.spec_bytes()),
    {
        let b = text.as_bytes();
        let (o0, i1) = match read_octet_then(b, 0, 46) {
            Some(x) => x,
            None => return None,
        };
        let (o1, i2) = match read_octet_then(b, i1, 46) {
            Some(x) => x,
            None => return None,
        };
        let (o2, i3) = match read_octet_then(b, i2, 46) {
            Some(x) => x,
            None => return None,
        };
        let (o3, i4) = match read_octet_then(b, i3, 58) {
            Some(x) => x,
            None => return None,
        };
        let (v, j) = read_digits(b, i4, b.len() - i4);
        proof {
            lemma_digit_run(b@, i4 as int, j as int);
        }
        if j == i4 || j != b.len() || v > 65535 {
            return None;
        }
        Some(SocketAddress { ip: (o0, o1, o2, o3), port: v as u16 })
    }
}

} // verus!
