//! Process identifiers.

use crate::hex::{hex_text, ToHex};
use crate::net::{IpAddr, SocketAddr};
use crate::text;
use vstd::prelude::*;

verus! {

/// A process identifier.
///
/// It is valid across a whole cluster: it holds the address at which the
/// process listens, and a random key that tells it from any other process that
/// ever listened there.
#[derive(Copy, Clone, PartialEq, Eq, PartialOrd, Ord, Hash, Debug, Structural)]
pub struct Pid {
    pub key: u128,
    pub ip: IpAddr,
    pub port: u16,
}

/// How many characters of a process identifier are shown.
pub const SHOWN: usize = 7;

/// Byte `i` of `key`, the lowest byte first.
pub open spec fn key_byte(key: u128, i: int) -> u8 {
    ((key as int / pow256(i)) % 256) as u8
}

/// 256 to the power of `i`.
pub open spec fn pow256(i: int) -> int
    decreases i,
{
    if i <= 0 {
        1
    } else {
        256 * pow256(i - 1)
    }
}

/// The bytes of `key`, the lowest first.
pub open spec fn key_bytes(key: u128) -> Seq<u8> {
    Seq::new(16, |i: int| key_byte(key, i))
}

/// `rand::random` gives some number of 128 bits.
#[verifier::external_body]
fn random_key() -> u128 {
    rand::random()
}

proof fn lemma_pow256_positive(i: int)
    ensures
        pow256(i) >= 1,
    decreases i,
{
    if i > 0 {
        lemma_pow256_positive(i - 1);
    }
}

/// The bytes of `key`, the lowest first.
pub fn to_le_bytes(key: u128) -> (r: Vec<u8>)
    ensures
        r@ == key_bytes(key),
{
    let mut r: Vec<u8> = Vec::new();
    let mut rest: u128 = key;
    let mut i: usize = 0;
    assert(key as int / 1 == key);
    while i < 16
        invariant
            i <= 16,
            r@ == key_bytes(key).take(i as int),
            rest == key as int / pow256(i as int),
        decreases 16 - i,
    {
        r.push((rest % 256) as u8);
        proof {
            lemma_pow256_positive(i as int);
            vstd::arithmetic::div_mod::lemma_div_denominator(
                key as int,
                pow256(i as int),
                256,
            );
            vstd::arithmetic::mul::lemma_mul_is_commutative(pow256(i as int), 256);
            assert(r@ =~= key_bytes(key).take(i + 1));
        }
        rest = rest / 256;
        i = i + 1;
    }
    assert(key_bytes(key).take(16) =~= key_bytes(key));
    r
}

impl Pid {
    /// The first characters of the key's bytes in hexadecimal.
    pub open spec fn shown(&self) -> Seq<char> {
        hex_text(key_bytes(self.key)).take(SHOWN as int)
    }

    /// An identifier for a process that listens at `ip` and `port`, told apart
    /// by a random key.
    pub fn new(ip: IpAddr, port: u16) -> (r: Pid)
        requires
            port != 0,
        ensures
            r.ip == ip,
            r.port == port,
    {
        Pid::with_key(random_key(), ip, port)
    }

    /// An identifier with the given key.
    pub fn with_key(key: u128, ip: IpAddr, port: u16) -> (r: Pid)
        requires
            port != 0,
        ensures
            r == (Pid { key, ip, port }),
    {
        Pid { key, ip, port }
    }

    /// The address at which the process listens.
    pub fn addr(&self) -> (r: SocketAddr)
        ensures
            r == (SocketAddr { ip: self.ip, port: self.port }),
    {
        SocketAddr { ip: self.ip, port: self.port }
    }

    /// The characters by which the process is shown.
    pub fn format(&self) -> (r: Vec<char>)
        ensures
            r@ == self.shown(),
            r.len() == SHOWN,
    {
        let bytes = to_le_bytes(self.key);
        bytes.as_slice().to_hex().take(SHOWN)
    }

    /// The text by which the process is shown.
    pub fn to_string(&self) -> (r: String)
        ensures
            r@ == self.shown(),
    {
        text::string(&self.format())
    }
}

/// A process is shown by the lowest bytes of its key, in hexadecimal, the lowest
/// first.
pub proof fn law_shown_by_the_key(pid: Pid)
    ensures
        pid.shown().len() == 7,
        ({
            let digit = |i: int| crate::hex::hex_value(pid.shown()[i]);
            &&& 16 * digit(0) + digit(1) == pid.key as int % 256
            &&& 16 * digit(2) + digit(3) == pid.key as int / 256 % 256
            &&& 16 * digit(4) + digit(5) == pid.key as int / 65536 % 256
        }),
{
    let bytes = key_bytes(pid.key);
    crate::hex::law_hex_is_faithful(bytes, 0);
    crate::hex::law_hex_is_faithful(bytes, 1);
    crate::hex::law_hex_is_faithful(bytes, 2);
    reveal_with_fuel(pow256, 4);
    assert(pow256(0) == 1 && pow256(1) == 256 && pow256(2) == 65536);
    assert(pid.key as int / 1 == pid.key);
}

} // verus!
