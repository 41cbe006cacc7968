//! Process identifiers that are an address, shown so that nobody reads it.

use crate::hex::{hex_text, ToHex};
use crate::net::{IpAddr, SocketAddr};
use crate::style::{bright, is_bright, show_as, shown_as, StyleSupport};
use crate::text;
use vstd::prelude::*;

verus! {

/// A process identifier: the address at which the process listens, in sixteen
/// bytes.
#[derive(Copy, Clone, PartialEq, Eq, PartialOrd, Ord, Hash, Debug)]
pub struct Pid(pub [u8; 16]);

/// How many characters of a process identifier are shown.
pub const SHOWN: usize = 7;

/// The bytes of an address: first the IPv4 address, then the port, each with its
/// highest byte first, and then zeros.
pub open spec fn address_bytes(ip: u32, port: u16) -> Seq<u8> {
    seq![
        (ip / 0x100_0000) as u8,
        (ip / 0x1_0000 % 0x100) as u8,
        (ip / 0x100 % 0x100) as u8,
        (ip % 0x100) as u8,
        (port / 0x100) as u8,
        (port % 0x100) as u8,
        0,
        0,
        0,
        0,
        0,
        0,
        0,
        0,
        0,
        0,
    ]
}

/// The address in the first six of `bytes`.
pub open spec fn address_in(bytes: Seq<u8>) -> SocketAddr {
    SocketAddr {
        ip: IpAddr::V4(
            (bytes[0] * 0x100_0000 + bytes[1] * 0x1_0000 + bytes[2] * 0x100 + bytes[3]) as u32,
        ),
        port: (bytes[4] * 0x100 + bytes[5]) as u16,
    }
}

/// One block encrypted by AES with a key of 128 bits, as
/// `aes_frast::aes_core::block_encrypt128` gives it for the round keys of
/// `aes_frast::aes_core::key_schedule_encrypt128`.
pub uninterp spec fn aes128(block: Seq<u8>, key: Seq<u8>) -> Seq<u8>;

/// Draw number `index` of `rand::XorShiftRng` with the given seed, as amounts of
/// red, green and blue.
pub uninterp spec fn xorshift_draw(seed: Seq<u8>, index: nat) -> (u8, u8, u8);

/// Encrypts one block with `aes_frast::aes_core::block_encrypt128`, for the round
/// keys of `aes_frast::aes_core::key_schedule_encrypt128`.
#[verifier::external_body]
fn encrypt(input: [u8; 16], key: [u8; 16]) -> (output: [u8; 16])
    ensures
        output@ == aes128(input@, key@),
{
    let mut output: [u8; 16] = [0; 16];
    let mut round_keys: [u32; 44] = [0; 44];
    aes_frast::aes_core::key_schedule_encrypt128(&key, &mut round_keys);
    aes_frast::aes_core::block_encrypt128(&input, &mut output, &round_keys);
    output
}

/// Decrypts one block with `aes_frast::aes_core::block_decrypt128`, for the round
/// keys of `aes_frast::aes_core::key_schedule_decrypt128`. That is the one block
/// that is encrypted as `input`.
#[verifier::external_body]
fn decrypt(input: [u8; 16], key: [u8; 16]) -> (output: [u8; 16])
    ensures
        aes128(output@, key@) == input@,
        forall|block: Seq<u8>|
            block.len() == 16 && #[trigger] aes128(block, key@) == input@ ==> block == output@,
{
    let mut output: [u8; 16] = [0; 16];
    let mut round_keys: [u32; 44] = [0; 44];
    aes_frast::aes_core::key_schedule_decrypt128(&key, &mut round_keys);
    aes_frast::aes_core::block_decrypt128(&input, &mut output, &round_keys);
    output
}

/// Draws from `rand::XorShiftRng` with `rand::Rng::sample_iter`.
#[verifier::external_body]
fn xorshift_rgb(seed: [u8; 16], index: usize) -> (r: (u8, u8, u8))
    ensures
        r == xorshift_draw(seed@, index as nat),
{
    let mut rng: rand::XorShiftRng = rand::SeedableRng::from_seed(seed);
    rand::Rng::sample_iter(&mut rng, &rand::distributions::Standard).nth(index).unwrap()
}

/// A key of zeros.
pub open spec fn zero_key() -> Seq<u8> {
    Seq::new(16, |i: int| 0u8)
}

fn zeros() -> (r: [u8; 16])
    ensures
        r@ == zero_key(),
{
    let r: [u8; 16] = [0;16];
    assert(r@ =~= zero_key());
    r
}

impl Pid {
    /// The identifier of a process that listens at the IPv4 address `ip` and at
    /// `port`. There are none for IPv6 addresses.
    pub fn new(ip: IpAddr, port: u16) -> (r: Pid)
        requires
            ip is V4,
        ensures
            r.0@ == address_bytes(ip->V4_0, port),
    {
        let ip: u32 = match ip {
            IpAddr::V4(ip) => ip,
            IpAddr::V6(_) => 0,
        };
        let bytes: [u8; 16] = [
            (ip / 0x100_0000) as u8,
            (ip / 0x1_0000 % 0x100) as u8,
            (ip / 0x100 % 0x100) as u8,
            (ip % 0x100) as u8,
            (port / 0x100) as u8,
            (port % 0x100) as u8,
            0,
            0,
            0,
            0,
            0,
            0,
            0,
            0,
            0,
            0,
        ];
        assert(bytes@ =~= address_bytes(ip, port));
        Pid(bytes)
    }

    /// The address at which the process listens.
    pub fn addr(&self) -> (r: SocketAddr)
        ensures
            r == address_in(self.0@),
    {
        let b = self.0;
        SocketAddr {
            ip: IpAddr::V4(
                b[0] as u32 * 0x100_0000 + b[1] as u32 * 0x1_0000 + b[2] as u32 * 0x100
                    + b[3] as u32,
            ),
            port: b[4] as u16 * 0x100 + b[5] as u16,
        }
    }

    /// Whether both are the same identifier.
    pub fn same(&self, other: &Pid) -> (r: bool)
        ensures
            r == (self.0@ == other.0@),
    {
        for i in 0..16usize
            invariant
                forall|j: int| 0 <= j < i ==> self.0@[j] == other.0@[j],
        {
            if self.0[i] != other.0[i] {
                return false;
            }
        }
        assert(self.0@ =~= other.0@);
        true
    }

    /// All characters of this identifier.
    pub open spec fn all_shown(&self) -> Seq<char> {
        hex_text(aes128(self.0@, zero_key()))
    }

    /// The characters by which this identifier is shown.
    pub open spec fn shown(&self) -> Seq<char> {
        self.all_shown().take(SHOWN as int)
    }

    /// The bytes that are shown of this identifier.
    pub fn encrypted(&self) -> (r: [u8; 16])
        ensures
            r@ == aes128(self.0@, zero_key()),
    {
        encrypt(self.0, zeros())
    }

    /// The identifier of which `shown` are the bytes that are shown.
    pub fn decrypted(shown: [u8; 16]) -> (r: Pid)
        ensures
            aes128(r.0@, zero_key()) == shown@,
            forall|pid: Pid| #[trigger] aes128(pid.0@, zero_key()) == shown@ ==> pid.0@ == r.0@,
    {
        Pid(decrypt(shown, zeros()))
    }

    /// All characters of this identifier.
    pub fn format(&self) -> (r: Vec<char>)
        ensures
            r@ == self.all_shown(),
    {
        let bytes = self.encrypted();
        let slice: &[u8] = &bytes;
        let r = slice.to_hex().take(32);
        assert(hex_text(slice@).len() == 32);
        assert(r@ =~= self.all_shown());
        r
    }

    /// The characters by which this identifier is shown.
    pub fn to_string(&self) -> (r: String)
        ensures
            r@ == self.shown(),
    {
        let bytes = self.encrypted();
        let slice: &[u8] = &bytes;
        let shown = slice.to_hex().take(SHOWN);
        assert(hex_text(slice@).len() == 32);
        assert(shown@ =~= self.shown());
        text::string(&shown)
    }
}

/// The first bright draw from number `index` on, out of `tries`.
pub open spec fn first_bright(seed: Seq<u8>, index: nat, tries: nat) -> Option<(u8, u8, u8)>
    decreases tries,
{
    if tries == 0 {
        None
    } else if is_bright(xorshift_draw(seed, index)) {
        Some(xorshift_draw(seed, index))
    } else {
        first_bright(seed, index + 1, (tries - 1) as nat)
    }
}

/// A colour for the process whose shown bytes are `seed`: the first draw that is
/// bright enough to be read.
pub fn colour(seed: [u8; 16]) -> (r: Option<(u8, u8, u8)>)
    ensures
        r == first_bright(seed@, 0, usize::MAX as nat),
{
    for i in 0..usize::MAX
        invariant
            first_bright(seed@, 0, usize::MAX as nat) == first_bright(
                seed@,
                i as nat,
                (usize::MAX - i) as nat,
            ),
    {
        let rgb = xorshift_rgb(seed, i);
        if bright(rgb) {
            return Some(rgb);
        }
    }
    None
}

/// How `pid` is shown: its shown characters in a colour of its own.
pub open spec fn pretty(pid: Pid, bold: bool, support: StyleSupport) -> Seq<char> {
    shown_as(
        pid.shown(),
        first_bright(aes128(pid.0@, zero_key()), 0, usize::MAX as nat),
        bold,
        support,
    )
}

/// How `pid` is shown: its shown characters in a colour of its own.
pub fn pretty_pid(pid: &Pid, bold: bool, style_support: StyleSupport) -> (r: String)
    requires
        style_support != StyleSupport::FourBit,
    ensures
        r@ == pretty(*pid, bold, style_support),
{
    let bytes = pid.encrypted();
    let back = Pid::decrypted(bytes);
    assert(back.0@ == pid.0@);
    let name = pid.to_string();
    show_as(name.as_str(), colour(bytes), bold, style_support)
}

/// A process identifier tells the address that it was made of.
pub proof fn law_address_reads_back(ip: u32, port: u16)
    ensures
        address_in(address_bytes(ip, port)) == (SocketAddr { ip: IpAddr::V4(ip), port }),
{
    let bytes = address_bytes(ip, port);
    assert(bytes[0] == ip / 0x100_0000);
    assert(ip / 0x1_0000 == (ip / 0x100_0000) * 0x100 + ip / 0x1_0000 % 0x100);
    assert(ip / 0x100 == (ip / 0x1_0000) * 0x100 + ip / 0x100 % 0x100);
}

/// Processes at different addresses have different identifiers.
pub proof fn law_addresses_differ(ip: u32, port: u16, other_ip: u32, other_port: u16)
    requires
        address_bytes(ip, port) == address_bytes(other_ip, other_port),
    ensures
        ip == other_ip,
        port == other_port,
{
    law_address_reads_back(ip, port);
    law_address_reads_back(other_ip, other_port);
}

/// An identifier starts with the address and the port as they go over a network, the
/// highest byte first, and the rest of it is zero.
pub proof fn law_addresses_are_in_network_order(ip: u32, port: u16)
    ensures
        ({
            let bytes = address_bytes(ip, port);
            &&& bytes.len() == 16
            &&& ip == bytes[0] * 256 * 256 * 256 + bytes[1] * 256 * 256 + bytes[2] * 256 + bytes[3]
            &&& port == bytes[4] * 256 + bytes[5]
            &&& forall|i: int| 6 <= i < 16 ==> #[trigger] bytes[i] == 0
        }),
{
    law_address_reads_back(ip, port);
    let bytes = address_bytes(ip, port);
    assert(bytes[0] == ip / 0x100_0000);
    assert(ip / 0x1_0000 == (ip / 0x100_0000) * 0x100 + ip / 0x1_0000 % 0x100);
    assert(ip / 0x100 == (ip / 0x1_0000) * 0x100 + ip / 0x100 % 0x100);
}

/// An identifier is shown by the first seven hexadecimal digits of its bytes,
/// encrypted with a key of zeros.
pub proof fn law_shown_by_what_is_encrypted(pid: Pid)
    requires
        aes128(pid.0@, zero_key()).len() == 16,
    ensures
        pid.all_shown().len() == 32,
        pid.shown().len() == 7,
        zero_key().len() == 16,
        forall|i: int| 0 <= i < 16 ==> #[trigger] zero_key()[i] == 0,
        ({
            let bytes = aes128(pid.0@, zero_key());
            let digit = |i: int| crate::hex::hex_value(pid.shown()[i]);
            &&& 16 * digit(0) + digit(1) == bytes[0]
            &&& 16 * digit(2) + digit(3) == bytes[1]
            &&& 16 * digit(4) + digit(5) == bytes[2]
        }),
{
    let bytes = aes128(pid.0@, zero_key());
    crate::hex::law_hex_is_faithful(bytes, 0);
    crate::hex::law_hex_is_faithful(bytes, 1);
    crate::hex::law_hex_is_faithful(bytes, 2);
}

/// The colour of an identifier is the first one drawn for it that is bright: none
/// before it is.
pub proof fn law_the_first_bright_colour_is_taken(seed: Seq<u8>, index: nat, tries: nat, n: nat)
    requires
        n < tries,
        is_bright(xorshift_draw(seed, index + n)),
        forall|k: nat| index <= k < index + n ==> !is_bright(#[trigger] xorshift_draw(seed, k)),
    ensures
        first_bright(seed, index, tries) == Some(xorshift_draw(seed, index + n)),
    decreases n,
{
    if n > 0 {
        assert(!is_bright(xorshift_draw(seed, index)));
        law_the_first_bright_colour_is_taken(seed, index + 1, (tries - 1) as nat, (n - 1) as nat);
    }
}

} // verus!
