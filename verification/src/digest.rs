//! Checksums: what a value feeds into one, and the CRC-32 of what was fed.
//!
//! Numbers are fed as the machine holds them in memory: in its byte order, and lengths as wide as
//! its words. The checksums of two peers are comparable where they agree on both.

use vstd::endian::{endianness, Endian};
use vstd::prelude::*;

verus! {

/// A CRC-32 register once `bits` bits have been shifted out of it: each set bit that leaves on the
/// right is made up for by the IEEE polynomial, its bits reversed.
pub open spec fn crc32_shifted(register: u32, bits: nat) -> u32
    decreases bits,
{
    if bits == 0 {
        register
    } else {
        let before = crc32_shifted(register, (bits - 1) as nat);
        if before & 1 == 1 {
            (before >> 1) ^ 0xEDB8_8320
        } else {
            before >> 1
        }
    }
}

/// The CRC-32 register once `bytes` have gone through it: it starts with all bits set, and each
/// byte is xored into its low end and shifted out.
pub open spec fn crc32_register(bytes: Seq<u8>) -> u32
    decreases bytes.len(),
{
    if bytes.len() == 0 {
        0xFFFF_FFFF
    } else {
        crc32_shifted(crc32_register(bytes.drop_last()) ^ (bytes.last() as u32), 8)
    }
}

/// The CRC-32 (IEEE) of a run of bytes.
pub open spec fn crc32_of(bytes: Seq<u8>) -> u32 {
    !crc32_register(bytes)
}

/// `crc32fast::hash`, which starts a `crc32fast::Hasher`, feeds it the bytes and finishes it: it
/// returns the CRC-32 (IEEE) of the bytes.
#[verifier::external_body]
pub(crate) fn crc32(bytes: &[u8]) -> (sum: u32)
    ensures
        sum == crc32_of(bytes@),
{
    crc32fast::hash(bytes)
}

/// The `width` lowest bytes of `n`, the least significant first.
pub open spec fn le_bytes(n: nat, width: nat) -> Seq<u8>
    decreases width,
{
    if width == 0 {
        Seq::empty()
    } else {
        seq![(n % 256) as u8] + le_bytes(n / 256, (width - 1) as nat)
    }
}

/// The `width` lowest bytes of `n` in the byte order of the machine.
pub open spec fn native_bytes(n: nat, width: nat) -> Seq<u8> {
    match endianness() {
        Endian::Little => le_bytes(n, width),
        Endian::Big => le_bytes(n, width).reverse(),
    }
}

/// How many bytes a word of the machine has.
pub open spec fn word_width() -> nat {
    (usize::BITS / 8) as nat
}

/// How a length or a count is fed: as a word.
pub open spec fn length_encoding(n: nat) -> Seq<u8> {
    native_bytes(n, word_width())
}

/// How a run of bytes is fed: its length, then the bytes.
pub open spec fn bytes_encoding(bytes: Seq<u8>) -> Seq<u8> {
    length_encoding(bytes.len()) + bytes
}

/// How many numbers `width` bytes can hold.
pub open spec fn span(width: nat) -> nat
    decreases width,
{
    if width == 0 {
        1
    } else {
        256 * span((width - 1) as nat)
    }
}

/// `le_bytes` has `width` bytes.
pub proof fn lemma_le_bytes_len(n: nat, width: nat)
    ensures
        le_bytes(n, width).len() == width,
    decreases width,
{
    if width > 0 {
        lemma_le_bytes_len(n / 256, (width - 1) as nat);
    }
}

/// Numbers that `width` bytes can hold are told apart by their bytes.
pub proof fn lemma_le_bytes_tell_apart(a: nat, b: nat, width: nat)
    requires
        a < span(width),
        b < span(width),
        le_bytes(a, width) == le_bytes(b, width),
    ensures
        a == b,
    decreases width,
{
    if width > 0 {
        let rest = (width - 1) as nat;
        let x = le_bytes(a, width);
        let y = le_bytes(b, width);
        assert(x[0] == (a % 256) as u8 && y[0] == (b % 256) as u8);
        assert(x.skip(1) =~= le_bytes(a / 256, rest));
        assert(y.skip(1) =~= le_bytes(b / 256, rest));
        lemma_le_bytes_tell_apart(a / 256, b / 256, rest);
    }
}

/// `native_bytes` has `width` bytes.
pub proof fn lemma_native_bytes_len(n: nat, width: nat)
    ensures
        native_bytes(n, width).len() == width,
{
    lemma_le_bytes_len(n, width);
}

/// Numbers that `width` bytes can hold are told apart by their bytes, whatever the byte order.
pub proof fn lemma_native_bytes_tell_apart(a: nat, b: nat, width: nat)
    requires
        a < span(width),
        b < span(width),
        native_bytes(a, width) == native_bytes(b, width),
    ensures
        a == b,
{
    let x = le_bytes(a, width);
    let y = le_bytes(b, width);
    assert(x =~= x.reverse().reverse());
    assert(y =~= y.reverse().reverse());
    lemma_le_bytes_tell_apart(a, b, width);
}

/// A word holds what a `usize` can be.
pub proof fn lemma_word_span()
    ensures
        span(word_width()) == usize::MAX + 1,
{
    reveal_with_fuel(span, 9);
}

/// Runs that begin with parts of one length are the same only if both parts are.
pub proof fn lemma_split(p: Seq<u8>, r: Seq<u8>, q: Seq<u8>, t: Seq<u8>)
    requires
        p.len() == q.len(),
        p + r == q + t,
    ensures
        p == q,
        r == t,
{
    assert(p =~= (p + r).take(p.len() as int));
    assert(q =~= (q + t).take(p.len() as int));
    assert(r =~= (p + r).skip(p.len() as int));
    assert(t =~= (q + t).skip(p.len() as int));
}

/// Lengths are told apart by how they are fed, whatever follows.
pub proof fn lemma_length_first(a: nat, r: Seq<u8>, b: nat, t: Seq<u8>)
    requires
        a <= usize::MAX,
        b <= usize::MAX,
        length_encoding(a) + r == length_encoding(b) + t,
    ensures
        a == b,
        r == t,
{
    lemma_native_bytes_len(a, word_width());
    lemma_native_bytes_len(b, word_width());
    lemma_split(length_encoding(a), r, length_encoding(b), t);
    lemma_word_span();
    lemma_native_bytes_tell_apart(a, b, word_width());
}

/// Runs of bytes are told apart by how they are fed, whatever follows.
pub proof fn lemma_bytes_first(a: Seq<u8>, r: Seq<u8>, b: Seq<u8>, t: Seq<u8>)
    requires
        a.len() <= usize::MAX,
        b.len() <= usize::MAX,
        bytes_encoding(a) + r == bytes_encoding(b) + t,
    ensures
        a == b,
        r == t,
{
    assert(bytes_encoding(a) + r =~= length_encoding(a.len()) + (a + r));
    assert(bytes_encoding(b) + t =~= length_encoding(b.len()) + (b + t));
    lemma_length_first(a.len(), a + r, b.len(), b + t);
    lemma_split(a, r, b, t);
}

/// Values that a checksum can be taken of.
pub trait Encode {
    /// The bytes that the value feeds into the checksum.
    spec fn encoding(&self) -> Seq<u8>;

    /// Feeds the value: puts its bytes at the end of `out`.
    fn encode(&self, out: &mut Vec<u8>)
        ensures
            final(out)@ == old(out)@ + self.encoding(),
    ;
}

/// `u16::to_ne_bytes`: the two bytes of `n` in the byte order of the machine.
#[verifier::external_body]
fn ne_bytes(n: u16) -> (bytes: [u8; 2])
    ensures
        bytes@ == native_bytes(n as nat, 2),
{
    n.to_ne_bytes()
}

/// Tells the byte order of the machine.
fn is_big_endian() -> (big: bool)
    ensures
        big == (endianness() is Big),
{
    let bytes = ne_bytes(1);
    proof {
        reveal_with_fuel(le_bytes, 3);
        let le = le_bytes(1, 2);
        assert(le =~= seq![1u8, 0u8]);
        assert(le.reverse() =~= seq![0u8, 1u8]);
        assert(bytes@[0] == native_bytes(1, 2)[0]);
    }
    bytes[0] == 0
}

/// Puts the `width` lowest bytes of `n` at the end of `out`, in the byte order of the machine.
fn put_native_bytes(n: u64, width: usize, out: &mut Vec<u8>)
    ensures
        final(out)@ == old(out)@ + native_bytes(n as nat, width as nat),
{
    let mut bytes: Vec<u8> = Vec::new();
    let mut rest: u64 = n;
    let mut left: usize = width;
    while left > 0
        invariant
            bytes@ + le_bytes(rest as nat, left as nat) == le_bytes(n as nat, width as nat),
        decreases left,
    {
        let ghost so_far = bytes@;
        bytes.push((rest % 256) as u8);
        proof {
            let tail = le_bytes((rest / 256) as nat, (left - 1) as nat);
            assert(so_far + le_bytes(rest as nat, left as nat) =~= bytes@ + tail);
        }
        rest = rest / 256;
        left = left - 1;
    }
    assert(bytes@ =~= bytes@ + le_bytes(rest as nat, 0));
    if is_big_endian() {
        let mut at: usize = bytes.len();
        while at > 0
            invariant
                at <= bytes@.len(),
                out@ == old(out)@ + bytes@.reverse().take(bytes@.len() - at),
            decreases at,
        {
            at = at - 1;
            out.push(bytes[at]);
            assert(out@ =~= old(out)@ + bytes@.reverse().take(bytes@.len() - at));
        }
    } else {
        out.extend_from_slice(&bytes);
    }
    assert(out@ =~= old(out)@ + native_bytes(n as nat, width as nat));
}

impl Encode for u32 {
    open spec fn encoding(&self) -> Seq<u8> {
        native_bytes(*self as nat, 4)
    }

    fn encode(&self, out: &mut Vec<u8>) {
        put_native_bytes(*self as u64, 4, out);
    }
}

impl Encode for usize {
    open spec fn encoding(&self) -> Seq<u8> {
        length_encoding(*self as nat)
    }

    fn encode(&self, out: &mut Vec<u8>) {
        put_native_bytes(*self as u64, (usize::BITS / 8) as usize, out);
    }
}

impl Encode for Vec<u8> {
    open spec fn encoding(&self) -> Seq<u8> {
        bytes_encoding(self@)
    }

    fn encode(&self, out: &mut Vec<u8>) {
        self.len().encode(out);
        out.extend_from_slice(self);
        assert(out@ =~= old(out)@ + self.encoding());
    }
}

/// The checksum of a value.
pub fn checksum(value: impl Encode) -> (sum: u32)
    ensures
        sum == crc32_of(value.encoding()),
{
    let mut fed: Vec<u8> = Vec::new();
    value.encode(&mut fed);
    assert(fed@ =~= value.encoding());
    crc32(&fed)
}

} // verus!
