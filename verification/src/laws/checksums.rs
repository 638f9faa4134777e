//! What checksums are taken of, and what they notice.

use crate::delta::{Delta, DeltaView, Deltas, Log};
use crate::digest::{
    bytes_encoding, crc32_of, crc32_register, crc32_shifted, le_bytes, lemma_le_bytes_len,
    length_encoding, native_bytes, Encode,
};
use crate::encoding::{
    delta_encoding, entries_encoding, entry_encoding, log_checksum, log_encoding,
};
use crate::order::{lemma_ordered_empty, lemma_ordered_insert_last, ordered, SequenceNumber};
use vstd::arithmetic::div_mod::lemma_div_denominator;
use vstd::arithmetic::power::{lemma_pow0, lemma_pow_positive, pow};
use vstd::endian::endianness;
use vstd::prelude::*;

verus! {

/// The digit to the base 256 that stands at place `i` of `n`, counted from the lowest.
proof fn lemma_le_byte(n: nat, width: nat, i: nat)
    requires
        i < width,
    ensures
        le_bytes(n, width)[i as int] == (n as int / pow(256, i)) % 256,
    decreases width,
{
    let rest = (width - 1) as nat;
    lemma_le_bytes_len(n / 256, rest);
    if i == 0 {
        lemma_pow0(256);
    } else {
        let j = (i - 1) as nat;
        lemma_le_byte(n / 256, rest, j);
        lemma_pow_positive(256, j);
        lemma_div_denominator(n as int, 256, pow(256, j));
        assert(pow(256, i) == 256 * pow(256, j)) by {
            reveal(pow);
        }
        assert(le_bytes(n, width)[i as int] == le_bytes(n / 256, rest)[j as int]);
    }
}

/// A number is fed by its digits to the base 256, as many as asked for: the lowest first on a
/// little-endian machine, the lowest last on a big-endian one.
pub proof fn law_number_is_fed_by_its_digits(n: nat, width: nat, place: nat)
    requires
        place < width,
    ensures
        native_bytes(n, width).len() == width,
        endianness() is Little ==> native_bytes(n, width)[place as int] == (n as int / pow(
            256,
            place,
        )) % 256,
        endianness() is Big ==> native_bytes(n, width)[width - 1 - place] == (n as int / pow(
            256,
            place,
        )) % 256,
{
    lemma_le_bytes_len(n, width);
    lemma_le_byte(n, width, place);
}

/// A length is fed as a word of the machine.
pub proof fn law_length_is_fed_as_a_word(n: nat)
    ensures
        length_encoding(n).len() * 8 == usize::BITS,
        length_encoding(n) == native_bytes(n, length_encoding(n).len()),
{
    lemma_le_bytes_len(n, (usize::BITS / 8) as nat);
}

/// Bytes are fed behind their length, and as they are.
pub proof fn law_bytes_are_fed_behind_their_length(bytes: Seq<u8>)
    ensures
        ({
            let fed = bytes_encoding(bytes);
            let word = fed.len() - bytes.len();
            &&& word * 8 == usize::BITS
            &&& fed.take(word) == native_bytes(bytes.len(), word as nat)
            &&& fed.skip(word) == bytes
        }),
{
    law_length_is_fed_as_a_word(bytes.len());
    let fed = bytes_encoding(bytes);
    let word = fed.len() - bytes.len();
    assert(fed.take(word) =~= length_encoding(bytes.len()));
    assert(fed.skip(word) =~= bytes);
}

/// A log without entries is fed as the count 0. An entry whose number is greater than all others is
/// fed behind the others, by its number in four bytes, a word for its kind, and what it holds; the
/// count goes up by one, and the rest stays as it is.
pub proof fn law_log_is_fed_entry_by_entry(log: Log, seqn: SequenceNumber, delta: DeltaView)
    requires
        forall|k: SequenceNumber| #[trigger] log.contains_key(k) ==> k < seqn,
    ensures
        log_encoding(Map::empty()) == length_encoding(0),
        ({
            let word = (usize::BITS / 8) as int;
            let before = log_encoding(log);
            let after = log_encoding(log.insert(seqn, delta));
            let count = ordered(log).len();
            &&& before.take(word) == length_encoding(count)
            &&& after == length_encoding(count + 1) + before.skip(word) + native_bytes(
                seqn as nat,
                4,
            ) + match delta {
                DeltaView::Append(bytes) => length_encoding(0) + length_encoding(bytes.len())
                    + bytes,
                DeltaView::Truncate(n) => length_encoding(1) + length_encoding(n as nat),
                DeltaView::Reset => length_encoding(2),
            }
        }),
{
    lemma_ordered_empty::<DeltaView>();
    let none = Seq::<(SequenceNumber, DeltaView)>::empty();
    assert(entries_encoding(none) =~= Seq::empty());
    assert(length_encoding(0) + entries_encoding(none) =~= length_encoding(0));
    lemma_ordered_insert_last(log, seqn, delta);
    let word = (usize::BITS / 8) as int;
    let before = log_encoding(log);
    let after = log_encoding(log.insert(seqn, delta));
    let count = ordered(log).len();
    law_length_is_fed_as_a_word(count);
    assert(before.take(word) =~= length_encoding(count));
    assert(before.skip(word) =~= entries_encoding(ordered(log)));
    let all = ordered(log.insert(seqn, delta));
    assert(all.drop_last() =~= ordered(log));
    assert(entries_encoding(all) == entries_encoding(ordered(log)) + entry_encoding((seqn, delta)));
    let body = match delta {
        DeltaView::Append(bytes) => length_encoding(0) + length_encoding(bytes.len()) + bytes,
        DeltaView::Truncate(n) => length_encoding(1) + length_encoding(n as nat),
        DeltaView::Reset => length_encoding(2),
    };
    assert(delta_encoding(delta) =~= body);
    assert(after =~= length_encoding(count + 1) + before.skip(word) + native_bytes(seqn as nat, 4)
        + body);
}

/// Numbers are fed in four bytes or in a word, bytes behind their length, a change by a word for
/// its kind and what it holds, and a log as its count and its entries.
pub proof fn law_values_are_fed(
    number: u32,
    length: usize,
    bytes: Vec<u8>,
    delta: Delta,
    log: Deltas,
)
    ensures
        number.encoding() == native_bytes(number as nat, 4),
        length.encoding() == length_encoding(length as nat),
        bytes.encoding() == length_encoding(bytes@.len()) + bytes@,
        delta.encoding() == match delta {
            Delta::Append(held) => length_encoding(0) + length_encoding(held@.len()) + held@,
            Delta::Truncate(n) => length_encoding(1) + length_encoding(n as nat),
            Delta::Reset => length_encoding(2),
        },
        log.encoding() == log_encoding(log@),
{
}

/// The checksum of a log is the CRC-32 of what it is fed as.
pub proof fn law_log_checksum_is_a_crc32(log: Log)
    ensures
        log_checksum(log) == crc32_of(log_encoding(log)),
{
}

/// The CRC-32 of no bytes is 0. One more byte is xored into what the bytes before it have left,
/// and eight bits are divided off by the IEEE polynomial.
pub proof fn law_crc32_goes_byte_by_byte(bytes: Seq<u8>, byte: u8)
    ensures
        bytes.len() == 0 ==> crc32_of(bytes) == 0,
        exists|r: Seq<u32>|
            {
                &&& #[trigger] r.len() == 9
                &&& r[0] == (!crc32_of(bytes)) ^ (byte as u32)
                &&& forall|i: int|
                    0 <= i < 8 ==> #[trigger] r[i + 1] == (if r[i] & 1 == 1 {
                        (r[i] >> 1) ^ 0xEDB8_8320
                    } else {
                        r[i] >> 1
                    })
                &&& crc32_of(bytes.push(byte)) == !r[8]
            },
{
    assert(!0xFFFF_FFFFu32 == 0u32) by (bit_vector);
    let before = crc32_register(bytes);
    assert(!(!before) == before) by (bit_vector);
    let start = before ^ (byte as u32);
    let r = Seq::new(9, |i: int| crc32_shifted(start, i as nat));
    assert(bytes.push(byte).drop_last() =~= bytes);
    assert forall|i: int| 0 <= i < 8 implies #[trigger] r[i + 1] == (if r[i] & 1 == 1 {
        (r[i] >> 1) ^ 0xEDB8_8320
    } else {
        r[i] >> 1
    }) by {
        assert(r[i] == crc32_shifted(start, i as nat));
        assert(r[i + 1] == crc32_shifted(start, (i + 1) as nat));
    }
    assert(r[0] == start);
    assert(r.len() == 9);
}

/// Registers stay different when as many bits are shifted out of both.
proof fn lemma_shifted_tells_apart(a: u32, b: u32, bits: nat)
    requires
        a != b,
    ensures
        crc32_shifted(a, bits) != crc32_shifted(b, bits),
    decreases bits,
{
    if bits > 0 {
        let x = crc32_shifted(a, (bits - 1) as nat);
        let y = crc32_shifted(b, (bits - 1) as nat);
        lemma_shifted_tells_apart(a, b, (bits - 1) as nat);
        assert((if x & 1 == 1 {
            (x >> 1) ^ 0xEDB8_8320
        } else {
            x >> 1
        }) != (if y & 1 == 1 {
            (y >> 1) ^ 0xEDB8_8320
        } else {
            y >> 1
        })) by (bit_vector)
            requires
                x != y,
        ;
    }
}

/// Registers stay different when the same bytes go through both.
proof fn lemma_register_tells_apart(a: Seq<u8>, b: Seq<u8>, tail: Seq<u8>)
    requires
        crc32_register(a) != crc32_register(b),
    ensures
        crc32_register(a + tail) != crc32_register(b + tail),
    decreases tail.len(),
{
    if tail.len() == 0 {
        assert(a + tail =~= a);
        assert(b + tail =~= b);
    } else {
        let rest = tail.drop_last();
        lemma_register_tells_apart(a, b, rest);
        assert((a + tail).drop_last() =~= a + rest);
        assert((b + tail).drop_last() =~= b + rest);
        let x = crc32_register(a + rest);
        let y = crc32_register(b + rest);
        let byte = tail.last() as u32;
        assert(x ^ byte != y ^ byte) by (bit_vector)
            requires
                x != y,
        ;
        lemma_shifted_tells_apart(x ^ byte, y ^ byte, 8);
    }
}

/// A checksum notices when one byte is another, wherever it stands.
pub proof fn law_crc32_notices_a_changed_byte(head: Seq<u8>, a: u8, b: u8, tail: Seq<u8>)
    requires
        a != b,
    ensures
        crc32_of(head + seq![a] + tail) != crc32_of(head + seq![b] + tail),
{
    let x = head + seq![a];
    let y = head + seq![b];
    assert(x.drop_last() =~= head);
    assert(y.drop_last() =~= head);
    let register = crc32_register(head);
    assert(register ^ (a as u32) != register ^ (b as u32)) by (bit_vector)
        requires
            a != b,
    ;
    lemma_shifted_tells_apart(register ^ (a as u32), register ^ (b as u32), 8);
    lemma_register_tells_apart(x, y, tail);
    let p = crc32_register(x + tail);
    let q = crc32_register(y + tail);
    assert(!p != !q) by (bit_vector)
        requires
            p != q,
    ;
}

} // verus!
