//! Integers as bytes, and numbers as decimal text.

use vstd::prelude::*;

use crate::text::string_of;

verus! {

/// The four bytes of `value`, the most significant one first.
pub open spec fn be_bytes(value: u32) -> Seq<u8> {
    seq![
        (value / 0x100_0000) as u8,
        (value / 0x1_0000 % 0x100) as u8,
        (value / 0x100 % 0x100) as u8,
        (value % 0x100) as u8,
    ]
}

/// The number that four bytes stand for, the most significant one first.
pub open spec fn be_value(bytes: Seq<u8>) -> u32 {
    (bytes[0] * 0x100_0000 + bytes[1] * 0x1_0000 + bytes[2] * 0x100 + bytes[3]) as u32
}

/// The four bytes of `value`, the least significant one first.
pub open spec fn le_bytes(value: u32) -> Seq<u8> {
    seq![
        (value % 0x100) as u8,
        (value / 0x100 % 0x100) as u8,
        (value / 0x1_0000 % 0x100) as u8,
        (value / 0x100_0000) as u8,
    ]
}

/// The two bytes of `value`, the least significant one first.
pub open spec fn le_bytes16(value: u16) -> Seq<u8> {
    seq![(value % 0x100) as u8, (value / 0x100) as u8]
}

/// The number that four bytes stand for, the least significant one first.
pub open spec fn le_value(bytes: Seq<u8>) -> u32 {
    (bytes[0] + bytes[1] * 0x100 + bytes[2] * 0x1_0000 + bytes[3] * 0x100_0000) as u32
}

/// The two's complement of a signed number.
pub open spec fn unsigned(value: i32) -> u32 {
    if value >= 0 {
        value as u32
    } else {
        (value + 0x1_0000_0000) as u32
    }
}

/// The signed number with the two's complement `value`.
pub open spec fn signed(value: u32) -> i32 {
    if value < 0x8000_0000 {
        value as i32
    } else {
        (value - 0x1_0000_0000) as i32
    }
}

/// The two's complement of a sample.
pub open spec fn unsigned16(value: i16) -> u16 {
    if value >= 0 {
        value as u16
    } else {
        (value + 0x1_0000) as u16
    }
}

/// The sample with the two's complement `value`.
pub open spec fn signed16(value: u16) -> i16 {
    if value < 0x8000 {
        value as i16
    } else {
        (value - 0x1_0000) as i16
    }
}

pub proof fn lemma_be_round_trip(value: u32)
    ensures
        be_bytes(value).len() == 4,
        be_value(be_bytes(value)) == value,
{
}

pub proof fn lemma_le_round_trip(value: u32)
    ensures
        le_bytes(value).len() == 4,
        le_value(le_bytes(value)) == value,
{
}

pub proof fn lemma_signed_round_trip(value: i32)
    ensures
        signed(unsigned(value)) == value,
{
}

pub fn to_unsigned(value: i32) -> (result: u32)
    ensures
        result == unsigned(value),
{
    if value >= 0 {
        value as u32
    } else {
        (value as i64 + 0x1_0000_0000i64) as u32
    }
}

pub fn to_signed(value: u32) -> (result: i32)
    ensures
        result == signed(value),
{
    if value < 0x8000_0000 {
        value as i32
    } else {
        (value as i64 - 0x1_0000_0000i64) as i32
    }
}

pub fn push_be(bytes: &mut Vec<u8>, value: u32)
    ensures
        final(bytes)@ == old(bytes)@ + be_bytes(value),
{
    bytes.push((value / 0x100_0000) as u8);
    bytes.push((value / 0x1_0000 % 0x100) as u8);
    bytes.push((value / 0x100 % 0x100) as u8);
    bytes.push((value % 0x100) as u8);
    proof {
        assert(bytes@ =~= old(bytes)@ + be_bytes(value));
    }
}

pub fn push_le(bytes: &mut Vec<u8>, value: u32)
    ensures
        final(bytes)@ == old(bytes)@ + le_bytes(value),
{
    bytes.push((value % 0x100) as u8);
    bytes.push((value / 0x100 % 0x100) as u8);
    bytes.push((value / 0x1_0000 % 0x100) as u8);
    bytes.push((value / 0x100_0000) as u8);
    proof {
        assert(bytes@ =~= old(bytes)@ + le_bytes(value));
    }
}

pub fn push_le16(bytes: &mut Vec<u8>, value: u16)
    ensures
        final(bytes)@ == old(bytes)@ + le_bytes16(value),
{
    bytes.push((value % 0x100) as u8);
    bytes.push((value / 0x100) as u8);
    proof {
        assert(bytes@ =~= old(bytes)@ + le_bytes16(value));
    }
}

/// Appends all of `more`.
pub fn push_all(bytes: &mut Vec<u8>, more: &[u8])
    ensures
        final(bytes)@ == old(bytes)@ + more@,
{
    let mut i: usize = 0;
    proof {
        assert(more@.take(0) == Seq::<u8>::empty());
        assert(old(bytes)@ + Seq::<u8>::empty() == old(bytes)@);
    }
    while i < more.len()
        invariant
            i <= more@.len(),
            bytes@ == old(bytes)@ + more@.take(i as int),
        decreases more@.len() - i,
    {
        bytes.push(more[i]);
        proof {
            assert(more@.take(i + 1) == more@.take(i as int).push(more@[i as int]));
            assert(bytes@ =~= old(bytes)@ + more@.take(i + 1));
        }
        i += 1;
    }
    proof {
        assert(more@.take(more@.len() as int) == more@);
    }
}

/// A copy of `bytes`.
pub fn copy(bytes: &[u8]) -> (result: Vec<u8>)
    ensures
        result@ == bytes@,
{
    let mut result: Vec<u8> = Vec::new();
    push_all(&mut result, bytes);
    proof {
        assert(Seq::<u8>::empty() + bytes@ == bytes@);
    }
    result
}

/// Samples as 16-bit little-endian PCM.
pub open spec fn pcm_bytes(samples: Seq<i16>) -> Seq<u8>
    decreases samples.len(),
{
    if samples.len() == 0 {
        Seq::empty()
    } else {
        pcm_bytes(samples.drop_last()) + le_bytes16(unsigned16(samples.last()))
    }
}

pub proof fn lemma_pcm_bytes_len(samples: Seq<i16>)
    ensures
        pcm_bytes(samples).len() == 2 * samples.len(),
    decreases samples.len(),
{
    if samples.len() > 0 {
        lemma_pcm_bytes_len(samples.drop_last());
    }
}

pub proof fn lemma_pcm_bytes_add(left: Seq<i16>, right: Seq<i16>)
    ensures
        pcm_bytes(left + right) == pcm_bytes(left) + pcm_bytes(right),
    decreases right.len(),
{
    if right.len() == 0 {
        assert(left + right == left);
        assert(pcm_bytes(left) + pcm_bytes(right) == pcm_bytes(left));
    } else {
        assert((left + right).drop_last() == left + right.drop_last());
        lemma_pcm_bytes_add(left, right.drop_last());
        assert(pcm_bytes(left + right) =~= pcm_bytes(left) + pcm_bytes(right));
    }
}

/// The sample that the two bytes at `2 * index` hold.
pub open spec fn sample_at(bytes: Seq<u8>, index: int) -> i16 {
    signed16((bytes[2 * index] + bytes[2 * index + 1] * 0x100) as u16)
}

/// Every sample can be read back from its PCM bytes.
pub proof fn law_pcm_bytes_hold_the_samples(samples: Seq<i16>, index: int)
    requires
        0 <= index < samples.len(),
    ensures
        pcm_bytes(samples).len() == 2 * samples.len(),
        sample_at(pcm_bytes(samples), index) == samples[index],
    decreases samples.len(),
{
    let front = samples.drop_last();
    lemma_pcm_bytes_len(samples);
    lemma_pcm_bytes_len(front);
    if index < front.len() {
        law_pcm_bytes_hold_the_samples(front, index);
    }
}

/// Encodes samples as 16-bit little-endian PCM.
pub fn encode_pcm(samples: &[i16]) -> (result: Vec<u8>)
    ensures
        result@ == pcm_bytes(samples@),
{
    let mut result: Vec<u8> = Vec::new();
    let mut i: usize = 0;
    proof {
        assert(samples@.take(0) == Seq::<i16>::empty());
    }
    while i < samples.len()
        invariant
            i <= samples@.len(),
            result@ == pcm_bytes(samples@.take(i as int)),
        decreases samples@.len() - i,
    {
        let sample: i16 = samples[i];
        let bits: u16 = if sample >= 0 {
            sample as u16
        } else {
            (sample as i32 + 0x1_0000i32) as u16
        };
        push_le16(&mut result, bits);
        proof {
            assert(samples@.take(i + 1).drop_last() == samples@.take(i as int));
            assert(samples@.take(i + 1).last() == sample);
        }
        i += 1;
    }
    proof {
        assert(samples@.take(samples@.len() as int) == samples@);
    }
    result
}

/// The character of a decimal digit.
pub open spec fn digit(value: nat) -> char {
    (('0' as u32) + value) as char
}

/// A natural number in decimal, without leading zeros.
pub open spec fn decimal_digits(value: nat) -> Seq<char>
    decreases value,
{
    if value < 10 {
        seq![digit(value)]
    } else {
        decimal_digits(value / 10).push(digit(value % 10))
    }
}

/// A number in decimal.
pub open spec fn decimal(value: int) -> Seq<char> {
    if value >= 0 {
        decimal_digits(value as nat)
    } else {
        seq!['-'] + decimal_digits((-value) as nat)
    }
}

fn digits_of(value: u64) -> (result: Vec<char>)
    ensures
        result@ == decimal_digits(value as nat),
    decreases value,
{
    let last = (48u8 + (value % 10) as u8) as char;
    if value < 10 {
        let mut result: Vec<char> = Vec::new();
        result.push(last);
        proof {
            assert(result@ =~= seq![digit(value as nat)]);
        }
        result
    } else {
        let mut result = digits_of(value / 10);
        result.push(last);
        result
    }
}

/// Writes a natural number in decimal.
pub fn natural_text(value: u64) -> (result: String)
    ensures
        result@ == decimal_digits(value as nat),
{
    let digits = digits_of(value);
    string_of(digits.as_slice())
}

/// Writes a number in decimal.
pub fn decimal_text(value: i64) -> (result: String)
    ensures
        result@ == decimal(value as int),
{
    if value >= 0 {
        let digits = digits_of(value as u64);
        string_of(digits.as_slice())
    } else {
        let magnitude: u64 = (-(value as i128)) as u64;
        let digits = digits_of(magnitude);
        let mut all: Vec<char> = Vec::new();
        all.push('-');
        let mut rest = digits;
        all.append(&mut rest);
        proof {
            assert(all@ =~= seq!['-'] + decimal_digits(magnitude as nat));
        }
        string_of(all.as_slice())
    }
}

/// Big-endian bytes: each counts 256 times the one behind it, and every four bytes are those of
/// the number that they stand for.
pub proof fn law_big_endian_bytes(value: u32, bytes: Seq<u8>)
    ensures
        be_bytes(value).len() == 4,
        ((be_bytes(value)[0] * 256 + be_bytes(value)[1]) * 256 + be_bytes(value)[2]) * 256
            + be_bytes(value)[3] == value,
        bytes.len() == 4 ==> be_value(bytes) == ((bytes[0] * 256 + bytes[1]) * 256 + bytes[2])
            * 256 + bytes[3],
{
}

/// Little-endian bytes: each counts 256 times the one before it.
pub proof fn law_little_endian_bytes(value: u32, short: u16, bytes: Seq<u8>)
    ensures
        le_bytes(value).len() == 4,
        le_bytes(value)[0] + 256 * (le_bytes(value)[1] + 256 * (le_bytes(value)[2] + 256 * le_bytes(
            value,
        )[3])) == value,
        le_bytes16(short).len() == 2,
        le_bytes16(short)[0] + 256 * le_bytes16(short)[1] == short,
        bytes.len() == 4 ==> le_value(bytes) == bytes[0] + 256 * (bytes[1] + 256 * (bytes[2] + 256
            * bytes[3])),
{
}

/// A number and its two's complement are the same up to a multiple of the word size, in both
/// directions and for both sizes.
pub proof fn law_twos_complement(value: i32, bits: u32, sample: i16, sample_bits: u16)
    ensures
        (unsigned(value) - value) % 0x1_0000_0000 == 0,
        (signed(bits) - bits) % 0x1_0000_0000 == 0,
        (unsigned16(sample) - sample) % 0x1_0000 == 0,
        (signed16(sample_bits) - sample_bits) % 0x1_0000 == 0,
{
}

/// The bytes of a sample stand at twice its place, the low one first: they are the sample up to
/// a multiple of 65536.
pub proof fn law_samples_are_little_endian(samples: Seq<i16>, index: int)
    requires
        0 <= index < samples.len(),
    ensures
        pcm_bytes(samples).len() == 2 * samples.len(),
        (pcm_bytes(samples)[2 * index] + 256 * pcm_bytes(samples)[2 * index + 1] - samples[index])
            % 0x1_0000 == 0,
    decreases samples.len(),
{
    let front = samples.drop_last();
    lemma_pcm_bytes_len(samples);
    lemma_pcm_bytes_len(front);
    if index < front.len() {
        law_samples_are_little_endian(front, index);
    }
}

/// A natural number in decimal: digits only, no zero in front unless it is the number zero, and
/// a digit behind it counts a tenth of the one before it.
pub proof fn law_decimal_digits(value: nat, digit_value: nat)
    requires
        digit_value < 10,
    ensures
        decimal_digits(value).len() > 0,
        forall|i: int|
            0 <= i < decimal_digits(value).len() ==> '0' <= #[trigger] decimal_digits(value)[i]
                <= '9',
        value > 0 ==> decimal_digits(value)[0] != '0',
        value > 0 ==> decimal_digits(10 * value + digit_value) == decimal_digits(value).push(
            (48 + digit_value) as char,
        ),
        decimal_digits(digit_value) == seq![(48 + digit_value) as char],
    decreases value,
{
    if value >= 10 {
        law_decimal_digits(value / 10, digit_value);
        let front = decimal_digits(value / 10);
        assert forall|i: int| 0 <= i < decimal_digits(value).len() implies '0'
            <= #[trigger] decimal_digits(value)[i] <= '9' by {
            if i < front.len() {
                assert(decimal_digits(value)[i] == front[i]);
            }
        }
        assert(decimal_digits(value)[0] == front[0]);
    }
    if value > 0 {
        assert((10 * value + digit_value) / 10 == value);
        assert((10 * value + digit_value) % 10 == digit_value);
    }
}

/// A negative number is written with a minus sign before the digits of its opposite.
pub proof fn law_signs_of_decimals(value: int)
    ensures
        value >= 0 ==> decimal(value) == decimal_digits(value as nat),
        value < 0 ==> decimal(value) == seq!['-'] + decimal(-value),
{
}

} // verus!
