//! The byte layouts of the codec as mathematical functions on byte sequences,
//! and the facts that relate each encoding to its decoding.
use vstd::prelude::*;
use vstd::utf8::decode_utf8;
use vstd::utf8::encode_utf8;
use vstd::utf8::valid_utf8;

verus! {

/// The greatest number of bytes that one variable-length integer may take.
pub const MAX_VARINT_BYTES: usize = 5;

/// The `width` bytes that hold `value`, least significant byte first. Digits
/// of `value` beyond the last byte are dropped.
pub open spec fn le_bytes(value: nat, width: nat) -> Seq<u8>
    decreases width,
{
    if width == 0 {
        Seq::empty()
    } else {
        seq![(value % 256) as u8] + le_bytes(value / 256, (width - 1) as nat)
    }
}

/// The number that `bytes` hold, least significant byte first.
pub open spec fn le_value(bytes: Seq<u8>) -> nat
    decreases bytes.len(),
{
    if bytes.len() == 0 {
        0
    } else {
        bytes[0] as nat + 256 * le_value(bytes.drop_first())
    }
}

/// The unsigned 32-bit pattern of a signed value (two's complement).
pub open spec fn i32_pattern(value: i32) -> nat {
    if value >= 0 {
        value as nat
    } else {
        (value + 0x1_0000_0000) as nat
    }
}

/// The signed value of the low 32 bits of `bits` (two's complement).
pub open spec fn i32_of_pattern(bits: nat) -> i32 {
    let low = bits % 0x1_0000_0000;
    if low < 0x8000_0000 {
        low as i32
    } else {
        (low - 0x1_0000_0000) as i32
    }
}

/// The variable-length encoding of `value`: groups of seven bits, the least
/// significant group first, each byte but the last with its high bit set.
pub open spec fn varint_bytes(value: nat) -> Seq<u8>
    decreases value,
{
    if value < 128 {
        seq![value as u8]
    } else {
        seq![(value % 128 + 128) as u8] + varint_bytes(value / 128)
    }
}

/// The encoding of a text: the byte length of its UTF-8 form as a
/// variable-length integer, then the UTF-8 bytes.
pub open spec fn string_bytes(text: Seq<char>) -> Seq<u8> {
    varint_bytes(encode_utf8(text).len()) + encode_utf8(text)
}

/// What decoding finds at the head of a byte sequence, and how many bytes it
/// consumes in doing so.
pub enum Scan<T> {
    /// A value stands there and takes `used` bytes.
    Found { value: T, used: nat },
    /// The bytes end before the value does; `used` bytes are consumed.
    Short { used: nat },
    /// The bytes are no encoding of a value; `used` bytes are consumed.
    Malformed { used: nat },
}

/// Decodes seven-bit groups from the head of `bytes`, reading at most `budget`
/// bytes. The groups end with the first byte whose high bit is clear.
pub open spec fn scan_groups(bytes: Seq<u8>, budget: nat) -> Scan<nat>
    decreases budget,
{
    if budget == 0 {
        Scan::Malformed { used: 0 }
    } else if bytes.len() == 0 {
        Scan::Short { used: 0 }
    } else if bytes[0] < 128 {
        Scan::Found { value: bytes[0] as nat, used: 1 }
    } else {
        match scan_groups(bytes.drop_first(), (budget - 1) as nat) {
            Scan::Found { value, used } => Scan::Found {
                value: (bytes[0] - 128) as nat + 128 * value,
                used: used + 1,
            },
            Scan::Short { used } => Scan::Short { used: used + 1 },
            Scan::Malformed { used } => Scan::Malformed { used: used + 1 },
        }
    }
}

/// Decodes a variable-length integer from the head of `bytes`. An encoding
/// that goes on after five bytes is malformed; of the groups that were read,
/// the low 32 bits make the value.
pub open spec fn scan_varint(bytes: Seq<u8>) -> Scan<i32> {
    match scan_groups(bytes, MAX_VARINT_BYTES as nat) {
        Scan::Found { value, used } => Scan::Found { value: i32_of_pattern(value), used },
        Scan::Short { used } => Scan::Short { used },
        Scan::Malformed { used } => Scan::Malformed { used },
    }
}

/// Decodes a length-prefixed text from the head of `bytes`. A negative length
/// and a payload that is not UTF-8 are malformed. A payload that the bytes do
/// not hold in full leaves only the length consumed.
pub open spec fn scan_string(bytes: Seq<u8>) -> Scan<Seq<char>> {
    match scan_varint(bytes) {
        Scan::Found { value, used } => {
            if value < 0 {
                Scan::Malformed { used }
            } else if bytes.len() < used + value {
                Scan::Short { used }
            } else {
                let payload = bytes.subrange(used as int, used + value);
                if valid_utf8(payload) {
                    Scan::Found { value: decode_utf8(payload), used: (used + value) as nat }
                } else {
                    Scan::Malformed { used: (used + value) as nat }
                }
            }
        },
        Scan::Short { used } => Scan::Short { used },
        Scan::Malformed { used } => Scan::Malformed { used },
    }
}

/// The number of seven-bit groups that `value` needs: the least count, from
/// one to five, whose groups can hold it.
pub open spec fn varint_width(value: u32) -> nat {
    if value < 0x80 {
        1
    } else if value < 0x4000 {
        2
    } else if value < 0x20_0000 {
        3
    } else if value < 0x1000_0000 {
        4
    } else {
        5
    }
}

/// A layout of `width` bytes has `width` bytes.
pub proof fn lemma_le_bytes_len(value: nat, width: nat)
    ensures
        le_bytes(value, width).len() == width,
    decreases width,
{
    if width > 0 {
        lemma_le_bytes_len(value / 256, (width - 1) as nat);
    }
}

/// A little-endian layout, taken apart one byte at a time.
pub proof fn lemma_le_bytes_step(value: nat, width: nat)
    requires
        width > 0,
    ensures
        le_bytes(value, width)[0] == (value % 256) as u8,
        le_bytes(value, width).drop_first() == le_bytes(value / 256, (width - 1) as nat),
{
    assert(le_bytes(value, width).drop_first() =~= le_bytes(value / 256, (width - 1) as nat));
}

/// Decoding a little-endian layout gives back the digits that it kept.
pub proof fn lemma_le_value_of_bytes(value: nat, width: nat, radix: nat)
    requires
        radix == vstd::arithmetic::power::pow(256, width),
    ensures
        le_value(le_bytes(value, width)) == value % radix,
    decreases width,
{
    vstd::arithmetic::power::lemma_pow0(256);
    if width == 0 {
    } else {
        let rest = (width - 1) as nat;
        let lower = vstd::arithmetic::power::pow(256, rest) as nat;
        vstd::arithmetic::power::lemma_pow_positive(256, rest);
        vstd::arithmetic::power::lemma_pow_positive(256, width);
        vstd::arithmetic::power::lemma_pow_adds(256, 1, rest);
        vstd::arithmetic::power::lemma_pow1(256);
        assert(radix == 256 * lower);
        lemma_le_bytes_step(value, width);
        lemma_le_bytes_len(value, width);
        lemma_le_value_of_bytes(value / 256, rest, lower);
        assert(le_value(le_bytes(value, width)) == value % 256 + 256 * ((value / 256) % lower));
        vstd::arithmetic::div_mod::lemma_breakdown(value as int, 256, lower as int);
        vstd::arithmetic::div_mod::lemma_mod_breakdown(value as int, 256, lower as int);
    }
}

/// Encoding the number that bytes hold, at their own width, gives the bytes.
pub proof fn lemma_le_bytes_of_value(bytes: Seq<u8>)
    ensures
        le_bytes(le_value(bytes), bytes.len()) == bytes,
    decreases bytes.len(),
{
    if bytes.len() == 0 {
        assert(le_bytes(le_value(bytes), bytes.len()) =~= bytes);
    } else {
        let rest = bytes.drop_first();
        lemma_le_bytes_of_value(rest);
        let value = le_value(bytes);
        assert(value == bytes[0] as nat + 256 * le_value(rest));
        assert(value % 256 == bytes[0] as nat && value / 256 == le_value(rest)) by {
            vstd::arithmetic::div_mod::lemma_fundamental_div_mod_converse(
                value as int,
                256,
                le_value(rest) as int,
                bytes[0] as int,
            );
        }
        assert(le_bytes(value, bytes.len()) =~= bytes);
    }
}

proof fn lemma_u16_digits(v: u16)
    by (bit_vector)
    ensures
        v & 0xff < 256,
        (v >> 8) & 0xff < 256,
        v == (v & 0xff) + 0x100 * ((v >> 8) & 0xff),
{
}

proof fn lemma_u32_digits(v: u32)
    by (bit_vector)
    ensures
        v & 0xff < 256,
        (v >> 8) & 0xff < 256,
        (v >> 16) & 0xff < 256,
        (v >> 24) & 0xff < 256,
        v == (v & 0xff) + 0x100 * ((v >> 8) & 0xff) + 0x1_0000 * ((v >> 16) & 0xff) + 0x100_0000 * (
        (v >> 24) & 0xff),
{
}

proof fn lemma_u64_digits(v: u64)
    by (bit_vector)
    ensures
        v & 0xff < 256,
        (v >> 8) & 0xff < 256,
        (v >> 16) & 0xff < 256,
        (v >> 24) & 0xff < 256,
        (v >> 32) & 0xff < 256,
        (v >> 40) & 0xff < 256,
        (v >> 48) & 0xff < 256,
        (v >> 56) & 0xff < 256,
        v & 0xffff_ffff == (v & 0xff) + 0x100 * ((v >> 8) & 0xff) + 0x1_0000 * ((v >> 16) & 0xff)
            + 0x100_0000 * ((v >> 24) & 0xff),
        v >> 32 == ((v >> 32) & 0xff) + 0x100 * ((v >> 40) & 0xff) + 0x1_0000 * ((v >> 48) & 0xff)
            + 0x100_0000 * ((v >> 56) & 0xff),
        v == (v & 0xffff_ffff) + 0x1_0000_0000 * (v >> 32),
{
}

/// The number that two bytes hold.
pub proof fn lemma_le_value_2(bytes: Seq<u8>)
    requires
        bytes.len() == 2,
    ensures
        le_value(bytes) == bytes[0] + 0x100 * bytes[1],
{
    reveal_with_fuel(le_value, 3);
    let b1 = bytes.drop_first();
    assert(b1[0] == bytes[1]);
}

/// The number that four bytes hold.
pub proof fn lemma_le_value_4(bytes: Seq<u8>)
    requires
        bytes.len() == 4,
    ensures
        le_value(bytes) == bytes[0] + 0x100 * bytes[1] + 0x1_0000 * bytes[2] + 0x100_0000
            * bytes[3],
{
    let rest = bytes.drop_first().drop_first();
    assert(rest.len() == 2);
    lemma_le_value_2(rest);
    assert(rest[0] == bytes[2] && rest[1] == bytes[3]);
    assert(bytes.drop_first()[0] == bytes[1]);
    assert(le_value(bytes) == bytes[0] + 256 * le_value(bytes.drop_first()));
    assert(le_value(bytes.drop_first()) == bytes[1] + 256 * le_value(rest));
}

/// The number that eight bytes hold is made of its two halves.
pub proof fn lemma_le_value_8(bytes: Seq<u8>)
    requires
        bytes.len() == 8,
    ensures
        le_value(bytes) == le_value(bytes.subrange(0, 4)) + 0x1_0000_0000 * le_value(
            bytes.subrange(4, 8),
        ),
{
    lemma_le_value_join(bytes.subrange(0, 4), bytes.subrange(4, 8));
    assert(bytes.subrange(0, 4) + bytes.subrange(4, 8) =~= bytes);
    reveal_with_fuel(vstd::arithmetic::power::pow, 5);
    assert(vstd::arithmetic::power::pow(256, 4) == 0x1_0000_0000);
}

/// The number that two runs of bytes hold together: the second run stands
/// above the digits of the first.
pub proof fn lemma_le_value_join(low: Seq<u8>, high: Seq<u8>)
    ensures
        le_value(low + high) == le_value(low) + vstd::arithmetic::power::pow(256, low.len())
            * le_value(high),
    decreases low.len(),
{
    reveal_with_fuel(vstd::arithmetic::power::pow, 2);
    let both = low + high;
    if low.len() == 0 {
        assert(both =~= high);
        assert(le_value(low) == 0);
        assert(vstd::arithmetic::power::pow(256, 0) == 1);
    } else {
        let rest = low.drop_first();
        let weight = vstd::arithmetic::power::pow(256, rest.len());
        lemma_le_value_join(rest, high);
        assert(both.drop_first() =~= rest + high);
        assert(both[0] == low[0]);
        assert(le_value(both) == low[0] + 256 * le_value(rest + high));
        assert(le_value(low) == low[0] + 256 * le_value(rest));
        assert(vstd::arithmetic::power::pow(256, low.len()) == 256 * weight);
        assert(256 * (le_value(rest) + weight * le_value(high)) == 256 * le_value(rest) + (256
            * weight) * le_value(high)) by (nonlinear_arith);
    }
}

/// The two bytes that shifts and masks take from a `u16` are its
/// little-endian layout.
pub proof fn lemma_u16_bytes(v: u16)
    ensures
        le_bytes(v as nat, 2) == seq![(v & 0xff) as u8, ((v >> 8) & 0xff) as u8],
{
    let bytes = seq![(v & 0xff) as u8, ((v >> 8) & 0xff) as u8];
    lemma_u16_digits(v);
    lemma_le_value_2(bytes);
    lemma_le_bytes_of_value(bytes);
}

/// The four bytes that shifts and masks take from a `u32` are its
/// little-endian layout.
pub proof fn lemma_u32_bytes(v: u32)
    ensures
        le_bytes(v as nat, 4) == seq![
            (v & 0xff) as u8,
            ((v >> 8) & 0xff) as u8,
            ((v >> 16) & 0xff) as u8,
            ((v >> 24) & 0xff) as u8,
        ],
{
    let bytes = seq![
        (v & 0xff) as u8,
        ((v >> 8) & 0xff) as u8,
        ((v >> 16) & 0xff) as u8,
        ((v >> 24) & 0xff) as u8,
    ];
    lemma_u32_digits(v);
    lemma_le_value_4(bytes);
    lemma_le_bytes_of_value(bytes);
}

/// The eight bytes that shifts and masks take from a `u64` are its
/// little-endian layout.
pub proof fn lemma_u64_bytes(v: u64)
    ensures
        le_bytes(v as nat, 8) == seq![
            (v & 0xff) as u8,
            ((v >> 8) & 0xff) as u8,
            ((v >> 16) & 0xff) as u8,
            ((v >> 24) & 0xff) as u8,
            ((v >> 32) & 0xff) as u8,
            ((v >> 40) & 0xff) as u8,
            ((v >> 48) & 0xff) as u8,
            ((v >> 56) & 0xff) as u8,
        ],
{
    let bytes = seq![
        (v & 0xff) as u8,
        ((v >> 8) & 0xff) as u8,
        ((v >> 16) & 0xff) as u8,
        ((v >> 24) & 0xff) as u8,
        ((v >> 32) & 0xff) as u8,
        ((v >> 40) & 0xff) as u8,
        ((v >> 48) & 0xff) as u8,
        ((v >> 56) & 0xff) as u8,
    ];
    lemma_u64_digits(v);
    lemma_le_value_8(bytes);
    lemma_le_value_4(bytes.subrange(0, 4));
    lemma_le_value_4(bytes.subrange(4, 8));
    lemma_le_bytes_of_value(bytes);
}

/// A cast from `i32` to `u32` keeps the two's complement pattern.
pub proof fn lemma_i32_pattern(v: i32)
    ensures
        v as u32 == i32_pattern(v),
        i32_of_pattern(i32_pattern(v)) == v,
{
    assert(v >= 0 ==> v as u32 == v) by (bit_vector);
    assert(v < 0 ==> v as u32 == v + 0x1_0000_0000) by (bit_vector);
}

/// A cast from `u32` to `i32` reads the pattern as two's complement.
pub proof fn lemma_i32_of_pattern(bits: u32)
    ensures
        bits as i32 == i32_of_pattern(bits as nat),
        i32_pattern(i32_of_pattern(bits as nat)) == bits,
{
    assert(bits < 0x8000_0000 ==> bits as i32 == bits) by (bit_vector);
    assert(bits >= 0x8000_0000 ==> bits as i32 == bits - 0x1_0000_0000) by (bit_vector);
}

/// One step of the variable-length encoder: the low group with the high bit
/// set, and the rest shifted down.
pub proof fn lemma_varint_step(v: u32)
    requires
        v >= 0x80,
    ensures
        (v & 0x7f) | 0x80 == v % 128 + 128,
        v >> 7 == v / 128,
        varint_bytes(v as nat) == seq![((v & 0x7f) | 0x80) as u8] + varint_bytes((v >> 7) as nat),
{
    assert((v & 0x7f) | 0x80 == v % 128 + 128) by (bit_vector);
    assert(v >> 7 == v / 128) by (bit_vector);
}

/// A variable-length encoding takes as many bytes as the value has groups of
/// seven bits, and at least one.
pub proof fn lemma_varint_len(value: u32)
    ensures
        varint_bytes(value as nat).len() == varint_width(value),
        1 <= varint_width(value) <= MAX_VARINT_BYTES,
    decreases value,
{
    if value >= 0x80 {
        lemma_varint_len(value / 128);
    }
}

/// Four bytes put together by shifts make the number that they hold.
pub proof fn lemma_u32_assembly(bytes: Seq<u8>)
    requires
        bytes.len() == 4,
    ensures
        le_value(bytes) == (bytes[0] as u32) | ((bytes[1] as u32) << 8) | ((bytes[2] as u32) << 16)
            | ((bytes[3] as u32) << 24),
{
    let b0 = bytes[0];
    let b1 = bytes[1];
    let b2 = bytes[2];
    let b3 = bytes[3];
    lemma_le_value_4(bytes);
    assert((b0 as u32) | ((b1 as u32) << 8) | ((b2 as u32) << 16) | ((b3 as u32) << 24) == b0
        + 0x100 * b1 + 0x1_0000 * b2 + 0x100_0000 * b3) by (bit_vector);
}

/// Two bytes put together by a shift make the number that they hold.
pub proof fn lemma_u16_assembly(bytes: Seq<u8>)
    requires
        bytes.len() == 2,
    ensures
        le_value(bytes) == (bytes[0] as u16) | ((bytes[1] as u16) << 8),
{
    let b0 = bytes[0];
    let b1 = bytes[1];
    lemma_le_value_2(bytes);
    assert((b0 as u16) | ((b1 as u16) << 8) == b0 + 0x100 * b1) by (bit_vector);
}

/// Eight bytes put together as two halves of 32 bits make the number that
/// they hold.
pub proof fn lemma_u64_assembly(bytes: Seq<u8>, low: u32, high: u32)
    requires
        bytes.len() == 8,
        low == le_value(bytes.subrange(0, 4)),
        high == le_value(bytes.subrange(4, 8)),
    ensures
        le_value(bytes) == ((high as u64) << 32) | (low as u64),
{
    lemma_le_value_8(bytes);
    assert(((high as u64) << 32) | (low as u64) == low + 0x1_0000_0000 * high) by (bit_vector);
}

/// The weight of the seven-bit group with the given index.
pub open spec fn group_weight(index: nat) -> nat
    decreases index,
{
    if index == 0 {
        1
    } else {
        128 * group_weight((index - 1) as nat)
    }
}

/// What a scan of the groups behind the first `count` bytes means for the
/// scan of all of them, where those first bytes hold `low` and go on.
pub open spec fn scan_behind(rest: Scan<nat>, low: nat, count: nat) -> Scan<nat> {
    match rest {
        Scan::Found { value, used } => Scan::Found {
            value: low + group_weight(count) * value,
            used: used + count,
        },
        Scan::Short { used } => Scan::Short { used: used + count },
        Scan::Malformed { used } => Scan::Malformed { used: used + count },
    }
}

/// A byte that goes on adds its group below those that follow it.
pub proof fn lemma_scan_behind_step(bytes: Seq<u8>, low: nat, count: nat, budget: nat)
    requires
        count < bytes.len(),
        bytes[count as int] >= 128,
        budget > 0,
    ensures
        scan_behind(scan_groups(bytes.skip(count as int), budget), low, count) == scan_behind(
            scan_groups(bytes.skip((count + 1) as int), (budget - 1) as nat),
            low + group_weight(count) * (bytes[count as int] - 128) as nat,
            count + 1,
        ),
{
    let here = bytes.skip(count as int);
    let group = (bytes[count as int] - 128) as nat;
    let weight = group_weight(count);
    assert(here[0] == bytes[count as int]);
    assert(here.drop_first() =~= bytes.skip((count + 1) as int));
    assert(group_weight(count + 1) == 128 * weight);
    match scan_groups(bytes.skip((count + 1) as int), (budget - 1) as nat) {
        Scan::Found { value, used } => {
            assert(low + weight * (group + 128 * value) == low + weight * group + (128 * weight)
                * value) by (nonlinear_arith);
        },
        _ => {},
    }
}

/// The weights of the five groups of a variable-length integer.
pub proof fn lemma_group_weights()
    ensures
        group_weight(0) == 1,
        group_weight(1) == 0x80,
        group_weight(2) == 0x4000,
        group_weight(3) == 0x20_0000,
        group_weight(4) == 0x1000_0000,
        group_weight(5) == 0x8_0000_0000,
{
    reveal_with_fuel(group_weight, 6);
}

/// A group that is shifted above the groups before it adds its weight.
pub proof fn lemma_group_merge(low: u64, byte: u8, shift: u32)
    by (bit_vector)
    requires
        shift == 0 || shift == 7 || shift == 14 || shift == 21 || shift == 28,
        low < (1u64 << shift),
    ensures
        (byte & 0x7f) == byte % 128,
        (byte & 0x80 == 0) <==> byte < 128,
        low | (((byte & 0x7f) as u64) << shift) == low + (1u64 << shift) * (byte % 128) as u64,
        low | (((byte & 0x7f) as u64) << shift) < (1u64 << ((shift + 7) as u32)),
{
}

/// The weights of the five groups as shifts.
pub proof fn lemma_group_shifts()
    by (bit_vector)
    ensures
        1u64 << 0u32 == 1,
        1u64 << 7u32 == 0x80,
        1u64 << 14u32 == 0x4000,
        1u64 << 21u32 == 0x20_0000,
        1u64 << 28u32 == 0x1000_0000,
        1u64 << 35u32 == 0x8_0000_0000,
{
}

/// The low 32 bits of the groups, read as a signed number.
pub proof fn lemma_low_bits(groups: u64)
    ensures
        ((groups & 0xffff_ffff) as u32) as i32 == i32_of_pattern(groups as nat),
        groups & 0xffff_ffff <= 0xffff_ffff,
{
    assert(groups & 0xffff_ffff == groups % 0x1_0000_0000) by (bit_vector);
    lemma_i32_of_pattern((groups & 0xffff_ffff) as u32);
}

/// A scan consumes no more bytes than its budget allows and the bytes hold.
pub proof fn lemma_scan_bounds(bytes: Seq<u8>, budget: nat)
    ensures
        match scan_groups(bytes, budget) {
            Scan::Found { used, .. } => 1 <= used <= budget && used <= bytes.len(),
            Scan::Short { used } => used < budget && used == bytes.len(),
            Scan::Malformed { used } => used == budget && used <= bytes.len(),
        },
    decreases budget,
{
    if budget > 0 && bytes.len() > 0 && bytes[0] >= 128 {
        lemma_scan_bounds(bytes.drop_first(), (budget - 1) as nat);
    }
}

} // verus!
