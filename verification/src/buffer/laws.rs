//! What holds between the two halves of the codec: a value that is written
//! is the value that is read back at the same offset.
//!
//! Each law speaks of a stream as the writer's contract leaves it,
//! `overwrite(contents, at, encoding)`, and of the decoding that the reader's
//! contract names, applied to the bytes from `at` on.
use vstd::prelude::*;
use vstd::utf8::encode_utf8;
use vstd::utf8::encode_utf8_decode_utf8;
use vstd::utf8::encode_utf8_valid_utf8;
use crate::buffer::layout::group_weight;
use crate::buffer::layout::i32_of_pattern;
use crate::buffer::layout::i32_pattern;
use crate::buffer::layout::le_bytes;
use crate::buffer::layout::le_value;
use crate::buffer::layout::lemma_group_weights;
use crate::buffer::layout::lemma_i32_pattern;
use crate::buffer::layout::lemma_le_bytes_len;
use crate::buffer::layout::lemma_le_value_of_bytes;
use crate::buffer::layout::lemma_varint_len;
use crate::buffer::layout::scan_groups;
use crate::buffer::layout::scan_string;
use crate::buffer::layout::scan_varint;
use crate::buffer::layout::string_bytes;
use crate::buffer::layout::varint_bytes;
use crate::buffer::layout::varint_width;
use crate::buffer::layout::Scan;
use crate::buffer::layout::MAX_VARINT_BYTES;
use crate::buffer::medium::lemma_overwrite_from;
use crate::buffer::medium::lemma_overwrite_len;
use crate::buffer::medium::overwrite;

verus! {

/// A number below `256` to the power of `width` is the number that its
/// little-endian layout of `width` bytes holds.
proof fn lemma_le_round_trip(value: nat, width: nat, radix: nat)
    requires
        1 <= width <= 8,
        radix == vstd::arithmetic::power::pow(256, width),
        value < radix,
    ensures
        le_bytes(value, width).len() == width,
        le_value(le_bytes(value, width)) == value,
{
    lemma_le_bytes_len(value, width);
    lemma_le_value_of_bytes(value, width, radix);
    vstd::arithmetic::div_mod::lemma_small_mod(value, radix);
}

/// The powers of 256 that bound the fixed-width numbers.
proof fn lemma_radix()
    ensures
        vstd::arithmetic::power::pow(256, 1) == 0x100,
        vstd::arithmetic::power::pow(256, 2) == 0x1_0000,
        vstd::arithmetic::power::pow(256, 4) == 0x1_0000_0000,
        vstd::arithmetic::power::pow(256, 8) == 0x1_0000_0000_0000_0000,
{
    reveal_with_fuel(vstd::arithmetic::power::pow, 9);
}

/// A byte that is written at `at` is the byte that stands at `at`.
pub proof fn law_u8_round_trip(contents: Seq<u8>, at: int, value: u8)
    requires
        0 <= at <= contents.len(),
    ensures
        ({
            let written = overwrite(contents, at, seq![value]);
            at + 1 <= written.len() && written[at] == value
        }),
{
    lemma_overwrite_len(contents, at, seq![value]);
}

/// A `u16` that is written at `at` is the number that the two bytes at `at`
/// hold.
pub proof fn law_u16_round_trip(contents: Seq<u8>, at: int, value: u16)
    requires
        0 <= at <= contents.len(),
    ensures
        ({
            let written = overwrite(contents, at, le_bytes(value as nat, 2));
            at + 2 <= written.len() && le_value(written.subrange(at, at + 2)) == value
        }),
{
    lemma_radix();
    lemma_le_round_trip(value as nat, 2, 0x1_0000);
    lemma_overwrite_len(contents, at, le_bytes(value as nat, 2));
    lemma_overwrite_from(contents, at, le_bytes(value as nat, 2));
}

/// A `u32` that is written at `at` is the number that the four bytes at `at`
/// hold.
pub proof fn law_u32_round_trip(contents: Seq<u8>, at: int, value: u32)
    requires
        0 <= at <= contents.len(),
    ensures
        ({
            let written = overwrite(contents, at, le_bytes(value as nat, 4));
            at + 4 <= written.len() && le_value(written.subrange(at, at + 4)) == value
        }),
{
    lemma_radix();
    lemma_le_round_trip(value as nat, 4, 0x1_0000_0000);
    lemma_overwrite_len(contents, at, le_bytes(value as nat, 4));
    lemma_overwrite_from(contents, at, le_bytes(value as nat, 4));
}

/// A `u64` that is written at `at` is the number that the eight bytes at `at`
/// hold.
pub proof fn law_u64_round_trip(contents: Seq<u8>, at: int, value: u64)
    requires
        0 <= at <= contents.len(),
    ensures
        ({
            let written = overwrite(contents, at, le_bytes(value as nat, 8));
            at + 8 <= written.len() && le_value(written.subrange(at, at + 8)) == value
        }),
{
    lemma_radix();
    lemma_le_round_trip(value as nat, 8, 0x1_0000_0000_0000_0000);
    lemma_overwrite_len(contents, at, le_bytes(value as nat, 8));
    lemma_overwrite_from(contents, at, le_bytes(value as nat, 8));
}

/// An `i32` that is written at `at` is the signed number that the four bytes
/// at `at` hold.
pub proof fn law_i32_round_trip(contents: Seq<u8>, at: int, value: i32)
    requires
        0 <= at <= contents.len(),
    ensures
        ({
            let written = overwrite(contents, at, le_bytes(i32_pattern(value), 4));
            at + 4 <= written.len() && i32_of_pattern(le_value(written.subrange(at, at + 4)))
                == value
        }),
{
    lemma_radix();
    lemma_i32_pattern(value);
    lemma_le_round_trip(i32_pattern(value), 4, 0x1_0000_0000);
    lemma_overwrite_len(contents, at, le_bytes(i32_pattern(value), 4));
    lemma_overwrite_from(contents, at, le_bytes(i32_pattern(value), 4));
}

/// Whatever follows the encoding of `value`, a scan with budget enough for
/// the encoding finds `value` and stops behind the encoding.
proof fn lemma_scan_of_varint(value: nat, rest: Seq<u8>, budget: nat)
    requires
        varint_bytes(value).len() <= budget,
    ensures
        scan_groups(varint_bytes(value) + rest, budget) == (Scan::Found {
            value,
            used: varint_bytes(value).len(),
        }),
    decreases value,
{
    let bytes = varint_bytes(value) + rest;
    if value < 128 {
        assert(bytes[0] == value as u8);
    } else {
        let above = varint_bytes(value / 128);
        assert(bytes[0] == (value % 128 + 128) as u8);
        assert(bytes.drop_first() =~= above + rest);
        lemma_scan_of_varint(value / 128, rest, (budget - 1) as nat);
    }
}

/// The encoding of a 32-bit magnitude takes the least number of seven-bit
/// groups that can hold it: the magnitude lies below the weight of the group
/// behind its last, and not below the weight of its last group unless it has
/// only one.
pub proof fn law_varint_is_minimal(value: u32)
    ensures
        varint_bytes(value as nat).len() == varint_width(value),
        1 <= varint_width(value) <= MAX_VARINT_BYTES,
        value < group_weight(varint_width(value)),
        varint_width(value) > 1 ==> value >= group_weight((varint_width(value) - 1) as nat),
{
    lemma_varint_len(value);
    lemma_group_weights();
}

/// A variable-length integer that is written at `at` is the number that is
/// read at `at`, and reading it consumes exactly the bytes of the encoding.
pub proof fn law_varint_round_trip(contents: Seq<u8>, at: int, value: i32)
    requires
        0 <= at <= contents.len(),
    ensures
        ({
            let encoding = varint_bytes(i32_pattern(value));
            let written = overwrite(contents, at, encoding);
            scan_varint(written.subrange(at, written.len() as int)) == (Scan::Found {
                value,
                used: encoding.len(),
            })
        }),
{
    let encoding = varint_bytes(i32_pattern(value));
    let written = overwrite(contents, at, encoding);
    let tail = written.subrange(at + encoding.len(), written.len() as int);
    lemma_i32_pattern(value);
    lemma_varint_len(i32_pattern(value) as u32);
    lemma_overwrite_from(contents, at, encoding);
    lemma_scan_of_varint(i32_pattern(value), tail, MAX_VARINT_BYTES as nat);
}

/// A text that is written at `at` is the text that is read at `at`, and
/// reading it consumes exactly the bytes of the encoding. This holds of the
/// empty text and of every text whose UTF-8 form a signed 32-bit length can
/// count; the writer refuses the others.
pub proof fn law_string_round_trip(contents: Seq<u8>, at: int, text: Seq<char>)
    requires
        0 <= at <= contents.len(),
        encode_utf8(text).len() <= i32::MAX,
    ensures
        ({
            let written = overwrite(contents, at, string_bytes(text));
            scan_string(written.subrange(at, written.len() as int)) == (Scan::Found {
                value: text,
                used: string_bytes(text).len(),
            })
        }),
{
    let payload = encode_utf8(text);
    let length = payload.len() as i32;
    let prefix = varint_bytes(payload.len());
    let written = overwrite(contents, at, string_bytes(text));
    let bytes = written.subrange(at, written.len() as int);
    let tail = written.subrange(at + string_bytes(text).len(), written.len() as int);
    lemma_overwrite_from(contents, at, string_bytes(text));
    assert(bytes =~= prefix + (payload + tail));
    lemma_i32_pattern(length);
    lemma_varint_len(payload.len() as u32);
    lemma_scan_of_varint(payload.len(), payload + tail, MAX_VARINT_BYTES as nat);
    assert(scan_varint(bytes) == (Scan::Found { value: length, used: prefix.len() }));
    assert(bytes.subrange(prefix.len() as int, prefix.len() + length) =~= payload);
    encode_utf8_valid_utf8(text);
    encode_utf8_decode_utf8(text);
}

/// Five bytes with their high bits set are no variable-length integer,
/// whatever follows them: the scan gives up behind the fifth.
pub proof fn law_overlong_varint_is_malformed(bytes: Seq<u8>)
    requires
        bytes.len() >= MAX_VARINT_BYTES,
        forall|i: int| 0 <= i < MAX_VARINT_BYTES ==> bytes[i] >= 128,
    ensures
        scan_varint(bytes) == (Scan::<i32>::Malformed { used: MAX_VARINT_BYTES as nat }),
{
    lemma_scan_of_going_on(bytes, 0, MAX_VARINT_BYTES as nat);
    assert(bytes.skip(0) =~= bytes);
}

/// Fewer than five bytes, all with their high bits set, are the beginning of
/// a variable-length integer that the stream cuts short: the scan consumes
/// them all.
pub proof fn law_cut_varint_is_short(bytes: Seq<u8>)
    requires
        bytes.len() < MAX_VARINT_BYTES,
        forall|i: int| 0 <= i < bytes.len() ==> bytes[i] >= 128,
    ensures
        scan_varint(bytes) == (Scan::<i32>::Short { used: bytes.len() }),
{
    lemma_scan_of_going_on(bytes, 0, MAX_VARINT_BYTES as nat);
    assert(bytes.skip(0) =~= bytes);
}

/// A scan over bytes that all go on ends with the budget or with the bytes,
/// whichever comes first.
proof fn lemma_scan_of_going_on(bytes: Seq<u8>, from: int, budget: nat)
    requires
        0 <= from <= bytes.len(),
        forall|i: int| from <= i < bytes.len() && i < from + budget ==> bytes[i] >= 128,
    ensures
        scan_groups(bytes.skip(from), budget) == if budget <= bytes.len() - from {
            Scan::<nat>::Malformed { used: budget }
        } else {
            Scan::<nat>::Short { used: (bytes.len() - from) as nat }
        },
    decreases budget,
{
    let here = bytes.skip(from);
    if budget > 0 && here.len() > 0 {
        assert(here[0] == bytes[from]);
        assert(here.drop_first() =~= bytes.skip(from + 1));
        lemma_scan_of_going_on(bytes, from + 1, (budget - 1) as nat);
    }
}

} // verus!
