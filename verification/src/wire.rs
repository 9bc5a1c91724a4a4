//! The byte-level layout: headers, big-endian integers and the
//! minimal-width encoding of numbers.

use vstd::prelude::*;

verus! {

/// Type code of an 8-bit signed integer (1 byte of payload).
pub const TYPE_INT8: u8 = 0;

/// Type code of a 16-bit signed integer (2 bytes, big-endian).
pub const TYPE_INT16: u8 = 1;

/// Type code of a 32-bit signed integer (4 bytes, big-endian).
pub const TYPE_INT32: u8 = 2;

/// Type code of a 64-bit signed integer (8 bytes, big-endian).
pub const TYPE_INT64: u8 = 3;

/// Type code of a 32-bit float (4 bytes, big-endian).
pub const TYPE_FLOAT: u8 = 4;

/// Type code of a 64-bit float (8 bytes, big-endian).
pub const TYPE_DOUBLE: u8 = 5;

/// Type code of a string with a 1-byte length.
pub const TYPE_STRING1: u8 = 6;

/// Type code of a string with a 4-byte length.
pub const TYPE_STRING4: u8 = 7;

/// Type code of a map: a count, then that many key and value pairs.
pub const TYPE_MAP: u8 = 8;

/// Type code of a sequence: a count, then that many elements.
pub const TYPE_LIST: u8 = 9;

/// Type code that opens a record.
pub const TYPE_STRUCT_BEGIN: u8 = 10;

/// Type code that closes a record.
pub const TYPE_STRUCT_END: u8 = 11;

/// Type code of the integer zero; it has no payload.
pub const TYPE_ZERO: u8 = 12;

/// Type code of a raw byte block.
pub const TYPE_BYTES: u8 = 13;

/// The tag nibble that announces a second header byte holding the tag.
pub const TAG_ESCAPE: u8 = 15;

/// The bytes of the header for `tag` and a type code of four bits: one
/// byte with the tag in the high nibble and the type code in the low one
/// when the tag is below 15, else a byte with 15 in the high nibble, and
/// the tag in a byte of its own.
pub open spec fn header_bytes(tag: u8, typ: u8) -> Seq<u8>
    recommends
        typ < 16,
{
    if tag < 15 {
        seq![(tag * 16 + typ) as u8]
    } else {
        seq![(15 * 16 + typ) as u8, tag]
    }
}

/// The high nibble of a first header byte: the tag, or 15.
pub open spec fn head_tag(b: u8) -> u8 {
    b / 16
}

/// The low nibble of a first header byte: the type code.
pub open spec fn head_type(b: u8) -> u8 {
    b % 16
}

/// Shifting and masking a byte is dividing it by 16 and taking the
/// remainder.
pub proof fn lemma_nibbles(b: u8)
    ensures
        (b & 0xF0) >> 4 == b / 16,
        b & 0x0F == b % 16,
{
    assert((b & 0xF0) >> 4 == b / 16 && b & 0x0F == b % 16) by (bit_vector);
}

/// Packing two nibbles with a shift is multiplying by 16 and adding.
pub proof fn lemma_pack(nibble: u8, typ: u8)
    requires
        nibble < 16,
        typ < 16,
    ensures
        (nibble << 4) | typ == nibble * 16 + typ,
{
    assert(nibble < 16 && typ < 16 ==> (nibble << 4) | typ == nibble * 16 + typ)
        by (bit_vector);
}

/// 256 to the power `n`.
pub open spec fn pow256(n: nat) -> nat
    decreases n,
{
    if n == 0 {
        1
    } else if n == 1 {
        0x100
    } else if n == 2 {
        0x1_0000
    } else if n == 3 {
        0x100_0000
    } else if n == 4 {
        0x1_0000_0000
    } else if n == 5 {
        0x100_0000_0000
    } else if n == 6 {
        0x1_0000_0000_0000
    } else if n == 7 {
        0x100_0000_0000_0000
    } else if n == 8 {
        0x1_0000_0000_0000_0000
    } else {
        256 * pow256((n - 1) as nat)
    }
}

/// The digit of `value` in base 256 that stands at `place`, the lowest
/// digit standing at place 0.
pub open spec fn digit(value: nat, place: nat) -> u8 {
    if place == 0 {
        (value % 256) as u8
    } else if place == 1 {
        ((value / 0x100) % 256) as u8
    } else if place == 2 {
        ((value / 0x1_0000) % 256) as u8
    } else if place == 3 {
        ((value / 0x100_0000) % 256) as u8
    } else if place == 4 {
        ((value / 0x1_0000_0000) % 256) as u8
    } else if place == 5 {
        ((value / 0x100_0000_0000) % 256) as u8
    } else if place == 6 {
        ((value / 0x1_0000_0000_0000) % 256) as u8
    } else if place == 7 {
        ((value / 0x100_0000_0000_0000) % 256) as u8
    } else {
        ((value / pow256(place)) % 256) as u8
    }
}

/// The `width` low base-256 digits of `value`, most significant first, for
/// the widths that the format has: 1, 2, 4 and 8 bytes. At any other width
/// there are no digits.
pub open spec fn be_bytes(value: nat, width: nat) -> Seq<u8> {
    if width == 1 {
        seq![digit(value, 0)]
    } else if width == 2 {
        seq![digit(value, 1), digit(value, 0)]
    } else if width == 4 {
        seq![digit(value, 3), digit(value, 2), digit(value, 1), digit(value, 0)]
    } else if width == 8 {
        seq![
            digit(value, 7),
            digit(value, 6),
            digit(value, 5),
            digit(value, 4),
            digit(value, 3),
            digit(value, 2),
            digit(value, 1),
            digit(value, 0),
        ]
    } else {
        Seq::empty()
    }
}

/// The number that `bytes` spell in base 256, most significant byte first,
/// for the widths that the format has: 1, 2, 4 and 8 bytes. A run of any
/// other length spells 0.
pub open spec fn be_value(bytes: Seq<u8>) -> nat {
    if bytes.len() == 1 {
        bytes[0] as nat
    } else if bytes.len() == 2 {
        bytes[0] as nat * 0x100 + bytes[1] as nat
    } else if bytes.len() == 4 {
        bytes[0] as nat * 0x100_0000 + bytes[1] as nat * 0x1_0000 + bytes[2] as nat * 0x100
            + bytes[3] as nat
    } else if bytes.len() == 8 {
        bytes[0] as nat * 0x100_0000_0000_0000 + bytes[1] as nat * 0x1_0000_0000_0000
            + bytes[2] as nat * 0x100_0000_0000 + bytes[3] as nat * 0x1_0000_0000
            + bytes[4] as nat * 0x100_0000 + bytes[5] as nat * 0x1_0000 + bytes[6] as nat * 0x100
            + bytes[7] as nat
    } else {
        0
    }
}

/// Whether `width` is one of the widths that the format has, or none.
pub open spec fn is_width(width: nat) -> bool {
    width == 0 || width == 1 || width == 2 || width == 4 || width == 8
}

/// A number is the sum of its digits, each times the unit of its place.
proof fn lemma_digits_spell(v: u64)
    by (bit_vector)
    ensures
        v < 0x1_0000 ==> ((v / 0x100) % 256) * 0x100 + v % 256 == v,
        v < 0x1_0000_0000 ==> ((v / 0x100_0000) % 256) * 0x100_0000 + ((v / 0x1_0000) % 256)
            * 0x1_0000 + ((v / 0x100) % 256) * 0x100 + v % 256 == v,
        ((v / 0x100_0000_0000_0000) % 256) * 0x100_0000_0000_0000 + ((v / 0x1_0000_0000_0000)
            % 256) * 0x1_0000_0000_0000 + ((v / 0x100_0000_0000) % 256) * 0x100_0000_0000 + ((v
            / 0x1_0000_0000) % 256) * 0x1_0000_0000 + ((v / 0x100_0000) % 256) * 0x100_0000 + ((v
            / 0x1_0000) % 256) * 0x1_0000 + ((v / 0x100) % 256) * 0x100 + v % 256 == v,
{
}

/// Reading back the digits of a number that fits gives the number.
pub proof fn lemma_be_value_of_bytes(value: nat, width: nat)
    requires
        is_width(width),
        value < pow256(width),
    ensures
        be_value(be_bytes(value, width)) == value,
{
    lemma_digits_spell(value as u64);
    let bytes = be_bytes(value, width);
    if width == 2 {
        assert(bytes[0] == digit(value, 1) && bytes[1] == digit(value, 0));
    } else if width == 4 {
        assert(bytes[0] == digit(value, 3) && bytes[1] == digit(value, 2) && bytes[2] == digit(
            value,
            1,
        ) && bytes[3] == digit(value, 0));
    } else if width == 8 {
        assert(bytes[0] == digit(value, 7) && bytes[1] == digit(value, 6) && bytes[2] == digit(
            value,
            5,
        ) && bytes[3] == digit(value, 4));
        assert(bytes[4] == digit(value, 3) && bytes[5] == digit(value, 2) && bytes[6] == digit(
            value,
            1,
        ) && bytes[7] == digit(value, 0));
    }
}

/// The unsigned number whose `width` bytes are the two's complement of `v`.
pub open spec fn to_unsigned(v: int, width: nat) -> nat {
    if v < 0 {
        (v + pow256(width)) as nat
    } else {
        v as nat
    }
}

/// The signed number that the `width`-byte two's complement `u` stands for.
pub open spec fn to_signed(u: nat, width: nat) -> int {
    if 2 * u >= pow256(width) {
        u - pow256(width)
    } else {
        u as int
    }
}

/// Whether `v` can be held in `width` bytes of two's complement.
pub open spec fn fits_signed(v: int, width: nat) -> bool {
    -(pow256(width) as int) <= 2 * v < pow256(width)
}

/// Two's complement and back is the identity on what fits.
pub proof fn lemma_signed_round_trip(v: int, width: nat)
    requires
        fits_signed(v, width),
    ensures
        to_unsigned(v, width) < pow256(width),
        to_signed(to_unsigned(v, width), width) == v,
{
}

/// The number of payload bytes that the narrowest encoding of `v` takes.
pub open spec fn number_width(v: i64) -> nat {
    if v == 0 {
        0
    } else if -0x80 <= v <= 0x7F {
        1
    } else if -0x8000 <= v <= 0x7FFF {
        2
    } else if -0x8000_0000 <= v <= 0x7FFF_FFFF {
        4
    } else {
        8
    }
}

/// The type code under which the narrowest encoding of `v` is written.
pub open spec fn number_type(v: i64) -> u8 {
    if v == 0 {
        TYPE_ZERO
    } else if -0x80 <= v <= 0x7F {
        TYPE_INT8
    } else if -0x8000 <= v <= 0x7FFF {
        TYPE_INT16
    } else if -0x8000_0000 <= v <= 0x7FFF_FFFF {
        TYPE_INT32
    } else {
        TYPE_INT64
    }
}

/// The narrowest encoding of `v` under `tag`: a header, then the two's
/// complement of `v` in as few bytes as hold it; zero has no payload.
pub open spec fn number_bytes(tag: u8, v: i64) -> Seq<u8> {
    header_bytes(tag, number_type(v)) + be_bytes(
        to_unsigned(v as int, number_width(v)),
        number_width(v),
    )
}

/// The payload width of a type code that holds an integer, if it is one.
pub open spec fn int_width(typ: u8) -> Option<nat> {
    if typ == TYPE_ZERO {
        Some(0nat)
    } else if typ == TYPE_INT8 {
        Some(1nat)
    } else if typ == TYPE_INT16 {
        Some(2nat)
    } else if typ == TYPE_INT32 {
        Some(4nat)
    } else if typ == TYPE_INT64 {
        Some(8nat)
    } else {
        None
    }
}

/// The narrowest encoding holds the number and announces its own width.
pub proof fn lemma_number_fits(v: i64)
    ensures
        fits_signed(v as int, number_width(v)),
        int_width(number_type(v)) == Some(number_width(v)),
        number_type(v) < 16,
        is_width(number_width(v)),
{
}

} // verus!
