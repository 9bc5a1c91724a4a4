//! What decoding means: functions from an input to a result and the input
//! that is left, or to the first error met.
//!
//! The functions that call each other in a circle (`take_value` and
//! `skip_value` with their helpers) are opaque, to keep proofs about them
//! from unfolding more than they ask for: `reveal` them where their
//! definitions are needed. Each of them goes on only behind a value that
//! left no more input than it found; `laws::lemma_take_value_shrinks` and
//! `laws::lemma_skip_value_shrinks` show that every value does.

use crate::error::Error;
use crate::value::Node;
use crate::wire::{
    be_value, head_tag, head_type, int_width, to_signed, TAG_ESCAPE, TYPE_BYTES, TYPE_DOUBLE,
    TYPE_FLOAT, TYPE_INT16, TYPE_INT32, TYPE_INT64, TYPE_INT8, TYPE_LIST, TYPE_MAP,
    TYPE_STRING1, TYPE_STRING4, TYPE_STRUCT_BEGIN, TYPE_STRUCT_END, TYPE_ZERO,
};
use vstd::prelude::*;
use vstd::utf8::{decode_utf8, valid_utf8};

verus! {

/// What a decoder still has before it: a header that was pushed back, if
/// any, and the bytes not yet read.
pub struct Source {
    /// The header (tag, type code) that the next header read returns.
    pub peeked: Option<(u8, u8)>,
    /// The bytes not yet read.
    pub bytes: Seq<u8>,
}

impl Source {
    /// The number of header reads that the source can still serve at most.
    pub open spec fn weight(self) -> nat {
        self.bytes.len() + if self.peeked is Some {
            1nat
        } else {
            0nat
        }
    }

    /// The source once its first `n` bytes are read.
    pub open spec fn skip(self, n: int) -> Source {
        Source { peeked: self.peeked, bytes: self.bytes.skip(n) }
    }
}

/// The next header (tag, type code). A pushed-back header is served first.
/// Else one byte is read: its low nibble is the type code, its high nibble
/// the tag, unless that is 15, in which case the next byte is the tag.
pub open spec fn take_header(s: Source) -> Result<((u8, u8), Source), Error> {
    match s.peeked {
        Some(h) => Ok((h, Source { peeked: None, bytes: s.bytes })),
        None => {
            if s.bytes.len() == 0 {
                Err(Error::UnexpectedEnd)
            } else if head_tag(s.bytes[0]) != TAG_ESCAPE {
                Ok(((head_tag(s.bytes[0]), head_type(s.bytes[0])), s.skip(1)))
            } else if s.bytes.len() < 2 {
                Err(Error::UnexpectedEnd)
            } else {
                Ok(((s.bytes[1], head_type(s.bytes[0])), s.skip(2)))
            }
        },
    }
}

/// The next `n` bytes.
pub open spec fn take_bytes(s: Source, n: nat) -> Result<(Seq<u8>, Source), Error> {
    if s.bytes.len() < n {
        Err(Error::UnexpectedEnd)
    } else {
        Ok((s.bytes.take(n as int), s.skip(n as int)))
    }
}

/// The unsigned big-endian number in the next `width` bytes.
pub open spec fn take_uint(s: Source, width: nat) -> Result<(nat, Source), Error> {
    match take_bytes(s, width) {
        Ok((b, rest)) => Ok((be_value(b), rest)),
        Err(e) => Err(e),
    }
}

/// The integer held under type code `typ`, widened to 64 bits with its sign.
/// Only the five integer type codes are accepted.
pub open spec fn take_int(s: Source, typ: u8) -> Result<(i64, Source), Error> {
    match int_width(typ) {
        None => Err(Error::TypeMismatch),
        Some(w) => match take_uint(s, w) {
            Ok((u, rest)) => Ok((to_signed(u, w) as i64, rest)),
            Err(e) => Err(e),
        },
    }
}

/// A header and the integer that it announces.
pub open spec fn take_number(s: Source) -> Result<(i64, Source), Error> {
    match take_header(s) {
        Ok(((_, typ), rest)) => take_int(rest, typ),
        Err(e) => Err(e),
    }
}

/// A count read from the input as a number. A negative count asks for more
/// than any input holds.
pub open spec fn count_of(n: i64) -> Result<nat, Error> {
    if n < 0 {
        Err(Error::UnexpectedEnd)
    } else {
        Ok(n as nat)
    }
}

/// A header, the count that it announces, and that many bytes.
pub open spec fn take_counted(s: Source) -> Result<(Seq<u8>, Source), Error> {
    match take_number(s) {
        Err(e) => Err(e),
        Ok((n, s1)) => match count_of(n) {
            Err(e) => Err(e),
            Ok(len) => take_bytes(s1, len),
        },
    }
}

/// The string held under type code `typ`: a length of one byte (type 6) or
/// of four (type 7), then that many bytes of UTF-8.
pub open spec fn take_text(s: Source, typ: u8) -> Result<(Seq<char>, Source), Error> {
    if typ != TYPE_STRING1 && typ != TYPE_STRING4 {
        Err(Error::TypeMismatch)
    } else {
        match take_uint(
            s,
            if typ == TYPE_STRING1 {
                1
            } else {
                4
            },
        ) {
            Err(e) => Err(e),
            Ok((len, s1)) => match take_bytes(s1, len) {
                Err(e) => Err(e),
                Ok((b, s2)) => if valid_utf8(b) {
                    Ok((decode_utf8(b), s2))
                } else {
                    Err(Error::InvalidUtf8)
                },
            },
        }
    }
}

/// The raw byte block that follows a header of type 13: a nested header,
/// whose type code must be 0, then a counted run of bytes.
pub open spec fn take_block(s: Source) -> Result<(Seq<u8>, Source), Error> {
    match take_header(s) {
        Err(e) => Err(e),
        Ok(((_, marker), s1)) => if marker != TYPE_INT8 {
            Err(Error::InvalidBlockMarker)
        } else {
            take_counted(s1)
        },
    }
}

/// The value held under type code `typ`, as a tree.
#[verifier::opaque]
pub open spec fn take_value(s: Source, typ: u8) -> Result<(Node, Source), Error>
    decreases s.weight(), 1nat,
{
    if typ == TYPE_INT8 {
        match take_bytes(s, 1) {
            Err(e) => Err(e),
            Ok((b, rest)) => Ok((Node::Byte(b[0]), rest)),
        }
    } else if typ == TYPE_INT16 {
        match take_uint(s, 2) {
            Err(e) => Err(e),
            Ok((u, rest)) => Ok((Node::Int16(to_signed(u, 2) as i16), rest)),
        }
    } else if typ == TYPE_INT32 {
        match take_uint(s, 4) {
            Err(e) => Err(e),
            Ok((u, rest)) => Ok((Node::Int32(to_signed(u, 4) as i32), rest)),
        }
    } else if typ == TYPE_INT64 {
        match take_uint(s, 8) {
            Err(e) => Err(e),
            Ok((u, rest)) => Ok((Node::Int64(to_signed(u, 8) as i64), rest)),
        }
    } else if typ == TYPE_FLOAT {
        match take_uint(s, 4) {
            Err(e) => Err(e),
            Ok((u, rest)) => Ok((Node::Float(u as u32), rest)),
        }
    } else if typ == TYPE_DOUBLE {
        match take_uint(s, 8) {
            Err(e) => Err(e),
            Ok((u, rest)) => Ok((Node::Double(u as u64), rest)),
        }
    } else if typ == TYPE_STRING1 || typ == TYPE_STRING4 {
        match take_text(s, typ) {
            Err(e) => Err(e),
            Ok((t, rest)) => Ok((Node::String(t), rest)),
        }
    } else if typ == TYPE_MAP {
        match take_number(s) {
            Err(e) => Err(e),
            Ok((n, s1)) => match count_of(n) {
                Err(e) => Err(e),
                Ok(len) => match take_pairs(s1, len, Seq::empty()) {
                    Err(e) => Err(e),
                    Ok((pairs, rest)) => Ok((Node::Mapping(pairs), rest)),
                },
            },
        }
    } else if typ == TYPE_LIST {
        match take_number(s) {
            Err(e) => Err(e),
            Ok((n, s1)) => match count_of(n) {
                Err(e) => Err(e),
                Ok(len) => match take_items(s1, len, Seq::empty()) {
                    Err(e) => Err(e),
                    Ok((items, rest)) => Ok((Node::List(items), rest)),
                },
            },
        }
    } else if typ == TYPE_STRUCT_BEGIN {
        match take_fields(s, Map::empty()) {
            Err(e) => Err(e),
            Ok((fields, rest)) => Ok((Node::Struct(fields), rest)),
        }
    } else if typ == TYPE_STRUCT_END {
        Err(Error::TypeMismatch)
    } else if typ == TYPE_ZERO {
        Ok((Node::Zero, s))
    } else if typ == TYPE_BYTES {
        match take_block(s) {
            Err(e) => Err(e),
            Ok((b, rest)) => Ok((Node::Bytes(b), rest)),
        }
    } else {
        Err(Error::UnknownTypeCode)
    }
}

/// `n` elements, each a header and the value that it announces, appended to
/// `acc`. The tags of the headers are not looked at.
#[verifier::opaque]
pub open spec fn take_items(s: Source, n: nat, acc: Seq<Node>) -> Result<
    (Seq<Node>, Source),
    Error,
>
    decreases s.weight(), n,
{
    if n == 0 {
        Ok((acc, s))
    } else {
        match take_header(s) {
            Err(e) => Err(e),
            Ok(((_, typ), s1)) => match take_value(s1, typ) {
                Err(e) => Err(e),
                Ok((v, s2)) => if s2.weight() <= s1.weight() {
                    take_items(s2, (n - 1) as nat, acc.push(v))
                } else {
                    // A value never leaves more input than it found.
                    Err(Error::UnexpectedEnd)
                },
            },
        }
    }
}

/// `n` entries, each a key and a value with a header of their own, appended
/// to `acc`.
#[verifier::opaque]
pub open spec fn take_pairs(s: Source, n: nat, acc: Seq<(Node, Node)>) -> Result<
    (Seq<(Node, Node)>, Source),
    Error,
>
    decreases s.weight(), n,
{
    if n == 0 {
        Ok((acc, s))
    } else {
        match take_header(s) {
            Err(e) => Err(e),
            Ok(((_, key_typ), s1)) => match take_value(s1, key_typ) {
                Err(e) => Err(e),
                Ok((key, s2)) => if s2.weight() <= s1.weight() {
                    match take_header(s2) {
                        Err(e) => Err(e),
                        Ok(((_, val_typ), s3)) => match take_value(s3, val_typ) {
                            Err(e) => Err(e),
                            Ok((val, s4)) => if s4.weight() <= s3.weight() {
                                take_pairs(s4, (n - 1) as nat, acc.push((key, val)))
                            } else {
                                Err(Error::UnexpectedEnd)
                            },
                        },
                    }
                } else {
                    Err(Error::UnexpectedEnd)
                },
            },
        }
    }
}

/// The fields of a nested record, up to and with the header of type 11
/// that closes it, added to `acc`. A later field replaces an earlier one
/// of the same tag.
#[verifier::opaque]
pub open spec fn take_fields(s: Source, acc: Map<u8, Node>) -> Result<
    (Map<u8, Node>, Source),
    Error,
>
    decreases s.weight(), 0nat,
{
    match take_header(s) {
        Err(e) => Err(e),
        Ok(((tag, typ), s1)) => if typ == TYPE_STRUCT_END {
            Ok((acc, s1))
        } else {
            match take_value(s1, typ) {
                Err(e) => Err(e),
                Ok((v, s2)) => if s2.weight() <= s1.weight() {
                    take_fields(s2, acc.insert(tag, v))
                } else {
                    Err(Error::UnexpectedEnd)
                },
            }
        },
    }
}

/// The fields of the outermost record, added to `acc`. It ends where no
/// further header can be read, or with a header of type 11; only a field's
/// value can fail.
#[verifier::opaque]
pub open spec fn take_stream(s: Source, acc: Map<u8, Node>) -> Result<
    (Map<u8, Node>, Source),
    Error,
>
    decreases s.weight(),
{
    match take_header(s) {
        Err(_) => Ok((acc, s)),
        Ok(((tag, typ), s1)) => if typ == TYPE_STRUCT_END {
            Ok((acc, s1))
        } else {
            match take_value(s1, typ) {
                Err(e) => Err(e),
                Ok((v, s2)) => if s2.weight() <= s1.weight() {
                    take_stream(s2, acc.insert(tag, v))
                } else {
                    Err(Error::UnexpectedEnd)
                },
            }
        },
    }
}

/// The input once a header, the count that it announces, and that many
/// bytes are passed over.
pub open spec fn skip_counted(s: Source) -> Result<Source, Error> {
    match take_counted(s) {
        Err(e) => Err(e),
        Ok((_, rest)) => Ok(rest),
    }
}

/// The input once `width` bytes of length, and as many bytes as they
/// spell, are passed over.
pub open spec fn skip_text(s: Source, width: nat) -> Result<Source, Error> {
    match take_uint(s, width) {
        Err(e) => Err(e),
        Ok((len, s1)) => match take_bytes(s1, len) {
            Err(e) => Err(e),
            Ok((_, rest)) => Ok(rest),
        },
    }
}

/// The input once `n` bytes are passed over.
pub open spec fn skip_bytes(s: Source, n: nat) -> Result<Source, Error> {
    match take_bytes(s, n) {
        Err(e) => Err(e),
        Ok((_, rest)) => Ok(rest),
    }
}

/// The input once the value held under type code `typ` is passed over.
/// Every type code of the format has its rule: a fixed width for the
/// numbers, the announced length for strings and byte blocks, the
/// elements of sequences and maps, the fields of a record up to the
/// header that closes it, and nothing for types 11 and 12.
#[verifier::opaque]
pub open spec fn skip_value(s: Source, typ: u8) -> Result<Source, Error>
    decreases s.weight(), 1nat,
{
    if typ == TYPE_INT8 {
        skip_bytes(s, 1)
    } else if typ == TYPE_INT16 {
        skip_bytes(s, 2)
    } else if typ == TYPE_INT32 || typ == TYPE_FLOAT {
        skip_bytes(s, 4)
    } else if typ == TYPE_INT64 || typ == TYPE_DOUBLE {
        skip_bytes(s, 8)
    } else if typ == TYPE_STRING1 {
        skip_text(s, 1)
    } else if typ == TYPE_STRING4 {
        skip_text(s, 4)
    } else if typ == TYPE_MAP {
        match take_number(s) {
            Err(e) => Err(e),
            Ok((n, s1)) => match count_of(n) {
                Err(e) => Err(e),
                Ok(len) => skip_items(s1, 2 * len),
            },
        }
    } else if typ == TYPE_LIST {
        match take_number(s) {
            Err(e) => Err(e),
            Ok((n, s1)) => match count_of(n) {
                Err(e) => Err(e),
                Ok(len) => skip_items(s1, len),
            },
        }
    } else if typ == TYPE_STRUCT_BEGIN {
        skip_fields(s)
    } else if typ == TYPE_STRUCT_END || typ == TYPE_ZERO {
        Ok(s)
    } else if typ == TYPE_BYTES {
        match take_header(s) {
            Err(e) => Err(e),
            Ok((_, s1)) => skip_counted(s1),
        }
    } else {
        Err(Error::UnknownTypeCode)
    }
}

/// The input once `n` values, each with a header of its own, are passed
/// over.
#[verifier::opaque]
pub open spec fn skip_items(s: Source, n: nat) -> Result<Source, Error>
    decreases s.weight(), n,
{
    if n == 0 {
        Ok(s)
    } else {
        match take_header(s) {
            Err(e) => Err(e),
            Ok(((_, typ), s1)) => match skip_value(s1, typ) {
                Err(e) => Err(e),
                Ok(s2) => if s2.weight() <= s1.weight() {
                    skip_items(s2, (n - 1) as nat)
                } else {
                    Err(Error::UnexpectedEnd)
                },
            },
        }
    }
}

/// The input once the fields of a record are passed over, up to and with
/// the header of type 11 that closes it.
#[verifier::opaque]
pub open spec fn skip_fields(s: Source) -> Result<Source, Error>
    decreases s.weight(), 0nat,
{
    match take_header(s) {
        Err(e) => Err(e),
        Ok(((_, typ), s1)) => if typ == TYPE_STRUCT_END {
            Ok(s1)
        } else {
            match skip_value(s1, typ) {
                Err(e) => Err(e),
                Ok(s2) => if s2.weight() <= s1.weight() {
                    skip_fields(s2)
                } else {
                    Err(Error::UnexpectedEnd)
                },
            }
        },
    }
}

} // verus!
