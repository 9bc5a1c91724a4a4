//! What encoding means: the bytes of each shape of value.

use crate::value::Node;
use crate::wire::{
    be_bytes, header_bytes, number_bytes, to_unsigned, TYPE_BYTES, TYPE_DOUBLE, TYPE_FLOAT,
    TYPE_INT16, TYPE_INT32, TYPE_INT64, TYPE_INT8, TYPE_LIST, TYPE_MAP, TYPE_STRING1,
    TYPE_STRING4, TYPE_STRUCT_BEGIN, TYPE_STRUCT_END, TYPE_ZERO,
};
use vstd::prelude::*;
use vstd::utf8::encode_utf8;

verus! {

/// A 32-bit float, given by its bits, under `tag`: always four bytes, also
/// for zero.
pub open spec fn float_bytes(tag: u8, bits: u32) -> Seq<u8> {
    header_bytes(tag, TYPE_FLOAT) + be_bytes(bits as nat, 4)
}

/// A 64-bit float, given by its bits, under `tag`: always eight bytes.
pub open spec fn double_bytes(tag: u8, bits: u64) -> Seq<u8> {
    header_bytes(tag, TYPE_DOUBLE) + be_bytes(bits as nat, 8)
}

/// The type code of a string: 6 where one byte holds the length of its
/// UTF-8 form, else 7.
pub open spec fn text_type(text: Seq<char>) -> u8 {
    if encode_utf8(text).len() <= 0xFF {
        TYPE_STRING1
    } else {
        TYPE_STRING4
    }
}

/// What follows the header of a string: the length of its UTF-8 form, in
/// one byte or in four, and that form.
pub open spec fn text_payload(text: Seq<char>) -> Seq<u8> {
    let utf8 = encode_utf8(text);
    if utf8.len() <= 0xFF {
        be_bytes(utf8.len(), 1) + utf8
    } else {
        be_bytes((utf8.len() as u32) as nat, 4) + utf8
    }
}

/// A string under `tag`.
pub open spec fn text_bytes(tag: u8, text: Seq<char>) -> Seq<u8> {
    header_bytes(tag, text_type(text)) + text_payload(text)
}

/// A count, written as a number under tag 0.
pub open spec fn count_bytes(count: nat) -> Seq<u8> {
    number_bytes(0, count as i64)
}

/// The head of a sequence or a map: a header under `tag`, then the count.
pub open spec fn counted_head_bytes(tag: u8, typ: u8, count: nat) -> Seq<u8> {
    header_bytes(tag, typ) + count_bytes(count)
}

/// What follows the header of a raw byte block: the fixed nested header
/// of type 0, the length as a number, and the bytes as they are, with no
/// header in front of any of them.
pub open spec fn block_payload(payload: Seq<u8>) -> Seq<u8> {
    header_bytes(0, TYPE_INT8) + count_bytes(payload.len()) + payload
}

/// A raw byte block under `tag`.
pub open spec fn block_bytes(tag: u8, payload: Seq<u8>) -> Seq<u8> {
    header_bytes(tag, TYPE_BYTES) + block_payload(payload)
}

/// The tag of the element at `index` of a sequence: the index, in one byte.
pub open spec fn element_tag(index: nat) -> u8 {
    (index % 256) as u8
}

/// The type code under which a tree is written. Integers keep the width
/// of their variant.
pub open spec fn node_type(node: Node) -> u8 {
    match node {
        Node::Byte(_) => TYPE_INT8,
        Node::Int16(_) => TYPE_INT16,
        Node::Int32(_) => TYPE_INT32,
        Node::Int64(_) => TYPE_INT64,
        Node::Float(_) => TYPE_FLOAT,
        Node::Double(_) => TYPE_DOUBLE,
        Node::String(text) => text_type(text),
        Node::Bytes(_) => TYPE_BYTES,
        Node::Mapping(_) => TYPE_MAP,
        Node::Struct(_) => TYPE_STRUCT_BEGIN,
        Node::List(_) => TYPE_LIST,
        Node::Zero => TYPE_ZERO,
    }
}

/// What follows the header of a tree. A record ends with the header of
/// type 11, its fields stand in the order of their tags.
pub open spec fn node_payload(node: Node) -> Seq<u8>
    decreases node, 0nat,
{
    match node {
        Node::Byte(b) => seq![b],
        Node::Int16(x) => be_bytes(to_unsigned(x as int, 2), 2),
        Node::Int32(x) => be_bytes(to_unsigned(x as int, 4), 4),
        Node::Int64(x) => be_bytes(to_unsigned(x as int, 8), 8),
        Node::Float(bits) => be_bytes(bits as nat, 4),
        Node::Double(bits) => be_bytes(bits as nat, 8),
        Node::String(text) => text_payload(text),
        Node::Bytes(payload) => block_payload(payload),
        Node::Mapping(pairs) => count_bytes(pairs.len()) + pairs_bytes(pairs, 0),
        Node::Struct(fields) => fields_bytes(fields, 0) + header_bytes(0, TYPE_STRUCT_END),
        Node::List(items) => count_bytes(items.len()) + items_bytes(items, 0),
        Node::Zero => Seq::empty(),
    }
}

/// A tree under `tag`: its header, then what follows it.
pub open spec fn node_bytes(tag: u8, node: Node) -> Seq<u8> {
    header_bytes(tag, node_type(node)) + node_payload(node)
}

/// The elements of a sequence from index `from` on, each under its index:
/// its header, then what follows it.
pub open spec fn items_bytes(items: Seq<Node>, from: nat) -> Seq<u8>
    decreases items, items.len() - from,
{
    if from >= items.len() {
        Seq::empty()
    } else {
        header_bytes(element_tag(from), node_type(items[from as int])) + node_payload(
            items[from as int],
        ) + items_bytes(items, from + 1)
    }
}

/// The entries of a map from index `from` on: each key under tag 0, each
/// value under tag 1.
pub open spec fn pairs_bytes(pairs: Seq<(Node, Node)>, from: nat) -> Seq<u8>
    decreases pairs, pairs.len() - from,
{
    if from >= pairs.len() {
        Seq::empty()
    } else {
        header_bytes(0, node_type(pairs[from as int].0)) + node_payload(pairs[from as int].0)
            + header_bytes(1, node_type(pairs[from as int].1)) + node_payload(
            pairs[from as int].1,
        ) + pairs_bytes(pairs, from + 1)
    }
}

/// The fields of a record with a tag of `from` or more, each under its tag,
/// in the order of the tags.
pub open spec fn fields_bytes(fields: Map<u8, Node>, from: nat) -> Seq<u8>
    decreases fields, 256 - from,
{
    if from >= 256 {
        Seq::empty()
    } else if fields.dom().finite() && fields.contains_key(from as u8) {
        header_bytes(from as u8, node_type(fields[from as u8])) + node_payload(
            fields[from as u8],
        ) + fields_bytes(fields, from + 1)
    } else {
        fields_bytes(fields, from + 1)
    }
}

/// The outermost record: its fields with no header before them and none
/// behind.
pub open spec fn stream_bytes(fields: Map<u8, Node>) -> Seq<u8> {
    fields_bytes(fields, 0)
}

/// Whether the lengths in a tree can be written down: the UTF-8 form of a
/// string is at most `u32::MAX` bytes long, no count is above `i64::MAX`,
/// and a record has finitely many fields.
pub open spec fn encodable(node: Node) -> bool
    decreases node,
{
    match node {
        Node::String(text) => encode_utf8(text).len() <= u32::MAX,
        Node::Bytes(payload) => payload.len() <= i64::MAX,
        Node::Mapping(pairs) => pairs.len() <= i64::MAX && forall|i: int|
            0 <= i < pairs.len() ==> encodable((#[trigger] pairs[i]).0) && encodable(pairs[i].1),
        Node::Struct(fields) => fields.dom().finite() && forall|tag: u8| #[trigger]
            fields.contains_key(tag) ==> encodable(fields[tag]),
        Node::List(items) => items.len() <= i64::MAX && forall|i: int|
            0 <= i < items.len() ==> encodable(#[trigger] items[i]),
        _ => true,
    }
}

} // verus!
