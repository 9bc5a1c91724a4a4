//! What holds between encoding and decoding.

use crate::encoding::{
    block_bytes, block_payload, count_bytes, element_tag, encodable, fields_bytes, items_bytes,
    node_bytes, node_payload, node_type, pairs_bytes, stream_bytes, text_payload, text_type,
};
use crate::error::Error;
use crate::grammar::{
    skip_fields, skip_items, skip_value, take_block, take_bytes, take_counted, take_fields,
    take_header, take_int, take_items, take_number, take_pairs, take_stream, take_text,
    take_uint, take_value, Source,
};
use crate::typed::{take_count, take_float, FloatBits};
use crate::value::Node;
use crate::wire::{
    be_bytes, fits_signed, head_tag, head_type, header_bytes, int_width, is_width,
    lemma_be_value_of_bytes, lemma_number_fits, lemma_signed_round_trip, number_bytes,
    number_type, number_width, pow256, to_unsigned, TYPE_BYTES, TYPE_DOUBLE, TYPE_FLOAT,
    TYPE_LIST, TYPE_MAP, TYPE_STRUCT_BEGIN, TYPE_STRUCT_END,
};
use vstd::prelude::*;
use vstd::utf8::{encode_utf8, encode_utf8_decode_utf8, encode_utf8_valid_utf8};

verus! {

/// An input that holds `bytes` and no pushed-back header.
pub open spec fn fresh(bytes: Seq<u8>) -> Source {
    Source { peeked: None, bytes }
}

/// A header is one byte for a tag below 15 and two bytes for any other. In
/// both forms the low nibble of the first byte is the type code; its high
/// nibble is the tag in the short form and 15 in the long one, where the
/// second byte is the tag.
pub proof fn lemma_header_shape(tag: u8, typ: u8)
    requires
        typ < 16,
    ensures
        header_bytes(tag, typ).len() == if tag < 15 {
            1nat
        } else {
            2nat
        },
        head_type(header_bytes(tag, typ)[0]) == typ,
        tag < 15 ==> head_tag(header_bytes(tag, typ)[0]) == tag,
        tag >= 15 ==> head_tag(header_bytes(tag, typ)[0]) == 15 && header_bytes(tag, typ)[1]
            == tag,
{
}

/// A number is written in the narrowest form that holds it: zero alone has
/// no payload, and no width of the format that is narrower than the one
/// chosen could hold the number.
pub proof fn lemma_number_narrowest(v: i64)
    ensures
        number_width(v) == 0 <==> v == 0,
        fits_signed(v as int, number_width(v)),
        forall|w: nat|
            (w == 1 || w == 2 || w == 4 || w == 8) && v != 0 && #[trigger] fits_signed(
                v as int,
                w,
            ) ==> number_width(v) <= w,
        number_bytes(0, v).len() == 1 + number_width(v),
{
}

/// A header that was written is read back, and what follows it is left.
pub proof fn lemma_header_round_trip(tag: u8, typ: u8, rest: Seq<u8>)
    requires
        typ < 16,
    ensures
        take_header(fresh(header_bytes(tag, typ) + rest)) == Ok::<((u8, u8), Source), Error>(
            ((tag, typ), fresh(rest)),
        ),
{
    let input = header_bytes(tag, typ) + rest;
    if tag < 15 {
        assert(input[0] == tag * 16 + typ);
        assert(input.skip(1) =~= rest);
    } else {
        assert(input[0] == 240 + typ);
        assert(input[1] == tag);
        assert(input.skip(2) =~= rest);
    }
}

/// Bytes that were written are read back, and what follows them is left.
pub proof fn lemma_bytes_round_trip(payload: Seq<u8>, rest: Seq<u8>)
    ensures
        take_bytes(fresh(payload + rest), payload.len()) == Ok::<(Seq<u8>, Source), Error>(
            (payload, fresh(rest)),
        ),
{
    let input = payload + rest;
    assert(input.take(payload.len() as int) =~= payload);
    assert(input.skip(payload.len() as int) =~= rest);
}

/// An unsigned number that was written in `width` bytes is read back.
pub proof fn lemma_uint_round_trip(value: nat, width: nat, rest: Seq<u8>)
    requires
        is_width(width),
        value < pow256(width),
    ensures
        take_uint(fresh(be_bytes(value, width) + rest), width) == Ok::<(nat, Source), Error>(
            (value, fresh(rest)),
        ),
{
    lemma_bytes_round_trip(be_bytes(value, width), rest);
    lemma_be_value_of_bytes(value, width);
}

/// A signed number that was written in `width` bytes of two's complement
/// under the type code of that width is read back with its sign.
pub proof fn lemma_int_round_trip(v: i64, typ: u8, width: nat, rest: Seq<u8>)
    requires
        int_width(typ) == Some(width),
        fits_signed(v as int, width),
    ensures
        take_int(fresh(be_bytes(to_unsigned(v as int, width), width) + rest), typ) == Ok::<
            (i64, Source),
            Error,
        >((v, fresh(rest))),
{
    lemma_signed_round_trip(v as int, width);
    lemma_uint_round_trip(to_unsigned(v as int, width), width, rest);
}

/// Every 64-bit integer that is written as a number is read back as
/// itself, whatever width the encoder chose for it, and what follows the
/// number is left.
pub proof fn lemma_number_round_trip(tag: u8, v: i64, rest: Seq<u8>)
    ensures
        take_number(fresh(number_bytes(tag, v) + rest)) == Ok::<(i64, Source), Error>(
            (v, fresh(rest)),
        ),
{
    lemma_number_fits(v);
    let width = number_width(v);
    let payload = be_bytes(to_unsigned(v as int, width), width);
    assert(number_bytes(tag, v) + rest =~= header_bytes(tag, number_type(v)) + (payload + rest));
    lemma_header_round_trip(tag, number_type(v), payload + rest);
    lemma_int_round_trip(v, number_type(v), width, rest);
}

/// A truth value that was written is read back: the number 1 for true
/// and 0 for false, of which only 0 reads as false.
pub proof fn lemma_bool_round_trip(tag: u8, v: bool, rest: Seq<u8>)
    ensures
        take_number(
            fresh(
                number_bytes(
                    tag,
                    if v {
                        1
                    } else {
                        0
                    },
                ) + rest,
            ),
        ) matches Ok((n, left)) && (n % 0x1_0000_0000 != 0) == v && left == fresh(rest),
{
    lemma_number_round_trip(
        tag,
        if v {
            1
        } else {
            0
        },
        rest,
    );
}

/// The bits of a float that were written are read back, at the width they
/// were written with.
pub proof fn lemma_float_round_trip(single: u32, double: u64, rest: Seq<u8>)
    ensures
        take_float(fresh(be_bytes(single as nat, 4) + rest), TYPE_FLOAT) == Ok::<
            (FloatBits, Source),
            Error,
        >((FloatBits::Single(single), fresh(rest))),
        take_float(fresh(be_bytes(double as nat, 8) + rest), TYPE_DOUBLE) == Ok::<
            (FloatBits, Source),
            Error,
        >((FloatBits::Double(double), fresh(rest))),
{
    lemma_uint_round_trip(single as nat, 4, rest);
    lemma_uint_round_trip(double as nat, 8, rest);
}

/// The count that opens a sequence or a map is read back.
pub proof fn lemma_count_round_trip(typ: u8, count: nat, rest: Seq<u8>)
    requires
        count <= i64::MAX,
    ensures
        take_count(fresh(count_bytes(count) + rest), typ, typ) == Ok::<(nat, Source), Error>(
            (count, fresh(rest)),
        ),
{
    lemma_number_round_trip(0, count as i64, rest);
}

/// A string that was written is read back.
pub proof fn lemma_text_round_trip(text: Seq<char>, rest: Seq<u8>)
    requires
        encode_utf8(text).len() <= u32::MAX,
    ensures
        take_text(fresh(text_payload(text) + rest), text_type(text)) == Ok::<
            (Seq<char>, Source),
            Error,
        >((text, fresh(rest))),
{
    let utf8 = encode_utf8(text);
    encode_utf8_valid_utf8(text);
    encode_utf8_decode_utf8(text);
    lemma_bytes_round_trip(utf8, rest);
    if utf8.len() <= 0xFF {
        assert(text_payload(text) + rest =~= be_bytes(utf8.len(), 1) + (utf8 + rest));
        lemma_uint_round_trip(utf8.len(), 1, utf8 + rest);
    } else {
        assert(text_payload(text) + rest =~= be_bytes(utf8.len(), 4) + (utf8 + rest));
        lemma_uint_round_trip(utf8.len(), 4, utf8 + rest);
    }
}

/// A counted run of bytes that was written is read back.
pub proof fn lemma_counted_round_trip(payload: Seq<u8>, rest: Seq<u8>)
    requires
        payload.len() <= i64::MAX,
    ensures
        take_counted(fresh(count_bytes(payload.len()) + payload + rest)) == Ok::<
            (Seq<u8>, Source),
            Error,
        >((payload, fresh(rest))),
{
    assert(count_bytes(payload.len()) + payload + rest =~= number_bytes(
        0,
        payload.len() as i64,
    ) + (payload + rest));
    lemma_number_round_trip(0, payload.len() as i64, payload + rest);
    lemma_bytes_round_trip(payload, rest);
}

/// A raw byte block that was written is read back.
pub proof fn lemma_block_round_trip(payload: Seq<u8>, rest: Seq<u8>)
    requires
        payload.len() <= i64::MAX,
    ensures
        take_block(fresh(block_payload(payload) + rest)) == Ok::<(Seq<u8>, Source), Error>(
            (payload, fresh(rest)),
        ),
{
    assert(block_payload(payload) + rest =~= header_bytes(0, 0) + (count_bytes(payload.len())
        + payload + rest));
    lemma_header_round_trip(0, 0, count_bytes(payload.len()) + payload + rest);
    lemma_counted_round_trip(payload, rest);
}

/// The type code of a tree is one of the format's, and never the one that
/// closes a record.
pub proof fn lemma_node_type_range(node: Node)
    ensures
        node_type(node) <= TYPE_BYTES,
        node_type(node) != TYPE_STRUCT_END,
{
}

/// A tree that was written is read back as the same tree, and what
/// follows it is left: decoding undoes encoding.
#[verifier::rlimit(40)]
pub proof fn lemma_node_round_trip(node: Node, rest: Seq<u8>)
    requires
        encodable(node),
    ensures
        take_value(fresh(node_payload(node) + rest), node_type(node)) == Ok::<
            (Node, Source),
            Error,
        >((node, fresh(rest))),
    decreases node, 0nat,
{
    reveal(take_value);
    reveal(take_items);
    reveal(take_pairs);
    reveal(take_fields);
    match node {
        Node::Byte(b) => {
            lemma_bytes_round_trip(seq![b], rest);
        },
        Node::Int16(x) => {
            lemma_signed_round_trip(x as int, 2);
            lemma_uint_round_trip(to_unsigned(x as int, 2), 2, rest);
        },
        Node::Int32(x) => {
            lemma_signed_round_trip(x as int, 4);
            lemma_uint_round_trip(to_unsigned(x as int, 4), 4, rest);
        },
        Node::Int64(x) => {
            lemma_signed_round_trip(x as int, 8);
            lemma_uint_round_trip(to_unsigned(x as int, 8), 8, rest);
        },
        Node::Float(bits) => {
            lemma_uint_round_trip(bits as nat, 4, rest);
        },
        Node::Double(bits) => {
            lemma_uint_round_trip(bits as nat, 8, rest);
        },
        Node::String(text) => {
            lemma_text_round_trip(text, rest);
        },
        Node::Bytes(payload) => {
            lemma_block_round_trip(payload, rest);
        },
        Node::Mapping(pairs) => {
            let body = pairs_bytes(pairs, 0);
            assert(node_payload(node) + rest =~= number_bytes(0, pairs.len() as i64) + (body
                + rest));
            lemma_number_round_trip(0, pairs.len() as i64, body + rest);
            lemma_pairs_round_trip(pairs, 0, rest, Seq::empty());
            lemma_push_skip(Seq::empty(), pairs, 0);
        },
        Node::Struct(fields) => {
            lemma_fields_round_trip(fields, 0, rest, Map::empty());
            lemma_merged_steps(Map::empty(), fields, 0);
            let close = header_bytes(0, TYPE_STRUCT_END) + rest;
            assert(node_payload(node) + rest =~= fields_bytes(fields, 0) + close);
        },
        Node::List(items) => {
            let body = items_bytes(items, 0);
            assert(node_payload(node) + rest =~= number_bytes(0, items.len() as i64) + (body
                + rest));
            lemma_number_round_trip(0, items.len() as i64, body + rest);
            lemma_items_round_trip(items, 0, rest, Seq::empty());
            lemma_push_skip(Seq::empty(), items, 0);
        },
        Node::Zero => {
            assert(node_payload(node) + rest =~= rest);
        },
    }
}

/// A tree that was written under a tag is read back, header and all: the
/// header gives the tag and the tree's type code, and under that type code
/// the tree is read.
pub proof fn lemma_tagged_round_trip(tag: u8, node: Node, rest: Seq<u8>)
    requires
        encodable(node),
    ensures
        take_header(fresh(node_bytes(tag, node) + rest)) == Ok::<((u8, u8), Source), Error>(
            ((tag, node_type(node)), fresh(node_payload(node) + rest)),
        ),
        take_value(fresh(node_payload(node) + rest), node_type(node)) == Ok::<
            (Node, Source),
            Error,
        >((node, fresh(rest))),
        fresh(rest).weight() <= fresh(node_payload(node) + rest).weight(),
    decreases node, 1nat,
{
    let head = header_bytes(tag, node_type(node));
    assert(node_bytes(tag, node) + rest =~= head + (node_payload(node) + rest));
    lemma_node_type_range(node);
    lemma_header_round_trip(tag, node_type(node), node_payload(node) + rest);
    lemma_node_round_trip(node, rest);
}

/// Moving one element from the front of the rest to the end of what was
/// gathered changes nothing of the whole.
proof fn lemma_push_skip<T>(acc: Seq<T>, all: Seq<T>, from: int)
    requires
        0 <= from <= all.len(),
    ensures
        from < all.len() ==> acc.push(all[from]) + all.skip(from + 1) == acc + all.skip(from),
        from == all.len() ==> acc + all.skip(from) == acc,
        Seq::<T>::empty() + all.skip(0) == all,
{
    if from < all.len() {
        assert(acc.push(all[from]) + all.skip(from + 1) =~= acc + all.skip(from));
    } else {
        assert(acc + all.skip(from) =~= acc);
    }
    assert(Seq::<T>::empty() + all.skip(0) =~= all);
}

/// The bytes of the elements from one index on are those of the first of
/// them and those of the others.
proof fn lemma_items_bytes_split(items: Seq<Node>, from: nat, rest: Seq<u8>)
    ensures
        from < items.len() ==> items_bytes(items, from) + rest == node_bytes(
            element_tag(from),
            items[from as int],
        ) + (items_bytes(items, from + 1) + rest),
        from >= items.len() ==> items_bytes(items, from) + rest == rest,
{
    if from < items.len() {
        assert(items_bytes(items, from) + rest =~= node_bytes(
            element_tag(from),
            items[from as int],
        ) + (items_bytes(items, from + 1) + rest));
    } else {
        assert(items_bytes(items, from) + rest =~= rest);
    }
}

/// The bytes of the entries from one index on are those of the first key,
/// of the first value, and of the other entries.
proof fn lemma_pairs_bytes_split(pairs: Seq<(Node, Node)>, from: nat, rest: Seq<u8>)
    ensures
        from < pairs.len() ==> pairs_bytes(pairs, from) + rest == node_bytes(
            0,
            pairs[from as int].0,
        ) + (node_bytes(1, pairs[from as int].1) + (pairs_bytes(pairs, from + 1) + rest)),
        from >= pairs.len() ==> pairs_bytes(pairs, from) + rest == rest,
{
    if from < pairs.len() {
        assert(pairs_bytes(pairs, from) + rest =~= node_bytes(0, pairs[from as int].0) + (
        node_bytes(1, pairs[from as int].1) + (pairs_bytes(pairs, from + 1) + rest)));
    } else {
        assert(pairs_bytes(pairs, from) + rest =~= rest);
    }
}

/// The bytes of the fields from one tag on are those of the field of that
/// tag, if there is one, and those of the fields above it.
proof fn lemma_fields_bytes_split(fields: Map<u8, Node>, from: nat, rest: Seq<u8>)
    requires
        fields.dom().finite(),
    ensures
        from < 256 && fields.contains_key(from as u8) ==> fields_bytes(fields, from) + rest
            == node_bytes(from as u8, fields[from as u8]) + (fields_bytes(fields, from + 1)
            + rest),
        from < 256 && !fields.contains_key(from as u8) ==> fields_bytes(fields, from) + rest
            == fields_bytes(fields, from + 1) + rest,
        from >= 256 ==> fields_bytes(fields, from) + rest == rest,
{
    if from >= 256 {
        assert(fields_bytes(fields, from) + rest =~= rest);
    } else if fields.contains_key(from as u8) {
        assert(fields_bytes(fields, from) + rest =~= node_bytes(from as u8, fields[from as u8])
            + (fields_bytes(fields, from + 1) + rest));
    }
}

/// With no element left to read, the gathered elements are the result.
proof fn lemma_take_items_done(s: Source, acc: Seq<Node>)
    ensures
        take_items(s, 0, acc) == Ok::<(Seq<Node>, Source), Error>((acc, s)),
{
    reveal(take_items);
}

/// With no entry left to read, the gathered entries are the result.
proof fn lemma_take_pairs_done(s: Source, acc: Seq<(Node, Node)>)
    ensures
        take_pairs(s, 0, acc) == Ok::<(Seq<(Node, Node)>, Source), Error>((acc, s)),
{
    reveal(take_pairs);
}

/// Reading the fields of a record ends at the header of type 11, and
/// reading those of the outermost record ends there or where no header
/// can be read.
proof fn lemma_take_fields_done(s: Source, acc: Map<u8, Node>)
    ensures
        take_header(s) matches Ok(((_, typ), rest)) ==> (typ == TYPE_STRUCT_END ==> {
            &&& take_fields(s, acc) == Ok::<(Map<u8, Node>, Source), Error>((acc, rest))
            &&& take_stream(s, acc) == Ok::<(Map<u8, Node>, Source), Error>((acc, rest))
        }),
        take_header(s) is Err ==> take_stream(s, acc) == Ok::<(Map<u8, Node>, Source), Error>(
            (acc, s),
        ),
{
    reveal(take_fields);
    reveal(take_stream);
}

/// Reading the elements of a sequence goes on behind an element that was
/// read.
proof fn lemma_take_items_step(
    s: Source,
    n: nat,
    acc: Seq<Node>,
    tag: u8,
    typ: u8,
    s1: Source,
    node: Node,
    s2: Source,
)
    requires
        n > 0,
        take_header(s) == Ok::<((u8, u8), Source), Error>(((tag, typ), s1)),
        take_value(s1, typ) == Ok::<(Node, Source), Error>((node, s2)),
        s2.weight() <= s1.weight(),
    ensures
        take_items(s, n, acc) == take_items(s2, (n - 1) as nat, acc.push(node)),
{
    reveal(take_items);
    reveal(take_value);
}

/// Reading the entries of a map goes on behind an entry that was read.
proof fn lemma_take_pairs_step(
    s: Source,
    n: nat,
    acc: Seq<(Node, Node)>,
    key_typ: u8,
    s1: Source,
    key: Node,
    s2: Source,
    val_typ: u8,
    s3: Source,
    val: Node,
    s4: Source,
)
    requires
        n > 0,
        take_header(s) == Ok::<((u8, u8), Source), Error>(((0u8, key_typ), s1)),
        take_value(s1, key_typ) == Ok::<(Node, Source), Error>((key, s2)),
        s2.weight() <= s1.weight(),
        take_header(s2) == Ok::<((u8, u8), Source), Error>(((1u8, val_typ), s3)),
        take_value(s3, val_typ) == Ok::<(Node, Source), Error>((val, s4)),
        s4.weight() <= s3.weight(),
    ensures
        take_pairs(s, n, acc) == take_pairs(s4, (n - 1) as nat, acc.push((key, val))),
{
    reveal(take_pairs);
    reveal(take_value);
}

/// The elements of a sequence that were written from index `from` on are
/// read back in their order.
pub proof fn lemma_items_round_trip(items: Seq<Node>, from: nat, rest: Seq<u8>, acc: Seq<Node>)
    requires
        from <= items.len(),
        forall|i: int| from <= i < items.len() ==> encodable(#[trigger] items[i]),
    ensures
        take_items(fresh(items_bytes(items, from) + rest), (items.len() - from) as nat, acc)
            == Ok::<(Seq<Node>, Source), Error>((acc + items.skip(from as int), fresh(rest))),
    decreases items, items.len() - from,
{
    lemma_items_bytes_split(items, from, rest);
    lemma_push_skip(acc, items, from as int);
    lemma_take_items_done(fresh(rest), acc);
    if from < items.len() {
        let node = items[from as int];
        let tail = items_bytes(items, from + 1);
        lemma_tagged_round_trip(element_tag(from), node, tail + rest);
        lemma_take_items_step(
            fresh(items_bytes(items, from) + rest),
            (items.len() - from) as nat,
            acc,
            element_tag(from),
            node_type(node),
            fresh(node_payload(node) + (tail + rest)),
            node,
            fresh(tail + rest),
        );
        lemma_items_round_trip(items, from + 1, rest, acc.push(node));
    }
}

/// The entries of a map that were written from index `from` on are read
/// back in their order.
pub proof fn lemma_pairs_round_trip(
    pairs: Seq<(Node, Node)>,
    from: nat,
    rest: Seq<u8>,
    acc: Seq<(Node, Node)>,
)
    requires
        from <= pairs.len(),
        forall|i: int|
            from <= i < pairs.len() ==> encodable((#[trigger] pairs[i]).0) && encodable(
                pairs[i].1,
            ),
    ensures
        take_pairs(fresh(pairs_bytes(pairs, from) + rest), (pairs.len() - from) as nat, acc)
            == Ok::<(Seq<(Node, Node)>, Source), Error>(
            (acc + pairs.skip(from as int), fresh(rest)),
        ),
    decreases pairs, pairs.len() - from,
{
    lemma_pairs_bytes_split(pairs, from, rest);
    lemma_push_skip(acc, pairs, from as int);
    lemma_take_pairs_done(fresh(rest), acc);
    if from < pairs.len() {
        let key = pairs[from as int].0;
        let val = pairs[from as int].1;
        let tail = pairs_bytes(pairs, from + 1);
        let after_key = node_bytes(1, val) + (tail + rest);
        lemma_tagged_round_trip(0, key, after_key);
        lemma_tagged_round_trip(1, val, tail + rest);
        lemma_take_pairs_step(
            fresh(pairs_bytes(pairs, from) + rest),
            (pairs.len() - from) as nat,
            acc,
            node_type(key),
            fresh(node_payload(key) + after_key),
            key,
            fresh(after_key),
            node_type(val),
            fresh(node_payload(val) + (tail + rest)),
            val,
            fresh(tail + rest),
        );
        lemma_pairs_round_trip(pairs, from + 1, rest, acc.push((key, val)));
    }
}

/// The fields in `acc`, overlaid with those of `fields` whose tag is `from`
/// or more.
pub open spec fn merged(acc: Map<u8, Node>, fields: Map<u8, Node>, from: nat) -> Map<u8, Node> {
    Map::new(
        |tag: u8| acc.contains_key(tag) || (tag >= from && fields.contains_key(tag)),
        |tag: u8|
            if tag >= from && fields.contains_key(tag) {
                fields[tag]
            } else {
                acc[tag]
            },
    )
}

/// Overlaying nothing leaves the fields as they are, and overlaying from
/// one tag on is overlaying that tag's field first and the rest on top.
proof fn lemma_merged_steps(acc: Map<u8, Node>, fields: Map<u8, Node>, from: nat)
    ensures
        from >= 256 ==> merged(acc, fields, from) == acc,
        from < 256 && fields.contains_key(from as u8) ==> merged(
            acc.insert(from as u8, fields[from as u8]),
            fields,
            from + 1,
        ) == merged(acc, fields, from),
        from < 256 && !fields.contains_key(from as u8) ==> merged(acc, fields, from + 1)
            == merged(acc, fields, from),
        merged(Map::empty(), fields, 0) == fields,
{
    if from >= 256 {
        assert(merged(acc, fields, from) =~= acc);
    } else if fields.contains_key(from as u8) {
        assert(merged(acc.insert(from as u8, fields[from as u8]), fields, from + 1) =~= merged(
            acc,
            fields,
            from,
        ));
    } else {
        assert(merged(acc, fields, from + 1) =~= merged(acc, fields, from));
    }
    assert(merged(Map::empty(), fields, 0) =~= fields);
}

/// Reading the fields of a nested record goes on behind a field that was
/// read.
proof fn lemma_take_fields_step(
    s: Source,
    acc: Map<u8, Node>,
    tag: u8,
    typ: u8,
    s1: Source,
    node: Node,
    s2: Source,
)
    requires
        take_header(s) == Ok::<((u8, u8), Source), Error>(((tag, typ), s1)),
        typ != TYPE_STRUCT_END,
        take_value(s1, typ) == Ok::<(Node, Source), Error>((node, s2)),
        s2.weight() <= s1.weight(),
    ensures
        take_fields(s, acc) == take_fields(s2, acc.insert(tag, node)),
        take_stream(s, acc) == take_stream(s2, acc.insert(tag, node)),
{
    reveal(take_fields);
    reveal(take_stream);
    reveal(take_value);
}

/// The fields of a nested record that were written from tag `from` on,
/// closed by the header of type 11, are read back.
pub proof fn lemma_fields_round_trip(
    fields: Map<u8, Node>,
    from: nat,
    rest: Seq<u8>,
    acc: Map<u8, Node>,
)
    requires
        fields.dom().finite(),
        forall|tag: u8| #[trigger] fields.contains_key(tag) ==> encodable(fields[tag]),
    ensures
        take_fields(
            fresh(fields_bytes(fields, from) + (header_bytes(0, TYPE_STRUCT_END) + rest)),
            acc,
        ) == Ok::<(Map<u8, Node>, Source), Error>((merged(acc, fields, from), fresh(rest))),
    decreases fields, 256 - from,
{
    lemma_merged_steps(acc, fields, from);
    let close = header_bytes(0, TYPE_STRUCT_END) + rest;
    let input = fields_bytes(fields, from) + close;
    lemma_fields_bytes_split(fields, from, close);
    if from >= 256 {
        lemma_header_round_trip(0, TYPE_STRUCT_END, rest);
        lemma_take_fields_done(fresh(close), acc);
    } else if fields.contains_key(from as u8) {
        let tag = from as u8;
        let node = fields[tag];
        let behind = fields_bytes(fields, from + 1) + close;
        lemma_node_type_range(node);
        lemma_tagged_round_trip(tag, node, behind);
        lemma_take_fields_step(
            fresh(input),
            acc,
            tag,
            node_type(node),
            fresh(node_payload(node) + behind),
            node,
            fresh(behind),
        );
        lemma_fields_round_trip(fields, from + 1, rest, acc.insert(tag, node));
    } else {
        lemma_fields_round_trip(fields, from + 1, rest, acc);
    }
}

/// The fields of the outermost record that were written from tag `from`
/// on, with the input ending behind them, are read back.
pub proof fn lemma_stream_fields_round_trip(fields: Map<u8, Node>, from: nat, acc: Map<u8, Node>)
    requires
        fields.dom().finite(),
        forall|tag: u8| #[trigger] fields.contains_key(tag) ==> encodable(fields[tag]),
    ensures
        take_stream(fresh(fields_bytes(fields, from)), acc) == Ok::<
            (Map<u8, Node>, Source),
            Error,
        >((merged(acc, fields, from), fresh(Seq::empty()))),
    decreases 256 - from,
{
    lemma_merged_steps(acc, fields, from);
    let input = fields_bytes(fields, from);
    if from >= 256 {
        lemma_take_fields_done(fresh(input), acc);
    } else if fields.contains_key(from as u8) {
        let tag = from as u8;
        let node = fields[tag];
        let behind = fields_bytes(fields, from + 1);
        lemma_node_type_range(node);
        lemma_tagged_round_trip(tag, node, behind);
        lemma_take_fields_step(
            fresh(input),
            acc,
            tag,
            node_type(node),
            fresh(node_payload(node) + behind),
            node,
            fresh(behind),
        );
        lemma_stream_fields_round_trip(fields, from + 1, acc.insert(tag, node));
    } else {
        lemma_stream_fields_round_trip(fields, from + 1, acc);
    }
}

/// Whether every field of the outermost record can be written down.
pub open spec fn stream_encodable(fields: Map<u8, Node>) -> bool {
    encodable(Node::Struct(fields))
}

/// Decoding undoes encoding: the outermost record that was written is
/// read back, field for field, and the input is used up.
pub proof fn lemma_stream_round_trip(fields: Map<u8, Node>)
    requires
        stream_encodable(fields),
    ensures
        take_stream(fresh(stream_bytes(fields)), Map::empty()) == Ok::<
            (Map<u8, Node>, Source),
            Error,
        >((fields, fresh(Seq::empty()))),
{
    lemma_merged_steps(Map::empty(), fields, 0);
    lemma_stream_fields_round_trip(fields, 0, Map::empty());
}

/// Encoding undoes decoding on what an encoder wrote: where `input` is the
/// encoding of some record, the record that it decodes to encodes to
/// `input` again, byte for byte.
pub proof fn lemma_decode_reencode(input: Seq<u8>, written: Map<u8, Node>)
    requires
        stream_encodable(written),
        input == stream_bytes(written),
    ensures
        take_stream(fresh(input), Map::empty()) matches Ok((fields, _)) && stream_bytes(fields)
            == input,
{
    lemma_stream_round_trip(written);
}

/// Decoding a value never leaves more input than it found. So the checks
/// of this in the definitions of `take_items`, `take_pairs`, `take_fields`
/// and `take_stream` always pass, and no error stems from them.
#[verifier::rlimit(40)]
pub proof fn lemma_take_value_shrinks(s: Source, typ: u8)
    ensures
        take_value(s, typ) matches Ok((_, rest)) ==> rest.weight() <= s.weight(),
    decreases s.weight(), 1nat,
{
    reveal(take_value);
    reveal(take_items);
    reveal(take_pairs);
    reveal(take_fields);
    if take_value(s, typ) is Ok {
        if typ == TYPE_MAP {
            let (n, s1) = take_number(s)->Ok_0;
            lemma_take_pairs_shrinks(s1, n as nat, Seq::empty());
        } else if typ == TYPE_LIST {
            let (n, s1) = take_number(s)->Ok_0;
            lemma_take_items_shrinks(s1, n as nat, Seq::empty());
        } else if typ == TYPE_STRUCT_BEGIN {
            lemma_take_fields_shrinks(s, Map::empty());
        }
    }
}

/// Decoding the elements of a sequence never leaves more input than it
/// found.
pub proof fn lemma_take_items_shrinks(s: Source, n: nat, acc: Seq<Node>)
    ensures
        take_items(s, n, acc) matches Ok((_, rest)) ==> rest.weight() <= s.weight(),
    decreases s.weight(), n,
{
    reveal(take_items);
    reveal(take_value);
    if n > 0 && take_items(s, n, acc) is Ok {
        let ((_, typ), s1) = take_header(s)->Ok_0;
        let (v, s2) = take_value(s1, typ)->Ok_0;
        lemma_take_value_shrinks(s1, typ);
        lemma_take_items_shrinks(s2, (n - 1) as nat, acc.push(v));
    }
}

/// Decoding the entries of a map never leaves more input than it found.
pub proof fn lemma_take_pairs_shrinks(s: Source, n: nat, acc: Seq<(Node, Node)>)
    ensures
        take_pairs(s, n, acc) matches Ok((_, rest)) ==> rest.weight() <= s.weight(),
    decreases s.weight(), n,
{
    reveal(take_pairs);
    reveal(take_value);
    if n > 0 && take_pairs(s, n, acc) is Ok {
        let ((_, key_typ), s1) = take_header(s)->Ok_0;
        let (key, s2) = take_value(s1, key_typ)->Ok_0;
        let ((_, val_typ), s3) = take_header(s2)->Ok_0;
        let (val, s4) = take_value(s3, val_typ)->Ok_0;
        lemma_take_value_shrinks(s1, key_typ);
        lemma_take_value_shrinks(s3, val_typ);
        lemma_take_pairs_shrinks(s4, (n - 1) as nat, acc.push((key, val)));
    }
}

/// Decoding the fields of a record never leaves more input than it found.
pub proof fn lemma_take_fields_shrinks(s: Source, acc: Map<u8, Node>)
    ensures
        take_fields(s, acc) matches Ok((_, rest)) ==> rest.weight() <= s.weight(),
    decreases s.weight(), 0nat,
{
    reveal(take_fields);
    reveal(take_value);
    if take_fields(s, acc) is Ok {
        let ((tag, typ), s1) = take_header(s)->Ok_0;
        if typ != TYPE_STRUCT_END {
            let (v, s2) = take_value(s1, typ)->Ok_0;
            lemma_take_value_shrinks(s1, typ);
            lemma_take_fields_shrinks(s2, acc.insert(tag, v));
        }
    }
}

/// Passing over a value never leaves more input than it found. So the
/// checks of this in the definitions of `skip_items` and `skip_fields`
/// always pass, and no error stems from them.
pub proof fn lemma_skip_value_shrinks(s: Source, typ: u8)
    ensures
        skip_value(s, typ) matches Ok(rest) ==> rest.weight() <= s.weight(),
    decreases s.weight(), 1nat,
{
    reveal(skip_value);
    reveal(skip_items);
    reveal(skip_fields);
    if skip_value(s, typ) is Ok {
        if typ == TYPE_MAP {
            let (n, s1) = take_number(s)->Ok_0;
            lemma_skip_items_shrinks(s1, 2 * (n as nat));
        } else if typ == TYPE_LIST {
            let (n, s1) = take_number(s)->Ok_0;
            lemma_skip_items_shrinks(s1, n as nat);
        } else if typ == TYPE_STRUCT_BEGIN {
            lemma_skip_fields_shrinks(s);
        }
    }
}

/// Passing over a run of values never leaves more input than it found.
pub proof fn lemma_skip_items_shrinks(s: Source, n: nat)
    ensures
        skip_items(s, n) matches Ok(rest) ==> rest.weight() <= s.weight(),
    decreases s.weight(), n,
{
    reveal(skip_items);
    reveal(skip_value);
    if n > 0 && skip_items(s, n) is Ok {
        let ((_, typ), s1) = take_header(s)->Ok_0;
        let s2 = skip_value(s1, typ)->Ok_0;
        lemma_skip_value_shrinks(s1, typ);
        lemma_skip_items_shrinks(s2, (n - 1) as nat);
    }
}

/// Passing over the fields of a record never leaves more input than it
/// found.
pub proof fn lemma_skip_fields_shrinks(s: Source)
    ensures
        skip_fields(s) matches Ok(rest) ==> rest.weight() <= s.weight(),
    decreases s.weight(), 0nat,
{
    reveal(skip_fields);
    reveal(skip_value);
    if skip_fields(s) is Ok {
        let ((_, typ), s1) = take_header(s)->Ok_0;
        if typ != TYPE_STRUCT_END {
            let s2 = skip_value(s1, typ)->Ok_0;
            lemma_skip_value_shrinks(s1, typ);
            lemma_skip_fields_shrinks(s2);
        }
    }
}

/// Passing over a value keeps step with decoding it: wherever the value
/// under a type code can be decoded, passing over it succeeds and leaves
/// the same input behind. So a field that a reader does not know is
/// dropped without any effect on the fields behind it, whatever its shape.
pub proof fn lemma_skip_keeps_step(s: Source, typ: u8)
    requires
        take_value(s, typ) is Ok,
    ensures
        skip_value(s, typ) == Ok::<Source, Error>(take_value(s, typ)->Ok_0.1),
    decreases s.weight(), 1nat,
{
    reveal(take_value);
    reveal(take_items);
    reveal(take_pairs);
    reveal(take_fields);
    reveal(skip_value);
    reveal(skip_items);
    reveal(skip_fields);
    if typ == TYPE_MAP {
        let (n, s1) = take_number(s)->Ok_0;
        lemma_skip_pairs(s1, n as nat, Seq::empty());
    } else if typ == TYPE_LIST {
        let (n, s1) = take_number(s)->Ok_0;
        lemma_skip_items(s1, n as nat, Seq::empty());
    } else if typ == TYPE_STRUCT_BEGIN {
        lemma_skip_fields(s, Map::empty());
    }
}

/// Passing over the elements of a sequence keeps step with decoding them.
pub proof fn lemma_skip_items(s: Source, n: nat, acc: Seq<Node>)
    requires
        take_items(s, n, acc) is Ok,
    ensures
        skip_items(s, n) == Ok::<Source, Error>(take_items(s, n, acc)->Ok_0.1),
    decreases s.weight(), n,
{
    reveal(take_items);
    reveal(take_value);
    reveal(skip_items);
    reveal(skip_value);
    if n > 0 {
        let ((_, typ), s1) = take_header(s)->Ok_0;
        let (v, s2) = take_value(s1, typ)->Ok_0;
        lemma_skip_keeps_step(s1, typ);
        lemma_skip_items(s2, (n - 1) as nat, acc.push(v));
    }
}

/// Passing over the keys and values of a map keeps step with decoding
/// its entries.
#[verifier::rlimit(40)]
pub proof fn lemma_skip_pairs(s: Source, n: nat, acc: Seq<(Node, Node)>)
    requires
        take_pairs(s, n, acc) is Ok,
    ensures
        skip_items(s, 2 * n) == Ok::<Source, Error>(take_pairs(s, n, acc)->Ok_0.1),
    decreases s.weight(), n,
{
    reveal(take_pairs);
    reveal(take_value);
    reveal(skip_items);
    reveal(skip_value);
    if n > 0 {
        let ((_, key_typ), s1) = take_header(s)->Ok_0;
        let (key, s2) = take_value(s1, key_typ)->Ok_0;
        let ((_, val_typ), s3) = take_header(s2)->Ok_0;
        let (val, s4) = take_value(s3, val_typ)->Ok_0;
        lemma_skip_keeps_step(s1, key_typ);
        lemma_skip_keeps_step(s3, val_typ);
        lemma_skip_pairs(s4, (n - 1) as nat, acc.push((key, val)));
        assert(skip_items(s2, (2 * n - 1) as nat) == skip_items(s4, (2 * (n - 1)) as nat));
        assert(skip_items(s, 2 * n) == skip_items(s2, (2 * n - 1) as nat));
    }
}

/// Passing over the fields of a record keeps step with decoding them.
pub proof fn lemma_skip_fields(s: Source, acc: Map<u8, Node>)
    requires
        take_fields(s, acc) is Ok,
    ensures
        skip_fields(s) == Ok::<Source, Error>(take_fields(s, acc)->Ok_0.1),
    decreases s.weight(), 0nat,
{
    reveal(take_fields);
    reveal(take_value);
    reveal(skip_fields);
    reveal(skip_value);
    let ((tag, typ), s1) = take_header(s)->Ok_0;
    if typ != TYPE_STRUCT_END {
        let (v, s2) = take_value(s1, typ)->Ok_0;
        lemma_skip_keeps_step(s1, typ);
        lemma_skip_fields(s2, acc.insert(tag, v));
    }
}

/// A record that is a field or an element of something is written as the
/// outermost record would be, with a header of type 10 in front and the
/// one byte of the header of type 11 right behind its last field. The
/// outermost record has neither.
pub proof fn lemma_nested_record_layout(tag: u8, fields: Map<u8, Node>)
    ensures
        node_bytes(tag, Node::Struct(fields)) == header_bytes(tag, TYPE_STRUCT_BEGIN)
            + stream_bytes(fields) + seq![0x0Bu8],
        node_bytes(tag, Node::Struct(fields)).last() == 0x0Bu8,
{
}

/// A raw byte block is a header of type 13, the one byte 0 of the fixed
/// nested header, the length as a number, and the bytes themselves, with
/// nothing in front of any single one of them: the bytes are the end of
/// the block, and the block is as much longer than they as the three
/// parts before them take.
pub proof fn lemma_block_layout(tag: u8, payload: Seq<u8>)
    requires
        payload.len() <= i64::MAX,
    ensures
        block_bytes(tag, payload) == header_bytes(tag, TYPE_BYTES) + seq![0x00u8] + number_bytes(
            0,
            payload.len() as i64,
        ) + payload,
        block_bytes(tag, payload).len() == header_bytes(tag, TYPE_BYTES).len() + 1 + (1
            + number_width(payload.len() as i64)) + payload.len(),
{
    lemma_number_narrowest(payload.len() as i64);
    assert(block_bytes(tag, payload) =~= header_bytes(tag, TYPE_BYTES) + seq![0x00u8]
        + number_bytes(0, payload.len() as i64) + payload);
}

} // verus!
