//! The encoder: a byte buffer that grows, a register for the tag of the
//! next value, and the depth of record nesting.

use crate::encoding::{
    block_bytes, counted_head_bytes, double_bytes, element_tag, fields_bytes, float_bytes,
    items_bytes, node_bytes, pairs_bytes, stream_bytes, text_bytes,
};
use crate::error::Error;
use crate::field::{field_tag, parse_field_tag};
use crate::value::{fields_view, items_view, lemma_fields_view_dom, pairs_view, Value};
use crate::wire::{
    be_bytes, fits_signed, header_bytes, lemma_number_fits, lemma_pack, number_bytes,
    to_unsigned, TYPE_LIST, TYPE_MAP, TYPE_STRUCT_BEGIN, TYPE_STRUCT_END,
};
use std::collections::BTreeMap;
use vstd::prelude::*;

verus! {

/// Appends the `width` low base-256 digits of `value`, most significant
/// first.
fn put_uint(out: &mut Vec<u8>, value: u64, width: usize)
    requires
        width == 1 || width == 2 || width == 4 || width == 8,
    ensures
        final(out)@ == old(out)@ + be_bytes(value as nat, width as nat),
{
    if width == 8 {
        out.push(((value / 0x100_0000_0000_0000) % 256) as u8);
        out.push(((value / 0x1_0000_0000_0000) % 256) as u8);
        out.push(((value / 0x100_0000_0000) % 256) as u8);
        out.push(((value / 0x1_0000_0000) % 256) as u8);
    }
    if width >= 4 {
        out.push(((value / 0x100_0000) % 256) as u8);
        out.push(((value / 0x1_0000) % 256) as u8);
    }
    if width >= 2 {
        out.push(((value / 0x100) % 256) as u8);
    }
    out.push((value % 256) as u8);
    assert(out@ =~= old(out)@ + be_bytes(value as nat, width as nat));
}

/// The unsigned number whose `width` bytes are the two's complement of `v`.
fn twos_complement(v: i64, width: usize) -> (u: u64)
    requires
        width == 1 || width == 2 || width == 4 || width == 8,
        fits_signed(v as int, width as nat),
    ensures
        u == to_unsigned(v as int, width as nat),
{
    if v >= 0 {
        v as u64
    } else if width == 1 {
        (v + 0x100) as u64
    } else if width == 2 {
        (v + 0x1_0000) as u64
    } else if width == 4 {
        (v + 0x1_0000_0000) as u64
    } else {
        (v - i64::MIN) as u64 + 0x8000_0000_0000_0000
    }
}

/// An encoder that appends to a byte buffer.
pub struct Serializer {
    writer: Vec<u8>,
    next_tag: Option<u8>,
    depth: usize,
}

impl Serializer {
    /// The bytes in the buffer.
    pub closed spec fn written(&self) -> Seq<u8> {
        self.writer@
    }

    /// The tag that the next value will be written under, if one is set.
    pub closed spec fn pending_tag(&self) -> Option<u8> {
        self.next_tag
    }

    /// The number of records that were entered and not yet left.
    pub closed spec fn nesting(&self) -> nat {
        self.depth as nat
    }

    /// The tag that the next value is written under: the pending one, or 0.
    pub open spec fn tag(&self) -> u8 {
        match self.pending_tag() {
            Some(tag) => tag,
            None => 0,
        }
    }

    /// An encoder that appends to `writer`, with no pending tag, outside
    /// any record.
    pub fn new(writer: Vec<u8>) -> (ser: Self)
        ensures
            ser.written() == writer@,
            ser.pending_tag() is None,
            ser.nesting() == 0,
    {
        Serializer { writer, next_tag: None, depth: 0 }
    }

    /// Gives the buffer back.
    pub fn into_inner(self) -> (writer: Vec<u8>)
        ensures
            writer@ == self.written(),
    {
        self.writer
    }

    /// The number of records that were entered and not yet left.
    pub fn depth(&self) -> (d: usize)
        ensures
            d == self.nesting(),
    {
        self.depth
    }

    /// Writes the header for `tag` and the type code `typ`, which has four
    /// bits: one byte when the tag is below 15, else the escape byte and
    /// the tag.
    pub fn write_head(&mut self, tag: u8, typ: u8)
        requires
            typ < 16,
        ensures
            final(self).written() == old(self).written() + header_bytes(tag, typ),
            final(self).pending_tag() == old(self).pending_tag(),
            final(self).nesting() == old(self).nesting(),
    {
        if tag < 15 {
            let header = (tag << 4) | typ;
            proof {
                lemma_pack(tag, typ);
            }
            self.writer.push(header);
        } else {
            let header = (15u8 << 4) | typ;
            proof {
                lemma_pack(15, typ);
            }
            self.writer.push(header);
            self.writer.push(tag);
        }
        assert(self.writer@ =~= old(self).writer@ + header_bytes(tag, typ));
    }

    /// Takes the pending tag, leaving none; 0 where none was set.
    fn take_tag(&mut self) -> (tag: u8)
        ensures
            tag == old(self).tag(),
            final(self).pending_tag() is None,
            final(self).written() == old(self).written(),
            final(self).nesting() == old(self).nesting(),
    {
        let tag = match self.next_tag {
            Some(tag) => tag,
            None => 0,
        };
        self.next_tag = None;
        tag
    }

    /// Writes `v` under the pending tag in the narrowest form that holds
    /// it: nothing but a header of type 12 for zero, else 1, 2, 4 or 8
    /// bytes under type 0, 1, 2 or 3.
    pub fn write_number(&mut self, v: i64)
        ensures
            final(self).written() == old(self).written() + number_bytes(old(self).tag(), v),
            final(self).pending_tag() is None,
            final(self).nesting() == old(self).nesting(),
    {
        let tag = self.take_tag();
        proof {
            lemma_number_fits(v);
        }
        if v == 0 {
            self.write_head(tag, 12);
        } else if v >= -0x80 && v <= 0x7F {
            self.write_head(tag, 0);
            put_uint(&mut self.writer, twos_complement(v, 1), 1);
        } else if v >= -0x8000 && v <= 0x7FFF {
            self.write_head(tag, 1);
            put_uint(&mut self.writer, twos_complement(v, 2), 2);
        } else if v >= -0x8000_0000 && v <= 0x7FFF_FFFF {
            self.write_head(tag, 2);
            put_uint(&mut self.writer, twos_complement(v, 4), 4);
        } else {
            self.write_head(tag, 3);
            put_uint(&mut self.writer, twos_complement(v, 8), 8);
        }
        assert(self.writer@ =~= old(self).writer@ + number_bytes(tag, v));
    }
}

impl Serializer {
    /// Writes a truth value as the number 1 or 0.
    pub fn serialize_bool(&mut self, v: bool)
        ensures
            final(self).written() == old(self).written() + number_bytes(
                old(self).tag(),
                if v {
                    1
                } else {
                    0
                },
            ),
            final(self).pending_tag() is None,
            final(self).nesting() == old(self).nesting(),
    {
        if !v {
            self.write_number(0)
        } else {
            self.write_number(1)
        }
    }

    /// Writes an 8-bit signed integer as a number.
    pub fn serialize_i8(&mut self, v: i8)
        ensures
            final(self).written() == old(self).written() + number_bytes(old(self).tag(), v as i64),
            final(self).pending_tag() is None,
            final(self).nesting() == old(self).nesting(),
    {
        self.write_number(v as i64)
    }

    /// Writes a 16-bit signed integer as a number.
    pub fn serialize_i16(&mut self, v: i16)
        ensures
            final(self).written() == old(self).written() + number_bytes(old(self).tag(), v as i64),
            final(self).pending_tag() is None,
            final(self).nesting() == old(self).nesting(),
    {
        self.write_number(v as i64)
    }

    /// Writes a 32-bit signed integer as a number.
    pub fn serialize_i32(&mut self, v: i32)
        ensures
            final(self).written() == old(self).written() + number_bytes(old(self).tag(), v as i64),
            final(self).pending_tag() is None,
            final(self).nesting() == old(self).nesting(),
    {
        self.write_number(v as i64)
    }

    /// Writes a 64-bit signed integer as a number.
    pub fn serialize_i64(&mut self, v: i64)
        ensures
            final(self).written() == old(self).written() + number_bytes(old(self).tag(), v),
            final(self).pending_tag() is None,
            final(self).nesting() == old(self).nesting(),
    {
        self.write_number(v)
    }

    /// Writes an 8-bit unsigned integer as a number.
    pub fn serialize_u8(&mut self, v: u8)
        ensures
            final(self).written() == old(self).written() + number_bytes(old(self).tag(), v as i64),
            final(self).pending_tag() is None,
            final(self).nesting() == old(self).nesting(),
    {
        self.write_number(v as i64)
    }

    /// Writes a 16-bit unsigned integer as a number.
    pub fn serialize_u16(&mut self, v: u16)
        ensures
            final(self).written() == old(self).written() + number_bytes(old(self).tag(), v as i64),
            final(self).pending_tag() is None,
            final(self).nesting() == old(self).nesting(),
    {
        self.write_number(v as i64)
    }

    /// Writes a 32-bit unsigned integer as a number.
    pub fn serialize_u32(&mut self, v: u32)
        ensures
            final(self).written() == old(self).written() + number_bytes(old(self).tag(), v as i64),
            final(self).pending_tag() is None,
            final(self).nesting() == old(self).nesting(),
    {
        self.write_number(v as i64)
    }

    /// Writes a 64-bit unsigned integer as the signed number with the same
    /// 64 bits.
    pub fn serialize_u64(&mut self, v: u64)
        ensures
            final(self).written() == old(self).written() + number_bytes(
                old(self).tag(),
                if v <= i64::MAX {
                    v as i64
                } else {
                    (v - 0x1_0000_0000_0000_0000) as i64
                },
            ),
            final(self).pending_tag() is None,
            final(self).nesting() == old(self).nesting(),
    {
        if v <= 0x7FFF_FFFF_FFFF_FFFF {
            self.write_number(v as i64)
        } else {
            self.write_number((v - 0x8000_0000_0000_0000) as i64 + i64::MIN)
        }
    }

    /// Writes a character as the number of its code point.
    pub fn serialize_char(&mut self, v: char)
        ensures
            final(self).written() == old(self).written() + number_bytes(
                old(self).tag(),
                (v as u32) as i64,
            ),
            final(self).pending_tag() is None,
            final(self).nesting() == old(self).nesting(),
    {
        self.write_number(v as u32 as i64)
    }

    /// Writes a 32-bit float, given by its bits, at its full width.
    pub fn serialize_f32(&mut self, bits: u32)
        ensures
            final(self).written() == old(self).written() + float_bytes(old(self).tag(), bits),
            final(self).pending_tag() is None,
            final(self).nesting() == old(self).nesting(),
    {
        let tag = self.take_tag();
        self.write_head(tag, 4);
        put_uint(&mut self.writer, bits as u64, 4);
        assert(self.writer@ =~= old(self).writer@ + float_bytes(tag, bits));
    }

    /// Writes a 64-bit float, given by its bits, at its full width.
    pub fn serialize_f64(&mut self, bits: u64)
        ensures
            final(self).written() == old(self).written() + double_bytes(old(self).tag(), bits),
            final(self).pending_tag() is None,
            final(self).nesting() == old(self).nesting(),
    {
        let tag = self.take_tag();
        self.write_head(tag, 5);
        put_uint(&mut self.writer, bits, 8);
        assert(self.writer@ =~= old(self).writer@ + double_bytes(tag, bits));
    }

    /// Writes a string: its length in one byte where that holds it, else in
    /// four, then its UTF-8 bytes. Of a length that four bytes do not hold,
    /// the low four bytes are written.
    pub fn serialize_str(&mut self, v: &str)
        ensures
            final(self).written() == old(self).written() + text_bytes(old(self).tag(), v@),
            final(self).pending_tag() is None,
            final(self).nesting() == old(self).nesting(),
    {
        let payload = v.as_bytes();
        let len = payload.len();
        let tag = self.take_tag();
        if len <= 0xFF {
            self.write_head(tag, 6);
            self.writer.push(len as u8);
            assert(be_bytes(len as nat, 1) =~= seq![len as u8]);
        } else {
            self.write_head(tag, 7);
            put_uint(&mut self.writer, (#[verifier::truncate] (len as u32)) as u64, 4);
        }
        self.writer.extend_from_slice(payload);
        assert(self.writer@ =~= old(self).writer@ + text_bytes(tag, v@));
    }

    /// Writes a raw byte block: a header of type 13, the fixed nested
    /// header, the length as a number, then the bytes with no framing of
    /// their own. A length is written as the signed number of its low 64
    /// bits, here and for the counts of sequences and maps.
    pub fn serialize_bytes(&mut self, v: &[u8])
        ensures
            final(self).written() == old(self).written() + block_bytes(old(self).tag(), v@),
            final(self).pending_tag() is None,
            final(self).nesting() == old(self).nesting(),
    {
        let len = v.len();
        let tag = self.take_tag();
        self.write_head(tag, 13);
        self.write_head(0, 0);
        self.write_number(#[verifier::truncate] (len as i64));
        self.writer.extend_from_slice(v);
        assert(self.writer@ =~= old(self).writer@ + block_bytes(tag, v@));
    }

    /// Opens a sequence of `len` elements (of none, where `len` is absent):
    /// a header of type 9 under the pending tag, then the count.
    pub fn serialize_seq(&mut self, len: Option<usize>)
        ensures
            final(self).written() == old(self).written() + counted_head_bytes(
                old(self).tag(),
                TYPE_LIST,
                match len {
                    Some(n) => n as nat,
                    None => 0,
                },
            ),
            final(self).pending_tag() is None,
            final(self).nesting() == old(self).nesting(),
    {
        let tag = self.take_tag();
        self.write_head(tag, 9);
        let count: usize = match len {
            Some(n) => n,
            None => 0,
        };
        self.write_number(#[verifier::truncate] (count as i64));
        assert(self.writer@ =~= old(self).writer@ + counted_head_bytes(
            tag,
            TYPE_LIST,
            count as nat,
        ));
    }

    /// Sets the tag of the element at `index` of a sequence: the index, of
    /// which the low byte is kept.
    pub fn serialize_element(&mut self, index: usize)
        ensures
            final(self).pending_tag() == Some(element_tag(index as nat)),
            final(self).written() == old(self).written(),
            final(self).nesting() == old(self).nesting(),
    {
        self.next_tag = Some((index % 256) as u8);
    }

    /// Opens a map of `len` entries: a header of type 8 under the pending
    /// tag, then the count.
    pub fn serialize_map(&mut self, len: Option<usize>)
        requires
            len is Some,
        ensures
            final(self).written() == old(self).written() + counted_head_bytes(
                old(self).tag(),
                TYPE_MAP,
                len->0 as nat,
            ),
            final(self).pending_tag() is None,
            final(self).nesting() == old(self).nesting(),
    {
        let tag = self.take_tag();
        self.write_head(tag, 8);
        let count: usize = match len {
            Some(n) => n,
            None => 0,
        };
        self.write_number(#[verifier::truncate] (count as i64));
        assert(self.writer@ =~= old(self).writer@ + counted_head_bytes(
            tag,
            TYPE_MAP,
            count as nat,
        ));
    }

    /// Sets the tag of the key of a map entry: always 0.
    pub fn entry_key(&mut self)
        ensures
            final(self).pending_tag() == Some(0u8),
            final(self).written() == old(self).written(),
            final(self).nesting() == old(self).nesting(),
    {
        self.next_tag = Some(0);
    }

    /// Sets the tag of the value of a map entry: always 1.
    pub fn entry_value(&mut self)
        ensures
            final(self).pending_tag() == Some(1u8),
            final(self).written() == old(self).written(),
            final(self).nesting() == old(self).nesting(),
    {
        self.next_tag = Some(1);
    }

    /// Enters a record. With a tag pending the record is a field or an
    /// element, and a header of type 10 is written under that tag; with
    /// none it is the outermost value and nothing is written.
    pub fn serialize_struct(&mut self)
        requires
            old(self).nesting() < usize::MAX,
        ensures
            final(self).nesting() == old(self).nesting() + 1,
            final(self).pending_tag() is None,
            final(self).written() == match old(self).pending_tag() {
                Some(tag) => old(self).written() + header_bytes(tag, TYPE_STRUCT_BEGIN),
                None => old(self).written(),
            },
    {
        self.depth = self.depth + 1;
        if let Some(tag) = self.next_tag {
            self.next_tag = None;
            self.write_head(tag, 10);
        }
    }

    /// Sets the tag of the next field of a record to the one that `key`
    /// names. A key that names none is refused and changes nothing.
    pub fn serialize_field(&mut self, key: &str) -> (r: Result<(), Error>)
        ensures
            final(self).written() == old(self).written(),
            final(self).nesting() == old(self).nesting(),
            match field_tag(key@) {
                Some(tag) => r is Ok && final(self).pending_tag() == Some(tag),
                None => r == Err::<(), Error>(Error::InvalidFieldTag) && final(self).pending_tag()
                    == old(self).pending_tag(),
            },
    {
        match parse_field_tag(key) {
            Ok(tag) => {
                self.next_tag = Some(tag);
                Ok(())
            },
            Err(e) => Err(e),
        }
    }

    /// Writes nothing: an absent optional value leaves no trace, not even
    /// its tag.
    pub fn serialize_none(&mut self)
        ensures
            final(self).written() == old(self).written(),
            final(self).pending_tag() == old(self).pending_tag(),
            final(self).nesting() == old(self).nesting(),
    {
    }

    /// Leaves a record. Unless that was the outermost one, the header of
    /// type 11 that closes a record is written.
    pub fn end(&mut self)
        requires
            old(self).nesting() > 0,
        ensures
            final(self).nesting() == old(self).nesting() - 1,
            final(self).pending_tag() == old(self).pending_tag(),
            final(self).written() == if old(self).nesting() > 1 {
                old(self).written() + header_bytes(0, TYPE_STRUCT_END)
            } else {
                old(self).written()
            },
    {
        self.depth = self.depth - 1;
        if self.depth != 0 {
            self.writer.push(0x0B);
            assert(self.writer@ =~= old(self).writer@ + header_bytes(0, TYPE_STRUCT_END));
        }
    }
}

impl Serializer {
    /// Writes a tree under the pending tag. Integers keep the width of
    /// their variant, and a record is written as a nested one, between its
    /// two headers.
    #[verifier::rlimit(40)]
    pub fn serialize_any_value(&mut self, value: &Value)
        ensures
            final(self).written() == old(self).written() + node_bytes(old(self).tag(), value@),
            final(self).pending_tag() is None,
            final(self).nesting() == old(self).nesting(),
        decreases value,
    {
        let tag = self.take_tag();
        match value {
            Value::Byte(b) => {
                self.write_head(tag, 0);
                self.writer.push(*b);
            },
            Value::Int16(x) => {
                self.write_head(tag, 1);
                put_uint(&mut self.writer, twos_complement(*x as i64, 2), 2);
            },
            Value::Int32(x) => {
                self.write_head(tag, 2);
                put_uint(&mut self.writer, twos_complement(*x as i64, 4), 4);
            },
            Value::Int64(x) => {
                self.write_head(tag, 3);
                put_uint(&mut self.writer, twos_complement(*x, 8), 8);
            },
            Value::Float(bits) => {
                self.next_tag = Some(tag);
                self.serialize_f32(*bits);
            },
            Value::Double(bits) => {
                self.next_tag = Some(tag);
                self.serialize_f64(*bits);
            },
            Value::String(text) => {
                self.next_tag = Some(tag);
                self.serialize_str(text.as_str());
            },
            Value::Bytes(payload) => {
                self.next_tag = Some(tag);
                self.serialize_bytes(payload.as_slice());
            },
            Value::Mapping(pairs) => {
                self.next_tag = Some(tag);
                self.serialize_map(Some(pairs.len()));
                self.write_pairs(pairs);
            },
            Value::Struct(fields) => {
                self.write_head(tag, 10);
                self.write_fields(fields);
                self.write_head(0, 11);
            },
            Value::List(items) => {
                self.next_tag = Some(tag);
                self.serialize_seq(Some(items.len()));
                self.write_items(items);
            },
            Value::Zero => {
                self.write_head(tag, 12);
            },
        }
        assert(self.writer@ =~= old(self).writer@ + node_bytes(tag, value@));
    }

    /// Writes the elements of a sequence, each under its index.
    fn write_items(&mut self, items: &Vec<Value>)
        ensures
            final(self).written() == old(self).written() + items_bytes(items_view(items@), 0),
            old(self).pending_tag() is None ==> final(self).pending_tag() is None,
            final(self).nesting() == old(self).nesting(),
        decreases items,
    {
        let ghost nodes = items_view(items@);
        let mut i: usize = 0;
        while i < items.len()
            invariant
                i <= items.len(),
                nodes == items_view(items@),
                self.writer@ + items_bytes(nodes, i as nat) == old(self).writer@ + items_bytes(
                    nodes,
                    0,
                ),
                old(self).next_tag is None ==> self.next_tag is None,
                self.depth == old(self).depth,
            decreases items.len() - i,
        {
            let ghost before = self.writer@;
            self.serialize_element(i);
            self.serialize_any_value(&items[i]);
            assert(self.writer@ + items_bytes(nodes, (i + 1) as nat) =~= before + items_bytes(
                nodes,
                i as nat,
            ));
            i = i + 1;
        }
        assert(self.writer@ =~= old(self).writer@ + items_bytes(nodes, 0));
    }

    /// Writes the entries of a map: each key under tag 0, each value under
    /// tag 1.
    fn write_pairs(&mut self, pairs: &Vec<(Value, Value)>)
        ensures
            final(self).written() == old(self).written() + pairs_bytes(pairs_view(pairs@), 0),
            old(self).pending_tag() is None ==> final(self).pending_tag() is None,
            final(self).nesting() == old(self).nesting(),
        decreases pairs,
    {
        let ghost nodes = pairs_view(pairs@);
        let mut i: usize = 0;
        while i < pairs.len()
            invariant
                i <= pairs.len(),
                nodes == pairs_view(pairs@),
                self.writer@ + pairs_bytes(nodes, i as nat) == old(self).writer@ + pairs_bytes(
                    nodes,
                    0,
                ),
                old(self).next_tag is None ==> self.next_tag is None,
                self.depth == old(self).depth,
            decreases pairs.len() - i,
        {
            let ghost before = self.writer@;
            self.entry_key();
            self.serialize_any_value(&pairs[i].0);
            self.entry_value();
            self.serialize_any_value(&pairs[i].1);
            assert(self.writer@ + pairs_bytes(nodes, (i + 1) as nat) =~= before + pairs_bytes(
                nodes,
                i as nat,
            ));
            i = i + 1;
        }
        assert(self.writer@ =~= old(self).writer@ + pairs_bytes(nodes, 0));
    }

    /// Writes the fields of a record, each under its tag, in the order of
    /// the tags.
    fn write_fields(&mut self, fields: &BTreeMap<u8, Value>)
        ensures
            final(self).written() == old(self).written() + fields_bytes(fields_view(fields@), 0),
            old(self).pending_tag() is None ==> final(self).pending_tag() is None,
            final(self).nesting() == old(self).nesting(),
        decreases fields,
    {
        let ghost nodes = fields_view(fields@);
        proof {
            lemma_fields_view_dom(fields@);
        }
        let mut tag: u16 = 0;
        while tag < 256
            invariant
                tag <= 256,
                nodes == fields_view(fields@),
                nodes.dom().finite(),
                old(self).next_tag is None ==> self.next_tag is None,
                self.writer@ + fields_bytes(nodes, tag as nat) == old(self).writer@
                    + fields_bytes(nodes, 0),
                self.depth == old(self).depth,
            decreases 256 - tag,
        {
            let ghost before = self.writer@;
            let key = tag as u8;
            match fields.get(&key) {
                Some(v) => {
                    self.next_tag = Some(key);
                    self.serialize_any_value(v);
                },
                None => {},
            }
            assert(self.writer@ + fields_bytes(nodes, (tag + 1) as nat) =~= before
                + fields_bytes(nodes, tag as nat));
            tag = tag + 1;
        }
        assert(self.writer@ =~= old(self).writer@ + fields_bytes(nodes, 0));
    }

    /// Writes the outermost record: its fields in the order of their tags,
    /// with no header before them and none behind. A pending tag is
    /// dropped.
    pub fn serialize_all(&mut self, fields: &BTreeMap<u8, Value>)
        ensures
            final(self).written() == old(self).written() + stream_bytes(fields_view(fields@)),
            final(self).pending_tag() is None,
            final(self).nesting() == old(self).nesting(),
    {
        self.write_fields(fields);
        self.next_tag = None;
    }
}

} // verus!
