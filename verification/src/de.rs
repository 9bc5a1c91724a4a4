//! The decoder: a cursor over a byte buffer with a one-slot header
//! lookahead and a register for the type code of the value at hand.

use crate::error::Error;
use crate::grammar::{
    skip_counted, skip_fields, skip_items, skip_text, skip_value, take_block, take_bytes,
    take_counted, take_fields, take_header, take_int, take_items, take_number, take_pairs,
    take_stream, take_text, take_uint, take_value, Source,
};
use crate::value::{
    fields_view, items_view, lemma_fields_view_insert, lemma_items_view_push,
    lemma_pairs_view_push, pairs_view, Value,
};
use crate::wire::{lemma_nibbles, pow256, to_signed};
use std::collections::BTreeMap;
use vstd::prelude::*;
use vstd::utf8::{encode_utf8, encode_utf8_decode_utf8, valid_utf8};

verus! {

/// A decoder over a byte buffer.
pub struct Deserializer {
    reader: Vec<u8>,
    pos: usize,
    peeked_header: Option<(u8, u8)>,
    current_type: Option<u8>,
}

impl View for Deserializer {
    type V = Source;

    closed spec fn view(&self) -> Source {
        Source {
            peeked: self.peeked_header,
            bytes: self.reader@.skip(self.pos as int),
        }
    }
}

impl Deserializer {
    #[verifier::type_invariant]
    spec fn inv(self) -> bool {
        self.pos <= self.reader.len()
    }

    /// The type code that the next typed decode will consume, if one is set.
    pub closed spec fn current_type(&self) -> Option<u8> {
        self.current_type
    }

    /// A decoder at the start of `reader`, with nothing pushed back and no
    /// current type code.
    pub fn new(reader: Vec<u8>) -> (de: Self)
        ensures
            de@ == (Source { peeked: None, bytes: reader@ }),
            de.current_type() is None,
    {
        let de = Deserializer { reader, pos: 0, peeked_header: None, current_type: None };
        assert(de@.bytes =~= reader@);
        de
    }

    /// Reads the next header as (tag, type code).
    pub fn next_header(&mut self) -> (r: Result<(u8, u8), Error>)
        ensures
            final(self).current_type() == old(self).current_type(),
            match take_header(old(self)@) {
                Ok((h, rest)) => r == Ok::<(u8, u8), Error>(h) && final(self)@ == rest,
                Err(e) => r == Err::<(u8, u8), Error>(e) && final(self)@ == old(self)@,
            },
    {
        proof {
            use_type_invariant(&*self);
        }
        if let Some(header) = self.peeked_header {
            self.peeked_header = None;
            return Ok(header);
        }
        if self.pos >= self.reader.len() {
            return Err(Error::UnexpectedEnd);
        }
        let head = self.reader[self.pos];
        let typ = head & 0x0F;
        let tag = (head & 0xF0) >> 4;
        proof {
            lemma_nibbles(head);
        }
        if tag != 15 {
            self.pos = self.pos + 1;
            assert(self@.bytes =~= old(self)@.bytes.skip(1));
            return Ok((tag, typ));
        }
        if self.reader.len() - self.pos < 2 {
            return Err(Error::UnexpectedEnd);
        }
        let ext = self.reader[self.pos + 1];
        self.pos = self.pos + 2;
        assert(self@.bytes =~= old(self)@.bytes.skip(2));
        Ok((ext, typ))
    }

    /// Pushes a header back: the next header read returns it and reads
    /// nothing.
    pub fn peek_header(&mut self, tag: u8, typ: u8)
        ensures
            final(self)@ == (Source { peeked: Some((tag, typ)), bytes: old(self)@.bytes }),
            final(self).current_type() == old(self).current_type(),
    {
        proof {
            use_type_invariant(&*self);
        }
        self.peeked_header = Some((tag, typ));
    }
}

/// The signed number that the `width`-byte two's complement `u` stands for.
fn sign_extend(u: u64, width: usize) -> (v: i64)
    requires
        width == 1 || width == 2 || width == 4 || width == 8,
        u < pow256(width as nat),
    ensures
        v == to_signed(u as nat, width as nat),
{
    if width == 1 {
        if u >= 0x80 {
            u as i64 - 0x100
        } else {
            u as i64
        }
    } else if width == 2 {
        if u >= 0x8000 {
            u as i64 - 0x1_0000
        } else {
            u as i64
        }
    } else if width == 4 {
        if u >= 0x8000_0000 {
            u as i64 - 0x1_0000_0000
        } else {
            u as i64
        }
    } else {
        if u >= 0x8000_0000_0000_0000 {
            (u - 0x8000_0000_0000_0000) as i64 + i64::MIN
        } else {
            u as i64
        }
    }
}

/// Makes a string of `bytes` with `String::from_utf8`. The contract is taken
/// on trust from the standard library's documentation: the result is
/// `Some` exactly when the bytes are valid UTF-8, and the string then
/// consists of those bytes.
#[verifier::external_body]
fn string_from_utf8(bytes: Vec<u8>) -> (r: Option<String>)
    ensures
        r is Some <==> valid_utf8(bytes@),
        r matches Some(text) ==> encode_utf8(text@) == bytes@,
{
    String::from_utf8(bytes).ok()
}

impl Deserializer {
    /// Reads `width` bytes as one unsigned big-endian number.
    pub(crate) fn read_uint(&mut self, width: usize) -> (r: Result<u64, Error>)
        requires
            width == 1 || width == 2 || width == 4 || width == 8,
        ensures
            final(self).current_type() == old(self).current_type(),
            match take_uint(old(self)@, width as nat) {
                Ok((v, rest)) => r == Ok::<u64, Error>(v as u64) && v < pow256(width as nat)
                    && final(self)@ == rest,
                Err(e) => r == Err::<u64, Error>(e) && final(self)@ == old(self)@,
            },
    {
        proof {
            use_type_invariant(&*self);
        }
        if self.reader.len() - self.pos < width {
            return Err(Error::UnexpectedEnd);
        }
        let ghost window = old(self)@.bytes.take(width as int);
        assert(forall|k: int| 0 <= k < width ==> window[k] == self.reader@[self.pos + k]);
        let mut at = self.pos;
        let mut acc: u64 = 0;
        if width == 8 {
            acc = self.reader[at] as u64 * 0x100_0000 + self.reader[at + 1] as u64 * 0x1_0000
                + self.reader[at + 2] as u64 * 0x100 + self.reader[at + 3] as u64;
            at = at + 4;
        }
        if width >= 4 {
            acc = acc * 0x1_0000 + self.reader[at] as u64 * 0x100 + self.reader[at + 1] as u64;
            at = at + 2;
        }
        if width >= 2 {
            acc = acc * 0x100 + self.reader[at] as u64;
            at = at + 1;
        }
        acc = acc * 0x100 + self.reader[at] as u64;
        self.pos = at + 1;
        assert(self@.bytes =~= old(self)@.bytes.skip(width as int));
        Ok(acc)
    }

    /// Reads one byte.
    pub fn read_u8(&mut self) -> (r: Result<u8, Error>)
        ensures
            final(self).current_type() == old(self).current_type(),
            match take_uint(old(self)@, 1) {
                Ok((v, rest)) => r == Ok::<u8, Error>(v as u8) && v <= u8::MAX && final(self)@
                    == rest,
                Err(e) => r == Err::<u8, Error>(e) && final(self)@ == old(self)@,
            },
    {
        match self.read_uint(1) {
            Ok(v) => Ok(v as u8),
            Err(e) => Err(e),
        }
    }

    /// Reads two bytes as a big-endian number.
    pub fn read_u16(&mut self) -> (r: Result<u16, Error>)
        ensures
            final(self).current_type() == old(self).current_type(),
            match take_uint(old(self)@, 2) {
                Ok((v, rest)) => r == Ok::<u16, Error>(v as u16) && v <= u16::MAX
                    && final(self)@ == rest,
                Err(e) => r == Err::<u16, Error>(e) && final(self)@ == old(self)@,
            },
    {
        match self.read_uint(2) {
            Ok(v) => Ok(v as u16),
            Err(e) => Err(e),
        }
    }

    /// Reads four bytes as a big-endian number.
    pub fn read_u32(&mut self) -> (r: Result<u32, Error>)
        ensures
            final(self).current_type() == old(self).current_type(),
            match take_uint(old(self)@, 4) {
                Ok((v, rest)) => r == Ok::<u32, Error>(v as u32) && v <= u32::MAX
                    && final(self)@ == rest,
                Err(e) => r == Err::<u32, Error>(e) && final(self)@ == old(self)@,
            },
    {
        match self.read_uint(4) {
            Ok(v) => Ok(v as u32),
            Err(e) => Err(e),
        }
    }

    /// Reads eight bytes as a big-endian number.
    pub fn read_u64(&mut self) -> (r: Result<u64, Error>)
        ensures
            final(self).current_type() == old(self).current_type(),
            match take_uint(old(self)@, 8) {
                Ok((v, rest)) => r == Ok::<u64, Error>(v as u64) && v <= u64::MAX
                    && final(self)@ == rest,
                Err(e) => r == Err::<u64, Error>(e) && final(self)@ == old(self)@,
            },
    {
        self.read_uint(8)
    }

    /// Reads the next `n` bytes.
    fn read_exact(&mut self, n: usize) -> (r: Result<Vec<u8>, Error>)
        ensures
            final(self).current_type() == old(self).current_type(),
            final(self)@.weight() <= old(self)@.weight(),
            match take_bytes(old(self)@, n as nat) {
                Ok((b, rest)) => r matches Ok(v) && v@ == b && final(self)@ == rest,
                Err(e) => r == Err::<Vec<u8>, Error>(e) && final(self)@ == old(self)@,
            },
    {
        proof {
            use_type_invariant(&*self);
        }
        if self.reader.len() - self.pos < n {
            return Err(Error::UnexpectedEnd);
        }
        let start = self.pos;
        let mut out: Vec<u8> = Vec::new();
        let mut i: usize = 0;
        while i < n
            invariant
                i <= n,
                start + n <= self.reader.len(),
                out@ == self.reader@.subrange(start as int, start + i),
            decreases n - i,
        {
            out.push(self.reader[start + i]);
            i = i + 1;
            assert(out@ =~= self.reader@.subrange(start as int, start + i));
        }
        self.pos = start + n;
        assert(out@ =~= old(self)@.bytes.take(n as int));
        assert(self@.bytes =~= old(self)@.bytes.skip(n as int));
        Ok(out)
    }

    /// Passes over the next `len` bytes.
    pub fn ignore_bytes(&mut self, len: u64) -> (r: Result<(), Error>)
        ensures
            final(self).current_type() == old(self).current_type(),
            final(self)@.weight() <= old(self)@.weight(),
            match take_bytes(old(self)@, len as nat) {
                Ok((_, rest)) => r is Ok && final(self)@ == rest,
                Err(e) => r == Err::<(), Error>(e) && final(self)@ == old(self)@,
            },
    {
        proof {
            use_type_invariant(&*self);
        }
        if ((self.reader.len() - self.pos) as u64) < len {
            return Err(Error::UnexpectedEnd);
        }
        self.pos = self.pos + len as usize;
        assert(self@.bytes =~= old(self)@.bytes.skip(len as int));
        Ok(())
    }

    /// Reads a header, the count that it announces, and that many bytes.
    fn read_counted(&mut self) -> (r: Result<Vec<u8>, Error>)
        ensures
            final(self).current_type() == old(self).current_type(),
            final(self)@.weight() <= old(self)@.weight(),
            match take_counted(old(self)@) {
                Ok((b, rest)) => r matches Ok(v) && v@ == b && final(self)@ == rest
                    && rest.weight() < old(self)@.weight(),
                Err(e) => r == Err::<Vec<u8>, Error>(e),
            },
    {
        let n = match self.get_raw_number() {
            Ok(n) => n,
            Err(e) => {
                return Err(e);
            },
        };
        proof {
            use_type_invariant(&*self);
        }
        if n < 0 || n as u64 > (self.reader.len() - self.pos) as u64 {
            return Err(Error::UnexpectedEnd);
        }
        self.read_exact(n as usize)
    }

    /// Reads the string held under type code `typ`.
    pub(crate) fn read_text(&mut self, typ: u8) -> (r: Result<String, Error>)
        ensures
            final(self).current_type() == old(self).current_type(),
            final(self)@.weight() <= old(self)@.weight(),
            match take_text(old(self)@, typ) {
                Ok((t, rest)) => r matches Ok(v) && v@ == t && final(self)@ == rest,
                Err(e) => r == Err::<String, Error>(e),
            },
    {
        let len: usize = match typ {
            6 => match self.read_uint(1) {
                Ok(n) => n as usize,
                Err(e) => {
                    return Err(e);
                },
            },
            7 => match self.read_uint(4) {
                Ok(n) => n as usize,
                Err(e) => {
                    return Err(e);
                },
            },
            _ => {
                return Err(Error::TypeMismatch);
            },
        };
        let buf = match self.read_exact(len) {
            Ok(buf) => buf,
            Err(e) => {
                return Err(e);
            },
        };
        match string_from_utf8(buf) {
            Some(text) => {
                proof {
                    encode_utf8_decode_utf8(text@);
                }
                Ok(text)
            },
            None => Err(Error::InvalidUtf8),
        }
    }

    /// Reads what follows a header of type 13: the nested header, whose
    /// type code must be 0, and a counted run of bytes.
    pub(crate) fn read_block(&mut self) -> (r: Result<Vec<u8>, Error>)
        ensures
            final(self).current_type() == old(self).current_type(),
            final(self)@.weight() <= old(self)@.weight(),
            match take_block(old(self)@) {
                Ok((b, rest)) => r matches Ok(v) && v@ == b && final(self)@ == rest
                    && rest.weight() < old(self)@.weight(),
                Err(e) => r == Err::<Vec<u8>, Error>(e),
            },
    {
        match self.next_header() {
            Err(e) => Err(e),
            Ok((_, marker)) => {
                if marker != 0 {
                    return Err(Error::InvalidBlockMarker);
                }
                self.read_counted()
            },
        }
    }

    /// Reads the integer held under type code `typ`, widened with its sign.
    fn read_int(&mut self, typ: u8) -> (r: Result<i64, Error>)
        ensures
            final(self).current_type() == old(self).current_type(),
            final(self)@.weight() <= old(self)@.weight(),
            match take_int(old(self)@, typ) {
                Ok((v, rest)) => r == Ok::<i64, Error>(v) && final(self)@ == rest,
                Err(e) => r == Err::<i64, Error>(e),
            },
    {
        let width: usize = match typ {
            12 => {
                assert(old(self)@.bytes.take(0) =~= Seq::<u8>::empty());
                assert(old(self)@.bytes.skip(0) =~= old(self)@.bytes);
                return Ok(0);
            },
            0 => 1,
            1 => 2,
            2 => 4,
            3 => 8,
            _ => {
                return Err(Error::TypeMismatch);
            },
        };
        match self.read_uint(width) {
            Ok(u) => Ok(sign_extend(u, width)),
            Err(e) => Err(e),
        }
    }

    /// Reads a header and the integer that it announces.
    pub fn get_raw_number(&mut self) -> (r: Result<i64, Error>)
        ensures
            final(self).current_type() == old(self).current_type(),
            final(self)@.weight() <= old(self)@.weight(),
            match take_number(old(self)@) {
                Ok((v, rest)) => r == Ok::<i64, Error>(v) && final(self)@ == rest
                    && rest.weight() < old(self)@.weight(),
                Err(e) => r == Err::<i64, Error>(e),
            },
    {
        match self.next_header() {
            Ok((_, typ)) => self.read_int(typ),
            Err(e) => Err(e),
        }
    }

    /// Reads the integer whose type code is the current one, and clears
    /// the current type code.
    pub fn get_number(&mut self) -> (r: Result<i64, Error>)
        ensures
            final(self).current_type() is None,
            final(self)@.weight() <= old(self)@.weight(),
            match old(self).current_type() {
                None => r == Err::<i64, Error>(Error::MissingType) && final(self)@ == old(self)@,
                Some(typ) => match take_int(old(self)@, typ) {
                    Ok((v, rest)) => r == Ok::<i64, Error>(v) && final(self)@ == rest,
                    Err(e) => r == Err::<i64, Error>(e),
                },
            },
    {
        proof {
            use_type_invariant(&*self);
        }
        match self.current_type {
            None => Err(Error::MissingType),
            Some(typ) => {
                self.current_type = None;
                self.read_int(typ)
            },
        }
    }
}

impl Deserializer {
    /// The current type code, if one is set.
    pub(crate) fn current(&self) -> (typ: Option<u8>)
        ensures
            typ == self.current_type(),
    {
        self.current_type
    }

    /// Takes the current type code, leaving none.
    pub(crate) fn take_type(&mut self) -> (r: Result<u8, Error>)
        ensures
            final(self)@ == old(self)@,
            final(self).current_type() is None,
            match old(self).current_type() {
                Some(typ) => r == Ok::<u8, Error>(typ),
                None => r == Err::<u8, Error>(Error::MissingType),
            },
    {
        proof {
            use_type_invariant(&*self);
        }
        match self.current_type {
            Some(typ) => {
                self.current_type = None;
                Ok(typ)
            },
            None => Err(Error::MissingType),
        }
    }

    /// Makes `typ` the current type code.
    pub(crate) fn set_type(&mut self, typ: u8)
        ensures
            final(self)@ == old(self)@,
            final(self).current_type() == Some(typ),
    {
        proof {
            use_type_invariant(&*self);
        }
        self.current_type = Some(typ);
    }
}

impl Deserializer {
    /// Decodes the value held under type code `typ` into a tree. The
    /// current type code is neither used nor changed. What is decoded is
    /// what `take_value` says; `reveal` that to compute with it.
    #[verifier::rlimit(40)]
    pub fn deserialize_any_value(&mut self, typ: u8) -> (r: Result<Value, Error>)
        ensures
            final(self).current_type() == old(self).current_type(),
            final(self)@.weight() <= old(self)@.weight(),
            match take_value(old(self)@, typ) {
                Ok((node, rest)) => r matches Ok(v) && v@ == node && final(self)@ == rest,
                Err(e) => r == Err::<Value, Error>(e),
            },
        decreases old(self)@.weight(), 1nat,
    {
        reveal(take_value);
        reveal(take_items);
        reveal(take_pairs);
        reveal(take_fields);
        match typ {
            0 => match self.read_uint(1) {
                Ok(u) => {
                    assert(old(self)@.bytes.take(1)[0] == u);
                    Ok(Value::Byte(u as u8))
                },
                Err(e) => Err(e),
            },
            1 => match self.read_uint(2) {
                Ok(u) => Ok(Value::Int16(sign_extend(u, 2) as i16)),
                Err(e) => Err(e),
            },
            2 => match self.read_uint(4) {
                Ok(u) => Ok(Value::Int32(sign_extend(u, 4) as i32)),
                Err(e) => Err(e),
            },
            3 => match self.read_uint(8) {
                Ok(u) => Ok(Value::Int64(sign_extend(u, 8))),
                Err(e) => Err(e),
            },
            4 => match self.read_uint(4) {
                Ok(u) => Ok(Value::Float(u as u32)),
                Err(e) => Err(e),
            },
            5 => match self.read_uint(8) {
                Ok(u) => Ok(Value::Double(u)),
                Err(e) => Err(e),
            },
            6 | 7 => match self.read_text(typ) {
                Ok(text) => Ok(Value::String(text)),
                Err(e) => Err(e),
            },
            8 => {
                let n = match self.get_raw_number() {
                    Ok(n) => n,
                    Err(e) => {
                        return Err(e);
                    },
                };
                if n < 0 {
                    return Err(Error::UnexpectedEnd);
                }
                match self.read_pairs(n) {
                    Ok(pairs) => Ok(Value::Mapping(pairs)),
                    Err(e) => Err(e),
                }
            },
            9 => {
                let n = match self.get_raw_number() {
                    Ok(n) => n,
                    Err(e) => {
                        return Err(e);
                    },
                };
                if n < 0 {
                    return Err(Error::UnexpectedEnd);
                }
                match self.read_items(n) {
                    Ok(items) => Ok(Value::List(items)),
                    Err(e) => Err(e),
                }
            },
            10 => match self.read_fields() {
                Ok(fields) => Ok(Value::Struct(fields)),
                Err(e) => Err(e),
            },
            11 => Err(Error::TypeMismatch),
            12 => Ok(Value::Zero),
            13 => match self.read_block() {
                Ok(b) => Ok(Value::Bytes(b)),
                Err(e) => Err(e),
            },
            _ => Err(Error::UnknownTypeCode),
        }
    }

    /// Decodes `n` elements, each with a header of its own.
    fn read_items(&mut self, n: i64) -> (r: Result<Vec<Value>, Error>)
        requires
            0 <= n,
        ensures
            final(self).current_type() == old(self).current_type(),
            final(self)@.weight() <= old(self)@.weight(),
            match take_items(old(self)@, n as nat, Seq::empty()) {
                Ok((items, rest)) => r matches Ok(v) && items_view(v@) == items && final(self)@
                    == rest,
                Err(e) => r == Err::<Vec<Value>, Error>(e),
            },
        decreases old(self)@.weight(), n,
    {
        reveal(take_items);
        reveal(take_value);
        let mut items: Vec<Value> = Vec::new();
        let mut i: i64 = 0;
        proof {
            lemma_items_view_push(Seq::empty(), Value::Zero);
        }
        while i < n
            invariant
                0 <= i <= n,
                self.current_type() == old(self).current_type(),
                self@.weight() <= old(self)@.weight(),
                take_items(old(self)@, n as nat, Seq::empty()) == take_items(
                    self@,
                    (n - i) as nat,
                    items_view(items@),
                ),
            decreases n - i,
        {
            reveal(take_items);
            reveal(take_value);
            let item_typ = match self.next_header() {
                Ok((_, t)) => t,
                Err(e) => {
                    return Err(e);
                },
            };
            let item = match self.deserialize_any_value(item_typ) {
                Ok(v) => v,
                Err(e) => {
                    return Err(e);
                },
            };
            proof {
                lemma_items_view_push(items@, item);
            }
            items.push(item);
            i = i + 1;
        }
        Ok(items)
    }

    /// Decodes `n` entries, each a key and a value with a header of their
    /// own.
    fn read_pairs(&mut self, n: i64) -> (r: Result<Vec<(Value, Value)>, Error>)
        requires
            0 <= n,
        ensures
            final(self).current_type() == old(self).current_type(),
            final(self)@.weight() <= old(self)@.weight(),
            match take_pairs(old(self)@, n as nat, Seq::empty()) {
                Ok((pairs, rest)) => r matches Ok(v) && pairs_view(v@) == pairs && final(self)@
                    == rest,
                Err(e) => r == Err::<Vec<(Value, Value)>, Error>(e),
            },
        decreases old(self)@.weight(), n,
    {
        reveal(take_pairs);
        reveal(take_value);
        let mut pairs: Vec<(Value, Value)> = Vec::new();
        let mut i: i64 = 0;
        proof {
            lemma_pairs_view_push(Seq::empty(), Value::Zero, Value::Zero);
        }
        while i < n
            invariant
                0 <= i <= n,
                self.current_type() == old(self).current_type(),
                self@.weight() <= old(self)@.weight(),
                take_pairs(old(self)@, n as nat, Seq::empty()) == take_pairs(
                    self@,
                    (n - i) as nat,
                    pairs_view(pairs@),
                ),
            decreases n - i,
        {
            reveal(take_pairs);
            reveal(take_value);
            let key_typ = match self.next_header() {
                Ok((_, t)) => t,
                Err(e) => {
                    return Err(e);
                },
            };
            let key = match self.deserialize_any_value(key_typ) {
                Ok(v) => v,
                Err(e) => {
                    return Err(e);
                },
            };
            let val_typ = match self.next_header() {
                Ok((_, t)) => t,
                Err(e) => {
                    return Err(e);
                },
            };
            let val = match self.deserialize_any_value(val_typ) {
                Ok(v) => v,
                Err(e) => {
                    return Err(e);
                },
            };
            proof {
                lemma_pairs_view_push(pairs@, key, val);
            }
            pairs.push((key, val));
            i = i + 1;
        }
        Ok(pairs)
    }

    /// Decodes the fields of a nested record, up to and with the header
    /// that closes it.
    fn read_fields(&mut self) -> (r: Result<BTreeMap<u8, Value>, Error>)
        ensures
            final(self).current_type() == old(self).current_type(),
            final(self)@.weight() <= old(self)@.weight(),
            match take_fields(old(self)@, Map::empty()) {
                Ok((fields, rest)) => r matches Ok(v) && fields_view(v@) == fields
                    && final(self)@ == rest,
                Err(e) => r == Err::<BTreeMap<u8, Value>, Error>(e),
            },
        decreases old(self)@.weight(), 0nat,
    {
        reveal(take_fields);
        reveal(take_value);
        let mut fields: BTreeMap<u8, Value> = BTreeMap::new();
        proof {
            lemma_fields_view_insert(Map::empty(), 0, Value::Zero);
        }
        loop
            invariant
                self.current_type() == old(self).current_type(),
                self@.weight() <= old(self)@.weight(),
                take_fields(old(self)@, Map::empty()) == take_fields(self@, fields_view(fields@)),
            decreases self@.weight(),
        {
            reveal(take_fields);
            reveal(take_value);
            let (tag, field_typ) = match self.next_header() {
                Ok(h) => h,
                Err(e) => {
                    return Err(e);
                },
            };
            if field_typ == 11 {
                return Ok(fields);
            }
            let val = match self.deserialize_any_value(field_typ) {
                Ok(v) => v,
                Err(e) => {
                    return Err(e);
                },
            };
            proof {
                lemma_fields_view_insert(fields@, tag, val);
            }
            fields.insert(tag, val);
        }
    }

    /// Decodes the fields of the outermost record, by tag. The record ends
    /// where no further header can be read, or with a header of type 11.
    /// What is decoded is what `take_stream` says; `reveal` that to compute
    /// with it.
    pub fn deserialize_all(&mut self) -> (r: Result<BTreeMap<u8, Value>, Error>)
        ensures
            final(self).current_type() == old(self).current_type(),
            final(self)@.weight() <= old(self)@.weight(),
            match take_stream(old(self)@, Map::empty()) {
                Ok((fields, rest)) => r matches Ok(root) && fields_view(root@) == fields
                    && final(self)@ == rest,
                Err(e) => r == Err::<BTreeMap<u8, Value>, Error>(e),
            },
    {
        reveal(take_stream);
        reveal(take_value);
        let mut root: BTreeMap<u8, Value> = BTreeMap::new();
        proof {
            lemma_fields_view_insert(Map::empty(), 0, Value::Zero);
        }
        loop
            invariant
                self.current_type() == old(self).current_type(),
                self@.weight() <= old(self)@.weight(),
                take_stream(old(self)@, Map::empty()) == take_stream(self@, fields_view(root@)),
            decreases self@.weight(),
        {
            reveal(take_stream);
            reveal(take_value);
            let (tag, typ) = match self.next_header() {
                Ok(h) => h,
                Err(_) => {
                    return Ok(root);
                },
            };
            if typ == 11 {
                return Ok(root);
            }
            let val = match self.deserialize_any_value(typ) {
                Ok(v) => v,
                Err(e) => {
                    return Err(e);
                },
            };
            proof {
                lemma_fields_view_insert(root@, tag, val);
            }
            root.insert(tag, val);
        }
    }
}

impl Deserializer {
    /// Passes over a header, the count that it announces, and that many
    /// bytes.
    fn pass_counted(&mut self) -> (r: Result<(), Error>)
        ensures
            final(self).current_type() == old(self).current_type(),
            final(self)@.weight() <= old(self)@.weight(),
            match skip_counted(old(self)@) {
                Ok(rest) => r is Ok && final(self)@ == rest,
                Err(e) => r == Err::<(), Error>(e),
            },
    {
        let n = match self.get_raw_number() {
            Ok(n) => n,
            Err(e) => {
                return Err(e);
            },
        };
        if n < 0 {
            return Err(Error::UnexpectedEnd);
        }
        self.ignore_bytes(n as u64)
    }

    /// Passes over `width` bytes of length and as many bytes as they spell.
    fn pass_text(&mut self, width: usize) -> (r: Result<(), Error>)
        requires
            width == 1 || width == 4,
        ensures
            final(self).current_type() == old(self).current_type(),
            final(self)@.weight() <= old(self)@.weight(),
            match skip_text(old(self)@, width as nat) {
                Ok(rest) => r is Ok && final(self)@ == rest,
                Err(e) => r == Err::<(), Error>(e),
            },
    {
        match self.read_uint(width) {
            Ok(len) => self.ignore_bytes(len),
            Err(e) => Err(e),
        }
    }

    /// Passes over the value held under type code `typ` without building
    /// it. The current type code is neither used nor changed. What is
    /// passed over is what `skip_value` says; `reveal` that to compute with
    /// it.
    pub fn skip_type(&mut self, typ: u8) -> (r: Result<(), Error>)
        ensures
            final(self).current_type() == old(self).current_type(),
            final(self)@.weight() <= old(self)@.weight(),
            match skip_value(old(self)@, typ) {
                Ok(rest) => r is Ok && final(self)@ == rest,
                Err(e) => r == Err::<(), Error>(e),
            },
        decreases old(self)@.weight(), 1nat,
    {
        reveal(skip_value);
        reveal(skip_items);
        reveal(skip_fields);
        match typ {
            0 => self.ignore_bytes(1),
            1 => self.ignore_bytes(2),
            2 | 4 => self.ignore_bytes(4),
            3 | 5 => self.ignore_bytes(8),
            6 => self.pass_text(1),
            7 => self.pass_text(4),
            8 => {
                let n = match self.get_raw_number() {
                    Ok(n) => n,
                    Err(e) => {
                        return Err(e);
                    },
                };
                if n < 0 {
                    return Err(Error::UnexpectedEnd);
                }
                self.pass_items(2 * (n as u64))
            },
            9 => {
                let n = match self.get_raw_number() {
                    Ok(n) => n,
                    Err(e) => {
                        return Err(e);
                    },
                };
                if n < 0 {
                    return Err(Error::UnexpectedEnd);
                }
                self.pass_items(n as u64)
            },
            10 => self.pass_fields(),
            11 | 12 => Ok(()),
            13 => match self.next_header() {
                Ok(_) => self.pass_counted(),
                Err(e) => Err(e),
            },
            _ => Err(Error::UnknownTypeCode),
        }
    }

    /// Passes over `n` values, each with a header of its own.
    fn pass_items(&mut self, n: u64) -> (r: Result<(), Error>)
        ensures
            final(self).current_type() == old(self).current_type(),
            final(self)@.weight() <= old(self)@.weight(),
            match skip_items(old(self)@, n as nat) {
                Ok(rest) => r is Ok && final(self)@ == rest,
                Err(e) => r == Err::<(), Error>(e),
            },
        decreases old(self)@.weight(), n,
    {
        reveal(skip_items);
        reveal(skip_value);
        let mut i: u64 = 0;
        while i < n
            invariant
                i <= n,
                self.current_type() == old(self).current_type(),
                self@.weight() <= old(self)@.weight(),
                skip_items(old(self)@, n as nat) == skip_items(self@, (n - i) as nat),
            decreases n - i,
        {
            reveal(skip_items);
            reveal(skip_value);
            let typ = match self.next_header() {
                Ok((_, t)) => t,
                Err(e) => {
                    return Err(e);
                },
            };
            match self.skip_type(typ) {
                Ok(()) => {},
                Err(e) => {
                    return Err(e);
                },
            }
            i = i + 1;
        }
        Ok(())
    }

    /// Passes over the fields of a record, up to and with the header that
    /// closes it.
    fn pass_fields(&mut self) -> (r: Result<(), Error>)
        ensures
            final(self).current_type() == old(self).current_type(),
            final(self)@.weight() <= old(self)@.weight(),
            match skip_fields(old(self)@) {
                Ok(rest) => r is Ok && final(self)@ == rest,
                Err(e) => r == Err::<(), Error>(e),
            },
        decreases old(self)@.weight(), 0nat,
    {
        reveal(skip_fields);
        reveal(skip_value);
        loop
            invariant
                self.current_type() == old(self).current_type(),
                self@.weight() <= old(self)@.weight(),
                skip_fields(old(self)@) == skip_fields(self@),
            decreases self@.weight(),
        {
            reveal(skip_fields);
            reveal(skip_value);
            let typ = match self.next_header() {
                Ok((_, t)) => t,
                Err(e) => {
                    return Err(e);
                },
            };
            if typ == 11 {
                return Ok(());
            }
            match self.skip_type(typ) {
                Ok(()) => {},
                Err(e) => {
                    return Err(e);
                },
            }
        }
    }
}

} // verus!
