//! The typed decode: each operation consumes the current type code that
//! the walk over a sequence, a map or a record has set.

use crate::de::Deserializer;
use crate::error::Error;
use crate::grammar::{
    count_of, skip_value, take_block, take_header, take_int, take_number, take_text, take_uint,
    Source,
};
use crate::wire::{
    TYPE_BYTES, TYPE_DOUBLE, TYPE_FLOAT, TYPE_LIST, TYPE_MAP,
    TYPE_STRUCT_BEGIN, TYPE_STRUCT_END,
};
use vstd::prelude::*;

verus! {

/// The bits of a float as they stand in the input, at the width they were
/// written with.
#[derive(Debug, Clone, Copy, PartialEq, Eq, Structural)]
pub enum FloatBits {
    /// The four bytes of a 32-bit float.
    Single(u32),
    /// The eight bytes of a 64-bit float.
    Double(u64),
}

/// The bits of the float held under type code `typ`, which must be 4 or 5.
pub open spec fn take_float(s: Source, typ: u8) -> Result<(FloatBits, Source), Error> {
    if typ == TYPE_FLOAT {
        match take_uint(s, 4) {
            Ok((u, rest)) => Ok((FloatBits::Single(u as u32), rest)),
            Err(e) => Err(e),
        }
    } else if typ == TYPE_DOUBLE {
        match take_uint(s, 8) {
            Ok((u, rest)) => Ok((FloatBits::Double(u as u64), rest)),
            Err(e) => Err(e),
        }
    } else {
        Err(Error::TypeMismatch)
    }
}

/// The count that opens a sequence or a map, where `typ` is `expected`.
pub open spec fn take_count(s: Source, typ: u8, expected: u8) -> Result<(nat, Source), Error> {
    if typ != expected {
        Err(Error::TypeMismatch)
    } else {
        match take_number(s) {
            Err(e) => Err(e),
            Ok((n, rest)) => match count_of(n) {
                Err(e) => Err(e),
                Ok(len) => Ok((len, rest)),
            },
        }
    }
}

impl Deserializer {
    /// Decodes a truth value: the integer under the current type code,
    /// which is true unless its low 32 bits are all zero.
    pub fn deserialize_bool(&mut self) -> (r: Result<bool, Error>)
        ensures
            final(self).current_type() is None,
            final(self)@.weight() <= old(self)@.weight(),
            match old(self).current_type() {
                None => r == Err::<bool, Error>(Error::MissingType),
                Some(typ) => match take_int(old(self)@, typ) {
                    Ok((n, rest)) => r == Ok::<bool, Error>(n % 0x1_0000_0000 != 0)
                        && final(self)@ == rest,
                    Err(e) => r == Err::<bool, Error>(e),
                },
            },
    {
        match self.get_number() {
            Ok(n) => Ok(n % 0x1_0000_0000 != 0),
            Err(e) => Err(e),
        }
    }

    /// Decodes the bits of a float under the current type code, which must
    /// be 4 or 5.
    pub fn deserialize_float(&mut self) -> (r: Result<FloatBits, Error>)
        ensures
            final(self).current_type() is None,
            final(self)@.weight() <= old(self)@.weight(),
            match old(self).current_type() {
                None => r == Err::<FloatBits, Error>(Error::MissingType),
                Some(typ) => match take_float(old(self)@, typ) {
                    Ok((bits, rest)) => r == Ok::<FloatBits, Error>(bits) && final(self)@ == rest,
                    Err(e) => r == Err::<FloatBits, Error>(e),
                },
            },
    {
        let typ = match self.take_type() {
            Ok(typ) => typ,
            Err(e) => {
                return Err(e);
            },
        };
        match typ {
            4 => match self.read_uint(4) {
                Ok(u) => Ok(FloatBits::Single(u as u32)),
                Err(e) => Err(e),
            },
            5 => match self.read_uint(8) {
                Ok(u) => Ok(FloatBits::Double(u)),
                Err(e) => Err(e),
            },
            _ => Err(Error::TypeMismatch),
        }
    }

    /// Decodes a string under the current type code, which must be 6 or 7.
    pub fn deserialize_str(&mut self) -> (r: Result<String, Error>)
        ensures
            final(self).current_type() is None,
            final(self)@.weight() <= old(self)@.weight(),
            match old(self).current_type() {
                None => r == Err::<String, Error>(Error::MissingType),
                Some(typ) => match take_text(old(self)@, typ) {
                    Ok((text, rest)) => r matches Ok(v) && v@ == text && final(self)@ == rest,
                    Err(e) => r == Err::<String, Error>(e),
                },
            },
    {
        match self.take_type() {
            Ok(typ) => self.read_text(typ),
            Err(e) => Err(e),
        }
    }

    /// Decodes a raw byte block under the current type code, which must be
    /// 13.
    pub fn deserialize_bytes(&mut self) -> (r: Result<Vec<u8>, Error>)
        ensures
            final(self).current_type() is None,
            final(self)@.weight() <= old(self)@.weight(),
            match old(self).current_type() {
                None => r == Err::<Vec<u8>, Error>(Error::MissingType),
                Some(typ) => if typ != TYPE_BYTES {
                    r == Err::<Vec<u8>, Error>(Error::TypeMismatch)
                } else {
                    match take_block(old(self)@) {
                        Ok((b, rest)) => r matches Ok(v) && v@ == b && final(self)@ == rest,
                        Err(e) => r == Err::<Vec<u8>, Error>(e),
                    }
                },
            },
    {
        let typ = match self.take_type() {
            Ok(typ) => typ,
            Err(e) => {
                return Err(e);
            },
        };
        if typ != 13 {
            return Err(Error::TypeMismatch);
        }
        self.read_block()
    }

    /// Reads the count that opens a sequence or a map.
    fn read_count(&mut self, expected: u8) -> (r: Result<u64, Error>)
        ensures
            final(self).current_type() is None,
            final(self)@.weight() <= old(self)@.weight(),
            match old(self).current_type() {
                None => r == Err::<u64, Error>(Error::MissingType),
                Some(typ) => match take_count(old(self)@, typ, expected) {
                    Ok((len, rest)) => r == Ok::<u64, Error>(len as u64) && len <= i64::MAX
                        && final(self)@ == rest,
                    Err(e) => r == Err::<u64, Error>(e),
                },
            },
    {
        let typ = match self.take_type() {
            Ok(typ) => typ,
            Err(e) => {
                return Err(e);
            },
        };
        if typ != expected {
            return Err(Error::TypeMismatch);
        }
        match self.get_raw_number() {
            Ok(n) => if n < 0 {
                Err(Error::UnexpectedEnd)
            } else {
                Ok(n as u64)
            },
            Err(e) => Err(e),
        }
    }

    /// Opens a sequence under the current type code, which must be 9: reads
    /// the count and hands out the countdown of its elements.
    pub fn deserialize_seq(&mut self) -> (r: Result<SeqAccessor, Error>)
        ensures
            final(self).current_type() is None,
            final(self)@.weight() <= old(self)@.weight(),
            match old(self).current_type() {
                None => r == Err::<SeqAccessor, Error>(Error::MissingType),
                Some(typ) => match take_count(old(self)@, typ, TYPE_LIST) {
                    Ok((len, rest)) => r matches Ok(seq) && seq.remaining() == len
                        && final(self)@ == rest,
                    Err(e) => r == Err::<SeqAccessor, Error>(e),
                },
            },
    {
        match self.read_count(9) {
            Ok(len) => Ok(SeqAccessor::new(len)),
            Err(e) => Err(e),
        }
    }

    /// Opens a map under the current type code, which must be 8: reads the
    /// count and hands out the countdown of its entries.
    pub fn deserialize_map(&mut self) -> (r: Result<MapAccessor, Error>)
        ensures
            final(self).current_type() is None,
            final(self)@.weight() <= old(self)@.weight(),
            match old(self).current_type() {
                None => r == Err::<MapAccessor, Error>(Error::MissingType),
                Some(typ) => match take_count(old(self)@, typ, TYPE_MAP) {
                    Ok((len, rest)) => r matches Ok(map) && map.remaining() == len
                        && final(self)@ == rest,
                    Err(e) => r == Err::<MapAccessor, Error>(e),
                },
            },
    {
        match self.read_count(8) {
            Ok(len) => Ok(MapAccessor::new(len)),
            Err(e) => Err(e),
        }
    }

    /// Opens a record. With no current type code it is the outermost one;
    /// under type code 10 it is a nested one; any other type code is
    /// refused. Nothing is read.
    pub fn deserialize_struct(&mut self) -> (r: Result<StructAccessor, Error>)
        ensures
            final(self).current_type() is None,
            final(self)@ == old(self)@,
            match old(self).current_type() {
                None => r matches Ok(fields) && fields.outermost(),
                Some(typ) => if typ == TYPE_STRUCT_BEGIN {
                    r matches Ok(fields) && !fields.outermost()
                } else {
                    r == Err::<StructAccessor, Error>(Error::TypeMismatch)
                },
            },
    {
        match self.take_type() {
            Err(_) => Ok(StructAccessor::new(true)),
            Ok(typ) => if typ == 10 {
                Ok(StructAccessor::new(false))
            } else {
                Err(Error::TypeMismatch)
            },
        }
    }

    /// Passes over the value under the current type code, which stays as it
    /// is.
    pub fn deserialize_ignored_any(&mut self) -> (r: Result<(), Error>)
        ensures
            final(self).current_type() == old(self).current_type(),
            final(self)@.weight() <= old(self)@.weight(),
            match old(self).current_type() {
                None => r == Err::<(), Error>(Error::MissingType) && final(self)@ == old(self)@,
                Some(typ) => match skip_value(old(self)@, typ) {
                    Ok(rest) => r is Ok && final(self)@ == rest,
                    Err(e) => r == Err::<(), Error>(e),
                },
            },
    {
        match self.current() {
            None => Err(Error::MissingType),
            Some(typ) => self.skip_type(typ),
        }
    }

    /// Reads the header of the next value and makes its type code the
    /// current one.
    fn next_typed(&mut self) -> (r: Result<(u8, u8), Error>)
        ensures
            final(self)@.weight() <= old(self)@.weight(),
            match take_header(old(self)@) {
                Ok((h, rest)) => r == Ok::<(u8, u8), Error>(h) && final(self)@ == rest
                    && final(self).current_type() == Some(h.1),
                Err(e) => r == Err::<(u8, u8), Error>(e) && final(self)@ == old(self)@
                    && final(self).current_type() == old(self).current_type(),
            },
    {
        match self.next_header() {
            Ok((tag, typ)) => {
                self.set_type(typ);
                Ok((tag, typ))
            },
            Err(e) => Err(e),
        }
    }
}

/// The countdown of the elements of a sequence.
pub struct SeqAccessor {
    left: u64,
}

impl SeqAccessor {
    /// The number of elements not yet handed out.
    pub closed spec fn remaining(&self) -> nat {
        self.left as nat
    }

    /// The countdown of `len` elements.
    pub fn new(len: u64) -> (seq: Self)
        ensures
            seq.remaining() == len,
    {
        SeqAccessor { left: len }
    }

    /// Moves to the next element. At the end of the sequence nothing is
    /// read and `None` comes back. Else the element's header is read, and
    /// its type code comes back and is the current one of `de`.
    pub fn next_element(&mut self, de: &mut Deserializer) -> (r: Result<Option<u8>, Error>)
        ensures
            final(de)@.weight() <= old(de)@.weight(),
            if old(self).remaining() == 0 {
                &&& r == Ok::<Option<u8>, Error>(None)
                &&& final(self).remaining() == 0
                &&& final(de)@ == old(de)@
                &&& final(de).current_type() == old(de).current_type()
            } else {
                match take_header(old(de)@) {
                    Ok(((_, typ), rest)) => {
                        &&& r == Ok::<Option<u8>, Error>(Some(typ))
                        &&& final(self).remaining() == old(self).remaining() - 1
                        &&& final(de)@ == rest
                        &&& final(de).current_type() == Some(typ)
                    },
                    Err(e) => r == Err::<Option<u8>, Error>(e),
                }
            },
    {
        if self.left == 0 {
            return Ok(None);
        }
        match de.next_typed() {
            Ok((_, typ)) => {
                self.left = self.left - 1;
                Ok(Some(typ))
            },
            Err(e) => Err(e),
        }
    }
}

/// The countdown of the entries of a map.
pub struct MapAccessor {
    left: u64,
}

impl MapAccessor {
    /// The number of entries whose key was not yet handed out.
    pub closed spec fn remaining(&self) -> nat {
        self.left as nat
    }

    /// The countdown of `len` entries.
    pub fn new(len: u64) -> (map: Self)
        ensures
            map.remaining() == len,
    {
        MapAccessor { left: len }
    }

    /// Moves to the key of the next entry. At the end of the map nothing is
    /// read and `None` comes back. Else the key's header is read, and its
    /// type code comes back and is the current one of `de`.
    pub fn next_key(&mut self, de: &mut Deserializer) -> (r: Result<Option<u8>, Error>)
        ensures
            final(de)@.weight() <= old(de)@.weight(),
            if old(self).remaining() == 0 {
                &&& r == Ok::<Option<u8>, Error>(None)
                &&& final(self).remaining() == 0
                &&& final(de)@ == old(de)@
                &&& final(de).current_type() == old(de).current_type()
            } else {
                match take_header(old(de)@) {
                    Ok(((_, typ), rest)) => {
                        &&& r == Ok::<Option<u8>, Error>(Some(typ))
                        &&& final(self).remaining() == old(self).remaining() - 1
                        &&& final(de)@ == rest
                        &&& final(de).current_type() == Some(typ)
                    },
                    Err(e) => r == Err::<Option<u8>, Error>(e),
                }
            },
    {
        if self.left == 0 {
            return Ok(None);
        }
        match de.next_typed() {
            Ok((_, typ)) => {
                self.left = self.left - 1;
                Ok(Some(typ))
            },
            Err(e) => Err(e),
        }
    }

    /// Moves to the value of the entry whose key was handed out: reads the
    /// value's header; its type code comes back and is the current one of
    /// `de`.
    pub fn next_value(&mut self, de: &mut Deserializer) -> (r: Result<u8, Error>)
        ensures
            final(de)@.weight() <= old(de)@.weight(),
            final(self).remaining() == old(self).remaining(),
            match take_header(old(de)@) {
                Ok(((_, typ), rest)) => {
                    &&& r == Ok::<u8, Error>(typ)
                    &&& final(de)@ == rest
                    &&& final(de).current_type() == Some(typ)
                },
                Err(e) => r == Err::<u8, Error>(e),
            },
    {
        match de.next_typed() {
            Ok((_, typ)) => Ok(typ),
            Err(e) => Err(e),
        }
    }
}

/// The walk over the fields of a record.
pub struct StructAccessor {
    top: bool,
}

impl StructAccessor {
    /// Whether the record is the outermost value of the input.
    pub closed spec fn outermost(&self) -> bool {
        self.top
    }

    /// The walk over the outermost record, or over a nested one.
    pub fn new(outermost: bool) -> (fields: Self)
        ensures
            fields.outermost() == outermost,
    {
        StructAccessor { top: outermost }
    }

    /// Moves to the next field. A header of type 11 ends the record, and so
    /// does, for the outermost record only, an input that yields no
    /// further header: `None` comes back. Else the field's tag comes back,
    /// and the type code of its value is the current one of `de`.
    pub fn next_key(&mut self, de: &mut Deserializer) -> (r: Result<Option<u8>, Error>)
        ensures
            final(de)@.weight() <= old(de)@.weight(),
            final(self).outermost() == old(self).outermost(),
            match take_header(old(de)@) {
                Ok(((tag, typ), rest)) => {
                    &&& final(de)@ == rest
                    &&& if typ == TYPE_STRUCT_END {
                        r == Ok::<Option<u8>, Error>(None) && final(de).current_type() == old(
                            de).current_type()
                    } else {
                        r == Ok::<Option<u8>, Error>(Some(tag)) && final(de).current_type() == Some(
                            typ,
                        )
                    }
                },
                Err(e) => {
                    &&& final(de)@ == old(de)@
                    &&& final(de).current_type() == old(de).current_type()
                    &&& r == if old(self).outermost() {
                        Ok::<Option<u8>, Error>(None)
                    } else {
                        Err::<Option<u8>, Error>(e)
                    }
                },
            },
    {
        match de.next_header() {
            Ok((tag, typ)) => if typ == 11 {
                Ok(None)
            } else {
                de.set_type(typ);
                Ok(Some(tag))
            },
            Err(e) => if self.top {
                Ok(None)
            } else {
                Err(e)
            },
        }
    }
}

} // verus!
