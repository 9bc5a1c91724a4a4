//! The tree that an input decodes to when no schema is at hand: one
//! variant for each shape of the format.

use std::collections::BTreeMap;
use vstd::prelude::*;

verus! {

/// What a [`Value`] stands for: the same tree over mathematical sequences
/// and maps. Contracts speak of this.
pub enum Node {
    /// The byte of an 8-bit integer.
    Byte(u8),
    /// A 16-bit integer.
    Int16(i16),
    /// A 32-bit integer.
    Int32(i32),
    /// A 64-bit integer.
    Int64(i64),
    /// The bits of a 32-bit float.
    Float(u32),
    /// The bits of a 64-bit float.
    Double(u64),
    /// A string.
    String(Seq<char>),
    /// A raw byte block.
    Bytes(Seq<u8>),
    /// The entries of a map, in their order, with what repeats.
    Mapping(Seq<(Node, Node)>),
    /// The fields of a record, by tag.
    Struct(Map<u8, Node>),
    /// The elements of a sequence.
    List(Seq<Node>),
    /// The marker that stands for the integer zero.
    Zero,
}

/// A decoded value of any shape of the format.
#[derive(Debug, PartialEq, Eq)]
pub enum Value {
    /// The byte of an 8-bit integer (type 0).
    Byte(u8),
    /// A 16-bit integer (type 1).
    Int16(i16),
    /// A 32-bit integer (type 2).
    Int32(i32),
    /// A 64-bit integer (type 3).
    Int64(i64),
    /// The bits of a 32-bit float (type 4); `f32::from_bits` gives the
    /// number.
    Float(u32),
    /// The bits of a 64-bit float (type 5); `f64::from_bits` gives the
    /// number.
    Double(u64),
    /// A string (type 6 or 7).
    String(String),
    /// A raw byte block (type 13).
    Bytes(Vec<u8>),
    /// The entries of a map (type 8), in the order of the input. Keys are
    /// neither compared nor indexed: what repeats stays.
    Mapping(Vec<(Value, Value)>),
    /// The fields of a record (type 10), by tag.
    Struct(BTreeMap<u8, Value>),
    /// The elements of a sequence (type 9).
    List(Vec<Value>),
    /// The marker that stands for the integer zero (type 12).
    Zero,
}

impl View for Value {
    type V = Node;

    open spec fn view(&self) -> Node
        decreases self,
    {
        match self {
            Value::Byte(b) => Node::Byte(*b),
            Value::Int16(x) => Node::Int16(*x),
            Value::Int32(x) => Node::Int32(*x),
            Value::Int64(x) => Node::Int64(*x),
            Value::Float(x) => Node::Float(*x),
            Value::Double(x) => Node::Double(*x),
            Value::String(s) => Node::String(s@),
            Value::Bytes(b) => Node::Bytes(b@),
            Value::Mapping(m) => Node::Mapping(pairs_view(m@)),
            Value::Struct(m) => Node::Struct(fields_view(m@)),
            Value::List(l) => Node::List(items_view(l@)),
            Value::Zero => Node::Zero,
        }
    }
}

/// The trees of a run of values.
pub open spec fn items_view(items: Seq<Value>) -> Seq<Node>
    decreases items,
{
    Seq::new(items.len(), |i: int| if 0 <= i < items.len() { items[i]@ } else { Node::Zero })
}

/// The trees of a run of key and value pairs.
pub open spec fn pairs_view(pairs: Seq<(Value, Value)>) -> Seq<(Node, Node)>
    decreases pairs,
{
    Seq::new(
        pairs.len(),
        |i: int|
            if 0 <= i < pairs.len() {
                (pairs[i].0@, pairs[i].1@)
            } else {
                (Node::Zero, Node::Zero)
            },
    )
}

/// The trees of the fields of a record, by tag.
pub open spec fn fields_view(fields: Map<u8, Value>) -> Map<u8, Node>
    decreases fields,
{
    Map::new(
        |tag: u8| fields.contains_key(tag),
        |tag: u8|
            if fields.dom().finite() && fields.contains_key(tag) {
                fields[tag]@
            } else {
                Node::Zero
            },
    )
}

/// The trees of a run grow with the run.
pub proof fn lemma_items_view_push(items: Seq<Value>, v: Value)
    ensures
        items_view(items.push(v)) == items_view(items).push(v@),
        items_view(Seq::empty()) == Seq::<Node>::empty(),
{
    assert(items_view(items.push(v)) =~= items_view(items).push(v@));
    assert(items_view(Seq::empty()) =~= Seq::<Node>::empty());
}

/// The trees of a run of pairs grow with the run.
pub proof fn lemma_pairs_view_push(pairs: Seq<(Value, Value)>, key: Value, val: Value)
    ensures
        pairs_view(pairs.push((key, val))) == pairs_view(pairs).push((key@, val@)),
        pairs_view(Seq::empty()) == Seq::<(Node, Node)>::empty(),
{
    assert(pairs_view(pairs.push((key, val))) =~= pairs_view(pairs).push((key@, val@)));
    assert(pairs_view(Seq::empty()) =~= Seq::<(Node, Node)>::empty());
}

/// A record has a tree for each of its fields and for nothing else.
pub proof fn lemma_fields_view_dom(fields: Map<u8, Value>)
    ensures
        fields_view(fields).dom() == fields.dom(),
{
    assert(fields_view(fields).dom() =~= fields.dom());
}

/// Setting a field sets its tree.
pub proof fn lemma_fields_view_insert(fields: Map<u8, Value>, tag: u8, v: Value)
    requires
        fields.dom().finite(),
    ensures
        fields_view(fields.insert(tag, v)) == fields_view(fields).insert(tag, v@),
        fields_view(Map::empty()) == Map::<u8, Node>::empty(),
{
    assert(fields_view(fields.insert(tag, v)) =~= fields_view(fields).insert(tag, v@));
    assert(fields_view(Map::empty()) =~= Map::<u8, Node>::empty());
}

impl Clone for Value {
    /// A copy that stands for the same tree.
    #[verifier::loop_isolation(false)]
    fn clone(&self) -> (copy: Self)
        ensures
            copy@ == self@,
        decreases self,
    {
        match self {
            Value::Byte(b) => Value::Byte(*b),
            Value::Int16(x) => Value::Int16(*x),
            Value::Int32(x) => Value::Int32(*x),
            Value::Int64(x) => Value::Int64(*x),
            Value::Float(x) => Value::Float(*x),
            Value::Double(x) => Value::Double(*x),
            Value::String(s) => Value::String(s.clone()),
            Value::Bytes(b) => Value::Bytes(b.clone()),
            Value::Mapping(m) => {
                let mut pairs: Vec<(Value, Value)> = Vec::new();
                let mut i: usize = 0;
                while i < m.len()
                    invariant
                        i <= m.len(),
                        pairs.len() == i,
                        forall|j: int|
                            0 <= j < i ==> (#[trigger] pairs[j]).0@ == m[j].0@ && pairs[j].1@
                                == m[j].1@,
                    decreases m.len() - i,
                {
                    let key = m[i].0.clone();
                    let val = m[i].1.clone();
                    pairs.push((key, val));
                    i = i + 1;
                }
                assert(pairs_view(pairs@) =~= pairs_view(m@));
                Value::Mapping(pairs)
            },
            Value::Struct(m) => {
                let mut fields: BTreeMap<u8, Value> = BTreeMap::new();
                let mut tag: u16 = 0;
                while tag < 256
                    invariant
                        tag <= 256,
                        forall|k: u8| #[trigger]
                            fields@.contains_key(k) <==> k < tag && m@.contains_key(k),
                        forall|k: u8| #[trigger] fields@.contains_key(k) ==> fields@[k]@ == m@[k]@,
                    decreases 256 - tag,
                {
                    let key = tag as u8;
                    match m.get(&key) {
                        Some(v) => {
                            let copy = v.clone();
                            fields.insert(key, copy);
                        },
                        None => {},
                    }
                    tag = tag + 1;
                }
                assert(fields_view(fields@) =~= fields_view(m@));
                Value::Struct(fields)
            },
            Value::List(l) => {
                let mut items: Vec<Value> = Vec::new();
                let mut i: usize = 0;
                while i < l.len()
                    invariant
                        i <= l.len(),
                        items.len() == i,
                        forall|j: int| 0 <= j < i ==> (#[trigger] items[j])@ == l[j]@,
                    decreases l.len() - i,
                {
                    let item = l[i].clone();
                    items.push(item);
                    i = i + 1;
                }
                assert(items_view(items@) =~= items_view(l@));
                Value::List(items)
            },
            Value::Zero => Value::Zero,
        }
    }
}

} // verus!
