//! Target shapes and the values decoded into them.

use vstd::prelude::*;
use crate::value::{Integer, Width};

verus! {

/// What a target asks the decoder for.
#[derive(Debug, PartialEq, Eq)]
pub enum Shape {
    /// A value of any shape whatever. Not served: decoding it always fails.
    Any,
    Bool,
    Char,
    /// An integer of the given width.
    Integer(Width),
    /// A float, as the bit pattern of its 64-bit form.
    Float,
    /// The text of a string value.
    Str,
    /// The text of a string value or of a keyword symbol.
    String,
    Unit,
    /// The text of a symbol of either flavor, such as the key of a field.
    Identifier,
    /// One value of any kind, dropped unread.
    Ignored,
    /// Nothing, written as the unit, or a value of the given shape.
    Optional(Box<Shape>),
    /// A list of any length whose elements all have the given shape.
    Sequence(Box<Shape>),
    /// A list with one element for each of the given shapes, in their order.
    Tuple(Vec<Shape>),
    /// A list of entries, each a list of a key and a value, which have the
    /// first and the second of the given shapes.
    Mapping(Box<(Shape, Shape)>),
    /// A record without fields: its name, then the unit.
    UnitStruct(String),
    /// A record with positional fields: its name, then the fields.
    TupleStruct(String, Vec<Shape>),
    /// A record with named fields: its name, then one list of alternating
    /// keys and values.
    Struct(String, Vec<Field>),
    /// One of several named alternatives, registered together under a name.
    Enum(String, Vec<Variant>),
}

/// A named field of a record or of a variant.
#[derive(Debug, PartialEq, Eq)]
pub struct Field {
    pub name: String,
    pub shape: Shape,
}

/// One alternative of an enum.
#[derive(Debug, PartialEq, Eq)]
pub struct Variant {
    pub name: String,
    pub payload: Payload,
}

/// What a variant carries besides its name.
#[derive(Debug, PartialEq, Eq)]
pub enum Payload {
    /// Nothing: the variant is written as its bare name.
    Unit,
    /// One value, which follows the name in the variant's list.
    Newtype(Shape),
    /// Several values, which follow the name in the variant's list.
    Tuple(Vec<Shape>),
    /// Named fields: one list of alternating keys and values follows the name.
    Struct(Vec<Field>),
}

/// A decoded value.
#[derive(Debug, PartialEq, Eq)]
pub enum Decoded {
    Unit,
    Bool(bool),
    Char(char),
    Integer(Integer),
    Float(u64),
    Text(String),
    Ignored,
    /// An optional value that is not there.
    Absent,
    /// An optional value that is there.
    Present(Box<Decoded>),
    /// The elements of a sequence, a tuple or a positional record, in order.
    Sequence(Vec<Decoded>),
    /// The entries of a mapping, in the order in which they were met.
    Mapping(Vec<(Decoded, Decoded)>),
    /// The fields of a record with named fields, in the order in which they
    /// were met, each with the index of the field in the shape.
    Record(Vec<(usize, Decoded)>),
    /// A variant of an enum: its index in the shape, and what it carries.
    Variant(usize, Box<Decoded>),
}

/// A [`Decoded`] as the contracts see it.
pub enum Host {
    Unit,
    Bool(bool),
    Char(char),
    Integer(Integer),
    Float(u64),
    Text(Seq<char>),
    Ignored,
    Absent,
    Present(Box<Host>),
    Sequence(Seq<Host>),
    Mapping(Seq<(Host, Host)>),
    Record(Seq<(int, Host)>),
    Variant(int, Box<Host>),
}

impl Decoded {
    /// The value as the contracts see it.
    pub open spec fn host(self) -> Host
        decreases self,
    {
        match self {
            Decoded::Unit => Host::Unit,
            Decoded::Bool(b) => Host::Bool(b),
            Decoded::Char(c) => Host::Char(c),
            Decoded::Integer(n) => Host::Integer(n),
            Decoded::Float(bits) => Host::Float(bits),
            Decoded::Text(s) => Host::Text(s@),
            Decoded::Ignored => Host::Ignored,
            Decoded::Absent => Host::Absent,
            Decoded::Present(inner) => Host::Present(Box::new((*inner).host())),
            Decoded::Sequence(items) => Host::Sequence(
                Seq::new(
                    items@.len(),
                    |i: int|
                        if 0 <= i < items@.len() {
                            items@[i].host()
                        } else {
                            Host::Unit
                        },
                ),
            ),
            Decoded::Mapping(entries) => Host::Mapping(
                Seq::new(
                    entries@.len(),
                    |i: int|
                        if 0 <= i < entries@.len() {
                            (entries@[i].0.host(), entries@[i].1.host())
                        } else {
                            (Host::Unit, Host::Unit)
                        },
                ),
            ),
            Decoded::Record(fields) => Host::Record(
                Seq::new(
                    fields@.len(),
                    |i: int|
                        if 0 <= i < fields@.len() {
                            (fields@[i].0 as int, fields@[i].1.host())
                        } else {
                            (0, Host::Unit)
                        },
                ),
            ),
            Decoded::Variant(index, payload) => Host::Variant(
                index as int,
                Box::new((*payload).host()),
            ),
        }
    }
}

/// The decoded values of a list as the contracts see them.
pub open spec fn hosts_of(items: Seq<Decoded>) -> Seq<Host> {
    Seq::new(items.len(), |i: int| items[i]@)
}

/// The decoded entries of a mapping as the contracts see them.
pub open spec fn entries_of(entries: Seq<(Decoded, Decoded)>) -> Seq<(Host, Host)> {
    Seq::new(entries.len(), |i: int| (entries[i].0@, entries[i].1@))
}

/// The decoded fields of a record as the contracts see them.
pub open spec fn members_of(fields: Seq<(usize, Decoded)>) -> Seq<(int, Host)> {
    Seq::new(fields.len(), |i: int| (fields[i].0 as int, fields[i].1@))
}

/// The view of a decoded list is made of the views of its elements.
pub proof fn lemma_view_sequence(items: Vec<Decoded>)
    ensures
        Decoded::Sequence(items)@ == Host::Sequence(hosts_of(items@)),
{
    assert(Decoded::Sequence(items)@->Sequence_0 =~= hosts_of(items@));
}

/// The view of a decoded mapping is made of the views of its entries.
pub proof fn lemma_view_mapping(entries: Vec<(Decoded, Decoded)>)
    ensures
        Decoded::Mapping(entries)@ == Host::Mapping(entries_of(entries@)),
{
    assert(Decoded::Mapping(entries)@->Mapping_0 =~= entries_of(entries@));
}

/// The view of a decoded record is made of the views of its fields.
pub proof fn lemma_view_record(fields: Vec<(usize, Decoded)>)
    ensures
        Decoded::Record(fields)@ == Host::Record(members_of(fields@)),
{
    assert(Decoded::Record(fields)@->Record_0 =~= members_of(fields@));
}

impl View for Decoded {
    type V = Host;

    open spec fn view(&self) -> Host {
        self.host()
    }
}

} // verus!
