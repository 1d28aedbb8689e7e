//! The written form of a decoded value, and the round trip through it.

use vstd::prelude::*;
use crate::cursor::item_at;
use crate::decode::{
    decode, decode_each, decode_entries, decode_entry, decode_fields, decode_pairs, enumeration,
    find_field, find_variant, mapping, named, payload_of, positional, sequence, structure,
    tuple, tuple_struct, unit_struct,
};
use crate::error::Failure;
use crate::scope::Scope;
use crate::shape::{Field, Host, Payload, Shape, Variant};
use crate::value::{Integer, Value};

verus! {

/// `value` is a name symbol whose text is `text`.
pub open spec fn names(scope: Scope, value: Value, text: Seq<char>) -> bool {
    value matches Value::Name(symbol) && scope.text(symbol) == text
}

/// `value` is a symbol of either flavor whose text is `text`.
pub open spec fn keys(scope: Scope, value: Value, text: Seq<char>) -> bool {
    ||| value matches Value::Keyword(symbol) && scope.text(symbol) == text
    ||| value matches Value::Name(symbol) && scope.text(symbol) == text
}

/// Whether `value` is a written form of `host` for a target of the shape
/// `shape`: a record is a list led by its name, named fields are one list of
/// alternating keys and values, an entry of a mapping is a list of a key
/// and a value, a variant that carries nothing is its bare name and every
/// other variant a list led by its name. An optional value that is there is
/// written as itself, so it cannot be written as the unit.
pub open spec fn encodes(scope: Scope, shape: Shape, host: Host, value: Value) -> bool
    decreases shape, 1nat,
{
    match shape {
        Shape::Any => false,
        Shape::Bool => host matches Host::Bool(b) && value == Value::Bool(b),
        Shape::Char => host matches Host::Char(c) && value == Value::Char(c),
        Shape::Integer(width) => {
            &&& host matches Host::Integer(n)
            &&& n.width() == width
            &&& value matches Value::Integer(m)
            &&& m.value() == n.value()
        },
        Shape::Float => host matches Host::Float(bits) && value == Value::Float(bits),
        Shape::Str => host matches Host::Text(s) && (value matches Value::String(t) && t@ == s),
        Shape::String => host matches Host::Text(s) && {
            ||| value matches Value::String(t) && t@ == s
            ||| value matches Value::Keyword(symbol) && scope.text(symbol) == s
        },
        Shape::Unit => host is Unit && value is Unit,
        Shape::Identifier => host matches Host::Text(s) && keys(scope, value, s),
        Shape::Ignored => host is Ignored,
        Shape::Optional(inner) => match host {
            Host::Absent => value is Unit,
            Host::Present(present) => value !is Unit && encodes(scope, *inner, *present, value),
            _ => false,
        },
        Shape::Sequence(element) => {
            &&& host matches Host::Sequence(hosts)
            &&& value matches Value::List(items)
            &&& items@.len() == hosts.len()
            &&& forall|i: int|
                0 <= i < hosts.len() ==> encodes(scope, *element, #[trigger] hosts[i], items@[i])
        },
        Shape::Tuple(shapes) => {
            &&& host matches Host::Sequence(hosts)
            &&& value matches Value::List(items)
            &&& encodes_fields(scope, shapes@, hosts, items@, 0)
        },
        Shape::Mapping(entry) => {
            &&& host matches Host::Mapping(entries)
            &&& value matches Value::List(items)
            &&& items@.len() == entries.len()
            &&& forall|i: int|
                0 <= i < entries.len() ==> encodes_entry(
                    scope,
                    *entry,
                    #[trigger] entries[i],
                    items@[i],
                )
        },
        Shape::UnitStruct(name) => {
            &&& host is Unit
            &&& value matches Value::List(items)
            &&& items@.len() == 2
            &&& names(scope, items@[0], name@)
            &&& items@[1] is Unit
        },
        Shape::TupleStruct(name, shapes) => {
            &&& host matches Host::Sequence(hosts)
            &&& value matches Value::List(items)
            &&& items@.len() >= 1
            &&& names(scope, items@[0], name@)
            &&& encodes_fields(scope, shapes@, hosts, items@, 1)
        },
        Shape::Struct(name, fields) => {
            &&& host matches Host::Record(entries)
            &&& value matches Value::List(items)
            &&& items@.len() == 2
            &&& names(scope, items@[0], name@)
            &&& encodes_named(scope, fields@, entries, items@[1])
        },
        Shape::Enum(_, variants) => {
            &&& host matches Host::Variant(index, carried)
            &&& 0 <= index < variants@.len()
            &&& find_variant(variants@, variants@[index].name@, 0) == Some(index)
            &&& encodes_variant(scope, variants@[index], *carried, value)
        },
    }
}

/// Whether `items` holds, after its first `start` elements, a written form
/// of each of `hosts` for the shape at the same place, and nothing more.
pub open spec fn encodes_fields(
    scope: Scope,
    shapes: Seq<Shape>,
    hosts: Seq<Host>,
    items: Seq<Value>,
    start: int,
) -> bool
    decreases shapes, 0nat,
{
    &&& hosts.len() == shapes.len()
    &&& items.len() == start + shapes.len()
    &&& forall|i: int|
        0 <= i < shapes.len() ==> encodes(scope, shapes[i], #[trigger] hosts[i], items[start + i])
}

/// Whether `value` is a written form of an entry of a mapping: a list of
/// the key and the value.
pub open spec fn encodes_entry(
    scope: Scope,
    entry: (Shape, Shape),
    pair: (Host, Host),
    value: Value,
) -> bool
    decreases entry, 0nat,
{
    &&& value matches Value::List(items)
    &&& items@.len() == 2
    &&& encodes(scope, entry.0, pair.0, items@[0])
    &&& encodes(scope, entry.1, pair.1, items@[1])
}

/// Whether `value` is a written form of named fields: one list of a key and
/// a value for each of `entries`, in their order. Each entry is a field of
/// `fields`, found under its name.
pub open spec fn encodes_named(
    scope: Scope,
    fields: Seq<Field>,
    entries: Seq<(int, Host)>,
    value: Value,
) -> bool
    decreases fields, 0nat,
{
    &&& value matches Value::List(items)
    &&& items@.len() == 2 * entries.len()
    &&& forall|i: int|
        0 <= i < entries.len() ==> {
            let index = (#[trigger] entries[i]).0;
            &&& 0 <= index < fields.len()
            &&& find_field(fields, fields[index].name@, 0) == Some(index)
            &&& keys(scope, items@[2 * i], fields[index].name@)
            &&& encodes(scope, fields[index].shape, entries[i].1, items@[2 * i + 1])
        }
}

/// Whether `value` is a written form of the variant `variant` that carries
/// `carried`.
pub open spec fn encodes_variant(
    scope: Scope,
    variant: Variant,
    carried: Host,
    value: Value,
) -> bool
    decreases variant, 0nat,
{
    match variant.payload {
        Payload::Unit => carried is Unit && names(scope, value, variant.name@),
        Payload::Newtype(shape) => {
            &&& value matches Value::List(items)
            &&& items@.len() == 2
            &&& names(scope, items@[0], variant.name@)
            &&& encodes(scope, shape, carried, items@[1])
        },
        Payload::Tuple(shapes) => {
            &&& carried matches Host::Sequence(hosts)
            &&& value matches Value::List(items)
            &&& items@.len() >= 1
            &&& names(scope, items@[0], variant.name@)
            &&& encodes_fields(scope, shapes@, hosts, items@, 1)
        },
        Payload::Struct(fields) => {
            &&& carried matches Host::Record(entries)
            &&& value matches Value::List(items)
            &&& items@.len() == 2
            &&& names(scope, items@[0], variant.name@)
            &&& encodes_named(scope, fields@, entries, items@[1])
        },
    }
}

/// Round trip: every written form of a value decodes back to that value.
pub proof fn law_round_trip(scope: Scope, shape: Shape, host: Host, value: Value)
    requires
        encodes(scope, shape, host, value),
    ensures
        decode(scope, shape, Some(value)) == Ok::<Host, Failure>(host),
    decreases shape, 1nat, 0nat,
{
    match shape {
        Shape::Integer(width) => {
            let n = host->Integer_0;
            assert(Integer::of(width, n.value()) == n);
        },
        Shape::Optional(inner) => {
            if host is Present {
                law_round_trip(scope, *inner, *host->Present_0, value);
            }
        },
        Shape::Sequence(element) => {
            lemma_sequence_round(scope, *element, host->Sequence_0, value);
        },
        Shape::Tuple(shapes) => {
            lemma_tuple_round(scope, shapes@, host->Sequence_0, value);
        },
        Shape::Mapping(entry) => {
            lemma_mapping_round(scope, *entry, host->Mapping_0, value);
        },
        Shape::UnitStruct(name) => {
            assert(unit_struct(scope, name@, Some(value)) is Ok);
        },
        Shape::TupleStruct(name, shapes) => {
            lemma_tuple_struct_round(scope, name@, shapes@, host->Sequence_0, value);
        },
        Shape::Struct(name, fields) => {
            lemma_struct_round(scope, name@, fields@, host->Record_0, value);
        },
        Shape::Enum(name, variants) => {
            lemma_enum_round(scope, name@, variants@, host->Variant_0, *host->Variant_1, value);
        },
        _ => {},
    }
}

/// The written form of a sequence decodes to the sequence.
pub proof fn lemma_sequence_round(scope: Scope, element: Shape, hosts: Seq<Host>, value: Value)
    requires
        value matches Value::List(items) && items@.len() == hosts.len() && forall|i: int|
            0 <= i < hosts.len() ==> encodes(scope, element, #[trigger] hosts[i], items@[i]),
    ensures
        sequence(scope, element, Some(value)) == Ok::<Seq<Host>, Failure>(hosts),
    decreases element, 3nat, 0nat,
{
    let items = value->List_0@;
    lemma_each_round(scope, element, hosts, items, items.len());
    assert(hosts.take(items.len() as int) =~= hosts);
}

/// The written form of a tuple decodes to the tuple.
pub proof fn lemma_tuple_round(scope: Scope, shapes: Seq<Shape>, hosts: Seq<Host>, value: Value)
    requires
        value matches Value::List(items) && encodes_fields(scope, shapes, hosts, items@, 0),
    ensures
        tuple(scope, shapes, Some(value)) == Ok::<Seq<Host>, Failure>(hosts),
    decreases shapes, 2nat, 0nat,
{
    lemma_fields_round(scope, shapes, hosts, value->List_0@, 0, shapes.len());
}

/// The written form of a mapping decodes to the mapping.
pub proof fn lemma_mapping_round(
    scope: Scope,
    entry: (Shape, Shape),
    entries: Seq<(Host, Host)>,
    value: Value,
)
    requires
        value matches Value::List(items) && items@.len() == entries.len() && forall|i: int|
            0 <= i < entries.len() ==> encodes_entry(
                scope,
                entry,
                #[trigger] entries[i],
                items@[i],
            ),
    ensures
        mapping(scope, entry, Some(value)) == Ok::<Seq<(Host, Host)>, Failure>(entries),
    decreases entry, 3nat, 0nat,
{
    let items = value->List_0@;
    lemma_entries_round(scope, entry, entries, items, items.len());
    assert(entries.take(items.len() as int) =~= entries);
}

/// The written form of a positional record decodes to its fields.
pub proof fn lemma_tuple_struct_round(
    scope: Scope,
    name: Seq<char>,
    shapes: Seq<Shape>,
    hosts: Seq<Host>,
    value: Value,
)
    requires
        value matches Value::List(items) && items@.len() >= 1 && names(scope, items@[0], name)
            && encodes_fields(scope, shapes, hosts, items@, 1),
    ensures
        tuple_struct(scope, name, shapes, Some(value)) == Ok::<Seq<Host>, Failure>(hosts),
    decreases shapes, 2nat, 0nat,
{
    lemma_fields_round(scope, shapes, hosts, value->List_0@, 1, shapes.len());
}

/// The written form of a record with named fields decodes to its fields.
pub proof fn lemma_struct_round(
    scope: Scope,
    name: Seq<char>,
    fields: Seq<Field>,
    entries: Seq<(int, Host)>,
    value: Value,
)
    requires
        value matches Value::List(items) && items@.len() == 2 && names(scope, items@[0], name)
            && encodes_named(scope, fields, entries, items@[1]),
    ensures
        structure(scope, name, fields, Some(value)) == Ok::<Seq<(int, Host)>, Failure>(entries),
    decreases fields, 2nat, 0nat,
{
    let items = value->List_0@;
    lemma_named_round(scope, fields, entries, items[1]);
    assert(item_at(items, 1) == Some(items[1]));
}

/// The written form of a variant decodes to the variant.
pub proof fn lemma_enum_round(
    scope: Scope,
    name: Seq<char>,
    variants: Seq<Variant>,
    index: int,
    carried: Host,
    value: Value,
)
    requires
        0 <= index < variants.len(),
        find_variant(variants, variants[index].name@, 0) == Some(index),
        encodes_variant(scope, variants[index], carried, value),
    ensures
        enumeration(scope, name, variants, Some(value)) == Ok::<(int, Host), Failure>(
            (index, carried),
        ),
    decreases variants, 3nat, 0nat,
{
    lemma_variant_round(scope, variants[index], carried, value);
}

/// The first `n` elements of the written form of a sequence decode to the
/// first `n` elements of the sequence.
pub proof fn lemma_each_round(
    scope: Scope,
    element: Shape,
    hosts: Seq<Host>,
    items: Seq<Value>,
    n: nat,
)
    requires
        n <= hosts.len() == items.len(),
        forall|i: int|
            0 <= i < hosts.len() ==> encodes(scope, element, #[trigger] hosts[i], items[i]),
    ensures
        decode_each(scope, element, items, n) == Ok::<Seq<Host>, Failure>(hosts.take(n as int)),
    decreases element, 2nat, n,
{
    if n == 0 {
        assert(hosts.take(0) =~= Seq::<Host>::empty());
    } else {
        lemma_each_round(scope, element, hosts, items, (n - 1) as nat);
        assert(encodes(scope, element, hosts[n - 1], items[n - 1]));
        law_round_trip(scope, element, hosts[n - 1], items[n - 1]);
        assert(hosts.take(n - 1).push(hosts[n - 1]) =~= hosts.take(n as int));
    }
}

/// The first `n` positional fields of a written form decode to the first
/// `n` of the fields.
pub proof fn lemma_fields_round(
    scope: Scope,
    shapes: Seq<Shape>,
    hosts: Seq<Host>,
    items: Seq<Value>,
    start: int,
    n: nat,
)
    requires
        0 <= start,
        n <= shapes.len(),
        encodes_fields(scope, shapes, hosts, items, start),
    ensures
        decode_fields(scope, shapes, items, start, n) == Ok::<Seq<Host>, Failure>(
            hosts.take(n as int),
        ),
        n == shapes.len() ==> positional(scope, shapes, items, start) == Ok::<Seq<Host>, Failure>(
            hosts,
        ),
    decreases shapes, 0nat, n,
{
    if n == 0 {
        assert(hosts.take(0) =~= Seq::<Host>::empty());
    } else {
        lemma_fields_round(scope, shapes, hosts, items, start, (n - 1) as nat);
        assert(encodes(scope, shapes[n - 1], hosts[n - 1], items[start + (n - 1)]));
        law_round_trip(scope, shapes[n - 1], hosts[n - 1], items[start + (n - 1)]);
        assert(item_at(items, start + n - 1) == Some(items[start + (n - 1)]));
        assert(hosts.take(n - 1).push(hosts[n - 1]) =~= hosts.take(n as int));
    }
    if n == shapes.len() {
        assert(hosts.take(n as int) =~= hosts);
    }
}

/// The written form of an entry of a mapping decodes to the entry.
pub proof fn lemma_entry_round(
    scope: Scope,
    entry: (Shape, Shape),
    pair: (Host, Host),
    value: Value,
)
    requires
        encodes_entry(scope, entry, pair, value),
    ensures
        decode_entry(scope, entry, Some(value)) == Ok::<(Host, Host), Failure>(pair),
    decreases entry, 1nat, 0nat,
{
    let items = value->List_0@;
    law_round_trip(scope, entry.0, pair.0, items[0]);
    law_round_trip(scope, entry.1, pair.1, items[1]);
    assert(item_at(items, 0) == Some(items[0]));
    assert(item_at(items, 1) == Some(items[1]));
}

/// The first `n` entries of the written form of a mapping decode to the
/// first `n` entries of the mapping.
pub proof fn lemma_entries_round(
    scope: Scope,
    entry: (Shape, Shape),
    entries: Seq<(Host, Host)>,
    items: Seq<Value>,
    n: nat,
)
    requires
        n <= entries.len() == items.len(),
        forall|i: int|
            0 <= i < entries.len() ==> encodes_entry(scope, entry, #[trigger] entries[i], items[i]),
    ensures
        decode_entries(scope, entry, items, n) == Ok::<Seq<(Host, Host)>, Failure>(
            entries.take(n as int),
        ),
    decreases entry, 2nat, n,
{
    if n == 0 {
        assert(entries.take(0) =~= Seq::<(Host, Host)>::empty());
    } else {
        lemma_entries_round(scope, entry, entries, items, (n - 1) as nat);
        assert(encodes_entry(scope, entry, entries[n - 1], items[n - 1]));
        lemma_entry_round(scope, entry, entries[n - 1], items[n - 1]);
        assert(entries.take(n - 1).push(entries[n - 1]) =~= entries.take(n as int));
    }
}

/// The first `n` pairs of the written form of named fields decode to the
/// first `n` of the fields.
pub proof fn lemma_pairs_round(
    scope: Scope,
    fields: Seq<Field>,
    entries: Seq<(int, Host)>,
    value: Value,
    n: nat,
)
    requires
        n <= entries.len(),
        encodes_named(scope, fields, entries, value),
    ensures
        decode_pairs(scope, fields, value->List_0@, n) == Ok::<Seq<(int, Host)>, Failure>(
            entries.take(n as int),
        ),
    decreases fields, 0nat, n,
{
    let items = value->List_0@;
    if n == 0 {
        assert(entries.take(0) =~= Seq::<(int, Host)>::empty());
    } else {
        lemma_pairs_round(scope, fields, entries, value, (n - 1) as nat);
        let i = n - 1;
        let index = entries[i].0;
        assert(keys(scope, items[2 * i], fields[index].name@));
        assert(encodes(scope, fields[index].shape, entries[i].1, items[2 * i + 1]));
        law_round_trip(scope, fields[index].shape, entries[i].1, items[2 * i + 1]);
        assert(item_at(items, 2 * (n - 1)) == Some(items[2 * i]));
        assert(item_at(items, 2 * (n - 1) + 1) == Some(items[2 * i + 1]));
        assert(entries.take(n - 1).push((index, entries[i].1)) =~= entries.take(n as int));
    }
}

/// The written form of named fields decodes to the fields.
pub proof fn lemma_named_round(
    scope: Scope,
    fields: Seq<Field>,
    entries: Seq<(int, Host)>,
    value: Value,
)
    requires
        encodes_named(scope, fields, entries, value),
    ensures
        named(scope, fields, Some(value)) == Ok::<Seq<(int, Host)>, Failure>(entries),
    decreases fields, 1nat, 0nat,
{
    lemma_pairs_round(scope, fields, entries, value, entries.len());
    assert(entries.take(entries.len() as int) =~= entries);
}

/// The written form of a variant names the variant, is a list exactly when
/// the variant carries something, and decodes to what the variant carries.
pub proof fn lemma_variant_round(scope: Scope, variant: Variant, carried: Host, value: Value)
    requires
        encodes_variant(scope, variant, carried, value),
    ensures
        crate::access::variant_of(scope, Some(value)) == Ok::<(Seq<char>, bool), Failure>(
            (variant.name@, variant.payload !is Unit),
        ),
        payload_of(
            scope,
            variant.payload,
            variant.payload !is Unit,
            crate::decode::items_of(Some(value)),
        ) == Ok::<Host, Failure>(carried),
    decreases variant, 0nat, 0nat,
{
    match variant.payload {
        Payload::Unit => {},
        Payload::Newtype(shape) => {
            let items = value->List_0@;
            law_round_trip(scope, shape, carried, items[1]);
            assert(item_at(items, 1) == Some(items[1]));
        },
        Payload::Tuple(shapes) => {
            let items = value->List_0@;
            let hosts = carried->Sequence_0;
            lemma_fields_round(scope, shapes@, hosts, items, 1, shapes@.len());
        },
        Payload::Struct(fields) => {
            let items = value->List_0@;
            let entries = carried->Record_0;
            lemma_named_round(scope, fields@, entries, items[1]);
            assert(item_at(items, 1) == Some(items[1]));
        },
    }
}

} // verus!
