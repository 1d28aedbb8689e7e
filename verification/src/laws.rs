//! What holds of every decode, whatever the value and the target.

use vstd::prelude::*;
use crate::access::variant_of;
use crate::cursor::{item_at, record_of};
use crate::decode::{
    decode, decode_each, decode_entries, decode_entry, decode_fields, enumeration,
    lemma_fields_fail, lemma_find_variant, mapping, named, payload_of, positional, sequence,
    structure, tuple, tuple_struct, unit_struct,
};
use crate::error::Failure;
use crate::scope::Scope;
use crate::shape::{Field, Host, Payload, Shape, Variant};
use crate::value::Value;

verus! {

/// A decode at the end of a list fails as a read past the end, whatever the
/// target asks for; but a target that takes any shape is turned down before
/// anything is read.
pub proof fn law_decode_at_end(scope: Scope, shape: Shape)
    requires
        shape !is Any,
    ensures
        decode(scope, shape, None) == Err::<Host, Failure>(Failure::EndOfSequence),
{
    match shape {
        Shape::Sequence(element) => {
            assert(sequence(scope, *element, None) is Err);
        },
        Shape::Tuple(shapes) => {
            assert(tuple(scope, shapes@, None) is Err);
        },
        Shape::Mapping(entry) => {
            assert(mapping(scope, *entry, None) is Err);
        },
        Shape::UnitStruct(name) => {
            assert(unit_struct(scope, name@, None) is Err);
        },
        Shape::TupleStruct(name, shapes) => {
            assert(tuple_struct(scope, name@, shapes@, None) is Err);
        },
        Shape::Struct(name, fields) => {
            assert(structure(scope, name@, fields@, None) is Err);
        },
        Shape::Enum(name, variants) => {
            assert(enumeration(scope, name@, variants@, None) is Err);
        },
        _ => {},
    }
}

/// A positional record, or a variant with positional fields, whose list
/// holds fewer elements after the name than the target has fields fails as a
/// read past the end of the list. This is so where the fields that are
/// there decode, and the first field that is missing is not one that takes
/// any shape: such a field fails before it reads.
pub proof fn law_too_few_fields(
    scope: Scope,
    name: Seq<char>,
    shapes: Seq<Shape>,
    payload: Payload,
    value: Value,
)
    requires
        value matches Value::List(items) && 1 <= items@.len() < 1 + shapes.len() && decode_fields(
            scope,
            shapes,
            items@,
            1,
            (items@.len() - 1) as nat,
        ) is Ok && shapes[items@.len() - 1] !is Any,
    ensures
        positional(scope, shapes, value->List_0@, 1) == Err::<Seq<Host>, Failure>(
            Failure::EndOfSequence,
        ),
        record_of(scope, Some(value), name) is Ok ==> tuple_struct(scope, name, shapes, Some(value))
            == Err::<Seq<Host>, Failure>(Failure::EndOfSequence),
        payload matches Payload::Tuple(v) && v@ == shapes ==> payload_of(
            scope,
            payload,
            true,
            value->List_0@,
        ) == Err::<Host, Failure>(Failure::EndOfSequence),
{
    let items = value->List_0@;
    let k = (items.len() - 1) as nat;
    law_decode_at_end(scope, shapes[k as int]);
    assert(item_at(items, (1 + k) as int) is None);
    assert(decode_fields(scope, shapes, items, 1, k + 1) == Err::<Seq<Host>, Failure>(
        Failure::EndOfSequence,
    ));
    lemma_fields_fail(scope, shapes, items, 1, k + 1, shapes.len());
}

/// A positional record, or a variant with positional fields, whose list
/// holds more elements after the name than the target has fields fails with
/// extraneous elements, where the fields decode.
pub proof fn law_too_many_fields(
    scope: Scope,
    name: Seq<char>,
    shapes: Seq<Shape>,
    payload: Payload,
    value: Value,
)
    requires
        value matches Value::List(items) && items@.len() > 1 + shapes.len() && decode_fields(
            scope,
            shapes,
            items@,
            1,
            shapes.len(),
        ) is Ok,
    ensures
        positional(scope, shapes, value->List_0@, 1) == Err::<Seq<Host>, Failure>(
            Failure::ExtraneousElements,
        ),
        record_of(scope, Some(value), name) is Ok ==> tuple_struct(scope, name, shapes, Some(value))
            == Err::<Seq<Host>, Failure>(Failure::ExtraneousElements),
        payload matches Payload::Tuple(v) && v@ == shapes ==> payload_of(
            scope,
            payload,
            true,
            value->List_0@,
        ) == Err::<Host, Failure>(Failure::ExtraneousElements),
{
}

/// A list of named fields with an odd number of elements fails with odd
/// keyword parameters, whatever fields the target has: in a record, after
/// the name that it is registered as, and in a variant.
pub proof fn law_odd_fields(
    scope: Scope,
    name: Seq<char>,
    fields: Seq<Field>,
    payload: Payload,
    value: Value,
)
    requires
        value matches Value::List(items) && items@.len() >= 2 && (items@[1] matches Value::List(inner)
            && inner@.len() % 2 == 1),
    ensures
        named(scope, fields, Some(value->List_0@[1])) == Err::<Seq<(int, Host)>, Failure>(
            Failure::OddKeywordParams,
        ),
        record_of(scope, Some(value), name) is Ok ==> structure(scope, name, fields, Some(value))
            == Err::<Seq<(int, Host)>, Failure>(Failure::OddKeywordParams),
        payload matches Payload::Struct(f) && f@ == fields ==> payload_of(
            scope,
            payload,
            true,
            value->List_0@,
        ) == Err::<Host, Failure>(Failure::OddKeywordParams),
{
}

/// A record whose list is led by a name symbol with another text than the
/// name that the target is registered as fails with a name mismatch,
/// whatever follows the name and whatever kind of record the target is.
pub proof fn law_name_mismatch(
    scope: Scope,
    name: Seq<char>,
    shapes: Seq<Shape>,
    fields: Seq<Field>,
    value: Value,
)
    requires
        value matches Value::List(items) && items@.len() > 0 && (items@[0] matches Value::Name(symbol)
            && scope.text(symbol) != name),
    ensures
        ({
            let found = scope.text(value->List_0@[0]->Name_0);
            let failure = Failure::NameMismatch { expected: name, found };
            &&& unit_struct(scope, name, Some(value)) == Err::<(), Failure>(failure)
            &&& tuple_struct(scope, name, shapes, Some(value)) == Err::<Seq<Host>, Failure>(failure)
            &&& structure(scope, name, fields, Some(value)) == Err::<Seq<(int, Host)>, Failure>(
                failure,
            )
        }),
{
}

/// A variant whose name is none of the names of the target's variants fails
/// with a name mismatch, whether it is written as a bare name or leads a
/// list, and whatever follows it.
pub proof fn law_unknown_variant(
    scope: Scope,
    name: Seq<char>,
    variants: Seq<Variant>,
    value: Value,
)
    requires
        variant_of(scope, Some(value)) is Ok,
        forall|i: int|
            0 <= i < variants.len() ==> (#[trigger] variants[i]).name@ != variant_of(
                scope,
                Some(value),
            )->Ok_0.0,
    ensures
        enumeration(scope, name, variants, Some(value)) == Err::<(int, Host), Failure>(
            Failure::NameMismatch { expected: name, found: variant_of(scope, Some(value))->Ok_0.0 },
        ),
{
    lemma_find_variant(variants, variant_of(scope, Some(value))->Ok_0.0, 0);
}

/// The unit decodes into an optional target as nothing. Every other value
/// decodes as the target that the option wraps decodes it, and is there.
pub proof fn law_option(scope: Scope, inner: Shape, value: Value)
    ensures
        decode(scope, Shape::Optional(Box::new(inner)), Some(Value::Unit)) == Ok::<Host, Failure>(
            Host::Absent,
        ),
        value !is Unit ==> decode(scope, Shape::Optional(Box::new(inner)), Some(value)) == match decode(
            scope,
            inner,
            Some(value),
        ) {
            Ok(host) => Ok::<Host, Failure>(Host::Present(Box::new(host))),
            Err(e) => Err(e),
        },
{
}

/// The first `n` decoded entries of a mapping are the entries of the list,
/// each at its place.
pub proof fn lemma_entries_in_order(
    scope: Scope,
    entry: (Shape, Shape),
    items: Seq<Value>,
    n: nat,
)
    requires
        decode_entries(scope, entry, items, n) is Ok,
    ensures
        decode_entries(scope, entry, items, n)->Ok_0.len() == n,
        forall|i: int|
            0 <= i < n ==> decode_entry(scope, entry, #[trigger] item_at(items, i)) == Ok::<
                (Host, Host),
                Failure,
            >(decode_entries(scope, entry, items, n)->Ok_0[i]),
    decreases n,
{
    if n > 0 {
        lemma_entries_in_order(scope, entry, items, (n - 1) as nat);
    }
}

/// A mapping decodes to as many entries as its list holds, in the order of
/// the list: the entry at each place is what the element at that place
/// decodes to.
pub proof fn law_mapping_order(scope: Scope, entry: (Shape, Shape), value: Value)
    requires
        mapping(scope, entry, Some(value)) is Ok,
    ensures
        value is List,
        mapping(scope, entry, Some(value))->Ok_0.len() == value->List_0@.len(),
        forall|i: int|
            0 <= i < value->List_0@.len() ==> decode_entry(
                scope,
                entry,
                Some(#[trigger] value->List_0@[i]),
            ) == Ok::<(Host, Host), Failure>(mapping(scope, entry, Some(value))->Ok_0[i]),
{
    let items = value->List_0@;
    lemma_entries_in_order(scope, entry, items, items.len());
    assert forall|i: int| 0 <= i < items.len() implies decode_entry(
        scope,
        entry,
        Some(#[trigger] items[i]),
    ) == Ok::<(Host, Host), Failure>(mapping(scope, entry, Some(value))->Ok_0[i]) by {
        assert(item_at(items, i) == Some(items[i]));
    }
}

/// The first `n` decoded elements of a sequence are the elements of the
/// list, each at its place.
pub proof fn lemma_each_in_order(scope: Scope, element: Shape, items: Seq<Value>, n: nat)
    requires
        decode_each(scope, element, items, n) is Ok,
    ensures
        decode_each(scope, element, items, n)->Ok_0.len() == n,
        forall|i: int|
            0 <= i < n ==> decode(scope, element, #[trigger] item_at(items, i)) == Ok::<
                Host,
                Failure,
            >(decode_each(scope, element, items, n)->Ok_0[i]),
    decreases n,
{
    if n > 0 {
        lemma_each_in_order(scope, element, items, (n - 1) as nat);
    }
}

/// A sequence decodes to as many elements as its list holds, in the order
/// of the list.
pub proof fn law_sequence_order(scope: Scope, element: Shape, value: Value)
    requires
        sequence(scope, element, Some(value)) is Ok,
    ensures
        value is List,
        sequence(scope, element, Some(value))->Ok_0.len() == value->List_0@.len(),
        forall|i: int|
            0 <= i < value->List_0@.len() ==> decode(
                scope,
                element,
                Some(#[trigger] value->List_0@[i]),
            ) == Ok::<Host, Failure>(sequence(scope, element, Some(value))->Ok_0[i]),
{
    let items = value->List_0@;
    lemma_each_in_order(scope, element, items, items.len());
    assert forall|i: int| 0 <= i < items.len() implies decode(
        scope,
        element,
        Some(#[trigger] items[i]),
    ) == Ok::<Host, Failure>(sequence(scope, element, Some(value))->Ok_0[i]) by {
        assert(item_at(items, i) == Some(items[i]));
    }
}

} // verus!
