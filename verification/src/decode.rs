//! Decoding a value into a target shape.

use vstd::prelude::*;
use crate::access::variant_of;
use crate::cursor::{fields_of, item_at, list_of, record_of};
use crate::error::{Expected, Failure};
use crate::scalar::{
    bool_of, char_of, float_of, identifier_of, integer_of, option_of, str_of, string_of, unit_of,
};
use crate::scope::Scope;
use crate::shape::{Field, Host, Payload, Shape, Variant};
use crate::value::{Integer, Tag, Value};

verus! {

/// The elements of a list value; none for any other value.
pub open spec fn items_of(cur: Option<Value>) -> Seq<Value> {
    match cur {
        Some(Value::List(items)) => items@,
        _ => Seq::empty(),
    }
}

/// The index of the first field from `from` on whose name is `text`.
pub open spec fn find_field(fields: Seq<Field>, text: Seq<char>, from: int) -> Option<int>
    decreases fields.len() - from,
{
    if from < 0 || from >= fields.len() {
        None
    } else if fields[from].name@ == text {
        Some(from)
    } else {
        find_field(fields, text, from + 1)
    }
}

/// The index of the first variant from `from` on whose name is `text`.
pub open spec fn find_variant(variants: Seq<Variant>, text: Seq<char>, from: int) -> Option<int>
    decreases variants.len() - from,
{
    if from < 0 || from >= variants.len() {
        None
    } else if variants[from].name@ == text {
        Some(from)
    } else {
        find_variant(variants, text, from + 1)
    }
}

/// A field that is found lies at or after `from`, has the name looked for, and
/// is the first such.
pub proof fn lemma_find_field(fields: Seq<Field>, text: Seq<char>, from: int)
    requires
        0 <= from,
    ensures
        match find_field(fields, text, from) {
            Some(index) => {
                &&& from <= index < fields.len()
                &&& fields[index].name@ == text
                &&& forall|j: int| from <= j < index ==> (#[trigger] fields[j]).name@ != text
            },
            None => forall|j: int|
                from <= j < fields.len() ==> (#[trigger] fields[j]).name@ != text,
        },
    decreases fields.len() - from,
{
    if from < fields.len() && fields[from].name@ != text {
        lemma_find_field(fields, text, from + 1);
    }
}

/// A variant that is found lies at or after `from`, has the name looked for,
/// and is the first such.
pub proof fn lemma_find_variant(variants: Seq<Variant>, text: Seq<char>, from: int)
    requires
        0 <= from,
    ensures
        match find_variant(variants, text, from) {
            Some(index) => {
                &&& from <= index < variants.len()
                &&& variants[index].name@ == text
                &&& forall|j: int| from <= j < index ==> (#[trigger] variants[j]).name@ != text
            },
            None => forall|j: int|
                from <= j < variants.len() ==> (#[trigger] variants[j]).name@ != text,
        },
    decreases variants.len() - from,
{
    if from < variants.len() && variants[from].name@ != text {
        lemma_find_variant(variants, text, from + 1);
    }
}

/// What leaving a list of `len` elements gives after `read` of them were
/// read and gave `done`: a failure where elements are left over.
pub open spec fn left<T>(done: Result<T, Failure>, len: int, read: int) -> Result<T, Failure> {
    match done {
        Err(e) => Err(e),
        Ok(host) => if len > read {
            Err(Failure::ExtraneousElements)
        } else {
            Ok(host)
        },
    }
}

/// What decoding the current value `cur` into `shape` gives. Where there is
/// no current value, the list being read is at its end.
pub open spec fn decode(scope: Scope, shape: Shape, cur: Option<Value>) -> Result<Host, Failure>
    decreases shape, 1nat, 0nat,
{
    match shape {
        Shape::Any => Err(Failure::Unsupported),
        Shape::Bool => match bool_of(cur) {
            Ok(b) => Ok(Host::Bool(b)),
            Err(e) => Err(e),
        },
        Shape::Char => match char_of(cur) {
            Ok(c) => Ok(Host::Char(c)),
            Err(e) => Err(e),
        },
        Shape::Integer(width) => match integer_of(cur, width) {
            Ok(n) => Ok(Host::Integer(Integer::of(width, n))),
            Err(e) => Err(e),
        },
        Shape::Float => match float_of(cur) {
            Ok(bits) => Ok(Host::Float(bits)),
            Err(e) => Err(e),
        },
        Shape::Str => match str_of(cur) {
            Ok(s) => Ok(Host::Text(s)),
            Err(e) => Err(e),
        },
        Shape::String => match string_of(scope, cur) {
            Ok(s) => Ok(Host::Text(s)),
            Err(e) => Err(e),
        },
        Shape::Unit => match unit_of(cur) {
            Ok(_) => Ok(Host::Unit),
            Err(e) => Err(e),
        },
        Shape::Identifier => match identifier_of(scope, cur) {
            Ok(s) => Ok(Host::Text(s)),
            Err(e) => Err(e),
        },
        Shape::Ignored => match cur {
            Some(_) => Ok(Host::Ignored),
            None => Err(Failure::EndOfSequence),
        },
        Shape::Optional(inner) => match option_of(cur) {
            Err(e) => Err(e),
            Ok(false) => Ok(Host::Absent),
            Ok(true) => match decode(scope, *inner, cur) {
                Ok(host) => Ok(Host::Present(Box::new(host))),
                Err(e) => Err(e),
            },
        },
        Shape::Sequence(element) => match sequence(scope, *element, cur) {
            Ok(hosts) => Ok(Host::Sequence(hosts)),
            Err(e) => Err(e),
        },
        Shape::Tuple(shapes) => match tuple(scope, shapes@, cur) {
            Ok(hosts) => Ok(Host::Sequence(hosts)),
            Err(e) => Err(e),
        },
        Shape::Mapping(entry) => match mapping(scope, *entry, cur) {
            Ok(entries) => Ok(Host::Mapping(entries)),
            Err(e) => Err(e),
        },
        Shape::UnitStruct(name) => match unit_struct(scope, name@, cur) {
            Ok(_) => Ok(Host::Unit),
            Err(e) => Err(e),
        },
        Shape::TupleStruct(name, shapes) => match tuple_struct(scope, name@, shapes@, cur) {
            Ok(hosts) => Ok(Host::Sequence(hosts)),
            Err(e) => Err(e),
        },
        Shape::Struct(name, fields) => match structure(scope, name@, fields@, cur) {
            Ok(entries) => Ok(Host::Record(entries)),
            Err(e) => Err(e),
        },
        Shape::Enum(name, variants) => match enumeration(scope, name@, variants@, cur) {
            Ok((index, host)) => Ok(Host::Variant(index, Box::new(host))),
            Err(e) => Err(e),
        },
    }
}

/// What a list gives whose elements all decode into `element`.
pub open spec fn sequence(scope: Scope, element: Shape, cur: Option<Value>) -> Result<
    Seq<Host>,
    Failure,
>
    decreases element, 3nat, 0nat,
{
    match list_of(cur) {
        Err(e) => Err(e),
        Ok(items) => decode_each(scope, element, items, items.len()),
    }
}

/// What a list gives that holds one element for each of `shapes`.
pub open spec fn tuple(scope: Scope, shapes: Seq<Shape>, cur: Option<Value>) -> Result<
    Seq<Host>,
    Failure,
>
    decreases shapes, 2nat, 0nat,
{
    match list_of(cur) {
        Err(e) => Err(e),
        Ok(items) => positional(scope, shapes, items, 0),
    }
}

/// What a record without fields gives: the name is followed by the unit and
/// by nothing else.
pub open spec fn unit_struct(scope: Scope, name: Seq<char>, cur: Option<Value>) -> Result<
    (),
    Failure,
> {
    match record_of(scope, cur, name) {
        Err(e) => Err(e),
        Ok(len) => left(unit_of(item_at(items_of(cur), 1)), len as int, 2),
    }
}

/// What a record with positional fields gives: the name is followed by one
/// element for each of `shapes`.
pub open spec fn tuple_struct(
    scope: Scope,
    name: Seq<char>,
    shapes: Seq<Shape>,
    cur: Option<Value>,
) -> Result<Seq<Host>, Failure>
    decreases shapes, 2nat, 0nat,
{
    match record_of(scope, cur, name) {
        Err(e) => Err(e),
        Ok(_) => positional(scope, shapes, items_of(cur), 1),
    }
}

/// What a record with named fields gives: the name is followed by one list
/// of alternating keys and values, and by nothing else.
pub open spec fn structure(
    scope: Scope,
    name: Seq<char>,
    fields: Seq<Field>,
    cur: Option<Value>,
) -> Result<Seq<(int, Host)>, Failure>
    decreases fields, 2nat, 0nat,
{
    match record_of(scope, cur, name) {
        Err(e) => Err(e),
        Ok(len) => left(named(scope, fields, item_at(items_of(cur), 1)), len as int, 2),
    }
}

/// What an enum registered as `name` gives: the index of the variant that
/// the value names, and what the variant carries. A variant that carries
/// nothing is written as its bare name, and every other variant as a list.
/// A name that is none of the variants' is a name mismatch.
pub open spec fn enumeration(
    scope: Scope,
    name: Seq<char>,
    variants: Seq<Variant>,
    cur: Option<Value>,
) -> Result<(int, Host), Failure>
    decreases variants, 3nat, 0nat,
{
    match variant_of(scope, cur) {
        Err(e) => Err(e),
        Ok((text, listed)) => match find_variant(variants, text, 0) {
            None => Err(Failure::NameMismatch { expected: name, found: text }),
            Some(index) => {
                proof {
                    lemma_find_variant(variants, text, 0);
                }
                match payload_of(scope, variants[index].payload, listed, items_of(cur)) {
                    Ok(host) => Ok((index, host)),
                    Err(e) => Err(e),
                }
            },
        },
    }
}

/// What a variant carries, where `listed` says whether it is written as a
/// list and `items` is that list: the payload follows the name.
pub open spec fn payload_of(
    scope: Scope,
    payload: Payload,
    listed: bool,
    items: Seq<Value>,
) -> Result<Host, Failure>
    decreases payload, 2nat, 0nat,
{
    match payload {
        Payload::Unit => if listed {
            Err(Failure::TypeMismatch { expected: Expected::Name, found: Tag::List })
        } else {
            Ok(Host::Unit)
        },
        _ => if !listed {
            Err(Failure::TypeMismatch { expected: Expected::List, found: Tag::Name })
        } else {
            match payload {
                Payload::Newtype(shape) => left(
                    decode(scope, shape, item_at(items, 1)),
                    items.len() as int,
                    2,
                ),
                Payload::Tuple(shapes) => match positional(scope, shapes@, items, 1) {
                    Ok(hosts) => Ok(Host::Sequence(hosts)),
                    Err(e) => Err(e),
                },
                Payload::Struct(fields) => match left(
                    named(scope, fields@, item_at(items, 1)),
                    items.len() as int,
                    2,
                ) {
                    Ok(entries) => Ok(Host::Record(entries)),
                    Err(e) => Err(e),
                },
                Payload::Unit => Ok(Host::Unit),
            }
        },
    }
}

/// What the first `n` elements of `items` give, each decoded into `element`:
/// the decoded elements in order, or the first failure.
pub open spec fn decode_each(scope: Scope, element: Shape, items: Seq<Value>, n: nat) -> Result<
    Seq<Host>,
    Failure,
>
    decreases element, 2nat, n,
{
    if n == 0 {
        Ok(Seq::empty())
    } else {
        match decode_each(scope, element, items, (n - 1) as nat) {
            Err(e) => Err(e),
            Ok(hosts) => match decode(scope, element, item_at(items, n - 1)) {
                Err(e) => Err(e),
                Ok(host) => Ok(hosts.push(host)),
            },
        }
    }
}

/// What the first `n` of `shapes` give, the shape at `k` decoding the element
/// of `items` at `start + k`: the decoded fields in order, or the first
/// failure. A shape without an element fails as a read at the end of a list.
pub open spec fn decode_fields(
    scope: Scope,
    shapes: Seq<Shape>,
    items: Seq<Value>,
    start: int,
    n: nat,
) -> Result<Seq<Host>, Failure>
    decreases shapes, 0nat, n,
{
    if n == 0 || n > shapes.len() {
        Ok(Seq::empty())
    } else {
        match decode_fields(scope, shapes, items, start, (n - 1) as nat) {
            Err(e) => Err(e),
            Ok(hosts) => match decode(scope, shapes[n - 1], item_at(items, start + n - 1)) {
                Err(e) => Err(e),
                Ok(host) => Ok(hosts.push(host)),
            },
        }
    }
}

/// What positional fields give that follow the first `start` elements of
/// the list `items`: one field for each shape, and no element left over.
pub open spec fn positional(
    scope: Scope,
    shapes: Seq<Shape>,
    items: Seq<Value>,
    start: int,
) -> Result<Seq<Host>, Failure>
    decreases shapes, 1nat, 0nat,
{
    left(
        decode_fields(scope, shapes, items, start, shapes.len()),
        items.len() as int,
        start + shapes.len(),
    )
}

/// What a list gives whose elements are the entries of a mapping, with
/// keys of the first shape of `entry` and values of the second.
pub open spec fn mapping(scope: Scope, entry: (Shape, Shape), cur: Option<Value>) -> Result<
    Seq<(Host, Host)>,
    Failure,
>
    decreases entry, 3nat, 0nat,
{
    match list_of(cur) {
        Err(e) => Err(e),
        Ok(items) => decode_entries(scope, entry, items, items.len()),
    }
}

/// What one entry of a mapping gives: a list of a key and a value and
/// nothing more.
pub open spec fn decode_entry(scope: Scope, entry: (Shape, Shape), cur: Option<Value>) -> Result<
    (Host, Host),
    Failure,
>
    decreases entry, 1nat, 0nat,
{
    match list_of(cur) {
        Err(e) => Err(e),
        Ok(pair) => match decode(scope, entry.0, item_at(pair, 0)) {
            Err(e) => Err(e),
            Ok(key) => left(
                match decode(scope, entry.1, item_at(pair, 1)) {
                    Err(e) => Err(e),
                    Ok(value) => Ok((key, value)),
                },
                pair.len() as int,
                2,
            ),
        },
    }
}

/// What the first `n` entries of a mapping give: the decoded entries in
/// the order of the list, or the first failure.
pub open spec fn decode_entries(
    scope: Scope,
    entry: (Shape, Shape),
    items: Seq<Value>,
    n: nat,
) -> Result<Seq<(Host, Host)>, Failure>
    decreases entry, 2nat, n,
{
    if n == 0 {
        Ok(Seq::empty())
    } else {
        match decode_entries(scope, entry, items, (n - 1) as nat) {
            Err(e) => Err(e),
            Ok(entries) => match decode_entry(scope, entry, item_at(items, n - 1)) {
                Err(e) => Err(e),
                Ok(pair) => Ok(entries.push(pair)),
            },
        }
    }
}

/// What the first `n` pairs of the list `items` of alternating keys and
/// values give. A key is an identifier. A key that names a field has its
/// value decoded into the field's shape; the value of any other key is
/// dropped unread.
pub open spec fn decode_pairs(
    scope: Scope,
    fields: Seq<Field>,
    items: Seq<Value>,
    n: nat,
) -> Result<Seq<(int, Host)>, Failure>
    decreases fields, 0nat, n,
{
    if n == 0 {
        Ok(Seq::empty())
    } else {
        match decode_pairs(scope, fields, items, (n - 1) as nat) {
            Err(e) => Err(e),
            Ok(entries) => match identifier_of(scope, item_at(items, 2 * (n - 1))) {
                Err(e) => Err(e),
                Ok(key) => match find_field(fields, key, 0) {
                    None => match item_at(items, 2 * (n - 1) + 1) {
                        Some(_) => Ok(entries),
                        None => Err(Failure::EndOfSequence),
                    },
                    Some(index) => {
                        proof {
                            lemma_find_field(fields, key, 0);
                        }
                        match decode(scope, fields[index].shape, item_at(items, 2 * (n - 1) + 1)) {
                            Err(e) => Err(e),
                            Ok(host) => Ok(entries.push((index, host))),
                        }
                    },
                },
            },
        }
    }
}

/// What named fields give that are written in the value `cur`: a list of
/// alternating keys and values, of even length.
pub open spec fn named(scope: Scope, fields: Seq<Field>, cur: Option<Value>) -> Result<
    Seq<(int, Host)>,
    Failure,
>
    decreases fields, 1nat, 0nat,
{
    match fields_of(cur) {
        Err(e) => Err(e),
        Ok(pairs) => decode_pairs(scope, fields, items_of(cur), pairs),
    }
}

/// A failure among the first `k` elements of a sequence is the failure of
/// every longer prefix.
pub proof fn lemma_each_fails(scope: Scope, element: Shape, items: Seq<Value>, k: nat, n: nat)
    requires
        k <= n,
        decode_each(scope, element, items, k) is Err,
    ensures
        decode_each(scope, element, items, n) == decode_each(scope, element, items, k),
    decreases n,
{
    if k < n {
        lemma_each_fails(scope, element, items, k, (n - 1) as nat);
    }
}

/// A failure among the first `k` positional fields is the failure of every
/// longer prefix.
pub proof fn lemma_fields_fail(
    scope: Scope,
    shapes: Seq<Shape>,
    items: Seq<Value>,
    start: int,
    k: nat,
    n: nat,
)
    requires
        k <= n <= shapes.len(),
        decode_fields(scope, shapes, items, start, k) is Err,
    ensures
        decode_fields(scope, shapes, items, start, n) == decode_fields(
            scope,
            shapes,
            items,
            start,
            k,
        ),
    decreases n,
{
    if k < n {
        lemma_fields_fail(scope, shapes, items, start, k, (n - 1) as nat);
    }
}

/// A failure among the first `k` entries of a mapping is the failure of
/// every longer prefix.
pub proof fn lemma_entries_fail(
    scope: Scope,
    entry: (Shape, Shape),
    items: Seq<Value>,
    k: nat,
    n: nat,
)
    requires
        k <= n,
        decode_entries(scope, entry, items, k) is Err,
    ensures
        decode_entries(scope, entry, items, n) == decode_entries(scope, entry, items, k),
    decreases n,
{
    if k < n {
        lemma_entries_fail(scope, entry, items, k, (n - 1) as nat);
    }
}

/// A failure among the first `k` named fields is the failure of every
/// longer prefix.
pub proof fn lemma_pairs_fail(scope: Scope, fields: Seq<Field>, items: Seq<Value>, k: nat, n: nat)
    requires
        k <= n,
        decode_pairs(scope, fields, items, k) is Err,
    ensures
        decode_pairs(scope, fields, items, n) == decode_pairs(scope, fields, items, k),
    decreases n,
{
    if k < n {
        lemma_pairs_fail(scope, fields, items, k, (n - 1) as nat);
    }
}

} // verus!
