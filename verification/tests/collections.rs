use value_decode::access::{MapVisitor, SeqVisitor};
use value_decode::cursor::VDeserializer;
use value_decode::error::{ExecError, Expected};
use value_decode::scope::Scope;
use value_decode::shape::{Decoded, Field, Shape, Variant, Payload};
use value_decode::structure::{decode_value, find_field_index, find_variant_index};
use value_decode::value::{Integer, Name, Tag, Value, Width};

fn scope() -> Scope {
    Scope::new(["a", "b", "Some"].iter().map(|s| s.to_string()).collect())
}

fn num(n: i32) -> Value {
    Value::Integer(Integer::I32(n))
}

fn dec(n: i32) -> Decoded {
    Decoded::Integer(Integer::I32(n))
}

fn text(s: &str) -> Value {
    Value::String(s.to_string())
}

fn i32s() -> Shape {
    Shape::Integer(Width::I32)
}

fn decode(value: &Value, shape: &Shape) -> Result<Decoded, ExecError> {
    let scope = scope();
    assert!(scope.resolves(value));
    decode_value(&scope, value, shape)
}

#[test]
fn mapping_keeps_the_order_of_its_entries() {
    let shape = Shape::Mapping(Box::new((Shape::String, i32s())));
    let value = Value::List(vec![
        Value::List(vec![text("a"), num(1)]),
        Value::List(vec![text("b"), num(2)]),
    ]);
    assert_eq!(
        decode(&value, &shape),
        Ok(Decoded::Mapping(vec![
            (Decoded::Text("a".to_string()), dec(1)),
            (Decoded::Text("b".to_string()), dec(2)),
        ]))
    );
    let turned = Value::List(vec![
        Value::List(vec![text("b"), num(2)]),
        Value::List(vec![text("a"), num(1)]),
    ]);
    assert_eq!(
        decode(&turned, &shape),
        Ok(Decoded::Mapping(vec![
            (Decoded::Text("b".to_string()), dec(2)),
            (Decoded::Text("a".to_string()), dec(1)),
        ]))
    );
}

#[test]
fn mapping_takes_keyword_keys_and_keeps_equal_keys() {
    let shape = Shape::Mapping(Box::new((Shape::String, i32s())));
    let value = Value::List(vec![
        Value::List(vec![Value::Keyword(Name { id: 0 }), num(1)]),
        Value::List(vec![text("a"), num(2)]),
    ]);
    assert_eq!(
        decode(&value, &shape),
        Ok(Decoded::Mapping(vec![
            (Decoded::Text("a".to_string()), dec(1)),
            (Decoded::Text("a".to_string()), dec(2)),
        ]))
    );
}

#[test]
fn mapping_without_entries_is_empty() {
    let shape = Shape::Mapping(Box::new((Shape::String, i32s())));
    assert_eq!(decode(&Value::List(vec![]), &shape), Ok(Decoded::Mapping(vec![])));
}

#[test]
fn mapping_entry_is_a_list_of_a_key_and_a_value() {
    let shape = Shape::Mapping(Box::new((Shape::String, i32s())));
    let flat = Value::List(vec![text("a"), num(1)]);
    assert_eq!(
        decode(&flat, &shape),
        Err(ExecError::TypeMismatch { expected: Expected::List, found: Tag::String })
    );
    let no_value = Value::List(vec![Value::List(vec![text("a")])]);
    assert_eq!(decode(&no_value, &shape), Err(ExecError::EndOfSequence));
    let no_key = Value::List(vec![Value::List(vec![])]);
    assert_eq!(decode(&no_key, &shape), Err(ExecError::EndOfSequence));
    let long = Value::List(vec![Value::List(vec![text("a"), num(1), num(2)])]);
    assert_eq!(decode(&long, &shape), Err(ExecError::ExtraneousElements));
    let first_bad = Value::List(vec![
        Value::List(vec![text("a"), text("b")]),
        Value::List(vec![text("a")]),
    ]);
    assert_eq!(
        decode(&first_bad, &shape),
        Err(ExecError::TypeMismatch { expected: Expected::Integer(Width::I32), found: Tag::String })
    );
}

#[test]
fn sequence_decodes_every_element_in_order() {
    let shape = Shape::Sequence(Box::new(i32s()));
    let value = Value::List(vec![num(3), num(1), num(2)]);
    assert_eq!(decode(&value, &shape), Ok(Decoded::Sequence(vec![dec(3), dec(1), dec(2)])));
    assert_eq!(decode(&Value::List(vec![]), &shape), Ok(Decoded::Sequence(vec![])));
    let bad = Value::List(vec![num(3), Value::Unit, Value::Bool(true)]);
    assert_eq!(
        decode(&bad, &shape),
        Err(ExecError::TypeMismatch { expected: Expected::Integer(Width::I32), found: Tag::Unit })
    );
    assert_eq!(
        decode(&num(1), &shape),
        Err(ExecError::TypeMismatch { expected: Expected::List, found: Tag::Integer(Width::I32) })
    );
}

#[test]
fn bytes_are_a_sequence_of_byte_values() {
    let shape = Shape::Sequence(Box::new(Shape::Integer(Width::U8)));
    let value = Value::List(vec![num(0), num(255)]);
    assert_eq!(
        decode(&value, &shape),
        Ok(Decoded::Sequence(vec![
            Decoded::Integer(Integer::U8(0)),
            Decoded::Integer(Integer::U8(255)),
        ]))
    );
    let wide = Value::List(vec![num(256)]);
    assert_eq!(
        decode(&wide, &shape),
        Err(ExecError::TypeMismatch {
            expected: Expected::Integer(Width::U8),
            found: Tag::Integer(Width::I32),
        })
    );
}

#[test]
fn tuple_needs_exactly_its_number_of_elements() {
    let shape = Shape::Tuple(vec![i32s(), Shape::Bool]);
    let value = Value::List(vec![num(1), Value::Bool(true)]);
    assert_eq!(decode(&value, &shape), Ok(Decoded::Sequence(vec![dec(1), Decoded::Bool(true)])));
    assert_eq!(decode(&Value::List(vec![num(1)]), &shape), Err(ExecError::EndOfSequence));
    let long = Value::List(vec![num(1), Value::Bool(true), num(2)]);
    assert_eq!(decode(&long, &shape), Err(ExecError::ExtraneousElements));
    assert_eq!(decode(&Value::List(vec![]), &Shape::Tuple(vec![])), Ok(Decoded::Sequence(vec![])));
}

#[test]
fn unit_is_nothing_and_every_other_value_is_itself() {
    let shape = Shape::Optional(Box::new(i32s()));
    assert_eq!(decode(&Value::Unit, &shape), Ok(Decoded::Absent));
    assert_eq!(decode(&num(5), &shape), Ok(Decoded::Present(Box::new(dec(5)))));
    assert_eq!(
        decode(&Value::Bool(true), &shape),
        Err(ExecError::TypeMismatch { expected: Expected::Integer(Width::I32), found: Tag::Bool })
    );
}

#[test]
fn option_of_a_unit_target_cannot_be_told_from_nothing() {
    let shape = Shape::Optional(Box::new(Shape::Unit));
    assert_eq!(decode(&Value::Unit, &shape), Ok(Decoded::Absent));
    let nested = Shape::Optional(Box::new(Shape::Optional(Box::new(i32s()))));
    assert_eq!(decode(&Value::Unit, &nested), Ok(Decoded::Absent));
    assert_eq!(
        decode(&num(1), &nested),
        Ok(Decoded::Present(Box::new(Decoded::Present(Box::new(dec(1))))))
    );
}

#[test]
fn options_in_a_sequence_take_one_element_each() {
    let shape = Shape::Sequence(Box::new(Shape::Optional(Box::new(i32s()))));
    let value = Value::List(vec![Value::Unit, num(1), Value::Unit]);
    assert_eq!(
        decode(&value, &shape),
        Ok(Decoded::Sequence(vec![
            Decoded::Absent,
            Decoded::Present(Box::new(dec(1))),
            Decoded::Absent,
        ]))
    );
}

#[test]
fn written_form_decodes_back_to_the_value() {
    let shape = Shape::Tuple(vec![
        Shape::Mapping(Box::new((Shape::Identifier, Shape::Sequence(Box::new(i32s()))))),
        Shape::Enum(
            "Maybe".to_string(),
            vec![Variant { name: "Some".to_string(), payload: Payload::Newtype(Shape::Str) }],
        ),
    ]);
    let written = Value::List(vec![
        Value::List(vec![Value::List(vec![
            Value::Name(Name { id: 1 }),
            Value::List(vec![num(1), num(2)]),
        ])]),
        Value::List(vec![Value::Name(Name { id: 2 }), text("x")]),
    ]);
    let host = Decoded::Sequence(vec![
        Decoded::Mapping(vec![(
            Decoded::Text("b".to_string()),
            Decoded::Sequence(vec![dec(1), dec(2)]),
        )]),
        Decoded::Variant(0, Box::new(Decoded::Text("x".to_string()))),
    ]);
    assert_eq!(decode(&written, &shape), Ok(host));
}

#[test]
fn walk_over_elements_counts_down() {
    let mut access = SeqVisitor::new(2);
    assert_eq!(access.size_hint(), Some(2));
    assert!(access.next_element());
    assert_eq!(access.size_hint(), Some(1));
    assert!(access.next_element());
    assert!(!access.next_element());
    assert!(!access.next_element());
    assert_eq!(access.size_hint(), Some(0));
}

#[test]
fn walk_over_a_mapping_enters_and_leaves_each_entry() {
    let scope = scope();
    let value = Value::List(vec![Value::List(vec![text("a"), num(1)])]);
    let mut de = VDeserializer::new(&scope, &value);
    let n = de.enter_seq().unwrap();
    let mut access = MapVisitor::new(n, false);
    assert_eq!(access.size_hint(), Some(1));
    assert_eq!(access.next_key(&mut de), Ok(true));
    assert_eq!(de.depth(), 2);
    assert_eq!(de.deserialize_str(), Ok("a"));
    assert_eq!(de.deserialize_integer(Width::I32), Ok(Integer::I32(1)));
    assert_eq!(access.next_value(&mut de), Ok(()));
    assert_eq!(de.depth(), 1);
    assert_eq!(access.next_key(&mut de), Ok(false));
    assert_eq!(de.leave_seq(), Ok(()));
}

#[test]
fn walk_over_named_fields_stays_in_one_list() {
    let scope = scope();
    let value = Value::List(vec![Value::Keyword(Name { id: 0 }), num(1)]);
    let mut de = VDeserializer::new(&scope, &value);
    let n = de.enter_fields().unwrap();
    let mut access = MapVisitor::new(n, true);
    assert_eq!(access.next_key(&mut de), Ok(true));
    assert_eq!(de.depth(), 1);
    assert_eq!(de.deserialize_identifier(), Ok("a"));
    assert_eq!(de.deserialize_integer(Width::I32), Ok(Integer::I32(1)));
    assert_eq!(access.next_value(&mut de), Ok(()));
    assert_eq!(de.depth(), 1);
    assert_eq!(access.next_key(&mut de), Ok(false));
}

#[test]
fn head_of_a_variant_is_a_bare_name_or_leads_a_list() {
    let scope = scope();
    let bare = Value::Name(Name { id: 2 });
    let mut de = VDeserializer::new(&scope, &bare);
    let head = de.variant_seed().unwrap();
    assert_eq!((head.name, head.listed), ("Some", false));
    assert_eq!(head.unit_variant(), Ok(()));
    assert_eq!(
        head.data_variant(),
        Err(ExecError::TypeMismatch { expected: Expected::List, found: Tag::Name })
    );
    assert_eq!(de.depth(), 0);

    let listed = Value::List(vec![Value::Name(Name { id: 2 }), num(1)]);
    let mut de = VDeserializer::new(&scope, &listed);
    let head = de.variant_seed().unwrap();
    assert_eq!((head.name, head.listed), ("Some", true));
    assert_eq!(head.data_variant(), Ok(()));
    assert_eq!(
        head.unit_variant(),
        Err(ExecError::TypeMismatch { expected: Expected::Name, found: Tag::List })
    );
    assert_eq!(de.depth(), 1);
    assert_eq!(de.newtype_variant(&i32s()), Ok(dec(1)));
    assert_eq!(de.depth(), 0);

    let empty = Value::List(vec![]);
    let mut de = VDeserializer::new(&scope, &empty);
    assert!(matches!(de.variant_seed(), Err(ExecError::EndOfSequence)));
}

#[test]
fn fields_and_variants_are_found_by_name_first_match_first() {
    let field = |n: &str| Field { name: n.to_string(), shape: Shape::Unit };
    let fields = vec![field("x"), field("y"), field("x")];
    assert_eq!(find_field_index(&fields, "x"), Some(0));
    assert_eq!(find_field_index(&fields, "y"), Some(1));
    assert_eq!(find_field_index(&fields, "z"), None);
    let variant = |n: &str| Variant { name: n.to_string(), payload: Payload::Unit };
    let variants = vec![variant("A"), variant("B")];
    assert_eq!(find_variant_index(&variants, "B"), Some(1));
    assert_eq!(find_variant_index(&variants, "C"), None);
    assert_eq!(find_variant_index(&Vec::new(), "A"), None);
}
