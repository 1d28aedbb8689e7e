use value_decode::error::{ExecError, Expected};
use value_decode::scope::Scope;
use value_decode::shape::{Decoded, Field, Payload, Shape, Variant};
use value_decode::structure::decode_value;
use value_decode::value::{Integer, Name, Tag, Value, Width};

fn scope() -> Scope {
    Scope::new(
        ["Circle", "Square", "side", "Red", "Green", "Blue", "Pair", "Triangle"]
            .iter()
            .map(|s| s.to_string())
            .collect(),
    )
}

fn name(id: u32) -> Value {
    Value::Name(Name { id })
}

fn keyword(id: u32) -> Value {
    Value::Keyword(Name { id })
}

fn float(x: f64) -> Value {
    Value::Float(x.to_bits())
}

fn shape() -> Shape {
    Shape::Enum(
        "Shape".to_string(),
        vec![
            Variant { name: "Circle".to_string(), payload: Payload::Newtype(Shape::Float) },
            Variant {
                name: "Square".to_string(),
                payload: Payload::Struct(vec![Field {
                    name: "side".to_string(),
                    shape: Shape::Float,
                }]),
            },
            Variant {
                name: "Pair".to_string(),
                payload: Payload::Tuple(vec![Shape::Float, Shape::Integer(Width::I64)]),
            },
        ],
    )
}

fn color() -> Shape {
    Shape::Enum(
        "Color".to_string(),
        vec![
            Variant { name: "Red".to_string(), payload: Payload::Unit },
            Variant { name: "Green".to_string(), payload: Payload::Unit },
            Variant { name: "Blue".to_string(), payload: Payload::Unit },
        ],
    )
}

fn decode(value: &Value, shape: &Shape) -> Result<Decoded, ExecError> {
    let scope = scope();
    assert!(scope.resolves(value));
    decode_value(&scope, value, shape)
}

#[test]
fn variant_of_one_value_follows_its_name() {
    let value = Value::List(vec![name(0), float(2.5)]);
    match decode(&value, &shape()) {
        Ok(Decoded::Variant(0, payload)) => match *payload {
            Decoded::Float(bits) => assert_eq!(f64::from_bits(bits), 2.5),
            other => panic!("{:?}", other),
        },
        other => panic!("{:?}", other),
    }
}

#[test]
fn variant_with_named_fields_decodes_them() {
    let value = Value::List(vec![name(1), Value::List(vec![keyword(2), float(4.0)])]);
    assert_eq!(
        decode(&value, &shape()),
        Ok(Decoded::Variant(
            1,
            Box::new(Decoded::Record(vec![(0, Decoded::Float(4.0f64.to_bits()))]))
        ))
    );
}

#[test]
fn variant_with_named_fields_is_left_for_what_follows_it() {
    let pair = Shape::Tuple(vec![shape(), Shape::Bool]);
    let square = Value::List(vec![name(1), Value::List(vec![keyword(2), float(4.0)])]);
    let value = Value::List(vec![square, Value::Bool(true)]);
    assert_eq!(
        decode(&value, &pair),
        Ok(Decoded::Sequence(vec![
            Decoded::Variant(
                1,
                Box::new(Decoded::Record(vec![(0, Decoded::Float(4.0f64.to_bits()))]))
            ),
            Decoded::Bool(true),
        ]))
    );
}

#[test]
fn variant_with_named_fields_and_more_has_extraneous_elements() {
    let value =
        Value::List(vec![name(1), Value::List(vec![keyword(2), float(4.0)]), float(1.0)]);
    assert_eq!(decode(&value, &shape()), Err(ExecError::ExtraneousElements));
}

#[test]
fn variant_with_an_odd_list_of_fields_has_odd_keyword_parameters() {
    let value = Value::List(vec![name(1), Value::List(vec![keyword(2)])]);
    assert_eq!(decode(&value, &shape()), Err(ExecError::OddKeywordParams));
}

#[test]
fn variant_of_several_values_decodes_them_in_order() {
    let value = Value::List(vec![name(6), float(1.5), Value::Integer(Integer::U8(9))]);
    assert_eq!(
        decode(&value, &shape()),
        Ok(Decoded::Variant(
            2,
            Box::new(Decoded::Sequence(vec![
                Decoded::Float(1.5f64.to_bits()),
                Decoded::Integer(Integer::I64(9)),
            ]))
        ))
    );
}

#[test]
fn variant_of_several_values_checks_their_number() {
    let few = Value::List(vec![name(6), float(1.5)]);
    assert_eq!(decode(&few, &shape()), Err(ExecError::EndOfSequence));
    let many = Value::List(vec![
        name(6),
        float(1.5),
        Value::Integer(Integer::U8(9)),
        Value::Integer(Integer::U8(9)),
    ]);
    assert_eq!(decode(&many, &shape()), Err(ExecError::ExtraneousElements));
}

#[test]
fn variant_of_one_value_checks_that_there_is_one() {
    assert_eq!(decode(&Value::List(vec![name(0)]), &shape()), Err(ExecError::EndOfSequence));
    assert_eq!(
        decode(&Value::List(vec![name(0), float(1.0), float(2.0)]), &shape()),
        Err(ExecError::ExtraneousElements)
    );
}

#[test]
fn variant_without_payload_is_its_bare_name() {
    assert_eq!(decode(&name(3), &color()), Ok(Decoded::Variant(0, Box::new(Decoded::Unit))));
    assert_eq!(decode(&name(5), &color()), Ok(Decoded::Variant(2, Box::new(Decoded::Unit))));
}

#[test]
fn variant_without_payload_written_as_a_list_is_a_type_mismatch() {
    assert_eq!(
        decode(&Value::List(vec![name(3)]), &color()),
        Err(ExecError::TypeMismatch { expected: Expected::Name, found: Tag::List })
    );
}

#[test]
fn variant_with_payload_written_as_a_bare_name_is_a_type_mismatch() {
    assert_eq!(
        decode(&name(0), &shape()),
        Err(ExecError::TypeMismatch { expected: Expected::List, found: Tag::Name })
    );
}

#[test]
fn unknown_variant_is_a_name_mismatch() {
    assert_eq!(
        decode(&name(7), &color()),
        Err(ExecError::NameMismatch { expected: "Color".to_string(), found: "Triangle".to_string() })
    );
    assert_eq!(
        decode(&Value::List(vec![name(7), float(1.0)]), &shape()),
        Err(ExecError::NameMismatch { expected: "Shape".to_string(), found: "Triangle".to_string() })
    );
}

#[test]
fn variant_named_by_a_keyword_is_a_type_mismatch() {
    assert_eq!(
        decode(&keyword(3), &color()),
        Err(ExecError::TypeMismatch { expected: Expected::Name, found: Tag::Keyword })
    );
}
