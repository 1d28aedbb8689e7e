use value_decode::error::{ExecError, Expected};
use value_decode::scope::Scope;
use value_decode::shape::{Decoded, Field, Shape};
use value_decode::structure::decode_value;
use value_decode::value::{Integer, Name, Tag, Value, Width};

fn scope() -> Scope {
    Scope::new(
        ["Point", "Wrong", "Person", "name", "age", "Empty", "nick"]
            .iter()
            .map(|s| s.to_string())
            .collect(),
    )
}

fn name(id: u32) -> Value {
    Value::Name(Name { id })
}

fn keyword(id: u32) -> Value {
    Value::Keyword(Name { id })
}

fn i32v(n: i32) -> Value {
    Value::Integer(Integer::I32(n))
}

fn point() -> Shape {
    Shape::TupleStruct(
        "Point".to_string(),
        vec![Shape::Integer(Width::I32), Shape::Integer(Width::I32)],
    )
}

fn person() -> Shape {
    Shape::Struct(
        "Person".to_string(),
        vec![
            Field { name: "name".to_string(), shape: Shape::String },
            Field { name: "age".to_string(), shape: Shape::Integer(Width::U8) },
        ],
    )
}

fn decode(value: &Value, shape: &Shape) -> Result<Decoded, ExecError> {
    let scope = scope();
    assert!(scope.resolves(value));
    decode_value(&scope, value, shape)
}

#[test]
fn positional_record_decodes_its_fields_in_order() {
    let value = Value::List(vec![name(0), i32v(3), i32v(4)]);
    assert_eq!(
        decode(&value, &point()),
        Ok(Decoded::Sequence(vec![
            Decoded::Integer(Integer::I32(3)),
            Decoded::Integer(Integer::I32(4)),
        ]))
    );
}

#[test]
fn positional_record_with_another_name_is_a_name_mismatch() {
    let value = Value::List(vec![name(1), i32v(3), i32v(4)]);
    assert_eq!(
        decode(&value, &point()),
        Err(ExecError::NameMismatch { expected: "Point".to_string(), found: "Wrong".to_string() })
    );
}

#[test]
fn name_mismatch_comes_before_any_other_fault_of_the_record() {
    let value = Value::List(vec![name(1), Value::Bool(true)]);
    assert_eq!(
        decode(&value, &point()),
        Err(ExecError::NameMismatch { expected: "Point".to_string(), found: "Wrong".to_string() })
    );
}

#[test]
fn positional_record_with_too_few_fields_ends_early() {
    let value = Value::List(vec![name(0), i32v(3)]);
    assert_eq!(decode(&value, &point()), Err(ExecError::EndOfSequence));
}

#[test]
fn positional_record_with_too_many_fields_has_extraneous_elements() {
    let value = Value::List(vec![name(0), i32v(3), i32v(4), i32v(5)]);
    assert_eq!(decode(&value, &point()), Err(ExecError::ExtraneousElements));
}

#[test]
fn positional_record_led_by_a_keyword_is_a_type_mismatch() {
    let value = Value::List(vec![keyword(0), i32v(3), i32v(4)]);
    assert_eq!(
        decode(&value, &point()),
        Err(ExecError::TypeMismatch { expected: Expected::Name, found: Tag::Keyword })
    );
}

#[test]
fn record_that_is_no_list_is_a_type_mismatch() {
    assert_eq!(
        decode(&i32v(3), &point()),
        Err(ExecError::TypeMismatch { expected: Expected::List, found: Tag::Integer(Width::I32) })
    );
}

#[test]
fn empty_list_is_no_record() {
    assert_eq!(decode(&Value::List(vec![]), &point()), Err(ExecError::EndOfSequence));
}

#[test]
fn named_record_decodes_its_fields() {
    let value = Value::List(vec![
        name(2),
        Value::List(vec![
            keyword(3),
            Value::String("Al".to_string()),
            keyword(4),
            Value::Integer(Integer::I32(30)),
        ]),
    ]);
    assert_eq!(
        decode(&value, &person()),
        Ok(Decoded::Record(vec![
            (0, Decoded::Text("Al".to_string())),
            (1, Decoded::Integer(Integer::U8(30))),
        ]))
    );
}

#[test]
fn named_record_keeps_the_order_in_which_fields_are_written() {
    let value = Value::List(vec![
        name(2),
        Value::List(vec![keyword(4), i32v(30), keyword(3), Value::String("Al".to_string())]),
    ]);
    assert_eq!(
        decode(&value, &person()),
        Ok(Decoded::Record(vec![
            (1, Decoded::Integer(Integer::U8(30))),
            (0, Decoded::Text("Al".to_string())),
        ]))
    );
}

#[test]
fn named_record_with_a_key_without_value_has_odd_keyword_parameters() {
    let value = Value::List(vec![
        name(2),
        Value::List(vec![keyword(3), Value::String("Al".to_string()), keyword(4)]),
    ]);
    assert_eq!(decode(&value, &person()), Err(ExecError::OddKeywordParams));
}

#[test]
fn odd_keyword_parameters_do_not_depend_on_the_fields() {
    let value = Value::List(vec![name(2), Value::List(vec![keyword(6)])]);
    assert_eq!(decode(&value, &person()), Err(ExecError::OddKeywordParams));
    let no_fields = Shape::Struct("Person".to_string(), vec![]);
    assert_eq!(decode(&value, &no_fields), Err(ExecError::OddKeywordParams));
}

#[test]
fn named_record_drops_the_value_of_an_unknown_key() {
    let value = Value::List(vec![
        name(2),
        Value::List(vec![keyword(6), Value::List(vec![i32v(1)]), keyword(4), i32v(30)]),
    ]);
    assert_eq!(
        decode(&value, &person()),
        Ok(Decoded::Record(vec![(1, Decoded::Integer(Integer::U8(30)))]))
    );
}

#[test]
fn named_record_takes_a_name_symbol_as_key() {
    let value = Value::List(vec![name(2), Value::List(vec![name(4), i32v(30)])]);
    assert_eq!(
        decode(&value, &person()),
        Ok(Decoded::Record(vec![(1, Decoded::Integer(Integer::U8(30)))]))
    );
}

#[test]
fn named_record_with_a_key_that_is_no_symbol_is_a_type_mismatch() {
    let value = Value::List(vec![name(2), Value::List(vec![i32v(1), i32v(30)])]);
    assert_eq!(
        decode(&value, &person()),
        Err(ExecError::TypeMismatch {
            expected: Expected::Identifier,
            found: Tag::Integer(Width::I32),
        })
    );
}

#[test]
fn named_record_with_something_after_the_fields_has_extraneous_elements() {
    let value = Value::List(vec![name(2), Value::List(vec![keyword(4), i32v(30)]), i32v(1)]);
    assert_eq!(decode(&value, &person()), Err(ExecError::ExtraneousElements));
}

#[test]
fn named_record_with_another_name_is_a_name_mismatch() {
    let value = Value::List(vec![name(1), Value::List(vec![keyword(4), i32v(30)])]);
    assert_eq!(
        decode(&value, &person()),
        Err(ExecError::NameMismatch { expected: "Person".to_string(), found: "Wrong".to_string() })
    );
}

#[test]
fn empty_record_is_its_name_and_the_unit() {
    let shape = Shape::UnitStruct("Empty".to_string());
    assert_eq!(decode(&Value::List(vec![name(5), Value::Unit]), &shape), Ok(Decoded::Unit));
    assert_eq!(decode(&Value::List(vec![name(5)]), &shape), Err(ExecError::EndOfSequence));
    assert_eq!(
        decode(&Value::List(vec![name(5), Value::Unit, Value::Unit]), &shape),
        Err(ExecError::ExtraneousElements)
    );
    assert_eq!(
        decode(&Value::List(vec![name(5), i32v(0)]), &shape),
        Err(ExecError::TypeMismatch { expected: Expected::Unit, found: Tag::Integer(Width::I32) })
    );
    assert_eq!(
        decode(&Value::List(vec![name(0), Value::Unit]), &shape),
        Err(ExecError::NameMismatch { expected: "Empty".to_string(), found: "Point".to_string() })
    );
}

#[test]
fn record_inside_a_record_is_decoded_in_place() {
    let shape = Shape::TupleStruct(
        "Wrong".to_string(),
        vec![point(), Shape::Bool, point()],
    );
    let p = |a: i32, b: i32| Value::List(vec![name(0), i32v(a), i32v(b)]);
    let value = Value::List(vec![name(1), p(1, 2), Value::Bool(true), p(3, 4)]);
    let d = |a: i32, b: i32| {
        Decoded::Sequence(vec![Decoded::Integer(Integer::I32(a)), Decoded::Integer(Integer::I32(b))])
    };
    assert_eq!(
        decode(&value, &shape),
        Ok(Decoded::Sequence(vec![d(1, 2), Decoded::Bool(true), d(3, 4)]))
    );
}
