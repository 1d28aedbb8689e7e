use value_decode::cursor::VDeserializer;
use value_decode::error::{ExecError, Expected};
use value_decode::scope::Scope;
use value_decode::shape::{Decoded, Shape};
use value_decode::structure::decode_value;
use value_decode::value::{Integer, Name, Tag, Value, Width};

fn scope() -> Scope {
    Scope::new(["alpha", "beta"].iter().map(|s| s.to_string()).collect())
}

fn mismatch<T>(expected: Expected, found: Tag) -> Result<T, ExecError> {
    Err(ExecError::TypeMismatch { expected, found })
}

#[test]
fn signed_32_bit_integer_decodes_to_itself() {
    let scope = scope();
    let value = Value::Integer(Integer::I32(-7));
    assert!(scope.resolves(&value));
    let mut de = VDeserializer::new(&scope, &value);
    assert_eq!(de.deserialize_integer(Width::I32), Ok(Integer::I32(-7)));
    assert_eq!(de.depth(), 0);
    de.finish();
    assert_eq!(
        decode_value(&scope, &value, &Shape::Integer(Width::I32)),
        Ok(Decoded::Integer(Integer::I32(-7)))
    );
}

#[test]
fn integer_that_does_not_fit_is_a_type_mismatch() {
    let scope = scope();
    let value = Value::Integer(Integer::I32(-7));
    let mut de = VDeserializer::new(&scope, &value);
    assert_eq!(
        de.deserialize_integer(Width::U8),
        mismatch(Expected::Integer(Width::U8), Tag::Integer(Width::I32))
    );
    assert_eq!(de.depth(), 0);
}

#[test]
fn integer_is_stored_in_any_width_that_holds_it() {
    let n = Integer::U64(200);
    assert_eq!(n.narrow(Width::U8), Some(Integer::U8(200)));
    assert_eq!(n.narrow(Width::I8), None);
    assert_eq!(n.narrow(Width::I16), Some(Integer::I16(200)));
    assert_eq!(n.narrow(Width::U64), Some(Integer::U64(200)));
    assert_eq!(Integer::I8(-128).narrow(Width::I64), Some(Integer::I64(-128)));
    assert_eq!(Integer::I8(-1).narrow(Width::U64), None);
    assert_eq!(Integer::U64(u64::MAX).narrow(Width::I64), None);
    assert_eq!(Integer::U64(u64::MAX).narrow(Width::U64), Some(Integer::U64(u64::MAX)));
    assert_eq!(Integer::I64(i64::MIN).narrow(Width::I64), Some(Integer::I64(i64::MIN)));
    assert_eq!(Integer::I64(i64::MIN).narrow(Width::I32), None);
    assert_eq!(Integer::I64(0x7fff_ffff).narrow(Width::I32), Some(Integer::I32(i32::MAX)));
    assert_eq!(Integer::I64(0x8000_0000).narrow(Width::I32), None);
    assert_eq!(Integer::I64(0x8000_0000).narrow(Width::U32), Some(Integer::U32(0x8000_0000)));
    assert_eq!(Integer::I32(0x1_0000).narrow(Width::U16), None);
    assert_eq!(Integer::I32(0xffff).narrow(Width::U16), Some(Integer::U16(0xffff)));
}

#[test]
fn integer_knows_its_width_and_its_number() {
    assert_eq!(Integer::I16(-3).width(), Width::I16);
    assert_eq!(Integer::U32(3).width(), Width::U32);
    assert_eq!(Integer::I16(-3).to_i128(), -3);
    assert_eq!(Integer::U64(u64::MAX).to_i128(), u64::MAX as i128);
}

#[test]
fn value_knows_its_tag() {
    assert_eq!(Value::Unit.tag(), Tag::Unit);
    assert_eq!(Value::Bool(true).tag(), Tag::Bool);
    assert_eq!(Value::Char('a').tag(), Tag::Char);
    assert_eq!(Value::Integer(Integer::U16(1)).tag(), Tag::Integer(Width::U16));
    assert_eq!(Value::Float(0).tag(), Tag::Float);
    assert_eq!(Value::String(String::new()).tag(), Tag::String);
    assert_eq!(Value::Keyword(Name { id: 0 }).tag(), Tag::Keyword);
    assert_eq!(Value::Name(Name { id: 0 }).tag(), Tag::Name);
    assert_eq!(Value::List(vec![]).tag(), Tag::List);
}

#[test]
fn boolean_and_character_need_their_own_tag() {
    let scope = scope();
    let t = Value::Bool(true);
    let c = Value::Char('x');
    let mut de = VDeserializer::new(&scope, &t);
    assert_eq!(de.deserialize_bool(), Ok(true));
    let mut de = VDeserializer::new(&scope, &c);
    assert_eq!(de.deserialize_bool(), mismatch(Expected::Bool, Tag::Char));
    let mut de = VDeserializer::new(&scope, &c);
    assert_eq!(de.deserialize_char(), Ok('x'));
    let mut de = VDeserializer::new(&scope, &t);
    assert_eq!(de.deserialize_char(), mismatch(Expected::Char, Tag::Bool));
}

#[test]
fn float_comes_as_its_bits() {
    let scope = scope();
    let value = Value::Float(2.5f64.to_bits());
    let mut de = VDeserializer::new(&scope, &value);
    assert_eq!(de.deserialize_f64().map(f64::from_bits), Ok(2.5));
    let int = Value::Integer(Integer::I32(2));
    let mut de = VDeserializer::new(&scope, &int);
    assert_eq!(de.deserialize_f64(), mismatch(Expected::Float, Tag::Integer(Width::I32)));
}

#[test]
fn borrowed_string_is_a_string_value_only() {
    let scope = scope();
    let value = Value::String("hello".to_string());
    let mut de = VDeserializer::new(&scope, &value);
    assert_eq!(de.deserialize_str(), Ok("hello"));
    let keyword = Value::Keyword(Name { id: 0 });
    let mut de = VDeserializer::new(&scope, &keyword);
    assert_eq!(de.deserialize_str(), mismatch(Expected::String, Tag::Keyword));
}

#[test]
fn owned_string_is_a_string_value_or_a_keyword() {
    let scope = scope();
    let value = Value::String("hello".to_string());
    let mut de = VDeserializer::new(&scope, &value);
    assert_eq!(de.deserialize_string(), Ok("hello".to_string()));
    let keyword = Value::Keyword(Name { id: 1 });
    let mut de = VDeserializer::new(&scope, &keyword);
    assert_eq!(de.deserialize_string(), Ok("beta".to_string()));
    let name = Value::Name(Name { id: 1 });
    let mut de = VDeserializer::new(&scope, &name);
    assert_eq!(de.deserialize_string(), mismatch(Expected::KeywordOrString, Tag::Name));
}

#[test]
fn unit_needs_the_unit() {
    let scope = scope();
    let unit = Value::Unit;
    let mut de = VDeserializer::new(&scope, &unit);
    assert_eq!(de.deserialize_unit(), Ok(()));
    assert_eq!(de.depth(), 0);
    let list = Value::List(vec![]);
    let mut de = VDeserializer::new(&scope, &list);
    assert_eq!(de.deserialize_unit(), mismatch(Expected::Unit, Tag::List));
}

#[test]
fn option_reads_the_unit_and_leaves_every_other_value() {
    let scope = scope();
    let unit = Value::Unit;
    let mut de = VDeserializer::new(&scope, &unit);
    assert_eq!(de.deserialize_option(), Ok(false));
    assert_eq!(de.depth(), 0);
    let value = Value::Bool(false);
    let mut de = VDeserializer::new(&scope, &value);
    assert_eq!(de.deserialize_option(), Ok(true));
    assert_eq!(de.depth(), 1);
    assert_eq!(de.deserialize_bool(), Ok(false));
    let empty = Value::List(vec![]);
    let mut de = VDeserializer::new(&scope, &empty);
    assert_eq!(de.enter_seq(), Ok(0));
    assert_eq!(de.deserialize_option(), Err(ExecError::EndOfSequence));
}

#[test]
fn identifier_is_a_symbol_of_either_flavor() {
    let scope = scope();
    let keyword = Value::Keyword(Name { id: 0 });
    let mut de = VDeserializer::new(&scope, &keyword);
    assert_eq!(de.deserialize_identifier(), Ok("alpha"));
    let name = Value::Name(Name { id: 1 });
    let mut de = VDeserializer::new(&scope, &name);
    assert_eq!(de.deserialize_identifier(), Ok("beta"));
    let string = Value::String("alpha".to_string());
    let mut de = VDeserializer::new(&scope, &string);
    assert_eq!(de.deserialize_identifier(), mismatch(Expected::Identifier, Tag::String));
}

#[test]
fn ignoring_reads_exactly_one_value() {
    let scope = scope();
    let value = Value::List(vec![Value::List(vec![Value::Unit, Value::Unit]), Value::Bool(true)]);
    let mut de = VDeserializer::new(&scope, &value);
    assert_eq!(de.enter_seq(), Ok(2));
    assert_eq!(de.deserialize_ignored_any(), Ok(()));
    assert_eq!(de.depth(), 1);
    assert_eq!(de.deserialize_bool(), Ok(true));
    assert_eq!(de.deserialize_ignored_any(), Err(ExecError::EndOfSequence));
}

#[test]
fn any_shape_is_never_served() {
    let scope = scope();
    let value = Value::Bool(true);
    let de = VDeserializer::new(&scope, &value);
    assert_eq!(de.deserialize_any(), ExecError::Unsupported);
    assert_eq!(de.depth(), 1);
    assert_eq!(decode_value(&scope, &value, &Shape::Any), Err(ExecError::Unsupported));
}

#[test]
fn scalar_shapes_decode_scalars() {
    let scope = scope();
    let d = |v: Value, s: Shape| decode_value(&scope, &v, &s);
    assert_eq!(d(Value::Bool(true), Shape::Bool), Ok(Decoded::Bool(true)));
    assert_eq!(d(Value::Char('c'), Shape::Char), Ok(Decoded::Char('c')));
    assert_eq!(d(Value::Float(7), Shape::Float), Ok(Decoded::Float(7)));
    assert_eq!(d(Value::Unit, Shape::Unit), Ok(Decoded::Unit));
    assert_eq!(d(Value::Char('c'), Shape::Ignored), Ok(Decoded::Ignored));
    assert_eq!(
        d(Value::String("s".to_string()), Shape::Str),
        Ok(Decoded::Text("s".to_string()))
    );
    assert_eq!(
        d(Value::Keyword(Name { id: 0 }), Shape::String),
        Ok(Decoded::Text("alpha".to_string()))
    );
    assert_eq!(
        d(Value::Name(Name { id: 1 }), Shape::Identifier),
        Ok(Decoded::Text("beta".to_string()))
    );
    assert_eq!(
        d(Value::Integer(Integer::U8(255)), Shape::Integer(Width::I16)),
        Ok(Decoded::Integer(Integer::I16(255)))
    );
    assert_eq!(
        d(Value::Integer(Integer::U8(255)), Shape::Integer(Width::I8)),
        mismatch(Expected::Integer(Width::I8), Tag::Integer(Width::U8))
    );
    assert_eq!(d(Value::Unit, Shape::Bool), mismatch(Expected::Bool, Tag::Unit));
}

#[test]
fn failures_are_made_from_their_parts() {
    assert_eq!(ExecError::custom("boom".to_string()), ExecError::Custom("boom".to_string()));
    assert_eq!(
        ExecError::expected(Expected::Name, Tag::List),
        ExecError::TypeMismatch { expected: Expected::Name, found: Tag::List }
    );
}

#[test]
fn width_knows_its_bounds() {
    assert_eq!((Width::I8.lower(), Width::I8.upper()), (-128, 127));
    assert_eq!((Width::I16.lower(), Width::I16.upper()), (-32768, 32767));
    assert_eq!((Width::I32.lower(), Width::I32.upper()), (i32::MIN as i128, i32::MAX as i128));
    assert_eq!((Width::I64.lower(), Width::I64.upper()), (i64::MIN as i128, i64::MAX as i128));
    assert_eq!((Width::U8.lower(), Width::U8.upper()), (0, 255));
    assert_eq!((Width::U16.lower(), Width::U16.upper()), (0, 65535));
    assert_eq!((Width::U32.lower(), Width::U32.upper()), (0, u32::MAX as i128));
    assert_eq!((Width::U64.lower(), Width::U64.upper()), (0, u64::MAX as i128));
}
