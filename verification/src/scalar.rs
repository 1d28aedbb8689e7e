//! Reading one scalar: the current value has to be of the kind asked for.

use vstd::prelude::*;
use crate::cursor::{advance, after_read, VDeserializer};
use crate::error::{ExecError, Expected, Failure};
use crate::scope::Scope;
use crate::value::{Integer, Tag, Value, Width};

verus! {

/// The failure of a read that asked for `expected` and met `cur`: a list at
/// its end, or a value of another kind.
pub open spec fn mismatch(expected: Expected, cur: Option<Value>) -> Failure {
    match cur {
        Some(v) => Failure::TypeMismatch { expected, found: v.tag() },
        None => Failure::EndOfSequence,
    }
}

/// What reading a boolean gives.
pub open spec fn bool_of(cur: Option<Value>) -> Result<bool, Failure> {
    match cur {
        Some(Value::Bool(b)) => Ok(b),
        _ => Err(mismatch(Expected::Bool, cur)),
    }
}

/// What reading a character gives.
pub open spec fn char_of(cur: Option<Value>) -> Result<char, Failure> {
    match cur {
        Some(Value::Char(c)) => Ok(c),
        _ => Err(mismatch(Expected::Char, cur)),
    }
}

/// What reading an integer of width `width` gives: the number of an integer
/// value, of whatever width, that `width` holds.
pub open spec fn integer_of(cur: Option<Value>, width: Width) -> Result<int, Failure> {
    match cur {
        Some(Value::Integer(n)) if width.holds(n.value()) => Ok(n.value()),
        _ => Err(mismatch(Expected::Integer(width), cur)),
    }
}

/// What reading a float gives: the bit pattern of its 64-bit form.
pub open spec fn float_of(cur: Option<Value>) -> Result<u64, Failure> {
    match cur {
        Some(Value::Float(bits)) => Ok(bits),
        _ => Err(mismatch(Expected::Float, cur)),
    }
}

/// What reading a borrowed string gives: the text of a string value.
pub open spec fn str_of(cur: Option<Value>) -> Result<Seq<char>, Failure> {
    match cur {
        Some(Value::String(s)) => Ok(s@),
        _ => Err(mismatch(Expected::String, cur)),
    }
}

/// What reading an owned string gives: the text of a string value, or that
/// of a keyword symbol.
pub open spec fn string_of(scope: Scope, cur: Option<Value>) -> Result<Seq<char>, Failure> {
    match cur {
        Some(Value::String(s)) => Ok(s@),
        Some(Value::Keyword(name)) => Ok(scope.text(name)),
        _ => Err(mismatch(Expected::KeywordOrString, cur)),
    }
}

/// What reading the unit gives.
pub open spec fn unit_of(cur: Option<Value>) -> Result<(), Failure> {
    match cur {
        Some(Value::Unit) => Ok(()),
        _ => Err(mismatch(Expected::Unit, cur)),
    }
}

/// What reading an identifier gives: the text of a symbol of either flavor.
pub open spec fn identifier_of(scope: Scope, cur: Option<Value>) -> Result<Seq<char>, Failure> {
    match cur {
        Some(Value::Keyword(name)) => Ok(scope.text(name)),
        Some(Value::Name(name)) => Ok(scope.text(name)),
        _ => Err(mismatch(Expected::Identifier, cur)),
    }
}

/// Whether an optional value is there: the unit stands for none, every
/// other value for itself.
pub open spec fn option_of(cur: Option<Value>) -> Result<bool, Failure> {
    match cur {
        Some(Value::Unit) => Ok(false),
        Some(_) => Ok(true),
        None => Err(Failure::EndOfSequence),
    }
}

impl<'de> VDeserializer<'de> {
    /// A target that takes a value of any shape is not served: gives the
    /// failure, and reads nothing.
    pub fn deserialize_any(&self) -> (e: ExecError)
        ensures
            e@ == Failure::Unsupported,
    {
        ExecError::Unsupported
    }

    /// Reads a boolean.
    pub fn deserialize_bool(&mut self) -> (r: Result<bool, ExecError>)
        requires
            old(self).wf(),
            old(self).stack().len() > 0,
        ensures
            final(self).wf(),
            final(self).scope() == old(self).scope(),
            final(self).stack() == after_read(old(self).stack()),
            match r {
                Ok(b) => bool_of(old(self).current()) == Ok::<bool, Failure>(b),
                Err(e) => bool_of(old(self).current()) == Err::<bool, Failure>(e@),
            },
    {
        match self.next_value() {
            Ok(Value::Bool(b)) => Ok(*b),
            Ok(v) => Err(ExecError::expected(Expected::Bool, v.tag())),
            Err(e) => Err(e),
        }
    }

    /// Reads a character.
    pub fn deserialize_char(&mut self) -> (r: Result<char, ExecError>)
        requires
            old(self).wf(),
            old(self).stack().len() > 0,
        ensures
            final(self).wf(),
            final(self).scope() == old(self).scope(),
            final(self).stack() == after_read(old(self).stack()),
            match r {
                Ok(c) => char_of(old(self).current()) == Ok::<char, Failure>(c),
                Err(e) => char_of(old(self).current()) == Err::<char, Failure>(e@),
            },
    {
        match self.next_value() {
            Ok(Value::Char(c)) => Ok(*c),
            Ok(v) => Err(ExecError::expected(Expected::Char, v.tag())),
            Err(e) => Err(e),
        }
    }

    /// Reads an integer into the width `width`: the value has to be an
    /// integer, of whatever width, whose number `width` holds.
    pub fn deserialize_integer(&mut self, width: Width) -> (r: Result<Integer, ExecError>)
        requires
            old(self).wf(),
            old(self).stack().len() > 0,
        ensures
            final(self).wf(),
            final(self).scope() == old(self).scope(),
            final(self).stack() == after_read(old(self).stack()),
            match r {
                Ok(n) => integer_of(old(self).current(), width) == Ok::<int, Failure>(n.value())
                    && n.width() == width,
                Err(e) => integer_of(old(self).current(), width) == Err::<int, Failure>(e@),
            },
    {
        match self.next_value() {
            Ok(Value::Integer(n)) => match n.narrow(width) {
                Some(m) => Ok(m),
                None => Err(ExecError::expected(Expected::Integer(width), Tag::Integer(n.width()))),
            },
            Ok(v) => Err(ExecError::expected(Expected::Integer(width), v.tag())),
            Err(e) => Err(e),
        }
    }

    /// Reads a float, as the bit pattern of its 64-bit form.
    pub fn deserialize_f64(&mut self) -> (r: Result<u64, ExecError>)
        requires
            old(self).wf(),
            old(self).stack().len() > 0,
        ensures
            final(self).wf(),
            final(self).scope() == old(self).scope(),
            final(self).stack() == after_read(old(self).stack()),
            match r {
                Ok(bits) => float_of(old(self).current()) == Ok::<u64, Failure>(bits),
                Err(e) => float_of(old(self).current()) == Err::<u64, Failure>(e@),
            },
    {
        match self.next_value() {
            Ok(Value::Float(bits)) => Ok(*bits),
            Ok(v) => Err(ExecError::expected(Expected::Float, v.tag())),
            Err(e) => Err(e),
        }
    }

    /// Reads a string value without copying it: the text is that of the tree.
    pub fn deserialize_str(&mut self) -> (r: Result<&'de str, ExecError>)
        requires
            old(self).wf(),
            old(self).stack().len() > 0,
        ensures
            final(self).wf(),
            final(self).scope() == old(self).scope(),
            final(self).stack() == after_read(old(self).stack()),
            match r {
                Ok(s) => str_of(old(self).current()) == Ok::<Seq<char>, Failure>(s@),
                Err(e) => str_of(old(self).current()) == Err::<Seq<char>, Failure>(e@),
            },
    {
        match self.next_value() {
            Ok(Value::String(s)) => Ok(s.as_str()),
            Ok(v) => Err(ExecError::expected(Expected::String, v.tag())),
            Err(e) => Err(e),
        }
    }

    /// Reads a string into a copy of its own: the text of a string value, or
    /// the text that the symbol table gives for a keyword.
    pub fn deserialize_string(&mut self) -> (r: Result<String, ExecError>)
        requires
            old(self).wf(),
            old(self).stack().len() > 0,
        ensures
            final(self).wf(),
            final(self).scope() == old(self).scope(),
            final(self).stack() == after_read(old(self).stack()),
            match r {
                Ok(s) => string_of(old(self).scope(), old(self).current()) == Ok::<
                    Seq<char>,
                    Failure,
                >(s@),
                Err(e) => string_of(old(self).scope(), old(self).current()) == Err::<
                    Seq<char>,
                    Failure,
                >(e@),
            },
    {
        match self.next_value() {
            Ok(Value::String(s)) => Ok(s.clone()),
            Ok(Value::Keyword(name)) => Ok(self.symbols().resolve(*name).to_owned()),
            Ok(v) => Err(ExecError::expected(Expected::KeywordOrString, v.tag())),
            Err(e) => Err(e),
        }
    }
    /// Reads the unit.
    pub fn deserialize_unit(&mut self) -> (r: Result<(), ExecError>)
        requires
            old(self).wf(),
            old(self).stack().len() > 0,
        ensures
            final(self).wf(),
            final(self).scope() == old(self).scope(),
            final(self).stack() == after_read(old(self).stack()),
            match r {
                Ok(_) => unit_of(old(self).current()) is Ok,
                Err(e) => unit_of(old(self).current()) == Err::<(), Failure>(e@),
            },
    {
        match self.next_value() {
            Ok(Value::Unit) => Ok(()),
            Ok(v) => Err(ExecError::expected(Expected::Unit, v.tag())),
            Err(e) => Err(e),
        }
    }

    /// Looks whether an optional value is there. The unit stands for none,
    /// and is read. Every other value stands for itself and is left in
    /// place, for the target to read it as what the option wraps. A target
    /// whose own value is written as the unit can therefore not be told from
    /// none.
    pub fn deserialize_option(&mut self) -> (r: Result<bool, ExecError>)
        requires
            old(self).wf(),
            old(self).stack().len() > 0,
        ensures
            final(self).wf(),
            final(self).scope() == old(self).scope(),
            final(self).stack() == if option_of(old(self).current()) == Ok::<bool, Failure>(false) {
                advance(old(self).stack())
            } else {
                old(self).stack()
            },
            match r {
                Ok(present) => option_of(old(self).current()) == Ok::<bool, Failure>(present),
                Err(e) => option_of(old(self).current()) == Err::<bool, Failure>(e@),
            },
    {
        match self.peek_value() {
            Ok(Value::Unit) => {
                let _ = self.next_value();
                Ok(false)
            },
            Ok(_) => Ok(true),
            Err(e) => Err(e),
        }
    }

    /// Reads an identifier, such as the key of a field: the text of a symbol
    /// of either flavor, as the symbol table holds it.
    pub fn deserialize_identifier(&mut self) -> (r: Result<&'de str, ExecError>)
        requires
            old(self).wf(),
            old(self).stack().len() > 0,
        ensures
            final(self).wf(),
            final(self).scope() == old(self).scope(),
            final(self).stack() == after_read(old(self).stack()),
            match r {
                Ok(s) => identifier_of(old(self).scope(), old(self).current()) == Ok::<
                    Seq<char>,
                    Failure,
                >(s@),
                Err(e) => identifier_of(old(self).scope(), old(self).current()) == Err::<
                    Seq<char>,
                    Failure,
                >(e@),
            },
    {
        match self.next_value() {
            Ok(Value::Keyword(name)) => Ok(self.symbols().resolve(*name)),
            Ok(Value::Name(name)) => Ok(self.symbols().resolve(*name)),
            Ok(v) => Err(ExecError::expected(Expected::Identifier, v.tag())),
            Err(e) => Err(e),
        }
    }

    /// Reads one value, whatever it is, and drops it.
    pub fn deserialize_ignored_any(&mut self) -> (r: Result<(), ExecError>)
        requires
            old(self).wf(),
            old(self).stack().len() > 0,
        ensures
            final(self).wf(),
            final(self).scope() == old(self).scope(),
            final(self).stack() == after_read(old(self).stack()),
            match r {
                Ok(_) => old(self).current() is Some,
                Err(e) => old(self).current() is None && e@ == Failure::EndOfSequence,
            },
    {
        match self.next_value() {
            Ok(_) => Ok(()),
            Err(e) => Err(e),
        }
    }
}

} // verus!
