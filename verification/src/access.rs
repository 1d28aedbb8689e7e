//! Stepping through the elements of a list, the entries of a mapping and the
//! head of a variant.

use vstd::prelude::*;
use crate::cursor::{
    after_enter, after_read, after_record, item_at, list_of, name_of, VDeserializer,
};
use crate::error::{ExecError, Expected, Failure};
use crate::scope::Scope;
use crate::value::{Tag, Value};

verus! {

/// The elements of a list that are still to be decoded.
pub struct SeqVisitor {
    pub n: usize,
}

impl SeqVisitor {
    /// A walk over `n` elements.
    pub fn new(n: usize) -> (access: SeqVisitor)
        ensures
            access.n == n,
    {
        SeqVisitor { n }
    }

    /// How many elements are still to come.
    pub fn size_hint(&self) -> (hint: Option<usize>)
        ensures
            hint == Some(self.n),
    {
        Some(self.n)
    }

    /// Moves on to the next element. Says whether there is one: if so, it is
    /// the current value and is to be decoded next.
    pub fn next_element(&mut self) -> (more: bool)
        ensures
            more == (old(self).n > 0),
            final(self).n == if old(self).n > 0 {
                old(self).n - 1
            } else {
                0
            },
    {
        if self.n == 0 {
            false
        } else {
            self.n -= 1;
            true
        }
    }
}

/// The entries of a mapping, or the named fields of a record, that are still
/// to be decoded. An entry of a mapping is a list of its own, which is
/// entered for the key and left after the value; the fields of a record
/// stand as keys and values in turn in one list.
pub struct MapVisitor {
    pub n: usize,
    pub is_struct: bool,
}

impl MapVisitor {
    /// A walk over `n` entries.
    pub fn new(n: usize, is_struct: bool) -> (access: MapVisitor)
        ensures
            access.n == n,
            access.is_struct == is_struct,
    {
        MapVisitor { n, is_struct }
    }

    /// How many entries are still to come.
    pub fn size_hint(&self) -> (hint: Option<usize>)
        ensures
            hint == Some(self.n),
    {
        Some(self.n)
    }

    /// Moves on to the next entry. Says whether there is one: if so, its key
    /// is the current value and is to be decoded next. The entry of a
    /// mapping has to be a list, and is entered.
    pub fn next_key(&mut self, de: &mut VDeserializer<'_>) -> (r: Result<bool, ExecError>)
        requires
            old(de).wf(),
            old(de).stack().len() > 0,
        ensures
            final(de).wf(),
            final(de).scope() == old(de).scope(),
            final(self).is_struct == old(self).is_struct,
            final(self).n == if old(self).n > 0 {
                old(self).n - 1
            } else {
                0
            },
            final(de).stack() == if old(self).n > 0 && !old(self).is_struct {
                after_enter(old(de).stack())
            } else {
                old(de).stack()
            },
            match r {
                Ok(more) => more == (old(self).n > 0) && (more && !old(self).is_struct ==> list_of(
                    old(de).current(),
                ) is Ok),
                Err(e) => old(self).n > 0 && !old(self).is_struct && list_of(old(de).current())
                    == Err::<Seq<Value>, Failure>(e@),
            },
    {
        if self.n == 0 {
            return Ok(false);
        }
        self.n -= 1;
        if !self.is_struct {
            match de.enter_seq() {
                Ok(_) => {},
                Err(e) => {
                    return Err(e);
                },
            }
        }
        Ok(true)
    }

    /// Ends an entry whose value has been decoded. The entry of a mapping is
    /// left, and has to be at its end.
    pub fn next_value(&self, de: &mut VDeserializer<'_>) -> (r: Result<(), ExecError>)
        requires
            old(de).wf(),
            !self.is_struct ==> old(de).stack().len() > 0 && old(de).stack().last() is Iteration,
        ensures
            final(de).wf(),
            final(de).scope() == old(de).scope(),
            final(de).stack() == if self.is_struct {
                old(de).stack()
            } else {
                old(de).stack().drop_last()
            },
            match r {
                Ok(_) => self.is_struct || old(de).stack().last().exhausted(),
                Err(e) => !self.is_struct && !old(de).stack().last().exhausted() && e@
                    == Failure::ExtraneousElements,
            },
    {
        if self.is_struct {
            Ok(())
        } else {
            de.leave_seq()
        }
    }
}

/// The head of a variant: its name, and whether it is written as a list,
/// whose further elements are then the payload.
pub struct VariantAccess<'de> {
    pub name: &'de str,
    pub listed: bool,
}

impl<'de> VariantAccess<'de> {
    /// Accepts the variant as one that carries nothing: it has to be
    /// written as its bare name.
    pub fn unit_variant(&self) -> (r: Result<(), ExecError>)
        ensures
            match r {
                Ok(_) => !self.listed,
                Err(e) => self.listed && e@ == (Failure::TypeMismatch {
                    expected: Expected::Name,
                    found: Tag::List,
                }),
            },
    {
        if self.listed {
            Err(ExecError::expected(Expected::Name, Tag::List))
        } else {
            Ok(())
        }
    }

    /// Accepts the variant as one that carries something: it has to be
    /// written as a list, whose elements after the name are then read.
    pub fn data_variant(&self) -> (r: Result<(), ExecError>)
        ensures
            match r {
                Ok(_) => self.listed,
                Err(e) => !self.listed && e@ == (Failure::TypeMismatch {
                    expected: Expected::List,
                    found: Tag::Name,
                }),
            },
    {
        if self.listed {
            Ok(())
        } else {
            Err(ExecError::expected(Expected::List, Tag::Name))
        }
    }
}

/// The name of the variant that the current value is written as, and
/// whether it is written as a list: a list is led by the name, any other
/// value is the bare name.
pub open spec fn variant_of(scope: Scope, cur: Option<Value>) -> Result<
    (Seq<char>, bool),
    Failure,
> {
    match cur {
        Some(Value::List(items)) => match name_of(item_at(items@, 0)) {
            Ok(symbol) => Ok((scope.text(symbol), true)),
            Err(e) => Err(e),
        },
        _ => match name_of(cur) {
            Ok(symbol) => Ok((scope.text(symbol), false)),
            Err(e) => Err(e),
        },
    }
}

impl<'de> VDeserializer<'de> {
    /// Reads the head of a variant. A list is entered and the name that
    /// leads it read; any other value is read as the bare name.
    pub fn variant_seed(&mut self) -> (r: Result<VariantAccess<'de>, ExecError>)
        requires
            old(self).wf(),
            old(self).stack().len() > 0,
        ensures
            final(self).wf(),
            final(self).scope() == old(self).scope(),
            final(self).stack() == if list_of(old(self).current()) is Ok {
                after_record(old(self).stack())
            } else {
                after_read(old(self).stack())
            },
            match r {
                Ok(head) => variant_of(old(self).scope(), old(self).current()) == Ok::<
                    (Seq<char>, bool),
                    Failure,
                >((head.name@, head.listed)),
                Err(e) => variant_of(old(self).scope(), old(self).current()) == Err::<
                    (Seq<char>, bool),
                    Failure,
                >(e@),
            },
    {
        let listed: bool = match self.peek_value() {
            Ok(Value::List(_)) => true,
            Ok(_) => false,
            Err(e) => {
                return Err(e);
            },
        };
        if listed {
            match self.enter_seq() {
                Ok(_) => {},
                Err(e) => {
                    return Err(e);
                },
            }
        }
        match self.read_name() {
            Ok(name) => Ok(VariantAccess { name, listed }),
            Err(e) => Err(e),
        }
    }
}

} // verus!
