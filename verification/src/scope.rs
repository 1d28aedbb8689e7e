//! The symbol table that gives a symbol its text.

use vstd::prelude::*;
use crate::value::{Name, Value};

verus! {

/// A symbol table: the text of each interned symbol, by index.
#[derive(Clone, Debug)]
pub struct Scope {
    pub names: Vec<String>,
}

impl Scope {
    /// Whether the table has an entry for `name`.
    pub open spec fn has(&self, name: Name) -> bool {
        (name.id as int) < self.names@.len()
    }

    /// The text of `name`, for a name that the table has.
    pub open spec fn text(&self, name: Name) -> Seq<char> {
        self.names@[name.id as int]@
    }

    /// Whether the table has an entry for every symbol in `value`, at any depth.
    pub open spec fn covers(&self, value: Value) -> bool
        decreases value,
    {
        match value {
            Value::Keyword(name) => self.has(name),
            Value::Name(name) => self.has(name),
            Value::List(items) => forall|i: int|
                0 <= i < items@.len() ==> self.covers(#[trigger] items@[i]),
            _ => true,
        }
    }

    /// A table with the given texts, the symbol of index `i` standing for `names[i]`.
    pub fn new(names: Vec<String>) -> (scope: Scope)
        ensures
            scope.names == names,
    {
        Scope { names }
    }

    /// Whether the table has an entry for `name`.
    pub fn contains(&self, name: Name) -> (b: bool)
        ensures
            b == self.has(name),
    {
        (name.id as usize) < self.names.len()
    }

    /// The text of a symbol that the table has.
    pub fn resolve(&self, name: Name) -> (text: &str)
        requires
            self.has(name),
        ensures
            text@ == self.text(name),
    {
        self.names[name.id as usize].as_str()
    }

    /// Whether the table has an entry for every symbol in `value`, at any depth.
    pub fn resolves(&self, value: &Value) -> (b: bool)
        ensures
            b == self.covers(*value),
        decreases value,
    {
        match value {
            Value::Keyword(name) => self.contains(*name),
            Value::Name(name) => self.contains(*name),
            Value::List(items) => {
                let mut i: usize = 0;
                while i < items.len()
                    invariant
                        i <= items.len(),
                        *value == Value::List(*items),
                        forall|j: int| 0 <= j < i ==> self.covers(#[trigger] items@[j]),
                    decreases items.len() - i,
                {
                    proof {
                        vstd::std_specs::vec::axiom_vec_index_decreases(*items, i as int);
                        assert(decreases_to!(*value => value->List_0));
                    }
                    if !self.resolves(&items[i]) {
                        assert(!self.covers(items@[i as int]));
                        return false;
                    }
                    i += 1;
                }
                true
            },
            _ => true,
        }
    }
}

} // verus!
