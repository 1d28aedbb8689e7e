//! The traversal engine: a stack of read positions over the value tree.

use vstd::prelude::*;
use crate::error::{ExecError, Expected, Failure};
use crate::scope::Scope;
use crate::value::{Name, Value};

verus! {

/// One entry of the stack, as the contracts see it.
pub enum Cursor {
    /// One value, which the next read takes, removing the entry.
    Single(Value),
    /// A list and how many of its elements have been read.
    Iteration { items: Seq<Value>, pos: nat },
}

impl Cursor {
    /// The value that the next read gives, if any is left.
    pub open spec fn current(self) -> Option<Value> {
        match self {
            Cursor::Single(v) => Some(v),
            Cursor::Iteration { items, pos } => if pos < items.len() {
                Some(items[pos as int])
            } else {
                None
            },
        }
    }

    /// Whether this is a list all of whose elements have been read.
    pub open spec fn exhausted(self) -> bool {
        self matches Cursor::Iteration { items, pos } && pos == items.len()
    }

    /// The position is inside the list or at its end, and `scope` has every
    /// symbol of the values that can still be reached.
    pub open spec fn wf(self, scope: Scope) -> bool {
        match self {
            Cursor::Single(v) => scope.covers(v),
            Cursor::Iteration { items, pos } => {
                &&& pos <= items.len()
                &&& forall|i: int| 0 <= i < items.len() ==> scope.covers(#[trigger] items[i])
            },
        }
    }
}

/// The stack after the read of one value from its last entry: a single value
/// is gone, a list has moved on by one.
pub open spec fn advance(stack: Seq<Cursor>) -> Seq<Cursor>
    recommends
        stack.len() > 0,
{
    match stack.last() {
        Cursor::Single(_) => stack.drop_last(),
        Cursor::Iteration { items, pos } => stack.drop_last().push(
            Cursor::Iteration { items, pos: pos + 1 },
        ),
    }
}

/// The stack after an attempt to read one value: moved on where there was a
/// value to read, unchanged where the list on top was at its end.
pub open spec fn after_read(stack: Seq<Cursor>) -> Seq<Cursor>
    recommends
        stack.len() > 0,
{
    if stack.last().current() is Some {
        advance(stack)
    } else {
        stack
    }
}

/// What reading a value gives: the value, or the failure of a list at its end.
pub open spec fn read_of(cur: Option<Value>) -> Result<Value, Failure> {
    match cur {
        Some(v) => Ok(v),
        None => Err(Failure::EndOfSequence),
    }
}

/// What reading a name symbol gives.
pub open spec fn name_of(cur: Option<Value>) -> Result<Name, Failure> {
    match cur {
        Some(Value::Name(name)) => Ok(name),
        Some(v) => Err(Failure::TypeMismatch { expected: Expected::Name, found: v.tag() }),
        None => Err(Failure::EndOfSequence),
    }
}

/// What reading a list gives: its elements.
pub open spec fn list_of(cur: Option<Value>) -> Result<Seq<Value>, Failure> {
    match cur {
        Some(Value::List(items)) => Ok(items@),
        Some(v) => Err(Failure::TypeMismatch { expected: Expected::List, found: v.tag() }),
        None => Err(Failure::EndOfSequence),
    }
}

/// The stack after an attempt to enter the current value as a list: the list
/// is read and, where it was one, put on top at its start.
pub open spec fn after_enter(stack: Seq<Cursor>) -> Seq<Cursor>
    recommends
        stack.len() > 0,
{
    match list_of(stack.last().current()) {
        Ok(items) => advance(stack).push(Cursor::Iteration { items, pos: 0 }),
        Err(_) => after_read(stack),
    }
}

/// The element of `items` at `i`, if it has one there.
pub open spec fn item_at(items: Seq<Value>, i: int) -> Option<Value> {
    if 0 <= i < items.len() {
        Some(items[i])
    } else {
        None
    }
}

/// What opening a record registered as `name` gives, where the current value
/// is `cur`: the number of elements of its list, the name included. The
/// value has to be a list, its first element a name symbol, and the text of
/// that symbol `name`.
pub open spec fn record_of(scope: Scope, cur: Option<Value>, name: Seq<char>) -> Result<
    nat,
    Failure,
> {
    match list_of(cur) {
        Err(e) => Err(e),
        Ok(items) => match name_of(item_at(items, 0)) {
            Err(e) => Err(e),
            Ok(symbol) => if scope.text(symbol) == name {
                Ok(items.len())
            } else {
                Err(Failure::NameMismatch { expected: name, found: scope.text(symbol) })
            },
        },
    }
}

/// The stack after an attempt to open a record: its list is entered and,
/// where that went well, the first element read.
pub open spec fn after_record(stack: Seq<Cursor>) -> Seq<Cursor>
    recommends
        stack.len() > 0,
{
    if list_of(stack.last().current()) is Ok {
        after_read(after_enter(stack))
    } else {
        after_enter(stack)
    }
}

/// Where a list is led by a name symbol, entering it and reading the name
/// leaves the list on top of the stack with one element read.
pub proof fn lemma_after_record(stack: Seq<Cursor>)
    requires
        stack.len() > 0,
        list_of(stack.last().current()) matches Ok(items) && name_of(item_at(items, 0)) is Ok,
    ensures
        after_record(stack) == advance(stack).push(
            Cursor::Iteration { items: list_of(stack.last().current())->Ok_0, pos: 1 },
        ),
{
    let items = list_of(stack.last().current())->Ok_0;
    let entered = advance(stack).push(Cursor::Iteration { items, pos: 0 });
    assert(after_enter(stack) == entered);
    assert(entered.last().current() == Some(items[0]));
    assert(advance(entered) =~= advance(stack).push(Cursor::Iteration { items, pos: 1 }));
}

/// What entering a list of alternating keys and values gives, where the
/// current value is `cur`: the number of pairs. The value has to be a list
/// of even length.
pub open spec fn fields_of(cur: Option<Value>) -> Result<nat, Failure> {
    match list_of(cur) {
        Err(e) => Err(e),
        Ok(items) => if items.len() % 2 == 1 {
            Err(Failure::OddKeywordParams)
        } else {
            Ok(items.len() / 2)
        },
    }
}

/// One entry of the stack.
enum Frame<'de> {
    Value(&'de Value),
    List { items: &'de Vec<Value>, pos: usize },
}

impl<'de> Frame<'de> {
    spec fn model(self) -> Cursor {
        match self {
            Frame::Value(v) => Cursor::Single(*v),
            Frame::List { items, pos } => Cursor::Iteration { items: items@, pos: pos as nat },
        }
    }
}

/// The state of one decode: the symbol table and the stack of read positions.
pub struct VDeserializer<'de> {
    scope: &'de Scope,
    state: Vec<Frame<'de>>,
}

impl<'de> VDeserializer<'de> {
    /// The stack of read positions, the current one last.
    pub closed spec fn stack(&self) -> Seq<Cursor> {
        self.state@.map_values(|f: Frame<'de>| f.model())
    }

    /// The symbol table that symbols are resolved in.
    pub closed spec fn scope(&self) -> Scope {
        *self.scope
    }

    /// Every entry of the stack is well formed for the symbol table.
    pub open spec fn wf(&self) -> bool {
        forall|i: int| 0 <= i < self.stack().len() ==> (#[trigger] self.stack()[i]).wf(self.scope())
    }

    /// The value that the next read gives, if the entry on top has one.
    pub open spec fn current(&self) -> Option<Value> {
        self.stack().last().current()
    }

    /// A decode of `value`: the stack holds that one value.
    pub fn new(scope: &'de Scope, value: &'de Value) -> (de: VDeserializer<'de>)
        requires
            scope.covers(*value),
        ensures
            de.wf(),
            de.scope() == *scope,
            de.stack() == seq![Cursor::Single(*value)],
    {
        let mut state: Vec<Frame<'de>> = Vec::new();
        state.push(Frame::Value(value));
        let de = VDeserializer { scope, state };
        assert(de.stack() =~= seq![Cursor::Single(*value)]);
        de
    }

    /// The symbol table that symbols are resolved in.
    pub fn symbols(&self) -> (scope: &'de Scope)
        ensures
            *scope == self.scope(),
    {
        self.scope
    }

    /// The number of entries on the stack.
    pub fn depth(&self) -> (n: usize)
        ensures
            n == self.stack().len(),
    {
        self.state.len()
    }

    /// Whether the entry on top of the stack is a list that has been entered.
    pub fn in_seq(&self) -> (b: bool)
        ensures
            b == (self.stack().len() > 0 && self.stack().last() is Iteration),
    {
        let n: usize = self.state.len();
        if n == 0 {
            false
        } else {
            assert(self.stack().last() == self.state@[n - 1].model());
            match &self.state[n - 1] {
                Frame::Value(_) => false,
                Frame::List { .. } => true,
            }
        }
    }

    /// Ends the decode. Everything has been read and every list left, so the
    /// stack is empty.
    pub fn finish(&self)
        requires
            self.stack().len() == 0,
    {
    }

    /// Reads the current value: takes a single value off the stack, or moves
    /// the list on top on by one. Fails, and changes nothing, where that list
    /// is at its end.
    pub fn next_value(&mut self) -> (r: Result<&'de Value, ExecError>)
        requires
            old(self).wf(),
            old(self).stack().len() > 0,
        ensures
            final(self).wf(),
            final(self).scope() == old(self).scope(),
            final(self).stack() == after_read(old(self).stack()),
            match r {
                Ok(v) => read_of(old(self).current()) == Ok::<Value, Failure>(*v)
                    && final(self).scope().covers(*v),
                Err(e) => read_of(old(self).current()) == Err::<Value, Failure>(e@),
            },
    {
        let ghost before = self.stack();
        let top = self.state.pop().unwrap();
        proof {
            assert(before.last() == top.model());
            assert(before[before.len() - 1].wf(self.scope()));
            assert(self.stack() =~= before.drop_last());
        }
        match top {
            Frame::Value(v) => {
                proof {
                    Self::lemma_wf_prefix(before, self.stack(), self.scope());
                }
                Ok(v)
            },
            Frame::List { items, pos } => {
                if pos < items.len() {
                    let v = &items[pos];
                    self.state.push(Frame::List { items, pos: pos + 1 });
                    proof {
                        assert(self.stack() =~= advance(before));
                        Self::lemma_wf_replace_top(before, self.stack(), self.scope());
                    }
                    Ok(v)
                } else {
                    self.state.push(Frame::List { items, pos });
                    assert(self.stack() =~= before);
                    Err(ExecError::EndOfSequence)
                }
            },
        }
    }

    /// Looks at the current value without reading it.
    pub fn peek_value(&self) -> (r: Result<&'de Value, ExecError>)
        requires
            self.wf(),
            self.stack().len() > 0,
        ensures
            match r {
                Ok(v) => read_of(self.current()) == Ok::<Value, Failure>(*v)
                    && self.scope().covers(*v),
                Err(e) => read_of(self.current()) == Err::<Value, Failure>(e@),
            },
    {
        let n: usize = self.state.len();
        assert(self.stack().last() == self.state@[n - 1].model());
        assert(self.stack()[n - 1].wf(self.scope()));
        match &self.state[n - 1] {
            Frame::Value(v) => Ok(*v),
            Frame::List { items, pos } => {
                if *pos < items.len() {
                    Ok(&items[*pos])
                } else {
                    Err(ExecError::EndOfSequence)
                }
            },
        }
    }

    /// Reads the current value, which has to be a name symbol, and gives the
    /// text that the symbol table holds for it.
    pub fn read_name(&mut self) -> (r: Result<&'de str, ExecError>)
        requires
            old(self).wf(),
            old(self).stack().len() > 0,
        ensures
            final(self).wf(),
            final(self).scope() == old(self).scope(),
            final(self).stack() == after_read(old(self).stack()),
            match r {
                Ok(text) => name_of(old(self).current()) matches Ok(symbol) && text@
                    == old(self).scope().text(symbol),
                Err(e) => name_of(old(self).current()) == Err::<Name, Failure>(e@),
            },
    {
        match self.next_value() {
            Ok(Value::Name(name)) => Ok(self.scope.resolve(*name)),
            Ok(v) => Err(ExecError::expected(Expected::Name, v.tag())),
            Err(e) => Err(e),
        }
    }

    /// Reads the current value, which has to be a list, and puts the list on
    /// the stack, at its start. Gives the number of its elements.
    pub fn enter_seq(&mut self) -> (r: Result<usize, ExecError>)
        requires
            old(self).wf(),
            old(self).stack().len() > 0,
        ensures
            final(self).wf(),
            final(self).scope() == old(self).scope(),
            final(self).stack() == after_enter(old(self).stack()),
            match r {
                Ok(n) => list_of(old(self).current()) matches Ok(items) && items.len() == n,
                Err(e) => list_of(old(self).current()) == Err::<Seq<Value>, Failure>(e@),
            },
    {
        match self.next_value() {
            Ok(Value::List(items)) => {
                let ghost before = self.stack();
                self.state.push(Frame::List { items, pos: 0 });
                proof {
                    assert(self.stack() =~= before.push(
                        Cursor::Iteration { items: items@, pos: 0 },
                    ));
                    assert forall|i: int| 0 <= i < items@.len() implies self.scope().covers(
                        #[trigger] items@[i],
                    ) by {}
                    assert(before =~= self.stack().drop_last());
                    Self::lemma_wf_push(before, self.stack(), self.scope());
                }
                Ok(items.len())
            },
            Ok(v) => Err(ExecError::expected(Expected::List, v.tag())),
            Err(e) => Err(e),
        }
    }

    /// Leaves the list on top of the stack. Fails where elements of it are
    /// left unread; the list is off the stack either way.
    pub fn leave_seq(&mut self) -> (r: Result<(), ExecError>)
        requires
            old(self).wf(),
            old(self).stack().len() > 0,
            old(self).stack().last() is Iteration,
        ensures
            final(self).wf(),
            final(self).scope() == old(self).scope(),
            final(self).stack() == old(self).stack().drop_last(),
            match r {
                Ok(_) => old(self).stack().last().exhausted(),
                Err(e) => !old(self).stack().last().exhausted()
                    && e@ == Failure::ExtraneousElements,
            },
    {
        let ghost before = self.stack();
        let top = self.state.pop().unwrap();
        proof {
            assert(before.last() == top.model());
            assert(before[before.len() - 1].wf(self.scope()));
            assert(self.stack() =~= before.drop_last());
            Self::lemma_wf_prefix(before, self.stack(), self.scope());
        }
        match top {
            // Not reached: the entry on top is a list.
            Frame::Value(_) => Ok(()),
            Frame::List { items, pos } => {
                if pos < items.len() {
                    Err(ExecError::ExtraneousElements)
                } else {
                    Ok(())
                }
            },
        }
    }

    /// Enters the current value as the list of a record registered as
    /// `name` and reads the name that leads it. Gives the length of the list.
    fn open_record(&mut self, name: &str) -> (r: Result<usize, ExecError>)
        requires
            old(self).wf(),
            old(self).stack().len() > 0,
        ensures
            final(self).wf(),
            final(self).scope() == old(self).scope(),
            final(self).stack() == after_record(old(self).stack()),
            match r {
                Ok(n) => record_of(old(self).scope(), old(self).current(), name@) == Ok::<
                    nat,
                    Failure,
                >(n as nat),
                Err(e) => record_of(old(self).scope(), old(self).current(), name@) == Err::<
                    nat,
                    Failure,
                >(e@),
            },
    {
        let n: usize = match self.enter_seq() {
            Ok(n) => n,
            Err(e) => { return Err(e); },
        };
        let found: String = match self.read_name() {
            Ok(text) => text.to_owned(),
            Err(e) => { return Err(e); },
        };
        let expected: String = name.to_owned();
        if found == expected {
            Ok(n)
        } else {
            Err(ExecError::NameMismatch { expected, found })
        }
    }

    /// Opens a record registered as `name`: enters the current value, which
    /// has to be a list, and reads its first element, which has to be a name
    /// symbol whose text is `name`.
    pub fn begin_struct(&mut self, name: &str) -> (r: Result<(), ExecError>)
        requires
            old(self).wf(),
            old(self).stack().len() > 0,
        ensures
            final(self).wf(),
            final(self).scope() == old(self).scope(),
            final(self).stack() == after_record(old(self).stack()),
            match r {
                Ok(_) => record_of(old(self).scope(), old(self).current(), name@) is Ok,
                Err(e) => record_of(old(self).scope(), old(self).current(), name@) == Err::<
                    nat,
                    Failure,
                >(e@),
            },
    {
        match self.open_record(name) {
            Ok(_) => Ok(()),
            Err(e) => Err(e),
        }
    }

    /// Opens a record with named fields: opens the record, then enters the
    /// list of alternating keys and values that follows the name. Gives the
    /// number of pairs.
    pub fn enter_struct(&mut self, name: &str) -> (r: Result<usize, ExecError>)
        requires
            old(self).wf(),
            old(self).stack().len() > 0,
        ensures
            final(self).wf(),
            final(self).scope() == old(self).scope(),
            match record_of(old(self).scope(), old(self).current(), name@) {
                Err(f) => r matches Err(e) && e@ == f && final(self).stack() == after_record(
                    old(self).stack(),
                ),
                Ok(_) => {
                    &&& final(self).stack() == after_enter(after_record(old(self).stack()))
                    &&& match r {
                        Ok(n) => fields_of(after_record(old(self).stack()).last().current())
                            == Ok::<nat, Failure>(n as nat),
                        Err(e) => fields_of(after_record(old(self).stack()).last().current())
                            == Err::<nat, Failure>(e@),
                    }
                },
            },
    {
        match self.begin_struct(name) {
            Ok(_) => self.enter_fields(),
            Err(e) => Err(e),
        }
    }

    /// Opens a positional record: opens the record and leaves the fields to
    /// be read one by one after the name, from the same list. Gives the
    /// number of elements that follow the name.
    pub fn enter_tuple_struct(&mut self, name: &str) -> (r: Result<usize, ExecError>)
        requires
            old(self).wf(),
            old(self).stack().len() > 0,
        ensures
            final(self).wf(),
            final(self).scope() == old(self).scope(),
            final(self).stack() == after_record(old(self).stack()),
            match r {
                Ok(n) => record_of(old(self).scope(), old(self).current(), name@) == Ok::<
                    nat,
                    Failure,
                >((n + 1) as nat),
                Err(e) => record_of(old(self).scope(), old(self).current(), name@) == Err::<
                    nat,
                    Failure,
                >(e@),
            },
    {
        match self.open_record(name) {
            Ok(n) => Ok(n - 1),
            Err(e) => Err(e),
        }
    }

    /// Enters the current value as a list of alternating keys and values.
    /// Gives the number of pairs; fails where the length of the list is odd.
    pub fn enter_fields(&mut self) -> (r: Result<usize, ExecError>)
        requires
            old(self).wf(),
            old(self).stack().len() > 0,
        ensures
            final(self).wf(),
            final(self).scope() == old(self).scope(),
            final(self).stack() == after_enter(old(self).stack()),
            match r {
                Ok(n) => fields_of(old(self).current()) == Ok::<nat, Failure>(n as nat),
                Err(e) => fields_of(old(self).current()) == Err::<nat, Failure>(e@),
            },
    {
        match self.enter_seq() {
            Ok(n) => if n % 2 == 1 {
                Err(ExecError::OddKeywordParams)
            } else {
                Ok(n / 2)
            },
            Err(e) => Err(e),
        }
    }

    proof fn lemma_wf_prefix(before: Seq<Cursor>, after: Seq<Cursor>, scope: Scope)
        requires
            before.len() > 0,
            after == before.drop_last(),
            forall|i: int| 0 <= i < before.len() ==> (#[trigger] before[i]).wf(scope),
        ensures
            forall|i: int| 0 <= i < after.len() ==> (#[trigger] after[i]).wf(scope),
    {
        assert forall|i: int| 0 <= i < after.len() implies (#[trigger] after[i]).wf(scope) by {
            assert(after[i] == before[i]);
        }
    }

    proof fn lemma_wf_push(before: Seq<Cursor>, after: Seq<Cursor>, scope: Scope)
        requires
            after.len() > 0,
            before == after.drop_last(),
            after.last().wf(scope),
            forall|i: int| 0 <= i < before.len() ==> (#[trigger] before[i]).wf(scope),
        ensures
            forall|i: int| 0 <= i < after.len() ==> (#[trigger] after[i]).wf(scope),
    {
        assert forall|i: int| 0 <= i < after.len() implies (#[trigger] after[i]).wf(scope) by {
            if i < before.len() {
                assert(after[i] == before[i]);
            }
        }
    }

    proof fn lemma_wf_replace_top(before: Seq<Cursor>, after: Seq<Cursor>, scope: Scope)
        requires
            before.len() > 0,
            before.last().current() is Some,
            after == advance(before),
            forall|i: int| 0 <= i < before.len() ==> (#[trigger] before[i]).wf(scope),
        ensures
            forall|i: int| 0 <= i < after.len() ==> (#[trigger] after[i]).wf(scope),
    {
        assert(before[before.len() - 1].wf(scope));
        assert forall|i: int| 0 <= i < after.len() implies (#[trigger] after[i]).wf(scope) by {
            if i < before.len() - 1 {
                assert(after[i] == before[i]);
            }
        }
    }
}

} // verus!
