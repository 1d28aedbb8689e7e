//! Driving the traversal engine by a target shape.

use vstd::prelude::*;
use crate::access::{MapVisitor, SeqVisitor, VariantAccess};
use crate::cursor::{advance, item_at, lemma_after_record, list_of, Cursor, VDeserializer};
use crate::decode::{
    decode, decode_each, decode_entries, decode_fields, decode_pairs, enumeration, find_field,
    find_variant, items_of, lemma_each_fails, lemma_entries_fail, lemma_fields_fail,
    lemma_find_field, lemma_find_variant, lemma_pairs_fail, mapping, named, payload_of, positional,
    sequence, structure, tuple, tuple_struct, unit_struct,
};
use crate::error::{ExecError, Failure};
use crate::scope::Scope;
use crate::shape::{
    entries_of, hosts_of, lemma_view_mapping, lemma_view_record, lemma_view_sequence, members_of,
    Decoded, Field, Host, Payload, Shape, Variant,
};
use crate::value::Value;

verus! {

impl<'de> VDeserializer<'de> {
    /// Decodes the current value into `shape`, and reads it. After a failure
    /// the decode is over: the stack is well formed, and no more is said of it.
    pub fn deserialize(&mut self, shape: &Shape) -> (r: Result<Decoded, ExecError>)
        requires
            old(self).wf(),
            old(self).stack().len() > 0,
        ensures
            final(self).wf(),
            final(self).scope() == old(self).scope(),
            match r {
                Ok(d) => {
                    &&& decode(old(self).scope(), *shape, old(self).current()) == Ok::<
                        Host,
                        Failure,
                    >(d@)
                    &&& final(self).stack() == advance(old(self).stack())
                },
                Err(e) => decode(old(self).scope(), *shape, old(self).current()) == Err::<
                    Host,
                    Failure,
                >(e@),
            },
        decreases *shape, 1nat, 0nat,
    {
        match shape {
            Shape::Any => Err(self.deserialize_any()),
            Shape::Bool => match self.deserialize_bool() {
                Ok(b) => Ok(Decoded::Bool(b)),
                Err(e) => Err(e),
            },
            Shape::Char => match self.deserialize_char() {
                Ok(c) => Ok(Decoded::Char(c)),
                Err(e) => Err(e),
            },
            Shape::Integer(width) => match self.deserialize_integer(*width) {
                Ok(n) => Ok(Decoded::Integer(n)),
                Err(e) => Err(e),
            },
            Shape::Float => match self.deserialize_f64() {
                Ok(bits) => Ok(Decoded::Float(bits)),
                Err(e) => Err(e),
            },
            Shape::Str => match self.deserialize_str() {
                Ok(s) => Ok(Decoded::Text(s.to_owned())),
                Err(e) => Err(e),
            },
            Shape::String => match self.deserialize_string() {
                Ok(s) => Ok(Decoded::Text(s)),
                Err(e) => Err(e),
            },
            Shape::Unit => match self.deserialize_unit() {
                Ok(_) => Ok(Decoded::Unit),
                Err(e) => Err(e),
            },
            Shape::Identifier => match self.deserialize_identifier() {
                Ok(s) => Ok(Decoded::Text(s.to_owned())),
                Err(e) => Err(e),
            },
            Shape::Ignored => match self.deserialize_ignored_any() {
                Ok(_) => Ok(Decoded::Ignored),
                Err(e) => Err(e),
            },
            Shape::Optional(inner) => match self.deserialize_option() {
                Err(e) => Err(e),
                Ok(false) => Ok(Decoded::Absent),
                Ok(true) => match self.deserialize(inner) {
                    Ok(d) => Ok(Decoded::Present(Box::new(d))),
                    Err(e) => Err(e),
                },
            },
            Shape::Sequence(element) => match self.deserialize_seq(element) {
                Ok(items) => {
                    proof {
                        lemma_view_sequence(items);
                    }
                    Ok(Decoded::Sequence(items))
                },
                Err(e) => Err(e),
            },
            Shape::Tuple(shapes) => match self.deserialize_tuple(shapes) {
                Ok(items) => {
                    proof {
                        lemma_view_sequence(items);
                    }
                    Ok(Decoded::Sequence(items))
                },
                Err(e) => Err(e),
            },
            Shape::Mapping(entry) => match self.deserialize_map(entry) {
                Ok(entries) => {
                    proof {
                        lemma_view_mapping(entries);
                    }
                    Ok(Decoded::Mapping(entries))
                },
                Err(e) => Err(e),
            },
            Shape::UnitStruct(name) => match self.deserialize_unit_struct(name.as_str()) {
                Ok(_) => Ok(Decoded::Unit),
                Err(e) => Err(e),
            },
            Shape::TupleStruct(name, shapes) => match self.deserialize_tuple_struct(
                name.as_str(),
                shapes,
            ) {
                Ok(items) => {
                    proof {
                        lemma_view_sequence(items);
                    }
                    Ok(Decoded::Sequence(items))
                },
                Err(e) => Err(e),
            },
            Shape::Struct(name, fields) => match self.deserialize_struct(name.as_str(), fields) {
                Ok(entries) => {
                    proof {
                        lemma_view_record(entries);
                    }
                    Ok(Decoded::Record(entries))
                },
                Err(e) => Err(e),
            },
            Shape::Enum(name, variants) => match self.deserialize_enum(name.as_str(), variants) {
                Ok((index, payload)) => Ok(Decoded::Variant(index, Box::new(payload))),
                Err(e) => Err(e),
            },
        }
    }

    /// Decodes a list whose elements all have the shape `element`.
    pub fn deserialize_seq(&mut self, element: &Shape) -> (r: Result<Vec<Decoded>, ExecError>)
        requires
            old(self).wf(),
            old(self).stack().len() > 0,
        ensures
            final(self).wf(),
            final(self).scope() == old(self).scope(),
            match r {
                Ok(out) => {
                    &&& sequence(old(self).scope(), *element, old(self).current()) == Ok::<
                        Seq<Host>,
                        Failure,
                    >(hosts_of(out@))
                    &&& final(self).stack() == advance(old(self).stack())
                },
                Err(e) => sequence(old(self).scope(), *element, old(self).current()) == Err::<
                    Seq<Host>,
                    Failure,
                >(e@),
            },
        decreases *element, 3nat, 0nat,
    {
        let ghost scope = self.scope();
        let ghost cur = self.current();
        let ghost base = advance(self.stack());
        let n: usize = match self.enter_seq() {
            Ok(n) => n,
            Err(e) => {
                return Err(e);
            },
        };
        let ghost items = list_of(cur)->Ok_0;
        let mut access = SeqVisitor::new(n);
        let mut out: Vec<Decoded> = Vec::new();
        assert(hosts_of(out@) =~= Seq::<Host>::empty());
        loop
            invariant
                self.wf(),
                self.scope() == scope,
                scope == old(self).scope(),
                list_of(old(self).current()) == Ok::<Seq<Value>, Failure>(items),
                out@.len() + access.n == items.len(),
                self.stack() == base.push(Cursor::Iteration { items, pos: out@.len() as nat }),
                decode_each(scope, *element, items, out@.len() as nat) == Ok::<Seq<Host>, Failure>(
                    hosts_of(out@),
                ),
            ensures
                out@.len() == items.len(),
            decreases access.n,
        {
            if !access.next_element() {
                break;
            }
            let ghost k = out@.len() as nat;
            let ghost before = hosts_of(out@);
            assert(self.current() == item_at(items, k as int));
            match self.deserialize(element) {
                Ok(d) => {
                    out.push(d);
                    proof {
                        assert(hosts_of(out@) =~= before.push(d@));
                        assert(self.stack() =~= base.push(
                            Cursor::Iteration { items, pos: out@.len() as nat },
                        ));
                    }
                },
                Err(e) => {
                    proof {
                        lemma_each_fails(scope, *element, items, k + 1, items.len());
                    }
                    return Err(e);
                },
            }
        }
        match self.leave_seq() {
            Ok(_) => {
                assert(self.stack() =~= base);
                Ok(out)
            },
            Err(e) => Err(e),
        }
    }

    /// Decodes the positional fields that come next in the list on top of
    /// the stack, one for each of `shapes`.
    fn read_fields(&mut self, shapes: &Vec<Shape>) -> (r: Result<Vec<Decoded>, ExecError>)
        requires
            old(self).wf(),
            old(self).stack().len() > 0,
            old(self).stack().last() is Iteration,
        ensures
            final(self).wf(),
            final(self).scope() == old(self).scope(),
            match r {
                Ok(out) => {
                    &&& decode_fields(
                        old(self).scope(),
                        shapes@,
                        old(self).stack().last()->items,
                        old(self).stack().last()->pos as int,
                        shapes@.len(),
                    ) == Ok::<Seq<Host>, Failure>(hosts_of(out@))
                    &&& final(self).stack() == old(self).stack().drop_last().push(
                        Cursor::Iteration {
                            items: old(self).stack().last()->items,
                            pos: old(self).stack().last()->pos + shapes@.len(),
                        },
                    )
                },
                Err(e) => decode_fields(
                    old(self).scope(),
                    shapes@,
                    old(self).stack().last()->items,
                    old(self).stack().last()->pos as int,
                    shapes@.len(),
                ) == Err::<Seq<Host>, Failure>(e@),
            },
        decreases *shapes, 0nat, 0nat,
    {
        let ghost scope = self.scope();
        let ghost base = self.stack().drop_last();
        let ghost items = self.stack().last()->items;
        let ghost start = self.stack().last()->pos;
        let mut access = SeqVisitor::new(shapes.len());
        let mut out: Vec<Decoded> = Vec::new();
        assert(hosts_of(out@) =~= Seq::<Host>::empty());
        assert(self.stack() =~= base.push(Cursor::Iteration { items, pos: start }));
        loop
            invariant
                self.wf(),
                self.scope() == scope,
                scope == old(self).scope(),
                items == old(self).stack().last()->items,
                start == old(self).stack().last()->pos,
                out@.len() + access.n == shapes@.len(),
                self.stack() == base.push(Cursor::Iteration { items, pos: start + out@.len() }),
                decode_fields(scope, shapes@, items, start as int, out@.len() as nat) == Ok::<
                    Seq<Host>,
                    Failure,
                >(hosts_of(out@)),
            ensures
                out@.len() == shapes@.len(),
            decreases access.n,
        {
            if !access.next_element() {
                break;
            }
            let ghost k = out@.len() as nat;
            let ghost before = hosts_of(out@);
            assert(self.current() == item_at(items, (start + k) as int));
            proof {
                vstd::std_specs::vec::axiom_vec_index_decreases(*shapes, k as int);
            }
            match self.deserialize(&shapes[out.len()]) {
                Ok(d) => {
                    out.push(d);
                    proof {
                        assert(hosts_of(out@) =~= before.push(d@));
                        assert(self.stack() =~= base.push(
                            Cursor::Iteration { items, pos: start + out@.len() },
                        ));
                    }
                },
                Err(e) => {
                    proof {
                        lemma_fields_fail(
                            scope,
                            shapes@,
                            items,
                            start as int,
                            k + 1,
                            shapes@.len(),
                        );
                    }
                    return Err(e);
                },
            }
        }
        Ok(out)
    }

    /// Decodes a list that holds one element for each of `shapes`, in their
    /// order.
    pub fn deserialize_tuple(&mut self, shapes: &Vec<Shape>) -> (r: Result<Vec<Decoded>, ExecError>)
        requires
            old(self).wf(),
            old(self).stack().len() > 0,
        ensures
            final(self).wf(),
            final(self).scope() == old(self).scope(),
            match r {
                Ok(out) => {
                    &&& tuple(old(self).scope(), shapes@, old(self).current()) == Ok::<
                        Seq<Host>,
                        Failure,
                    >(hosts_of(out@))
                    &&& final(self).stack() == advance(old(self).stack())
                },
                Err(e) => tuple(old(self).scope(), shapes@, old(self).current()) == Err::<
                    Seq<Host>,
                    Failure,
                >(e@),
            },
        decreases *shapes, 2nat, 0nat,
    {
        let ghost base = advance(self.stack());
        match self.enter_seq() {
            Ok(_) => {},
            Err(e) => {
                return Err(e);
            },
        }
        let out = match self.read_fields(shapes) {
            Ok(out) => out,
            Err(e) => {
                return Err(e);
            },
        };
        match self.leave_seq() {
            Ok(_) => {
                assert(self.stack() =~= base);
                Ok(out)
            },
            Err(e) => Err(e),
        }
    }

    /// Decodes a mapping: a list of entries, each a list of a key, of the
    /// first shape of `entry`, and a value, of the second. The entries come
    /// in the order in which the list holds them.
    pub fn deserialize_map(&mut self, entry: &(Shape, Shape)) -> (r: Result<
        Vec<(Decoded, Decoded)>,
        ExecError,
    >)
        requires
            old(self).wf(),
            old(self).stack().len() > 0,
        ensures
            final(self).wf(),
            final(self).scope() == old(self).scope(),
            match r {
                Ok(out) => {
                    &&& mapping(old(self).scope(), *entry, old(self).current()) == Ok::<
                        Seq<(Host, Host)>,
                        Failure,
                    >(entries_of(out@))
                    &&& final(self).stack() == advance(old(self).stack())
                },
                Err(e) => mapping(old(self).scope(), *entry, old(self).current()) == Err::<
                    Seq<(Host, Host)>,
                    Failure,
                >(e@),
            },
        decreases *entry, 3nat, 0nat,
    {
        let ghost scope = self.scope();
        let ghost cur = self.current();
        let ghost base = advance(self.stack());
        let n: usize = match self.enter_seq() {
            Ok(n) => n,
            Err(e) => {
                return Err(e);
            },
        };
        let ghost items = list_of(cur)->Ok_0;
        let mut access = MapVisitor::new(n, false);
        let mut out: Vec<(Decoded, Decoded)> = Vec::new();
        assert(entries_of(out@) =~= Seq::<(Host, Host)>::empty());
        loop
            invariant
                self.wf(),
                self.scope() == scope,
                !access.is_struct,
                scope == old(self).scope(),
                list_of(old(self).current()) == Ok::<Seq<Value>, Failure>(items),
                out@.len() + access.n == items.len(),
                self.stack() == base.push(Cursor::Iteration { items, pos: out@.len() as nat }),
                decode_entries(scope, *entry, items, out@.len() as nat) == Ok::<
                    Seq<(Host, Host)>,
                    Failure,
                >(entries_of(out@)),
            ensures
                out@.len() == items.len(),
            decreases access.n,
        {
            let ghost k = out@.len() as nat;
            let ghost before = entries_of(out@);
            let ghost outer = self.stack();
            assert(self.current() == item_at(items, k as int));
            match access.next_key(self) {
                Ok(true) => {},
                Ok(false) => {
                    break;
                },
                Err(e) => {
                    proof {
                        lemma_entries_fail(scope, *entry, items, k + 1, items.len());
                    }
                    return Err(e);
                },
            }
            let ghost pair = list_of(item_at(items, k as int))->Ok_0;
            let ghost inner = advance(outer);
            assert(self.stack() == inner.push(Cursor::Iteration { items: pair, pos: 0 }));
            assert(self.current() == item_at(pair, 0));
            let key = match self.deserialize(&entry.0) {
                Ok(key) => key,
                Err(e) => {
                    proof {
                        lemma_entries_fail(scope, *entry, items, k + 1, items.len());
                    }
                    return Err(e);
                },
            };
            assert(self.stack() =~= inner.push(Cursor::Iteration { items: pair, pos: 1 }));
            assert(self.current() == item_at(pair, 1));
            let value = match self.deserialize(&entry.1) {
                Ok(value) => value,
                Err(e) => {
                    proof {
                        lemma_entries_fail(scope, *entry, items, k + 1, items.len());
                    }
                    return Err(e);
                },
            };
            assert(self.stack() =~= inner.push(Cursor::Iteration { items: pair, pos: 2 }));
            match access.next_value(self) {
                Ok(_) => {},
                Err(e) => {
                    proof {
                        lemma_entries_fail(scope, *entry, items, k + 1, items.len());
                    }
                    return Err(e);
                },
            }
            out.push((key, value));
            proof {
                assert(entries_of(out@) =~= before.push((key@, value@)));
                assert(self.stack() =~= base.push(
                    Cursor::Iteration { items, pos: out@.len() as nat },
                ));
            }
        }
        match self.leave_seq() {
            Ok(_) => {
                assert(self.stack() =~= base);
                Ok(out)
            },
            Err(e) => Err(e),
        }
    }

    /// Decodes a record without fields, registered as `name`: a list of the
    /// name and the unit.
    pub fn deserialize_unit_struct(&mut self, name: &str) -> (r: Result<(), ExecError>)
        requires
            old(self).wf(),
            old(self).stack().len() > 0,
        ensures
            final(self).wf(),
            final(self).scope() == old(self).scope(),
            match r {
                Ok(_) => {
                    &&& unit_struct(old(self).scope(), name@, old(self).current()) is Ok
                    &&& final(self).stack() == advance(old(self).stack())
                },
                Err(e) => unit_struct(old(self).scope(), name@, old(self).current()) == Err::<
                    (),
                    Failure,
                >(e@),
            },
    {
        let ghost base = advance(self.stack());
        let ghost items = items_of(self.current());
        match self.begin_struct(name) {
            Ok(_) => {},
            Err(e) => {
                return Err(e);
            },
        }
        proof {
            lemma_after_record(old(self).stack());
        }
        assert(self.current() == item_at(items, 1));
        match self.deserialize_unit() {
            Ok(_) => {},
            Err(e) => {
                return Err(e);
            },
        }
        assert(self.stack() =~= base.push(Cursor::Iteration { items, pos: 2 }));
        match self.leave_seq() {
            Ok(_) => {
                assert(self.stack() =~= base);
                Ok(())
            },
            Err(e) => Err(e),
        }
    }

    /// Decodes a record with positional fields, registered as `name`: a list
    /// of the name and of one element for each of `shapes`, in their order.
    /// A record of one field is written in the same way.
    pub fn deserialize_tuple_struct(&mut self, name: &str, shapes: &Vec<Shape>) -> (r: Result<
        Vec<Decoded>,
        ExecError,
    >)
        requires
            old(self).wf(),
            old(self).stack().len() > 0,
        ensures
            final(self).wf(),
            final(self).scope() == old(self).scope(),
            match r {
                Ok(out) => {
                    &&& tuple_struct(old(self).scope(), name@, shapes@, old(self).current()) == Ok::<
                        Seq<Host>,
                        Failure,
                    >(hosts_of(out@))
                    &&& final(self).stack() == advance(old(self).stack())
                },
                Err(e) => tuple_struct(old(self).scope(), name@, shapes@, old(self).current())
                    == Err::<Seq<Host>, Failure>(e@),
            },
        decreases *shapes, 2nat, 0nat,
    {
        let ghost base = advance(self.stack());
        match self.enter_tuple_struct(name) {
            Ok(_) => {},
            Err(e) => {
                return Err(e);
            },
        }
        proof {
            lemma_after_record(old(self).stack());
        }
        let out = match self.read_fields(shapes) {
            Ok(out) => out,
            Err(e) => {
                return Err(e);
            },
        };
        match self.leave_seq() {
            Ok(_) => {
                assert(self.stack() =~= base);
                Ok(out)
            },
            Err(e) => Err(e),
        }
    }

    /// Decodes a record with named fields, registered as `name`: a list of
    /// the name and of one list of alternating keys and values. Each field
    /// comes with its index in `fields`, in the order in which it is written.
    pub fn deserialize_struct(&mut self, name: &str, fields: &Vec<Field>) -> (r: Result<
        Vec<(usize, Decoded)>,
        ExecError,
    >)
        requires
            old(self).wf(),
            old(self).stack().len() > 0,
        ensures
            final(self).wf(),
            final(self).scope() == old(self).scope(),
            match r {
                Ok(out) => {
                    &&& structure(old(self).scope(), name@, fields@, old(self).current()) == Ok::<
                        Seq<(int, Host)>,
                        Failure,
                    >(members_of(out@))
                    &&& final(self).stack() == advance(old(self).stack())
                },
                Err(e) => structure(old(self).scope(), name@, fields@, old(self).current())
                    == Err::<Seq<(int, Host)>, Failure>(e@),
            },
        decreases *fields, 2nat, 0nat,
    {
        let ghost base = advance(self.stack());
        let ghost items = items_of(self.current());
        match self.begin_struct(name) {
            Ok(_) => {},
            Err(e) => {
                return Err(e);
            },
        }
        proof {
            lemma_after_record(old(self).stack());
        }
        assert(self.current() == item_at(items, 1));
        let out = match self.read_named(fields) {
            Ok(out) => out,
            Err(e) => {
                return Err(e);
            },
        };
        assert(self.stack() =~= base.push(Cursor::Iteration { items, pos: 2 }));
        match self.leave_seq() {
            Ok(_) => {
                assert(self.stack() =~= base);
                Ok(out)
            },
            Err(e) => Err(e),
        }
    }

    /// Decodes named fields: the current value is one list of alternating
    /// keys and values, which is entered, read to its end and left.
    fn read_named(&mut self, fields: &Vec<Field>) -> (r: Result<Vec<(usize, Decoded)>, ExecError>)
        requires
            old(self).wf(),
            old(self).stack().len() > 0,
        ensures
            final(self).wf(),
            final(self).scope() == old(self).scope(),
            match r {
                Ok(out) => {
                    &&& named(old(self).scope(), fields@, old(self).current()) == Ok::<
                        Seq<(int, Host)>,
                        Failure,
                    >(members_of(out@))
                    &&& final(self).stack() == advance(old(self).stack())
                },
                Err(e) => named(old(self).scope(), fields@, old(self).current()) == Err::<
                    Seq<(int, Host)>,
                    Failure,
                >(e@),
            },
        decreases *fields, 1nat, 0nat,
    {
        let ghost base = advance(self.stack());
        let n: usize = match self.enter_fields() {
            Ok(n) => n,
            Err(e) => {
                return Err(e);
            },
        };
        let out = match self.read_pairs(fields, n) {
            Ok(out) => out,
            Err(e) => {
                return Err(e);
            },
        };
        match self.leave_seq() {
            Ok(_) => {
                assert(self.stack() =~= base);
                Ok(out)
            },
            Err(e) => Err(e),
        }
    }

    /// Decodes the `n` pairs of a key and a value that the list on top of
    /// the stack holds. The value of a key that names no field is dropped.
    fn read_pairs(&mut self, fields: &Vec<Field>, n: usize) -> (r: Result<
        Vec<(usize, Decoded)>,
        ExecError,
    >)
        requires
            old(self).wf(),
            old(self).stack().len() > 0,
            old(self).stack().last() matches Cursor::Iteration { items, pos } && pos == 0
                && items.len() == 2 * n,
        ensures
            final(self).wf(),
            final(self).scope() == old(self).scope(),
            match r {
                Ok(out) => {
                    &&& decode_pairs(
                        old(self).scope(),
                        fields@,
                        old(self).stack().last()->items,
                        n as nat,
                    ) == Ok::<Seq<(int, Host)>, Failure>(members_of(out@))
                    &&& final(self).stack() == old(self).stack().drop_last().push(
                        Cursor::Iteration {
                            items: old(self).stack().last()->items,
                            pos: (2 * n) as nat,
                        },
                    )
                },
                Err(e) => decode_pairs(
                    old(self).scope(),
                    fields@,
                    old(self).stack().last()->items,
                    n as nat,
                ) == Err::<Seq<(int, Host)>, Failure>(e@),
            },
        decreases *fields, 0nat, 0nat,
    {
        let ghost scope = self.scope();
        let ghost base = self.stack().drop_last();
        let ghost items = self.stack().last()->items;
        let mut access = MapVisitor::new(n, true);
        let mut out: Vec<(usize, Decoded)> = Vec::new();
        assert(members_of(out@) =~= Seq::<(int, Host)>::empty());
        assert(self.stack() =~= base.push(Cursor::Iteration { items, pos: 0 }));
        loop
            invariant
                self.wf(),
                self.scope() == scope,
                access.is_struct,
                access.n <= n,
                scope == old(self).scope(),
                items == old(self).stack().last()->items,
                items.len() == 2 * n,
                self.stack() == base.push(
                    Cursor::Iteration { items, pos: (2 * (n - access.n)) as nat },
                ),
                decode_pairs(scope, fields@, items, (n - access.n) as nat) == Ok::<
                    Seq<(int, Host)>,
                    Failure,
                >(members_of(out@)),
            ensures
                access.n == 0,
            decreases access.n,
        {
            let ghost k = (n - access.n) as nat;
            let ghost before = members_of(out@);
            match access.next_key(self) {
                Ok(true) => {},
                Ok(false) => {
                    break;
                },
                Err(e) => {
                    return Err(e);
                },
            }
            assert(self.current() == item_at(items, (2 * k) as int));
            let key: &str = match self.deserialize_identifier() {
                Ok(key) => key,
                Err(e) => {
                    proof {
                        lemma_pairs_fail(scope, fields@, items, k + 1, n as nat);
                    }
                    return Err(e);
                },
            };
            assert(self.stack() =~= base.push(
                Cursor::Iteration { items, pos: (2 * k + 1) as nat },
            ));
            assert(self.current() == item_at(items, (2 * k + 1) as int));
            match find_field_index(fields, key) {
                Some(index) => {
                    proof {
                        lemma_find_field(fields@, key@, 0);
                        vstd::std_specs::vec::axiom_vec_index_decreases(*fields, index as int);
                        assert(decreases_to!(fields[index as int] => fields[index as int].shape));
                    }
                    match self.deserialize(&fields[index].shape) {
                        Ok(d) => {
                            out.push((index, d));
                            proof {
                                assert(members_of(out@) =~= before.push(
                                    (index as int, d@),
                                ));
                            }
                        },
                        Err(e) => {
                            proof {
                                lemma_pairs_fail(scope, fields@, items, k + 1, n as nat);
                            }
                            return Err(e);
                        },
                    }
                },
                None => match self.deserialize_ignored_any() {
                    Ok(_) => {},
                    Err(e) => {
                        proof {
                            lemma_pairs_fail(scope, fields@, items, k + 1, n as nat);
                        }
                        return Err(e);
                    },
                },
            }
            assert(self.stack() =~= base.push(
                Cursor::Iteration { items, pos: (2 * (n - access.n)) as nat },
            ));
            match access.next_value(self) {
                Ok(_) => {},
                Err(e) => {
                    return Err(e);
                },
            }
        }
        Ok(out)
    }

    /// Decodes one of the alternatives `variants` of an enum registered as
    /// `name`: gives the index of the variant that the value names, and what
    /// it carries. A variant that carries nothing is written as its bare
    /// name; every other one as a list of the name and what it carries.
    pub fn deserialize_enum(&mut self, name: &str, variants: &Vec<Variant>) -> (r: Result<
        (usize, Decoded),
        ExecError,
    >)
        requires
            old(self).wf(),
            old(self).stack().len() > 0,
        ensures
            final(self).wf(),
            final(self).scope() == old(self).scope(),
            match r {
                Ok((index, payload)) => {
                    &&& enumeration(old(self).scope(), name@, variants@, old(self).current())
                        == Ok::<(int, Host), Failure>((index as int, payload@))
                    &&& final(self).stack() == advance(old(self).stack())
                },
                Err(e) => enumeration(old(self).scope(), name@, variants@, old(self).current())
                    == Err::<(int, Host), Failure>(e@),
            },
        decreases *variants, 3nat, 0nat,
    {
        let ghost base = advance(self.stack());
        let head = match self.variant_seed() {
            Ok(head) => head,
            Err(e) => {
                return Err(e);
            },
        };
        proof {
            if head.listed {
                lemma_after_record(old(self).stack());
            }
        }
        let index: usize = match find_variant_index(variants, head.name) {
            Some(index) => index,
            None => {
                return Err(
                    ExecError::NameMismatch {
                        expected: name.to_owned(),
                        found: head.name.to_owned(),
                    },
                );
            },
        };
        proof {
            lemma_find_variant(variants@, head.name@, 0);
            vstd::std_specs::vec::axiom_vec_index_decreases(*variants, index as int);
            assert(decreases_to!(variants[index as int] => variants[index as int].payload));
        }
        match self.read_payload(&variants[index].payload, &head) {
            Ok(payload) => {
                assert(head.listed ==> self.stack() =~= base);
                Ok((index, payload))
            },
            Err(e) => Err(e),
        }
    }

    /// Decodes what a variant carries, after its name. For a variant that
    /// is written as a list, the list is on top of the stack with the name
    /// read, and is left.
    fn read_payload(&mut self, payload: &Payload, head: &VariantAccess<'de>) -> (r: Result<
        Decoded,
        ExecError,
    >)
        requires
            old(self).wf(),
            head.listed ==> old(self).stack().len() > 0 && (old(self).stack().last() matches Cursor::Iteration {
                pos,
                ..
            } && pos == 1),
        ensures
            final(self).wf(),
            final(self).scope() == old(self).scope(),
            match r {
                Ok(d) => {
                    &&& payload_of(
                        old(self).scope(),
                        *payload,
                        head.listed,
                        old(self).stack().last()->items,
                    ) == Ok::<Host, Failure>(d@)
                    &&& final(self).stack() == if head.listed {
                        old(self).stack().drop_last()
                    } else {
                        old(self).stack()
                    }
                },
                Err(e) => payload_of(
                    old(self).scope(),
                    *payload,
                    head.listed,
                    old(self).stack().last()->items,
                ) == Err::<Host, Failure>(e@),
            },
        decreases *payload, 2nat, 0nat,
    {
        match payload {
            Payload::Unit => match head.unit_variant() {
                Ok(_) => Ok(Decoded::Unit),
                Err(e) => Err(e),
            },
            Payload::Newtype(shape) => match head.data_variant() {
                Ok(_) => self.newtype_variant(shape),
                Err(e) => Err(e),
            },
            Payload::Tuple(shapes) => match head.data_variant() {
                Ok(_) => match self.tuple_variant(shapes) {
                    Ok(items) => {
                        proof {
                            lemma_view_sequence(items);
                        }
                        Ok(Decoded::Sequence(items))
                    },
                    Err(e) => Err(e),
                },
                Err(e) => Err(e),
            },
            Payload::Struct(fields) => match head.data_variant() {
                Ok(_) => match self.struct_variant(fields) {
                    Ok(entries) => {
                        proof {
                            lemma_view_record(entries);
                        }
                        Ok(Decoded::Record(entries))
                    },
                    Err(e) => Err(e),
                },
                Err(e) => Err(e),
            },
        }
    }

    /// Decodes the one value that a variant carries and leaves the
    /// variant's list, which is on top of the stack with the name read.
    pub fn newtype_variant(&mut self, shape: &Shape) -> (r: Result<Decoded, ExecError>)
        requires
            old(self).wf(),
            old(self).stack().len() > 0,
            old(self).stack().last() matches Cursor::Iteration { pos, .. } && pos == 1,
        ensures
            final(self).wf(),
            final(self).scope() == old(self).scope(),
            match r {
                Ok(d) => {
                    &&& crate::decode::left(
                        decode(
                            old(self).scope(),
                            *shape,
                            item_at(old(self).stack().last()->items, 1),
                        ),
                        old(self).stack().last()->items.len() as int,
                        2,
                    ) == Ok::<Host, Failure>(d@)
                    &&& final(self).stack() == old(self).stack().drop_last()
                },
                Err(e) => crate::decode::left(
                    decode(old(self).scope(), *shape, item_at(old(self).stack().last()->items, 1)),
                    old(self).stack().last()->items.len() as int,
                    2,
                ) == Err::<Host, Failure>(e@),
            },
        decreases *shape, 2nat, 0nat,
    {
        let ghost base = self.stack().drop_last();
        let ghost items = self.stack().last()->items;
        let d = match self.deserialize(shape) {
            Ok(d) => d,
            Err(e) => {
                return Err(e);
            },
        };
        assert(self.stack() =~= base.push(Cursor::Iteration { items, pos: 2 }));
        match self.leave_seq() {
            Ok(_) => {
                assert(self.stack() =~= base);
                Ok(d)
            },
            Err(e) => Err(e),
        }
    }

    /// Decodes the values that a variant carries, one for each of `shapes`,
    /// and leaves the variant's list, which is on top of the stack with the
    /// name read.
    pub fn tuple_variant(&mut self, shapes: &Vec<Shape>) -> (r: Result<Vec<Decoded>, ExecError>)
        requires
            old(self).wf(),
            old(self).stack().len() > 0,
            old(self).stack().last() matches Cursor::Iteration { pos, .. } && pos == 1,
        ensures
            final(self).wf(),
            final(self).scope() == old(self).scope(),
            match r {
                Ok(out) => {
                    &&& positional(old(self).scope(), shapes@, old(self).stack().last()->items, 1)
                        == Ok::<Seq<Host>, Failure>(hosts_of(out@))
                    &&& final(self).stack() == old(self).stack().drop_last()
                },
                Err(e) => positional(old(self).scope(), shapes@, old(self).stack().last()->items, 1)
                    == Err::<Seq<Host>, Failure>(e@),
            },
        decreases *shapes, 2nat, 0nat,
    {
        let ghost base = self.stack().drop_last();
        let out = match self.read_fields(shapes) {
            Ok(out) => out,
            Err(e) => {
                return Err(e);
            },
        };
        match self.leave_seq() {
            Ok(_) => {
                assert(self.stack() =~= base);
                Ok(out)
            },
            Err(e) => Err(e),
        }
    }

    /// Decodes the named fields that a variant carries, written as one list
    /// of alternating keys and values, and leaves the variant's list, which
    /// is on top of the stack with the name read. Both lists are left: the
    /// stack is as it was before the variant was entered, less the variant.
    pub fn struct_variant(&mut self, fields: &Vec<Field>) -> (r: Result<
        Vec<(usize, Decoded)>,
        ExecError,
    >)
        requires
            old(self).wf(),
            old(self).stack().len() > 0,
            old(self).stack().last() matches Cursor::Iteration { pos, .. } && pos == 1,
        ensures
            final(self).wf(),
            final(self).scope() == old(self).scope(),
            match r {
                Ok(out) => {
                    &&& crate::decode::left(
                        named(old(self).scope(), fields@, item_at(old(self).stack().last()->items, 1)),
                        old(self).stack().last()->items.len() as int,
                        2,
                    ) == Ok::<Seq<(int, Host)>, Failure>(members_of(out@))
                    &&& final(self).stack() == old(self).stack().drop_last()
                },
                Err(e) => crate::decode::left(
                    named(old(self).scope(), fields@, item_at(old(self).stack().last()->items, 1)),
                    old(self).stack().last()->items.len() as int,
                    2,
                ) == Err::<Seq<(int, Host)>, Failure>(e@),
            },
        decreases *fields, 2nat, 0nat,
    {
        let ghost base = self.stack().drop_last();
        let ghost items = self.stack().last()->items;
        let out = match self.read_named(fields) {
            Ok(out) => out,
            Err(e) => {
                return Err(e);
            },
        };
        assert(self.stack() =~= base.push(Cursor::Iteration { items, pos: 2 }));
        match self.leave_seq() {
            Ok(_) => {
                assert(self.stack() =~= base);
                Ok(out)
            },
            Err(e) => Err(e),
        }
    }
}

/// Decodes `value` into `shape`, resolving symbols in `scope`. The decode
/// starts with the one value on the stack and ends, where it succeeds, with
/// the stack empty: every value has been read and every list left.
pub fn decode_value(scope: &Scope, value: &Value, shape: &Shape) -> (r: Result<Decoded, ExecError>)
    requires
        scope.covers(*value),
    ensures
        match r {
            Ok(d) => decode(*scope, *shape, Some(*value)) == Ok::<Host, Failure>(d@),
            Err(e) => decode(*scope, *shape, Some(*value)) == Err::<Host, Failure>(e@),
        },
{
    let mut de = VDeserializer::new(scope, value);
    match de.deserialize(shape) {
        Ok(d) => {
            assert(de.stack() =~= Seq::<Cursor>::empty());
            de.finish();
            Ok(d)
        },
        Err(e) => Err(e),
    }
}

/// The index of the first of `fields` whose name is `key`.
pub fn find_field_index(fields: &Vec<Field>, key: &str) -> (r: Option<usize>)
    ensures
        match r {
            Some(index) => find_field(fields@, key@, 0) == Some(index as int),
            None => find_field(fields@, key@, 0) is None,
        },
{
    let wanted: String = key.to_owned();
    let mut i: usize = 0;
    while i < fields.len()
        invariant
            i <= fields.len(),
            wanted@ == key@,
            find_field(fields@, key@, 0) == find_field(fields@, key@, i as int),
        decreases fields.len() - i,
    {
        if fields[i].name == wanted {
            return Some(i);
        }
        i += 1;
    }
    None
}

/// The index of the first of `variants` whose name is `name`.
pub fn find_variant_index(variants: &Vec<Variant>, name: &str) -> (r: Option<usize>)
    ensures
        match r {
            Some(index) => find_variant(variants@, name@, 0) == Some(index as int),
            None => find_variant(variants@, name@, 0) is None,
        },
{
    let wanted: String = name.to_owned();
    let mut i: usize = 0;
    while i < variants.len()
        invariant
            i <= variants.len(),
            wanted@ == name@,
            find_variant(variants@, name@, 0) == find_variant(variants@, name@, i as int),
        decreases variants.len() - i,
    {
        if variants[i].name == wanted {
            return Some(i);
        }
        i += 1;
    }
    None
}

} // verus!
