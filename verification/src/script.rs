//! # Syntax of paradox script
//!
//! A script is a list of units. The syntax is close to JSON, with some
//! differences:
//! - `=` separates keys and values;
//! - there are other separators, `?=` and the relations `>`, `<`, `>=`,
//!   `<=`, `==`;
//! - nothing separates one unit from the next but whitespace;
//! - a value may stand without a key;
//! - keys and values are mostly bare words; a few are enclosed in `""`.
//!
//! This file holds the tree that a script is read into and what the tree
//! stands for; the files below it hold the tokens, the grammar, the writer
//! and the laws that tie them together.

use crate::text::{all_in_class, CharClass};
use vstd::prelude::*;

pub mod grammar;
pub mod laws;
pub mod lexer;
pub mod parser;
pub mod render;
pub mod types;

pub use parser::{parse_script, parse_script_with_depth, DEFAULT_MAX_DEPTH};

verus! {

/// A script is a list of units.
#[derive(Debug, PartialEq, Eq)]
pub struct Units(pub Vec<Unit>);

/// Unit. May be:
/// - a key-value pair: `key = value`;
/// - a single value: `value`;
/// - a questioned value: `key ?= value`;
/// - a relation: `key > value`, `key < value`, `key >= value`,
///   `key <= value`, `key == value`, with the operator kept as written.
#[derive(Debug, PartialEq, Eq)]
pub enum Unit {
    KeyValue(Key, Value),
    SingleValue(Value),
    Questioned(Key, Value),
    Relation(Key, String, Value),
}

/// Entry. Can be:
/// - an identifier: a bare word, not enclosed in quotes;
/// - a raw string: a string enclosed in quotes, kept with its quotes.
///
/// Entries appear as keys and as values. What an entry means depends on
/// where the script is used, and is not decided here.
#[derive(Debug, PartialEq, Eq)]
pub enum Entry {
    Ident(String),
    RawStr(String),
}

/// Key. An entry.
#[derive(Debug, PartialEq, Eq)]
pub struct Key(pub Entry);

/// Value. Can be:
/// - empty: `{}`;
/// - primitive: a single entry;
/// - recursive: `{ <units> }`.
#[derive(Debug, PartialEq, Eq)]
pub enum Value {
    Empty,
    Primitive(Entry),
    Units(Box<Units>),
}

/// What an [`Entry`] stands for.
pub enum EntryModel {
    Ident(Seq<char>),
    RawStr(Seq<char>),
}

/// What a [`Value`] stands for.
pub enum ValueModel {
    Empty,
    Primitive(EntryModel),
    Units(Seq<UnitModel>),
}

/// What a [`Unit`] stands for. A script stands for a sequence of these.
pub enum UnitModel {
    KeyValue(EntryModel, ValueModel),
    SingleValue(ValueModel),
    Questioned(EntryModel, ValueModel),
    Relation(EntryModel, Seq<char>, ValueModel),
}

/// What a value stands for.
pub open spec fn value_model(v: Value) -> ValueModel
    decreases v,
{
    match v {
        Value::Empty => ValueModel::Empty,
        Value::Primitive(e) => ValueModel::Primitive(e@),
        Value::Units(us) => ValueModel::Units(units_model(*us)),
    }
}

/// What a unit stands for.
pub open spec fn unit_model(u: Unit) -> UnitModel
    decreases u,
{
    match u {
        Unit::KeyValue(k, v) => UnitModel::KeyValue(k@, value_model(v)),
        Unit::SingleValue(v) => UnitModel::SingleValue(value_model(v)),
        Unit::Questioned(k, v) => UnitModel::Questioned(k@, value_model(v)),
        Unit::Relation(k, r, v) => UnitModel::Relation(k@, r@, value_model(v)),
    }
}

/// What a script stands for: what its units stand for, in their order.
pub open spec fn units_model(us: Units) -> Seq<UnitModel>
    decreases us,
{
    Seq::new(
        us.0@.len(),
        |i: int|
            if 0 <= i < us.0@.len() {
                unit_model(us.0@[i])
            } else {
                arbitrary()
            },
    )
}

/// What a sequence of units stands for.
pub open spec fn unit_models(us: Seq<Unit>) -> Seq<UnitModel> {
    Seq::new(us.len(), |i: int| unit_model(us[i]))
}

impl View for Entry {
    type V = EntryModel;

    open spec fn view(&self) -> EntryModel {
        match self {
            Entry::Ident(s) => EntryModel::Ident(s@),
            Entry::RawStr(s) => EntryModel::RawStr(s@),
        }
    }
}

impl View for Key {
    type V = EntryModel;

    open spec fn view(&self) -> EntryModel {
        self.0@
    }
}

impl View for Value {
    type V = ValueModel;

    open spec fn view(&self) -> ValueModel {
        value_model(*self)
    }
}

impl View for Unit {
    type V = UnitModel;

    open spec fn view(&self) -> UnitModel {
        unit_model(*self)
    }
}

impl View for Units {
    type V = Seq<UnitModel>;

    open spec fn view(&self) -> Seq<UnitModel> {
        units_model(*self)
    }
}

impl core::ops::Deref for Units {
    type Target = Vec<Unit>;

    fn deref(&self) -> (r: &Vec<Unit>)
        ensures
            *r == self.0,
    {
        &self.0
    }
}

impl core::ops::DerefMut for Units {
    fn deref_mut(&mut self) -> (r: &mut Vec<Unit>)
        ensures
            *r == old(self).0,
            final(self).0 == *final(r),
    {
        &mut self.0
    }
}

impl core::ops::Deref for Key {
    type Target = Entry;

    fn deref(&self) -> (r: &Entry)
        ensures
            *r == self.0,
    {
        &self.0
    }
}

impl core::ops::DerefMut for Key {
    fn deref_mut(&mut self) -> (r: &mut Entry)
        ensures
            *r == old(self).0,
            final(self).0 == *final(r),
    {
        &mut self.0
    }
}

impl EntryModel {
    /// The text of the entry, as it stands in a script.
    pub open spec fn text(self) -> Seq<char> {
        match self {
            EntryModel::Ident(s) => s,
            EntryModel::RawStr(s) => s,
        }
    }

    /// An identifier is a bare word; a raw string is a quoted literal.
    pub open spec fn wf(self) -> bool {
        match self {
            EntryModel::Ident(s) => is_word(s),
            EntryModel::RawStr(s) => is_quoted(s),
        }
    }
}

/// A bare word: one character or more, none of them whitespace, a quote
/// mark, a brace or an operator character.
pub open spec fn is_word(s: Seq<char>) -> bool {
    s.len() > 0 && all_in_class(s, CharClass::Word)
}

/// A quoted literal: a quote mark, any characters other than the quote
/// mark, and a quote mark.
pub open spec fn is_quoted(s: Seq<char>) -> bool {
    &&& s.len() >= 2
    &&& s[0] == '"'
    &&& s[s.len() - 1] == '"'
    &&& all_in_class(s.subrange(1, s.len() - 1), CharClass::Quoted)
}

/// The operators of a relation: `>`, `<`, `>=`, `<=`, `==`.
pub open spec fn is_relation(op: Seq<char>) -> bool {
    op == seq!['>'] || op == seq!['<'] || op == seq!['>', '='] || op == seq!['<', '='] || op
        == seq!['=', '=']
}

/// Whether a value can be written in a script and read back: its entries
/// are well formed, and a block holds at least one unit (with none it is
/// `Empty`).
pub open spec fn wf_value(v: ValueModel) -> bool
    decreases v,
{
    match v {
        ValueModel::Empty => true,
        ValueModel::Primitive(e) => e.wf(),
        ValueModel::Units(us) => us.len() > 0 && wf_units(us),
    }
}

/// Whether a unit can be written in a script and read back: key and value
/// are well formed, and the operator of a relation is one of the five.
pub open spec fn wf_unit(u: UnitModel) -> bool
    decreases u,
{
    match u {
        UnitModel::KeyValue(k, v) => k.wf() && wf_value(v),
        UnitModel::SingleValue(v) => wf_value(v),
        UnitModel::Questioned(k, v) => k.wf() && wf_value(v),
        UnitModel::Relation(k, op, v) => k.wf() && is_relation(op) && wf_value(v),
    }
}

/// Whether every unit of a script is well formed.
pub open spec fn wf_units(us: Seq<UnitModel>) -> bool
    decreases us,
{
    forall|i: int| 0 <= i < us.len() ==> wf_unit(#[trigger] us[i])
}

/// The value of a unit.
pub open spec fn unit_value(u: UnitModel) -> ValueModel {
    match u {
        UnitModel::KeyValue(_, v) => v,
        UnitModel::SingleValue(v) => v,
        UnitModel::Questioned(_, v) => v,
        UnitModel::Relation(_, _, v) => v,
    }
}

/// Whether the blocks of a value are nested at most `depth` deep. A value
/// that holds no block is nested 0 deep.
pub open spec fn value_within(v: ValueModel, depth: nat) -> bool
    decreases v,
{
    match v {
        ValueModel::Units(us) => depth > 0 && units_within(us, (depth - 1) as nat),
        _ => true,
    }
}

/// Whether the blocks of a script are nested at most `depth` deep.
pub open spec fn units_within(us: Seq<UnitModel>, depth: nat) -> bool
    decreases us,
{
    forall|i: int| 0 <= i < us.len() ==> value_within(unit_value(#[trigger] us[i]), depth)
}

} // verus!
