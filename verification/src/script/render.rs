//! Writing a script back to text: one unit per line, the units of a block
//! one level deeper than the unit that holds the block.

use super::{unit_value, Entry, Unit, UnitModel, Units, Value, ValueModel};
use vstd::prelude::*;

verus! {

/// The indentation of a line at `level`: four spaces for each level.
pub open spec fn indent(level: usize) -> Seq<char> {
    Seq::new(4 * level as nat, |i: int| ' ')
}

/// One level deeper; the deepest level stays where it is.
pub open spec fn deeper(level: usize) -> usize {
    if level < usize::MAX {
        (level + 1) as usize
    } else {
        level
    }
}

/// One level less deep; level 0 stays where it is.
pub open spec fn shallower(level: usize) -> usize {
    if level > 0 {
        (level - 1) as usize
    } else {
        level
    }
}

/// The text of a value that belongs to a unit at the level above `level`:
/// `{}`, the entry, or a block. A block opens with `{` at the end of the
/// unit's line, holds its units at `level`, one on each line, and closes
/// with a `}` that is indented like the unit.
pub open spec fn render_value(v: ValueModel, level: usize) -> Seq<char>
    decreases v,
{
    match v {
        ValueModel::Empty => seq!['{', '}'],
        ValueModel::Primitive(e) => e.text(),
        ValueModel::Units(us) => seq!['{', '\n'] + render_units(us, level) + indent(
            shallower(level),
        ) + seq!['}'],
    }
}

/// What stands before the value of a unit: nothing, or the key and the
/// operator, with a space on each side of the operator.
pub open spec fn unit_head(u: UnitModel) -> Seq<char> {
    match u {
        UnitModel::KeyValue(k, _) => k.text() + seq![' ', '=', ' '],
        UnitModel::SingleValue(_) => Seq::empty(),
        UnitModel::Questioned(k, _) => k.text() + seq![' ', '?', '=', ' '],
        UnitModel::Relation(k, op, _) => k.text() + seq![' '] + op + seq![' '],
    }
}

/// The text of a unit at `level`, without the end of its last line.
pub open spec fn render_unit(u: UnitModel, level: usize) -> Seq<char>
    decreases u,
{
    indent(level) + unit_head(u) + match u {
        UnitModel::KeyValue(_, v) => render_value(v, deeper(level)),
        UnitModel::SingleValue(v) => render_value(v, deeper(level)),
        UnitModel::Questioned(_, v) => render_value(v, deeper(level)),
        UnitModel::Relation(_, _, v) => render_value(v, deeper(level)),
    }
}

/// The text of a script at `level`: its units in their order, each one
/// followed by a line feed.
pub open spec fn render_units(us: Seq<UnitModel>, level: usize) -> Seq<char>
    decreases us,
{
    if us.len() == 0 {
        Seq::empty()
    } else {
        render_units(us.drop_last(), level) + render_unit(us.last(), level) + seq!['\n']
    }
}

/// Appends the indentation of a line at `level`.
pub fn push_indent(out: &mut String, level: usize)
    ensures
        final(out)@ == old(out)@ + indent(level),
{
    let mut i: usize = 0;
    assert(out@ =~= old(out)@ + indent(0));
    while i < level
        invariant
            i <= level,
            out@ == old(out)@ + indent(i),
        decreases level - i,
    {
        out.append("    ");
        proof {
            reveal_strlit("    ");
            assert(out@ =~= old(out)@ + indent((i + 1) as usize));
        }
        i += 1;
    }
}

impl Entry {
    /// The text of the entry, as it stands in a script.
    pub fn as_str(&self) -> (s: &str)
        ensures
            s@ == self@.text(),
    {
        match self {
            Entry::Ident(s) => s.as_str(),
            Entry::RawStr(s) => s.as_str(),
        }
    }
}

impl Value {
    /// Appends the text of the value to `out`. `level` is one more than the
    /// level of the unit that the value belongs to.
    pub fn recursive_write(&self, out: &mut String, level: usize)
        ensures
            final(out)@ == old(out)@ + render_value(self@, level),
        decreases self,
    {
        match self {
            Value::Empty => {
                out.append("{}");
                proof {
                    reveal_strlit("{}");
                    assert(out@ =~= old(out)@ + render_value(self@, level));
                }
            },
            Value::Primitive(v) => {
                out.append(v.as_str());
            },
            Value::Units(v) => {
                out.append("{\n");
                v.recursive_write(out, level);
                push_indent(out, level.saturating_sub(1));
                out.append("}");
                proof {
                    reveal_strlit("{\n");
                    reveal_strlit("}");
                    assert(out@ =~= old(out)@ + render_value(self@, level));
                }
            },
        }
    }
}

impl Unit {
    /// The value of the unit.
    pub fn value(&self) -> (v: &Value)
        ensures
            v@ == unit_value(self@),
    {
        match self {
            Unit::KeyValue(_, v) => v,
            Unit::SingleValue(v) => v,
            Unit::Questioned(_, v) => v,
            Unit::Relation(_, _, v) => v,
        }
    }

    /// Appends the text of the unit to `out`, indented as a line at `level`
    /// and without the end of its last line.
    pub fn recursive_write(&self, out: &mut String, level: usize)
        ensures
            final(out)@ == old(out)@ + render_unit(self@, level),
        decreases self,
    {
        push_indent(out, level);
        let inner: usize = level.saturating_add(1);
        match self {
            Unit::KeyValue(k, v) => {
                out.append(k.0.as_str());
                out.append(" = ");
                v.recursive_write(out, inner);
                proof {
                    reveal_strlit(" = ");
                    assert(out@ =~= old(out)@ + render_unit(self@, level));
                }
            },
            Unit::SingleValue(v) => {
                v.recursive_write(out, inner);
                proof {
                    assert(out@ =~= old(out)@ + render_unit(self@, level));
                }
            },
            Unit::Questioned(k, v) => {
                out.append(k.0.as_str());
                out.append(" ?= ");
                v.recursive_write(out, inner);
                proof {
                    reveal_strlit(" ?= ");
                    assert(out@ =~= old(out)@ + render_unit(self@, level));
                }
            },
            Unit::Relation(k, r, v) => {
                out.append(k.0.as_str());
                out.append(" ");
                out.append(r.as_str());
                out.append(" ");
                v.recursive_write(out, inner);
                proof {
                    reveal_strlit(" ");
                    assert(out@ =~= old(out)@ + render_unit(self@, level));
                }
            },
        }
    }
}

impl Units {
    /// Appends the text of the script to `out`: each unit as a line at
    /// `level`, in the order in which the script holds them.
    pub fn recursive_write(&self, out: &mut String, level: usize)
        ensures
            final(out)@ == old(out)@ + render_units(self@, level),
        decreases self,
    {
        let n: usize = self.0.len();
        let mut i: usize = 0;
        assert(out@ =~= old(out)@ + render_units(self@.take(0), level));
        while i < n
            invariant
                n == self.0.len(),
                i <= n,
                out@ == old(out)@ + render_units(self@.take(i as int), level),
            decreases n - i,
        {
            self.0[i].recursive_write(out, level);
            out.push('\n');
            proof {
                let next = self@.take(i + 1);
                assert(next.drop_last() =~= self@.take(i as int));
                assert(next.last() == self.0[i as int]@);
                assert(out@ =~= old(out)@ + render_units(next, level));
            }
            i += 1;
        }
        assert(self@.take(n as int) =~= self@);
    }

    /// The text of the script: what [`Units::recursive_write`] writes at
    /// level 0.
    pub fn render(&self) -> (s: String)
        ensures
            s@ == render_units(self@, 0),
    {
        let mut s = String::new();
        self.recursive_write(&mut s, 0);
        assert(s@ =~= render_units(self@, 0));
        s
    }
}

} // verus!
