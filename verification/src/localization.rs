//! # Syntax of paradox localization file
//!
//! A localization file is a list of lines. The first line that is not
//! blank names the language, e.g. `l_english:`. Every other line that is
//! not blank is an entry: a name, a colon, an optional number, and a quoted
//! text, e.g. `ABC:0 "This is ABC"`. What the number means is not known;
//! it is kept as it is written.
//!
//! This file holds the list that a localization file is read into and the
//! writer; the files below it hold the reader and the laws that tie the
//! two together.

use crate::text::{all_in_class, decimal, push_decimal, CharClass};
use vstd::prelude::*;

pub mod laws;
pub mod parser;
pub mod types;

pub use parser::parse_localization;

verus! {

/// A localization file. Begin with a language specifier, following with a
/// list of localization entries.
#[derive(Clone, Debug, PartialEq, Eq)]
pub struct LocList {
    pub lang: Loc,
    pub entries: Vec<Entry>,
}

/// Language, e.g., `l_english`.
///
/// It is written, with a colon behind it, on the first line of a
/// localization file.
#[derive(Clone, Debug, PartialEq, Eq)]
pub struct Loc(pub String);

/// Entry, e.g., `ABC:0 "This is ABC"`.
///
/// All non-empty lines except the first line are entries. The value is
/// kept with its quotes.
#[derive(Clone, Debug, PartialEq, Eq)]
pub struct Entry {
    pub key: String,
    pub num: Option<u8>,
    pub value: String,
}

/// What an [`Entry`] stands for.
pub struct EntryModel {
    pub key: Seq<char>,
    pub num: Option<u8>,
    pub value: Seq<char>,
}

/// What a [`LocList`] stands for.
pub struct LocListModel {
    pub lang: Seq<char>,
    pub entries: Seq<EntryModel>,
}

/// What a sequence of entries stands for.
pub open spec fn entry_models(es: Seq<Entry>) -> Seq<EntryModel> {
    Seq::new(es.len(), |i: int| es[i]@)
}

impl View for Entry {
    type V = EntryModel;

    open spec fn view(&self) -> EntryModel {
        EntryModel { key: self.key@, num: self.num, value: self.value@ }
    }
}

impl View for Loc {
    type V = Seq<char>;

    open spec fn view(&self) -> Seq<char> {
        self.0@
    }
}

impl View for LocList {
    type V = LocListModel;

    open spec fn view(&self) -> LocListModel {
        LocListModel { lang: self.lang@, entries: entry_models(self.entries@) }
    }
}

impl core::ops::Deref for Loc {
    type Target = String;

    fn deref(&self) -> (r: &String)
        ensures
            *r == self.0,
    {
        &self.0
    }
}

impl core::ops::DerefMut for Loc {
    fn deref_mut(&mut self) -> (r: &mut String)
        ensures
            *r == old(self).0,
            final(self).0 == *final(r),
    {
        &mut self.0
    }
}

/// A name: one character or more, none of them whitespace, a colon, a
/// quote mark, a brace or one of `=`, `?`, `<`, `>`.
pub open spec fn is_name(s: Seq<char>) -> bool {
    s.len() > 0 && all_in_class(s, CharClass::Name)
}

/// A text in quotes: it starts and ends with a quote mark, each its own.
pub open spec fn is_in_quotes(s: Seq<char>) -> bool {
    s.len() >= 2 && s[0] == '"' && s[s.len() - 1] == '"'
}

/// Whether an entry can be written on a line and read back: the key is a
/// name, and the value is a text in quotes without a line feed.
pub open spec fn wf_entry(e: EntryModel) -> bool {
    is_name(e.key) && is_in_quotes(e.value) && all_in_class(e.value, CharClass::Line)
}

/// Whether a localization file can be written and read back: the language
/// is a name, and every entry is well formed.
pub open spec fn wf_loc(l: LocListModel) -> bool {
    is_name(l.lang) && forall|i: int| 0 <= i < l.entries.len() ==> wf_entry(#[trigger] l.entries[i])
}

/// The text of the language line, without the end of the line.
pub open spec fn render_lang(lang: Seq<char>) -> Seq<char> {
    lang + seq![':']
}

/// What stands between the colon and the value of an entry: the number and
/// a space, or a space alone.
pub open spec fn render_num(num: Option<u8>) -> Seq<char> {
    match num {
        Some(n) => decimal(n as nat) + seq![' '],
        None => seq![' '],
    }
}

/// The text of an entry: `<key>:<num> <value>`, or `<key>: <value>` where
/// there is no number.
pub open spec fn render_entry(e: EntryModel) -> Seq<char> {
    e.key + seq![':'] + render_num(e.num) + e.value
}

/// The lines of the entries, in their order: each entry behind two spaces,
/// and a line feed behind each.
pub open spec fn render_entries(es: Seq<EntryModel>) -> Seq<char>
    decreases es.len(),
{
    if es.len() == 0 {
        Seq::empty()
    } else {
        render_entries(es.drop_last()) + seq![' ', ' '] + render_entry(es.last()) + seq!['\n']
    }
}

/// The text of a localization file: the language line, then the lines of
/// the entries.
pub open spec fn render_loc(l: LocListModel) -> Seq<char> {
    render_lang(l.lang) + seq!['\n'] + render_entries(l.entries)
}

impl Loc {
    /// Appends the language line to `out`, without the end of the line.
    pub fn write(&self, out: &mut String)
        ensures
            final(out)@ == old(out)@ + render_lang(self@),
    {
        out.append(self.0.as_str());
        out.push(':');
        assert(out@ =~= old(out)@ + render_lang(self@));
    }
}

impl Entry {
    /// Appends the text of the entry to `out`, without indentation and
    /// without the end of the line.
    pub fn write(&self, out: &mut String)
        ensures
            final(out)@ == old(out)@ + render_entry(self@),
    {
        out.append(self.key.as_str());
        out.push(':');
        match self.num {
            Some(n) => {
                push_decimal(out, n as usize);
                out.push(' ');
            },
            None => {
                out.push(' ');
            },
        }
        out.append(self.value.as_str());
        assert(out@ =~= old(out)@ + render_entry(self@));
    }

    /// The text of the entry, as it stands on its line behind the
    /// indentation.
    pub fn render(&self) -> (s: String)
        ensures
            s@ == render_entry(self@),
    {
        let mut s = String::new();
        self.write(&mut s);
        assert(s@ =~= render_entry(self@));
        s
    }
}

impl LocList {
    /// Appends the text of the localization file to `out`: the language
    /// line, then one line for each entry, in the order in which the list
    /// holds them.
    pub fn write(&self, out: &mut String)
        ensures
            final(out)@ == old(out)@ + render_loc(self@),
    {
        self.lang.write(out);
        out.push('\n');
        let ghost start = out@;
        let ghost all = entry_models(self.entries@);
        let n: usize = self.entries.len();
        let mut i: usize = 0;
        assert(out@ =~= start + render_entries(all.take(0)));
        while i < n
            invariant
                n == self.entries.len(),
                i <= n,
                all == entry_models(self.entries@),
                out@ == start + render_entries(all.take(i as int)),
            decreases n - i,
        {
            out.append("  ");
            self.entries[i].write(out);
            out.push('\n');
            proof {
                reveal_strlit("  ");
                let next = all.take(i + 1);
                assert(next.drop_last() =~= all.take(i as int));
                assert(next.last() == self.entries[i as int]@);
                assert(out@ =~= start + render_entries(next));
            }
            i += 1;
        }
        assert(all.take(n as int) =~= all);
        assert(out@ =~= old(out)@ + render_loc(self@));
    }

    /// The text of the localization file.
    pub fn render(&self) -> (s: String)
        ensures
            s@ == render_loc(self@),
    {
        let mut s = String::new();
        self.write(&mut s);
        assert(s@ =~= render_loc(self@));
        s
    }
}

} // verus!
