//! Reading a localization file, line by line.
//!
//! ```text
//! file     := blank* language (blank | entry)*
//! language := space* name ":" space*
//! entry    := space* name ":" digit* space* quoted space*
//! ```
//!
//! A line ends at a line feed or at the end of the text. The digits behind
//! the colon are taken as far as they go, and are a number that fits in a
//! byte; what is left of the line, without the whitespace around it, is the
//! value, and it stands in quotes.

use super::laws::lemma_read_wf;
use super::{
    entry_models, is_in_quotes, wf_loc, Entry, EntryModel, Loc, LocList, LocListModel,
};
use crate::result::{Error, SyntaxError, SyntaxErrorKind};
use crate::text::{
    all_in_class, collect_string, digits_value, lemma_run_len_holds, read_byte, run_len,
    scan_run_within, scan_trim_end, to_chars, trim_end, trim_start, CharClass,
};
use vstd::prelude::*;

verus! {

/// The first line of `s`, without the line feed that ends it.
pub open spec fn first_line(s: Seq<char>) -> Seq<char> {
    s.take(run_len(s, CharClass::Line) as int)
}

/// How many characters the first line of `s` takes, with the line feed
/// that ends it, if one does.
pub open spec fn line_step(s: Seq<char>) -> nat {
    let n = run_len(s, CharClass::Line);
    if n < s.len() {
        n + 1
    } else {
        s.len()
    }
}

/// Whether a line holds nothing but whitespace.
pub open spec fn is_blank(line: Seq<char>) -> bool {
    all_in_class(line, CharClass::Space)
}

/// Whether a name and a colon stand at the start of `t`.
pub open spec fn starts_with_name(t: Seq<char>) -> bool {
    let k = run_len(t, CharClass::Name);
    k > 0 && k < t.len() && t[k as int] == ':'
}

/// The language that a line names, or why it names none.
pub open spec fn parse_lang_line(line: Seq<char>) -> Result<Seq<char>, SyntaxErrorKind> {
    let t = trim_start(line);
    let k = run_len(t, CharClass::Name);
    if starts_with_name(t) && is_blank(t.skip(k + 1 as int)) {
        Ok(t.take(k as int))
    } else {
        Err(SyntaxErrorKind::InvalidLanguage)
    }
}

/// The entry that a line holds, or why it holds none.
pub open spec fn parse_entry_line(line: Seq<char>) -> Result<EntryModel, SyntaxErrorKind> {
    let t = trim_start(line);
    let k = run_len(t, CharClass::Name);
    let u = t.skip(k + 1 as int);
    let d = run_len(u, CharClass::Digit);
    let tag = digits_value(u.take(d as int));
    let value = trim_end(trim_start(u.skip(d as int)));
    if !starts_with_name(t) {
        Err(SyntaxErrorKind::InvalidKey)
    } else if tag > 255 {
        Err(SyntaxErrorKind::TagOutOfRange)
    } else if !is_in_quotes(value) {
        Err(SyntaxErrorKind::InvalidValue)
    } else {
        Ok(
            EntryModel {
                key: t.take(k as int),
                num: if d == 0 {
                    None
                } else {
                    Some(tag as u8)
                },
                value,
            },
        )
    }
}

/// `es`, then what `rest` gives; the violation of `rest` if it is one.
pub open spec fn entries_then(es: Seq<EntryModel>, rest: Result<Seq<EntryModel>, SyntaxError>)
    -> Result<Seq<EntryModel>, SyntaxError> {
    match rest {
        Ok(more) => Ok(es + more),
        Err(e) => Err(e),
    }
}

/// The entries on the lines of `s`, where `s` starts at the offset `at` of
/// a text; or the first violation, at the offset of its line in that text.
pub open spec fn read_entries(s: Seq<char>, at: nat) -> Result<Seq<EntryModel>, SyntaxError>
    decreases s.len(),
{
    if s.len() == 0 {
        Ok(Seq::empty())
    } else {
        let line = first_line(s);
        let rest = s.skip(line_step(s) as int);
        if is_blank(line) {
            read_entries(rest, at + line_step(s))
        } else {
            match parse_entry_line(line) {
                Ok(e) => entries_then(seq![e], read_entries(rest, at + line_step(s))),
                Err(kind) => Err(SyntaxError { kind, position: at as usize }),
            }
        }
    }
}

/// The language and the entries that were read, or the violation.
pub open spec fn loc_with(lang: Seq<char>, entries: Result<Seq<EntryModel>, SyntaxError>)
    -> Result<LocListModel, SyntaxError> {
    match entries {
        Ok(es) => Ok(LocListModel { lang, entries: es }),
        Err(e) => Err(e),
    }
}

/// The localization file that `s` holds, where `s` starts at the offset
/// `at` of a text; or the first violation, at the offset of its line in
/// that text.
pub open spec fn read_localization(s: Seq<char>, at: nat) -> Result<LocListModel, SyntaxError>
    decreases s.len(),
{
    if s.len() == 0 {
        Err(SyntaxError { kind: SyntaxErrorKind::MissingLanguage, position: at as usize })
    } else {
        let line = first_line(s);
        let rest = s.skip(line_step(s) as int);
        if is_blank(line) {
            read_localization(rest, at + line_step(s))
        } else {
            match parse_lang_line(line) {
                Ok(lang) => loc_with(lang, read_entries(rest, at + line_step(s))),
                Err(kind) => Err(SyntaxError { kind, position: at as usize }),
            }
        }
    }
}

/// Finds the end of the name that the line between `from` and `to` starts
/// with, behind its leading whitespace; `None` where no name and colon
/// stand there.
pub fn scan_name(text: &Vec<char>, from: usize, to: usize) -> (r: Option<(usize, usize)>)
    requires
        from <= to <= text.len(),
    ensures
        ({
            let line = text@.subrange(from as int, to as int);
            let t = trim_start(line);
            match r {
                Some((start, end)) => {
                    &&& starts_with_name(t)
                    &&& from <= start < end < to
                    &&& text@.subrange(start as int, to as int) == t
                    &&& end - start == run_len(t, CharClass::Name)
                },
                None => !starts_with_name(t),
            }
        }),
{
    let start: usize = scan_run_within(text, from, to, CharClass::Space);
    let end: usize = scan_run_within(text, start, to, CharClass::Name);
    proof {
        let line = text@.subrange(from as int, to as int);
        assert(trim_start(line) =~= text@.subrange(start as int, to as int));
        if end < to {
            assert(trim_start(line)[end - start] == text@[end as int]);
        }
    }
    if end > start && end < to && text[end] == ':' {
        Some((start, end))
    } else {
        None
    }
}

/// Tells whether the text between `from` and `to` is nothing but
/// whitespace.
pub fn blank_between(text: &Vec<char>, from: usize, to: usize) -> (b: bool)
    requires
        from <= to <= text.len(),
    ensures
        b == is_blank(text@.subrange(from as int, to as int)),
{
    let end: usize = scan_run_within(text, from, to, CharClass::Space);
    proof {
        let s = text@.subrange(from as int, to as int);
        lemma_run_len_holds(s, CharClass::Space);
        if end == to {
            assert(s.take(s.len() as int) =~= s);
        }
    }
    end == to
}

/// Reads the line between `from` and `to` as the language line.
pub fn read_lang_line(text: &Vec<char>, from: usize, to: usize) -> (r: Result<
    Loc,
    SyntaxErrorKind,
>)
    requires
        from <= to <= text.len(),
    ensures
        match r {
            Ok(lang) => parse_lang_line(text@.subrange(from as int, to as int)) == Ok::<
                Seq<char>,
                SyntaxErrorKind,
            >(lang@),
            Err(kind) => parse_lang_line(text@.subrange(from as int, to as int)) == Err::<
                Seq<char>,
                SyntaxErrorKind,
            >(kind),
        },
{
    match scan_name(text, from, to) {
        Some((start, end)) => {
            proof {
                let t = text@.subrange(start as int, to as int);
                assert(t.skip(end - start + 1) =~= text@.subrange(end + 1, to as int));
                assert(t.take(end - start) =~= text@.subrange(start as int, end as int));
            }
            if blank_between(text, end + 1, to) {
                Ok(Loc(collect_string(text, start, end)))
            } else {
                Err(SyntaxErrorKind::InvalidLanguage)
            }
        },
        None => Err(SyntaxErrorKind::InvalidLanguage),
    }
}

/// Reads the line between `from` and `to` as an entry.
pub fn read_entry_line(text: &Vec<char>, from: usize, to: usize) -> (r: Result<
    Entry,
    SyntaxErrorKind,
>)
    requires
        from <= to <= text.len(),
    ensures
        match r {
            Ok(e) => parse_entry_line(text@.subrange(from as int, to as int)) == Ok::<
                EntryModel,
                SyntaxErrorKind,
            >(e@),
            Err(kind) => parse_entry_line(text@.subrange(from as int, to as int)) == Err::<
                EntryModel,
                SyntaxErrorKind,
            >(kind),
        },
{
    match scan_name(text, from, to) {
        Some((start, end)) => {
            let digits_end: usize = scan_run_within(text, end + 1, to, CharClass::Digit);
            let value_start: usize = scan_run_within(text, digits_end, to, CharClass::Space);
            let value_end: usize = scan_trim_end(text, value_start, to);
            proof {
                let t = text@.subrange(start as int, to as int);
                let u = text@.subrange(end + 1, to as int);
                assert(t.skip(end - start + 1) =~= u);
                assert(t.take(end - start) =~= text@.subrange(start as int, end as int));
                lemma_run_len_holds(u, CharClass::Digit);
                assert(u.take(digits_end - end - 1) =~= text@.subrange(
                    end + 1,
                    digits_end as int,
                ));
                let w = text@.subrange(digits_end as int, to as int);
                assert(u.skip(digits_end - end - 1) =~= w);
                assert(trim_start(w) =~= text@.subrange(value_start as int, to as int));
            }
            match read_byte(text, end + 1, digits_end) {
                Some(n) => {
                    if value_end - value_start >= 2 && text[value_start] == '"' && text[value_end
                        - 1] == '"' {
                        Ok(
                            Entry {
                                key: collect_string(text, start, end),
                                num: if digits_end == end + 1 {
                                    None
                                } else {
                                    Some(n)
                                },
                                value: collect_string(text, value_start, value_end),
                            },
                        )
                    } else {
                        Err(SyntaxErrorKind::InvalidValue)
                    }
                },
                None => Err(SyntaxErrorKind::TagOutOfRange),
            }
        },
        None => Err(SyntaxErrorKind::InvalidKey),
    }
}

/// Finds the end of the line that starts at `from`, and the start of the
/// line behind it.
pub fn scan_line(text: &Vec<char>, from: usize) -> (r: (usize, usize))
    requires
        from < text.len(),
    ensures
        from <= r.0 <= r.1 <= text.len(),
        from < r.1,
        text@.subrange(from as int, r.0 as int) == first_line(text@.skip(from as int)),
        r.1 - from == line_step(text@.skip(from as int)),
        text@.skip(r.1 as int) == text@.skip(from as int).skip(
            line_step(text@.skip(from as int)) as int,
        ),
{
    let end: usize = scan_run_within(text, from, text.len(), CharClass::Line);
    let next: usize = if end < text.len() {
        end + 1
    } else {
        end
    };
    proof {
        let s = text@.skip(from as int);
        assert(text@.subrange(from as int, text.len() as int) =~= s);
        assert(s.take(end - from) =~= text@.subrange(from as int, end as int));
        assert(s.skip(next - from) =~= text@.skip(next as int));
    }
    (end, next)
}

/// Reads a text as a localization file.
///
/// It returns the language of the first line that is not blank and the
/// entries of the lines behind it, in their order; what it returns is well
/// formed, so that it can be written and read back. Otherwise it returns a
/// `ParseError` that describes the first violation: no language line, or a
/// line that is neither blank nor what its place asks for.
pub fn parse_localization(text: &str) -> (r: Result<LocList, Error>)
    ensures
        match r {
            Ok(list) => wf_loc(list@) && read_localization(text@, 0) == Ok::<
                LocListModel,
                SyntaxError,
            >(list@),
            Err(e) => read_localization(text@, 0) is Err && e.reports(
                read_localization(text@, 0)->Err_0,
            ),
        },
{
    proof {
        lemma_read_wf(text@, 0);
    }
    let chars = to_chars(text);
    let n: usize = chars.len();
    let mut at: usize = 0;
    let mut found: Option<Loc> = None;
    assert(chars@.skip(0) =~= chars@);
    while at < n && found.is_none()
        invariant
            n == chars.len(),
            at <= n,
            chars@ == text@,
            match found {
                Some(lang) => read_localization(text@, 0) == loc_with(
                    lang@,
                    read_entries(text@.skip(at as int), at as nat),
                ),
                None => read_localization(text@, 0) == read_localization(
                    text@.skip(at as int),
                    at as nat,
                ),
            },
        decreases n - at, found.is_none() as int,
    {
        let (end, next) = scan_line(&chars, at);
        if !blank_between(&chars, at, end) {
            match read_lang_line(&chars, at, end) {
                Ok(lang) => {
                    found = Some(lang);
                },
                Err(kind) => {
                    return Err(SyntaxError { kind, position: at }.into_error());
                },
            }
        }
        at = next;
    }
    let lang = match found {
        Some(lang) => lang,
        None => {
            return Err(
                SyntaxError { kind: SyntaxErrorKind::MissingLanguage, position: at }.into_error(),
            );
        },
    };
    let mut entries: Vec<Entry> = Vec::new();
    proof {
        let rest = read_entries(text@.skip(at as int), at as nat);
        if rest is Ok {
            assert(entry_models(entries@) + rest->Ok_0 =~= rest->Ok_0);
        }
    }
    while at < n
        invariant
            n == chars.len(),
            at <= n,
            chars@ == text@,
            read_localization(text@, 0) == loc_with(
                lang@,
                entries_then(
                    entry_models(entries@),
                    read_entries(text@.skip(at as int), at as nat),
                ),
            ),
        decreases n - at,
    {
        let (end, next) = scan_line(&chars, at);
        if !blank_between(&chars, at, end) {
            match read_entry_line(&chars, at, end) {
                Ok(e) => {
                    proof {
                        let before = entry_models(entries@);
                        let after = entry_models(entries@.push(e));
                        let rest = read_entries(text@.skip(next as int), next as nat);
                        assert(after =~= before + seq![e@]);
                        if rest is Ok {
                            assert(before + (seq![e@] + rest->Ok_0) =~= after + rest->Ok_0);
                        }
                    }
                    entries.push(e);
                },
                Err(kind) => {
                    return Err(SyntaxError { kind, position: at }.into_error());
                },
            }
        }
        at = next;
    }
    proof {
        assert(entry_models(entries@) + Seq::<EntryModel>::empty() =~= entry_models(entries@));
    }
    Ok(LocList { lang, entries })
}

} // verus!
