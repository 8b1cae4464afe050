//! What holds of the reader and the writer of localization files: what is
//! read is well formed, what is written is read back as it was, and an
//! entry that is appended is written last.

use super::parser::{
    entries_then, first_line, is_blank, line_step, parse_entry_line, parse_lang_line,
    read_entries, read_localization,
};
use super::{
    is_name, render_entries, render_entry, render_lang, render_loc, render_num, wf_entry, wf_loc,
    EntryModel, LocListModel,
};
use crate::result::{SyntaxError, SyntaxErrorKind};
use crate::text::{
    all_in_class, decimal, in_class, lemma_decimal_holds, lemma_run_len_holds,
    lemma_run_len_prefix, lemma_trim_end_holds, run_len, trim_end, trim_start, CharClass,
};
use vstd::prelude::*;

verus! {

/// The language that is read from a line is a name.
pub proof fn lemma_lang_line_wf(line: Seq<char>)
    ensures
        parse_lang_line(line) matches Ok(lang) ==> is_name(lang),
{
    lemma_run_len_holds(trim_start(line), CharClass::Name);
}

/// The entry that is read from a line without a line feed is well formed.
pub proof fn lemma_entry_line_wf(line: Seq<char>)
    requires
        all_in_class(line, CharClass::Line),
    ensures
        parse_entry_line(line) matches Ok(e) ==> wf_entry(e),
{
    let t = trim_start(line);
    let k = run_len(t, CharClass::Name);
    let u = t.skip(k + 1 as int);
    let d = run_len(u, CharClass::Digit);
    let w = u.skip(d as int);
    let x = trim_start(w);
    let value = trim_end(x);
    lemma_run_len_holds(line, CharClass::Space);
    lemma_run_len_holds(t, CharClass::Name);
    lemma_run_len_holds(u, CharClass::Digit);
    lemma_run_len_holds(w, CharClass::Space);
    lemma_trim_end_holds(x);
    if parse_entry_line(line) is Ok {
        assert forall|i: int| 0 <= i < value.len() implies in_class(
            #[trigger] value[i],
            CharClass::Line,
        ) by {
            let a = run_len(line, CharClass::Space) as int;
            let b = run_len(w, CharClass::Space) as int;
            assert(value[i] == x.take(value.len() as int)[i]);
            assert(x[i] == w[b + i]);
            assert(w[b + i] == u[d + b + i]);
            assert(u[d + b + i] == t[k + 1 + d + b + i]);
            assert(t[k + 1 + d + b + i] == line[a + k + 1 + d + b + i]);
        }
    }
}

/// The entries that are read are well formed.
pub proof fn lemma_read_entries_wf(s: Seq<char>, at: nat)
    ensures
        read_entries(s, at) matches Ok(es) ==> forall|i: int|
            0 <= i < es.len() ==> wf_entry(#[trigger] es[i]),
    decreases s.len(),
{
    if s.len() > 0 {
        let line = first_line(s);
        let rest = s.skip(line_step(s) as int);
        lemma_run_len_holds(s, CharClass::Line);
        lemma_read_entries_wf(rest, at + line_step(s));
        if !is_blank(line) {
            lemma_entry_line_wf(line);
            match (parse_entry_line(line), read_entries(rest, at + line_step(s))) {
                (Ok(e), Ok(more)) => {
                    let es = seq![e] + more;
                    assert forall|i: int| 0 <= i < es.len() implies wf_entry(#[trigger] es[i]) by {
                        if i > 0 {
                            assert(es[i] == more[i - 1]);
                        }
                    }
                },
                _ => {},
            }
        }
    }
}

/// The localization file that is read is well formed.
pub proof fn lemma_read_wf(s: Seq<char>, at: nat)
    ensures
        read_localization(s, at) matches Ok(l) ==> wf_loc(l),
    decreases s.len(),
{
    if s.len() > 0 {
        let line = first_line(s);
        let rest = s.skip(line_step(s) as int);
        if is_blank(line) {
            lemma_read_wf(rest, at + line_step(s));
        } else {
            lemma_lang_line_wf(line);
            lemma_read_entries_wf(rest, at + line_step(s));
        }
    }
}

/// A name has no whitespace, no colon, no quote mark and no line feed in
/// it, and a number in decimal has no line feed in it.
pub proof fn lemma_name_chars(s: Seq<char>)
    requires
        all_in_class(s, CharClass::Name) || all_in_class(s, CharClass::Digit),
    ensures
        all_in_class(s, CharClass::Line),
{
    assert forall|i: int| 0 <= i < s.len() implies in_class(#[trigger] s[i], CharClass::Line) by {
        if all_in_class(s, CharClass::Name) {
            assert(in_class(s[i], CharClass::Name));
        } else {
            assert(in_class(s[i], CharClass::Digit));
        }
    }
}

/// A line without a line feed, a line feed, and more text: the first line
/// is that line, and the text goes on behind the line feed.
pub proof fn lemma_first_line(line: Seq<char>, rest: Seq<char>)
    requires
        all_in_class(line, CharClass::Line),
    ensures
        first_line(line + seq!['\n'] + rest) == line,
        line_step(line + seq!['\n'] + rest) == line.len() + 1,
        (line + seq!['\n'] + rest).skip(line.len() + 1 as int) == rest,
{
    let s = line + seq!['\n'] + rest;
    let tail = seq!['\n'] + rest;
    assert(s =~= line + tail);
    assert(tail[0] == '\n');
    lemma_run_len_prefix(line, tail, CharClass::Line);
    assert(s.take(line.len() as int) =~= line);
    assert(s.skip(line.len() + 1 as int) =~= rest);
}

/// The language line that is written for a name is read as that name.
pub proof fn lemma_lang_line(lang: Seq<char>)
    requires
        is_name(lang),
    ensures
        parse_lang_line(render_lang(lang)) == Ok::<Seq<char>, SyntaxErrorKind>(lang),
        !is_blank(render_lang(lang)),
        all_in_class(render_lang(lang), CharClass::Line),
{
    let line = render_lang(lang);
    let colon = seq![':'];
    assert(in_class(lang[0], CharClass::Name));
    assert(line[0] == lang[0]);
    lemma_run_len_prefix(Seq::<char>::empty(), line, CharClass::Space);
    assert(Seq::<char>::empty() + line =~= line);
    assert(trim_start(line) =~= line);
    assert(colon[0] == ':');
    lemma_run_len_prefix(lang, colon, CharClass::Name);
    assert(line[lang.len() as int] == ':');
    assert(line.take(lang.len() as int) =~= lang);
    assert(line.skip(lang.len() + 1 as int) =~= Seq::<char>::empty());
    lemma_name_chars(lang);
    assert forall|i: int| 0 <= i < line.len() implies in_class(
        #[trigger] line[i],
        CharClass::Line,
    ) by {
        if i < lang.len() {
            assert(line[i] == lang[i]);
        }
    }
}

/// The digits that are written for the number of an entry.
pub open spec fn tag_text(num: Option<u8>) -> Seq<char> {
    match num {
        Some(n) => decimal(n as nat),
        None => Seq::empty(),
    }
}

/// The line that is written for a well-formed entry is read as that entry.
pub proof fn lemma_entry_line(e: EntryModel)
    requires
        wf_entry(e),
    ensures
        parse_entry_line(seq![' ', ' '] + render_entry(e)) == Ok::<EntryModel, SyntaxErrorKind>(e),
        !is_blank(seq![' ', ' '] + render_entry(e)),
        all_in_class(seq![' ', ' '] + render_entry(e), CharClass::Line),
{
    let pad = seq![' ', ' '];
    let colon = seq![':'];
    let sp = seq![' '];
    let tag = tag_text(e.num);
    let line = pad + render_entry(e);
    let w = sp + e.value;
    let u = tag + w;
    let t = e.key + (colon + u);
    if e.num is Some {
        lemma_decimal_holds(e.num->Some_0 as nat);
    }
    assert(render_num(e.num) =~= tag + sp);
    assert(line =~= pad + t);
    assert(in_class(e.key[0], CharClass::Name));
    assert(t[0] == e.key[0]);
    lemma_run_len_prefix(pad, t, CharClass::Space);
    assert(trim_start(line) =~= t);
    assert((colon + u)[0] == ':');
    lemma_run_len_prefix(e.key, colon + u, CharClass::Name);
    assert(t[e.key.len() as int] == ':');
    assert(t.take(e.key.len() as int) =~= e.key);
    assert(t.skip(e.key.len() + 1 as int) =~= u);
    assert(w[0] == ' ');
    lemma_run_len_prefix(tag, w, CharClass::Digit);
    assert(u.take(tag.len() as int) =~= tag);
    assert(u.skip(tag.len() as int) =~= w);
    assert(e.value[0] == '"');
    lemma_run_len_prefix(sp, e.value, CharClass::Space);
    assert(trim_start(w) =~= e.value);
    assert(trim_end(e.value) == e.value);
    assert(line[2] == e.key[0]);
    lemma_name_chars(e.key);
    lemma_name_chars(tag);
    assert forall|i: int| 0 <= i < line.len() implies in_class(
        #[trigger] line[i],
        CharClass::Line,
    ) by {
        let a = 2 + e.key.len();
        if i < 2 {
        } else if i < a {
            assert(line[i] == e.key[i - 2]);
        } else if i == a {
        } else if i < a + 1 + tag.len() {
            assert(line[i] == tag[i - a - 1]);
        } else if i == a + 1 + tag.len() {
        } else {
            assert(line[i] == e.value[i - a - 2 - tag.len()]);
        }
    }
}

/// The lines that are written for well-formed entries, before any text,
/// are read as these entries, and then as the text goes on.
pub proof fn lemma_read_entries(es: Seq<EntryModel>, rest: Seq<char>, at: nat)
    requires
        forall|i: int| 0 <= i < es.len() ==> wf_entry(#[trigger] es[i]),
    ensures
        read_entries(render_entries(es) + rest, at) == entries_then(
            es,
            read_entries(rest, at + render_entries(es).len()),
        ),
    decreases es.len(),
{
    if es.len() == 0 {
        assert(render_entries(es) + rest =~= rest);
        match read_entries(rest, at) {
            Ok(more) => {
                assert(es + more =~= more);
            },
            Err(_) => {},
        }
    } else {
        let init = es.drop_last();
        let last = es.last();
        let line = seq![' ', ' '] + render_entry(last);
        let itext = render_entries(init);
        let r1 = line + seq!['\n'] + rest;
        assert(render_entries(es) + rest =~= itext + r1);
        assert forall|i: int| 0 <= i < init.len() implies wf_entry(#[trigger] init[i]) by {
            assert(init[i] == es[i]);
        }
        lemma_read_entries(init, r1, at);
        lemma_entry_line(last);
        lemma_first_line(line, rest);
        let a1 = at + itext.len();
        let end = read_entries(rest, a1 + line.len() + 1);
        assert(read_entries(r1, a1) == entries_then(seq![last], end));
        assert(a1 + line.len() + 1 == at + render_entries(es).len());
        match end {
            Ok(more) => {
                assert(init + (seq![last] + more) =~= es + more);
            },
            Err(_) => {},
        }
    }
}

/// Round trip: the text that a well-formed localization file is written
/// as is read back as that file.
pub proof fn lemma_round_trip(l: LocListModel)
    requires
        wf_loc(l),
    ensures
        read_localization(render_loc(l), 0) == Ok::<LocListModel, SyntaxError>(l),
{
    let line = render_lang(l.lang);
    let body = render_entries(l.entries);
    let none = Seq::<char>::empty();
    lemma_lang_line(l.lang);
    lemma_first_line(line, body);
    lemma_read_entries(l.entries, none, line.len() + 1);
    assert(body + none =~= body);
    assert(l.entries + Seq::<EntryModel>::empty() =~= l.entries);
}

/// An entry that is appended to a localization file is written behind all
/// the entries that the file held, as a line of its own.
pub proof fn lemma_render_push(l: LocListModel, e: EntryModel)
    ensures
        render_loc(LocListModel { lang: l.lang, entries: l.entries.push(e) }) == render_loc(l)
            + seq![' ', ' '] + render_entry(e) + seq!['\n'],
{
    assert(l.entries.push(e).drop_last() =~= l.entries);
    let grown = LocListModel { lang: l.lang, entries: l.entries.push(e) };
    assert(render_loc(grown) =~= render_loc(l) + seq![' ', ' '] + render_entry(e) + seq!['\n']);
}

} // verus!
