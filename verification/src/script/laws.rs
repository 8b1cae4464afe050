//! What holds of the grammar, the parser and the writer of scripts: the
//! parser reads exactly the token sequences that the grammar derives, a
//! token sequence is derived from one script only, and what the writer
//! writes is read back as the script that was written.

use super::grammar::{
    entry_token, is_entry, is_operator, is_script, parse_document, parse_unit, parse_units,
    parse_value, read_script, unit_tokens, units_tokens, value_tokens,
};
use super::lexer::{first_token, lemma_first_token_len, lex, tokens_then, TokenModel};
use super::render::{deeper, indent, render_unit, render_units, render_value, shallower, unit_head};
use crate::result::SyntaxError;
use crate::text::{
    all_in_class, in_class, is_space, lemma_run_len_holds, lemma_run_len_prefix, run_len,
    CharClass,
};
use super::{
    is_quoted, is_relation, is_word, unit_value, units_within, value_within, wf_unit, wf_units,
    wf_value, EntryModel, UnitModel, ValueModel,
};
use vstd::prelude::*;

verus! {

/// Whether a token can come out of a text: a word is a bare word, a raw
/// string is a quoted literal, a relation is one of the five.
pub open spec fn wf_token(t: TokenModel) -> bool {
    match t {
        TokenModel::Ident(s) => is_word(s),
        TokenModel::RawStr(s) => is_quoted(s),
        TokenModel::Relation(op) => is_relation(op),
        _ => true,
    }
}

/// Whether every token of a sequence can come out of a text.
pub open spec fn wf_tokens(ts: Seq<TokenModel>) -> bool {
    forall|i: int| 0 <= i < ts.len() ==> wf_token(#[trigger] ts[i])
}

/// The tokens of a script are those of its first unit, then those of the
/// units behind it.
pub proof fn lemma_units_tokens_front(us: Seq<UnitModel>)
    requires
        us.len() > 0,
    ensures
        units_tokens(us) == unit_tokens(us[0]) + units_tokens(us.drop_first()),
    decreases us.len(),
{
    if us.len() == 1 {
        assert(us.drop_last() =~= Seq::<UnitModel>::empty());
        assert(us.drop_first() =~= Seq::<UnitModel>::empty());
        assert(units_tokens(us.drop_last()) =~= Seq::<TokenModel>::empty());
        assert(units_tokens(us) =~= unit_tokens(us[0]) + units_tokens(us.drop_first()));
    } else {
        lemma_units_tokens_front(us.drop_last());
        assert(us.drop_last().drop_first() =~= us.drop_first().drop_last());
        assert(us.drop_last()[0] == us[0]);
        assert(us.drop_first().last() == us.last());
        assert(units_tokens(us) =~= unit_tokens(us[0]) + units_tokens(us.drop_first()));
    }
}

/// The tokens of a well-formed value start with an entry or a `{`.
pub proof fn lemma_value_tokens_start(v: ValueModel)
    ensures
        value_tokens(v).len() > 0,
        is_entry(value_tokens(v)[0]) || value_tokens(v)[0] is Open,
{
    match v {
        ValueModel::Empty => {},
        ValueModel::Primitive(e) => {},
        ValueModel::Units(us) => {},
    }
}

/// The tokens of a unit start with an entry or a `{`.
pub proof fn lemma_unit_tokens_start(u: UnitModel)
    ensures
        unit_tokens(u).len() > 0,
        is_entry(unit_tokens(u)[0]) || unit_tokens(u)[0] is Open,
{
    lemma_value_tokens_start(unit_value(u));
}

/// What the parser reads as a value is a well-formed value, nested within
/// the bound, whose tokens are the ones that were read.
pub proof fn lemma_parse_value_sound(toks: Seq<TokenModel>, pos: nat, depth: nat)
    requires
        wf_tokens(toks),
    ensures
        parse_value(toks, pos, depth) matches Ok((v, end)) ==> {
            &&& pos < end <= toks.len()
            &&& wf_value(v)
            &&& value_within(v, depth)
            &&& toks.subrange(pos as int, end as int) == value_tokens(v)
        },
    decreases toks.len() - pos, 0nat,
{
    if pos < toks.len() {
        assert(wf_token(toks[pos as int]));
        match toks[pos as int] {
            TokenModel::Ident(s) => {
                assert(toks.subrange(pos as int, pos + 1 as int) =~= seq![toks[pos as int]]);
            },
            TokenModel::RawStr(s) => {
                assert(toks.subrange(pos as int, pos + 1 as int) =~= seq![toks[pos as int]]);
            },
            TokenModel::Open => {
                if pos + 1 < toks.len() && toks[pos + 1 as int] is Close {
                    assert(toks.subrange(pos as int, pos + 2 as int) =~= seq![
                        TokenModel::Open,
                        TokenModel::Close,
                    ]);
                } else if depth > 0 {
                    lemma_parse_units_sound(toks, pos + 1, (depth - 1) as nat);
                    match parse_units(toks, pos + 1, (depth - 1) as nat) {
                        Ok((us, end)) => {
                            if end < toks.len() {
                                assert(toks[end as int] is Close);
                                assert(toks.subrange(pos as int, end + 1 as int) =~= seq![
                                    TokenModel::Open,
                                ] + toks.subrange(pos + 1 as int, end as int) + seq![TokenModel::Close]);
                                if us.len() == 0 {
                                    assert(end == pos + 1);
                                }
                            }
                        },
                        Err(_) => {},
                    }
                }
            },
            _ => {},
        }
    }
}

/// What the parser reads as a unit is a well-formed unit, nested within the
/// bound, whose tokens are the ones that were read.
pub proof fn lemma_parse_unit_sound(toks: Seq<TokenModel>, pos: nat, depth: nat)
    requires
        wf_tokens(toks),
    ensures
        parse_unit(toks, pos, depth) matches Ok((u, end)) ==> {
            &&& pos < end <= toks.len()
            &&& wf_unit(u)
            &&& value_within(unit_value(u), depth)
            &&& toks.subrange(pos as int, end as int) == unit_tokens(u)
        },
    decreases toks.len() - pos, 1nat,
{
    if pos + 1 < toks.len() && is_entry(toks[pos as int]) && is_operator(toks[pos + 1 as int]) {
        lemma_parse_value_sound(toks, pos + 2, depth);
        assert(wf_token(toks[pos as int]));
        assert(wf_token(toks[pos + 1 as int]));
        match parse_value(toks, pos + 2, depth) {
            Ok((v, end)) => {
                assert(toks.subrange(pos as int, end as int) =~= seq![
                    toks[pos as int],
                    toks[pos + 1 as int],
                ] + toks.subrange(pos + 2 as int, end as int));
            },
            Err(_) => {},
        }
    } else {
        lemma_parse_value_sound(toks, pos, depth);
    }
}

/// What the parser reads as units are well-formed units, nested within the
/// bound, whose tokens are the ones that were read; and it stops at a `}`
/// or at the end.
pub proof fn lemma_parse_units_sound(toks: Seq<TokenModel>, pos: nat, depth: nat)
    requires
        wf_tokens(toks),
        pos <= toks.len(),
    ensures
        parse_units(toks, pos, depth) matches Ok((us, end)) ==> {
            &&& pos <= end <= toks.len()
            &&& (us.len() == 0 ==> end == pos)
            &&& wf_units(us)
            &&& units_within(us, depth)
            &&& toks.subrange(pos as int, end as int) == units_tokens(us)
            &&& (end < toks.len() ==> toks[end as int] is Close)
        },
    decreases toks.len() - pos, 2nat,
{
    if pos >= toks.len() || toks[pos as int] is Close {
        assert(toks.subrange(pos as int, pos as int) =~= Seq::<TokenModel>::empty());
    } else {
        lemma_parse_unit_sound(toks, pos, depth);
        match parse_unit(toks, pos, depth) {
            Ok((u, mid)) => {
                lemma_parse_units_sound(toks, mid, depth);
                match parse_units(toks, mid, depth) {
                    Ok((rest, end)) => {
                        let us = seq![u] + rest;
                        assert(us[0] == u);
                        assert(us.drop_first() =~= rest);
                        lemma_units_tokens_front(us);
                        assert(toks.subrange(pos as int, end as int) =~= toks.subrange(
                            pos as int,
                            mid as int,
                        ) + toks.subrange(mid as int, end as int));
                        assert forall|i: int| 0 <= i < us.len() implies wf_unit(#[trigger] us[i])
                            && value_within(unit_value(us[i]), depth) by {
                            if i > 0 {
                                assert(us[i] == rest[i - 1]);
                            }
                        }
                    },
                    Err(_) => {},
                }
            },
            Err(_) => {},
        }
    }
}

/// The parser reads the tokens of a well-formed value as that value.
pub proof fn lemma_parse_value_complete(
    toks: Seq<TokenModel>,
    pos: nat,
    depth: nat,
    v: ValueModel,
)
    requires
        wf_value(v),
        value_within(v, depth),
        pos + value_tokens(v).len() <= toks.len(),
        toks.subrange(pos as int, pos + value_tokens(v).len() as int) == value_tokens(v),
    ensures
        parse_value(toks, pos, depth) == Ok::<(ValueModel, nat), SyntaxError>(
            (v, pos + value_tokens(v).len()),
        ),
    decreases v,
{
    let vt = value_tokens(v);
    let part = toks.subrange(pos as int, pos + vt.len() as int);
    lemma_value_tokens_start(v);
    assert(part[0] == toks[pos as int]);
    match v {
        ValueModel::Empty => {
            assert(part[1] == toks[pos + 1 as int]);
        },
        ValueModel::Primitive(e) => {},
        ValueModel::Units(us) => {
            let ut = units_tokens(us);
            lemma_units_tokens_front(us);
            lemma_unit_tokens_start(us[0]);
            assert(vt.len() == ut.len() + 2);
            assert(part[1] == toks[pos + 1 as int]);
            assert(vt[1] == ut[0]);
            assert(part[ut.len() + 1 as int] == toks[pos + ut.len() + 1 as int]);
            assert(toks.subrange(pos + 1 as int, pos + 1 + ut.len() as int) =~= ut) by {
                assert forall|i: int| 0 <= i < ut.len() implies toks.subrange(
                    pos + 1 as int,
                    pos + 1 + ut.len() as int,
                )[i] == ut[i] by {
                    assert(part[i + 1] == vt[i + 1]);
                }
            }
            lemma_parse_units_complete(toks, pos + 1, (depth - 1) as nat, us);
        },
    }
}

/// The parser reads the tokens of a well-formed unit as that unit, where
/// no operator follows them.
pub proof fn lemma_parse_unit_complete(toks: Seq<TokenModel>, pos: nat, depth: nat, u: UnitModel)
    requires
        wf_unit(u),
        value_within(unit_value(u), depth),
        pos + unit_tokens(u).len() <= toks.len(),
        toks.subrange(pos as int, pos + unit_tokens(u).len() as int) == unit_tokens(u),
        pos + unit_tokens(u).len() < toks.len() ==> !is_operator(
            toks[pos + unit_tokens(u).len() as int],
        ),
    ensures
        parse_unit(toks, pos, depth) == Ok::<(UnitModel, nat), SyntaxError>((u, pos + unit_tokens(u).len())),
    decreases u,
{
    let ut = unit_tokens(u);
    let part = toks.subrange(pos as int, pos + ut.len() as int);
    let v = unit_value(u);
    let vt = value_tokens(v);
    lemma_value_tokens_start(v);
    assert(part[0] == toks[pos as int]);
    match u {
        UnitModel::SingleValue(_) => {
            if ut.len() > 1 {
                assert(part[1] == toks[pos + 1 as int]);
                match v {
                    ValueModel::Units(us) => {
                        lemma_units_tokens_front(us);
                        lemma_unit_tokens_start(us[0]);
                        assert(vt[1] == units_tokens(us)[0]);
                    },
                    _ => {},
                }
            }
            lemma_parse_value_complete(toks, pos, depth, v);
        },
        _ => {
            assert(part[1] == toks[pos + 1 as int]);
            assert(ut.len() == vt.len() + 2);
            assert(toks.subrange(pos + 2 as int, pos + 2 + vt.len() as int) =~= vt) by {
                assert forall|i: int| 0 <= i < vt.len() implies toks.subrange(
                    pos + 2 as int,
                    pos + 2 + vt.len() as int,
                )[i] == vt[i] by {
                    assert(part[i + 2] == ut[i + 2]);
                }
            }
            lemma_parse_value_complete(toks, pos + 2, depth, v);
        },
    }
}

/// The parser reads the tokens of well-formed units as those units, where
/// a `}` or the end of the tokens follows them.
pub proof fn lemma_parse_units_complete(
    toks: Seq<TokenModel>,
    pos: nat,
    depth: nat,
    us: Seq<UnitModel>,
)
    requires
        wf_units(us),
        units_within(us, depth),
        pos + units_tokens(us).len() <= toks.len(),
        toks.subrange(pos as int, pos + units_tokens(us).len() as int) == units_tokens(us),
        pos + units_tokens(us).len() < toks.len() ==> toks[pos + units_tokens(us).len() as int] is Close,
    ensures
        parse_units(toks, pos, depth) == Ok::<(Seq<UnitModel>, nat), SyntaxError>(
            (us, pos + units_tokens(us).len()),
        ),
    decreases us,
{
    let all = units_tokens(us);
    let part = toks.subrange(pos as int, pos + all.len() as int);
    if us.len() == 0 {
        assert(us =~= Seq::<UnitModel>::empty());
    } else {
        let u = us[0];
        let rest = us.drop_first();
        let ut = unit_tokens(u);
        let rt = units_tokens(rest);
        lemma_units_tokens_front(us);
        lemma_unit_tokens_start(u);
        assert(part[0] == toks[pos as int]);
        assert(all[0] == ut[0]);
        let mid = pos + ut.len();
        assert(toks.subrange(pos as int, mid as int) =~= ut) by {
            assert forall|i: int| 0 <= i < ut.len() implies toks.subrange(pos as int, mid as int)[i]
                == ut[i] by {
                assert(part[i] == all[i]);
            }
        }
        assert(toks.subrange(mid as int, mid + rt.len() as int) =~= rt) by {
            assert forall|i: int| 0 <= i < rt.len() implies toks.subrange(
                mid as int,
                mid + rt.len() as int,
            )[i] == rt[i] by {
                assert(part[i + ut.len()] == all[i + ut.len()]);
            }
        }
        assert forall|i: int| 0 <= i < rest.len() implies wf_unit(#[trigger] rest[i])
            && value_within(unit_value(rest[i]), depth) by {
            assert(rest[i] == us[i + 1]);
        }
        if rest.len() > 0 {
            lemma_units_tokens_front(rest);
            lemma_unit_tokens_start(rest[0]);
            assert(toks[mid as int] == part[ut.len() as int]);
            assert(all[ut.len() as int] == rt[0]);
        } else {
            assert(rt.len() == 0);
        }
        assert(!(toks[pos as int] is Close));
        lemma_parse_unit_complete(toks, pos, depth, u);
        assert(parse_unit(toks, pos, depth) == Ok::<(UnitModel, nat), SyntaxError>((u, mid as nat)));
        lemma_parse_units_complete(toks, mid as nat, depth, rest);
        assert(mid + rt.len() == pos + all.len());
        assert(seq![u] + rest =~= us);
    }
}

/// Soundness of the parser: the script that it reads from a sequence of
/// tokens is well formed and nested within the bound, and the grammar
/// derives exactly these tokens from it.
pub proof fn lemma_parse_sound(toks: Seq<TokenModel>, depth: nat)
    requires
        wf_tokens(toks),
    ensures
        parse_document(toks, depth) matches Ok(us) ==> wf_units(us) && units_within(us, depth)
            && units_tokens(us) == toks,
{
    lemma_parse_units_sound(toks, 0, depth);
    match parse_units(toks, 0, depth) {
        Ok((us, end)) => {
            if end >= toks.len() {
                assert(toks.subrange(0, end as int) =~= toks);
            }
        },
        Err(_) => {},
    }
}

/// Completeness of the parser: it reads the tokens that the grammar
/// derives from a well-formed script, nested within the bound, as that
/// script.
pub proof fn lemma_parse_complete(us: Seq<UnitModel>, depth: nat)
    requires
        wf_units(us),
        units_within(us, depth),
    ensures
        parse_document(units_tokens(us), depth) == Ok::<Seq<UnitModel>, SyntaxError>(us),
{
    let toks = units_tokens(us);
    assert(toks.subrange(0, toks.len() as int) =~= toks);
    lemma_parse_units_complete(toks, 0, depth, us);
}

/// The grammar is unambiguous: two well-formed scripts with the same
/// tokens, both nested within some bound, are the same script.
pub proof fn lemma_tokens_unique(a: Seq<UnitModel>, b: Seq<UnitModel>, depth: nat)
    requires
        wf_units(a),
        wf_units(b),
        units_within(a, depth),
        units_within(b, depth),
        units_tokens(a) == units_tokens(b),
    ensures
        a == b,
{
    lemma_parse_complete(a, depth);
    lemma_parse_complete(b, depth);
}

/// The text that a token is written as.
pub open spec fn token_text(t: TokenModel) -> Seq<char> {
    match t {
        TokenModel::Ident(s) => s,
        TokenModel::RawStr(s) => s,
        TokenModel::Assign => seq!['='],
        TokenModel::Question => seq!['?', '='],
        TokenModel::Relation(op) => op,
        TokenModel::Open => seq!['{'],
        TokenModel::Close => seq!['}'],
    }
}

/// Every token that comes out of a text is well formed.
pub proof fn lemma_lex_wf(s: Seq<char>, at: nat)
    ensures
        lex(s, at) matches Ok(ts) ==> wf_tokens(ts),
    decreases s.len(),
{
    if s.len() == 0 {
    } else if is_space(s[0]) {
        lemma_lex_wf(s.drop_first(), at + 1);
    } else {
        lemma_first_token_len(s);
        match first_token(s) {
            Ok((t, n)) => {
                lemma_lex_wf(s.skip(n as int), at + n);
                lemma_run_len_holds(s, CharClass::Word);
                lemma_run_len_holds(s.drop_first(), CharClass::Quoted);
                assert(wf_token(t)) by {
                    match t {
                        TokenModel::Ident(w) => {
                            assert(in_class(s[0], CharClass::Word));
                        },
                        TokenModel::RawStr(q) => {
                            let inside = run_len(s.drop_first(), CharClass::Quoted) as int;
                            assert(s.drop_first()[inside] == s[inside + 1]);
                            assert(q.subrange(1, q.len() - 1) =~= s.drop_first().take(inside));
                        },
                        TokenModel::Relation(op) => {
                            if s.len() > 1 && s[1] == '=' {
                                assert(op =~= seq![s[0], '=']);
                            } else {
                                assert(op =~= seq![s[0]]);
                            }
                        },
                        _ => {},
                    }
                }
                match lex(s.skip(n as int), at + n) {
                    Ok(more) => {
                        let ts = seq![t] + more;
                        assert forall|i: int| 0 <= i < ts.len() implies wf_token(
                            #[trigger] ts[i],
                        ) by {
                            if i > 0 {
                                assert(ts[i] == more[i - 1]);
                            }
                        }
                    },
                    Err(_) => {},
                }
            },
            Err(_) => {},
        }
    }
}

/// Whitespace before a text adds no token.
pub proof fn lemma_lex_spaces(ws: Seq<char>, rest: Seq<char>, at: nat)
    requires
        all_in_class(ws, CharClass::Space),
    ensures
        lex(ws + rest, at) == lex(rest, at + ws.len()),
    decreases ws.len(),
{
    if ws.len() == 0 {
        assert(ws + rest =~= rest);
    } else {
        let s = ws + rest;
        assert(s[0] == ws[0]);
        assert(in_class(ws[0], CharClass::Space));
        assert(s.drop_first() =~= ws.drop_first() + rest);
        assert forall|i: int| 0 <= i < ws.drop_first().len() implies in_class(
            #[trigger] ws.drop_first()[i],
            CharClass::Space,
        ) by {
            assert(ws.drop_first()[i] == ws[i + 1]);
        }
        lemma_lex_spaces(ws.drop_first(), rest, at + 1);
    }
}

/// The text of a well-formed token, before a text that cannot be taken for
/// more of the token, is read as that token. Braces need nothing of what
/// follows; the other tokens are followed by whitespace or by nothing.
pub proof fn lemma_lex_token(t: TokenModel, rest: Seq<char>, at: nat)
    requires
        wf_token(t),
        t is Open || t is Close || rest.len() == 0 || is_space(rest[0]),
    ensures
        lex(token_text(t) + rest, at) == tokens_then(
            seq![t],
            lex(rest, at + token_text(t).len()),
        ),
{
    let text = token_text(t);
    let s = text + rest;
    let n = text.len() as int;
    assert(s.skip(n) =~= rest);
    assert(s.take(n) =~= text);
    if rest.len() > 0 {
        assert(s[n] == rest[0]);
    }
    match t {
        TokenModel::Ident(w) => {
            assert(in_class(w[0], CharClass::Word));
            assert(s[0] == w[0]);
            lemma_run_len_prefix(w, rest, CharClass::Word);
        },
        TokenModel::RawStr(q) => {
            let body = q.subrange(1, q.len() - 1);
            let tail = seq!['"'] + rest;
            assert(s[0] == q[0]);
            assert(s.drop_first() =~= body + tail);
            assert(tail[0] == '"');
            lemma_run_len_prefix(body, tail, CharClass::Quoted);
        },
        TokenModel::Assign => {
            assert(s[0] == '=');
        },
        TokenModel::Question => {
            assert(s[0] == '?');
            assert(s[1] == '=');
        },
        TokenModel::Relation(op) => {
            assert(s[0] == op[0]);
            if op.len() > 1 {
                assert(s[1] == op[1]);
            }
        },
        TokenModel::Open => {
            assert(s[0] == '{');
        },
        TokenModel::Close => {
            assert(s[0] == '}');
        },
    }
}

/// `a`, then `b`, then what `rest` gives, is `a + b`, then what `rest`
/// gives.
pub proof fn lemma_tokens_then_twice(
    a: Seq<TokenModel>,
    b: Seq<TokenModel>,
    rest: Result<Seq<TokenModel>, SyntaxError>,
)
    ensures
        tokens_then(a, tokens_then(b, rest)) == tokens_then(a + b, rest),
{
    match rest {
        Ok(more) => {
            assert(a + (b + more) =~= (a + b) + more);
        },
        Err(_) => {},
    }
}

/// The indentation of a line is whitespace.
pub proof fn lemma_indent_is_space(level: usize)
    ensures
        all_in_class(indent(level), CharClass::Space),
{
}

/// The text of a well-formed value, before whitespace, is read as the
/// tokens of the value.
pub proof fn lemma_lex_value(v: ValueModel, level: usize, rest: Seq<char>, at: nat)
    requires
        wf_value(v),
        rest.len() > 0,
        is_space(rest[0]),
    ensures
        lex(render_value(v, level) + rest, at) == tokens_then(
            value_tokens(v),
            lex(rest, at + render_value(v, level).len()),
        ),
    decreases v,
{
    match v {
        ValueModel::Empty => {
            let close = token_text(TokenModel::Close);
            let open = token_text(TokenModel::Open);
            assert(render_value(v, level) + rest =~= open + (close + rest));
            lemma_lex_token(TokenModel::Open, close + rest, at);
            lemma_lex_token(TokenModel::Close, rest, at + 1);
            lemma_tokens_then_twice(
                seq![TokenModel::Open],
                seq![TokenModel::Close],
                lex(rest, at + 2),
            );
            assert(seq![TokenModel::Open] + seq![TokenModel::Close] =~= value_tokens(v));
        },
        ValueModel::Primitive(e) => {
            assert(token_text(entry_token(e)) == e.text());
            lemma_lex_token(entry_token(e), rest, at);
        },
        ValueModel::Units(us) => {
            let open = token_text(TokenModel::Open);
            let close = token_text(TokenModel::Close);
            let nl = seq!['\n'];
            let body = render_units(us, level);
            let pad = indent(shallower(level));
            let r3 = close + rest;
            let r2 = pad + r3;
            let r1 = body + r2;
            let r0 = nl + r1;
            assert(render_value(v, level) + rest =~= open + r0);
            lemma_lex_token(TokenModel::Open, r0, at);
            lemma_lex_spaces(nl, r1, at + 1);
            lemma_lex_units(us, level, r2, at + 2);
            lemma_indent_is_space(shallower(level));
            lemma_lex_spaces(pad, r3, at + 2 + body.len());
            lemma_lex_token(TokenModel::Close, rest, at + 2 + body.len() + pad.len());
            let end = lex(rest, at + render_value(v, level).len());
            assert(at + 2 + body.len() + pad.len() + 1 == at + render_value(v, level).len());
            lemma_tokens_then_twice(units_tokens(us), seq![TokenModel::Close], end);
            lemma_tokens_then_twice(
                seq![TokenModel::Open],
                units_tokens(us) + seq![TokenModel::Close],
                end,
            );
            assert(seq![TokenModel::Open] + (units_tokens(us) + seq![TokenModel::Close])
                =~= value_tokens(v));
        },
    }
}

/// A key and an operator, with a space behind each, are read as two
/// tokens, whatever follows.
pub proof fn lemma_lex_head(key: EntryModel, op: TokenModel, tail: Seq<char>, at: nat)
    requires
        key.wf(),
        wf_token(op),
        is_operator(op),
    ensures
        lex(key.text() + seq![' '] + token_text(op) + seq![' '] + tail, at) == tokens_then(
            seq![entry_token(key), op],
            lex(tail, at + key.text().len() + token_text(op).len() + 2),
        ),
{
    let sp = seq![' '];
    let ktext = token_text(entry_token(key));
    let otext = token_text(op);
    let r3 = sp + tail;
    let r2 = otext + r3;
    let r1 = sp + r2;
    assert(key.text() + sp + otext + sp + tail =~= ktext + r1);
    lemma_lex_token(entry_token(key), r1, at);
    let a1 = at + ktext.len();
    lemma_lex_spaces(sp, r2, a1);
    lemma_lex_token(op, r3, a1 + 1);
    let a2 = a1 + 1 + otext.len();
    lemma_lex_spaces(sp, tail, a2);
    lemma_tokens_then_twice(seq![entry_token(key)], seq![op], lex(tail, a2 + 1));
    assert(seq![entry_token(key)] + seq![op] =~= seq![entry_token(key), op]);
}

/// The key of a unit and the token of its operator; for a unit without a
/// key, nothing of use.
pub open spec fn unit_key_op(u: UnitModel) -> (EntryModel, TokenModel) {
    match u {
        UnitModel::KeyValue(k, _) => (k, TokenModel::Assign),
        UnitModel::Questioned(k, _) => (k, TokenModel::Question),
        UnitModel::Relation(k, r, _) => (k, TokenModel::Relation(r)),
        UnitModel::SingleValue(_) => arbitrary(),
    }
}

/// The text of a well-formed unit, before whitespace, is read as the
/// tokens of the unit.
pub proof fn lemma_lex_unit(u: UnitModel, level: usize, rest: Seq<char>, at: nat)
    requires
        wf_unit(u),
        rest.len() > 0,
        is_space(rest[0]),
    ensures
        lex(render_unit(u, level) + rest, at) == tokens_then(
            unit_tokens(u),
            lex(rest, at + render_unit(u, level).len()),
        ),
    decreases u,
{
    let pad = indent(level);
    let v = unit_value(u);
    let vtext = render_value(v, deeper(level));
    let end = lex(rest, at + render_unit(u, level).len());
    lemma_indent_is_space(level);
    match u {
        UnitModel::SingleValue(_) => {
            assert(render_unit(u, level) + rest =~= pad + (vtext + rest));
            lemma_lex_spaces(pad, vtext + rest, at);
            lemma_lex_value(v, deeper(level), rest, at + pad.len());
        },
        _ => {
            let (key, op) = unit_key_op(u);
            let sp = seq![' '];
            let head = key.text() + sp + token_text(op) + sp;
            let tail = vtext + rest;
            assert(unit_head(u) =~= head);
            assert(render_unit(u, level) == pad + head + vtext);
            assert(render_unit(u, level) + rest =~= pad + (head + tail));
            lemma_lex_spaces(pad, head + tail, at);
            let a0 = at + pad.len();
            lemma_lex_head(key, op, tail, a0);
            let a1 = a0 + head.len();
            lemma_lex_value(v, deeper(level), rest, a1);
            assert(a1 + vtext.len() == at + render_unit(u, level).len());
            lemma_tokens_then_twice(seq![entry_token(key), op], value_tokens(v), end);
            assert(seq![entry_token(key), op] + value_tokens(v) =~= unit_tokens(u));
        },
    }
}

/// The text of well-formed units, before any text, is read as the tokens
/// of the units, and then as the text goes on.
pub proof fn lemma_lex_units(us: Seq<UnitModel>, level: usize, rest: Seq<char>, at: nat)
    requires
        wf_units(us),
    ensures
        lex(render_units(us, level) + rest, at) == tokens_then(
            units_tokens(us),
            lex(rest, at + render_units(us, level).len()),
        ),
    decreases us,
{
    if us.len() == 0 {
        assert(render_units(us, level) + rest =~= rest);
        let end = lex(rest, at);
        match end {
            Ok(more) => {
                assert(units_tokens(us) + more =~= more);
            },
            Err(_) => {},
        }
    } else {
        let init = us.drop_last();
        let last = us.last();
        let nl = seq!['\n'];
        let itext = render_units(init, level);
        let ltext = render_unit(last, level);
        let r2 = nl + rest;
        let r1 = ltext + r2;
        assert(render_units(us, level) + rest =~= itext + r1);
        assert forall|i: int| 0 <= i < init.len() implies wf_unit(#[trigger] init[i]) by {
            assert(init[i] == us[i]);
        }
        lemma_lex_units(init, level, r1, at);
        assert(r2[0] == '\n');
        lemma_lex_unit(last, level, r2, at + itext.len());
        lemma_lex_spaces(nl, rest, at + itext.len() + ltext.len());
        let end = lex(rest, at + render_units(us, level).len());
        assert(at + itext.len() + ltext.len() + 1 == at + render_units(us, level).len());
        lemma_tokens_then_twice(units_tokens(init), unit_tokens(last), end);
    }
}

/// Round trip: the text that a well-formed script is written as, at any
/// level, is read back as that script, with any bound that its nesting is
/// within.
pub proof fn lemma_round_trip(us: Seq<UnitModel>, level: usize, depth: nat)
    requires
        wf_units(us),
        units_within(us, depth),
    ensures
        lex(render_units(us, level), 0) == Ok::<Seq<TokenModel>, SyntaxError>(units_tokens(us)),
        read_script(render_units(us, level), depth) == Ok::<Seq<UnitModel>, SyntaxError>(us),
{
    let text = render_units(us, level);
    let none = Seq::<char>::empty();
    assert(text + none =~= text);
    lemma_lex_units(us, level, none, 0);
    assert(units_tokens(us) + Seq::<TokenModel>::empty() =~= units_tokens(us));
    lemma_parse_complete(us, depth);
}

/// Reading a text gives a script exactly where the text is a script that
/// stands for it: what the parser computes and what the grammar derives
/// are the same.
pub proof fn lemma_read_is_script(text: Seq<char>, us: Seq<UnitModel>, depth: nat)
    ensures
        read_script(text, depth) == Ok::<Seq<UnitModel>, SyntaxError>(us) <==> is_script(
            text,
            us,
            depth,
        ),
{
    lemma_lex_wf(text, 0);
    match lex(text, 0) {
        Ok(toks) => {
            lemma_parse_sound(toks, depth);
            if is_script(text, us, depth) {
                lemma_parse_complete(us, depth);
            }
        },
        Err(_) => {},
    }
}

/// A unit that is appended to a script is written behind all the units
/// that the script held, as a line of its own.
pub proof fn lemma_render_push(us: Seq<UnitModel>, u: UnitModel, level: usize)
    ensures
        render_units(us.push(u), level) == render_units(us, level) + render_unit(u, level)
            + seq!['\n'],
{
    assert(us.push(u).drop_last() =~= us);
}


} // verus!
