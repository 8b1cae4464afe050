//! The parser of scripts: recursive descent over the tokens, one token of
//! lookahead behind an entry.

use super::grammar::{
    is_entry, is_script, parse_unit, parse_units, parse_value, read_script, token_entry,
};
use super::laws::lemma_read_is_script;
use super::lexer::{token_models, tokenize, Token};
use super::{unit_models, Entry, Key, Unit, UnitModel, Units, Value, ValueModel};
use crate::result::{Error, SyntaxError, SyntaxErrorKind};
use crate::text::to_chars;
use vstd::prelude::*;

verus! {

/// How deep [`parse_script`] lets blocks be nested.
pub const DEFAULT_MAX_DEPTH: usize = 256;

/// What a value that was read, or the violation, stands for.
pub open spec fn value_outcome(r: Result<(Value, usize), SyntaxError>) -> Result<
    (ValueModel, nat),
    SyntaxError,
> {
    match r {
        Ok((v, end)) => Ok((v@, end as nat)),
        Err(e) => Err(e),
    }
}

/// What a unit that was read, or the violation, stands for.
pub open spec fn unit_outcome(r: Result<(Unit, usize), SyntaxError>) -> Result<
    (UnitModel, nat),
    SyntaxError,
> {
    match r {
        Ok((u, end)) => Ok((u@, end as nat)),
        Err(e) => Err(e),
    }
}

/// What units that were read, or the violation, stand for.
pub open spec fn units_outcome(r: Result<(Units, usize), SyntaxError>) -> Result<
    (Seq<UnitModel>, nat),
    SyntaxError,
> {
    match r {
        Ok((us, end)) => Ok((us@, end as nat)),
        Err(e) => Err(e),
    }
}

/// The entry that a token is; `None` for a token that is none.
pub fn entry_of_token(t: &Token) -> (r: Option<Entry>)
    ensures
        match r {
            Some(e) => is_entry(t@) && e@ == token_entry(t@),
            None => !is_entry(t@),
        },
{
    match t {
        Token::Ident(s) => Some(Entry::Ident(s.clone())),
        Token::RawStr(s) => Some(Entry::RawStr(s.clone())),
        _ => None,
    }
}

/// Reads a value at the token `pos`, with blocks nested at most `depth`
/// deep, and tells where it ends.
pub fn parse_value_at(toks: &Vec<Token>, pos: usize, depth: usize) -> (r: Result<
    (Value, usize),
    SyntaxError,
>)
    ensures
        value_outcome(r) == parse_value(token_models(toks@), pos as nat, depth as nat),
        r matches Ok((_, end)) ==> pos < end <= toks.len(),
    decreases toks.len() - pos, 0nat,
{
    if pos >= toks.len() {
        return Err(SyntaxError { kind: SyntaxErrorKind::ExpectedValue, position: pos });
    }
    match &toks[pos] {
        Token::Ident(s) => Ok((Value::Primitive(Entry::Ident(s.clone())), pos + 1)),
        Token::RawStr(s) => Ok((Value::Primitive(Entry::RawStr(s.clone())), pos + 1)),
        Token::Open => {
            if pos + 1 < toks.len() && matches!(toks[pos + 1], Token::Close) {
                Ok((Value::Empty, pos + 2))
            } else if depth == 0 {
                Err(SyntaxError { kind: SyntaxErrorKind::NestingTooDeep, position: pos })
            } else {
                match parse_units_at(toks, pos + 1, depth - 1) {
                    Ok((us, end)) => {
                        if end < toks.len() {
                            Ok((Value::Units(Box::new(us)), end + 1))
                        } else {
                            Err(SyntaxError { kind: SyntaxErrorKind::UnclosedBlock, position: pos })
                        }
                    },
                    Err(e) => Err(e),
                }
            }
        },
        _ => Err(SyntaxError { kind: SyntaxErrorKind::ExpectedValue, position: pos }),
    }
}

/// Reads a unit at the token `pos`, and tells where it ends.
pub fn parse_unit_at(toks: &Vec<Token>, pos: usize, depth: usize) -> (r: Result<
    (Unit, usize),
    SyntaxError,
>)
    requires
        pos < toks.len(),
    ensures
        unit_outcome(r) == parse_unit(token_models(toks@), pos as nat, depth as nat),
        r matches Ok((_, end)) ==> pos < end <= toks.len(),
    decreases toks.len() - pos, 1nat,
{
    if pos + 1 < toks.len() {
        match entry_of_token(&toks[pos]) {
            Some(key) => {
                match &toks[pos + 1] {
                    Token::Assign => {
                        return match parse_value_at(toks, pos + 2, depth) {
                            Ok((v, end)) => Ok((Unit::KeyValue(Key(key), v), end)),
                            Err(e) => Err(e),
                        };
                    },
                    Token::Question => {
                        return match parse_value_at(toks, pos + 2, depth) {
                            Ok((v, end)) => Ok((Unit::Questioned(Key(key), v), end)),
                            Err(e) => Err(e),
                        };
                    },
                    Token::Relation(op) => {
                        return match parse_value_at(toks, pos + 2, depth) {
                            Ok((v, end)) => Ok((Unit::Relation(Key(key), op.clone(), v), end)),
                            Err(e) => Err(e),
                        };
                    },
                    _ => {},
                }
            },
            None => {},
        }
    }
    match parse_value_at(toks, pos, depth) {
        Ok((v, end)) => Ok((Unit::SingleValue(v), end)),
        Err(e) => Err(e),
    }
}

/// `us`, then what `rest` gives; the violation of `rest` if it is one.
pub open spec fn units_then(us: Seq<UnitModel>, rest: Result<(Seq<UnitModel>, nat), SyntaxError>)
    -> Result<(Seq<UnitModel>, nat), SyntaxError> {
    match rest {
        Ok((more, end)) => Ok((us + more, end)),
        Err(e) => Err(e),
    }
}

/// Reads units from the token `pos` up to a `}` or the end of the tokens,
/// and tells where it stopped.
pub fn parse_units_at(toks: &Vec<Token>, pos: usize, depth: usize) -> (r: Result<
    (Units, usize),
    SyntaxError,
>)
    requires
        pos <= toks.len(),
    ensures
        units_outcome(r) == parse_units(token_models(toks@), pos as nat, depth as nat),
        r matches Ok((_, end)) ==> pos <= end <= toks.len(),
    decreases toks.len() - pos, 2nat,
{
    let ghost tm = token_models(toks@);
    let mut units: Vec<Unit> = Vec::new();
    let mut at: usize = pos;
    proof {
        let rest = parse_units(tm, pos as nat, depth as nat);
        if rest is Ok {
            assert(unit_models(units@) + rest->Ok_0.0 =~= rest->Ok_0.0);
        }
    }
    while at < toks.len() && !matches!(toks[at], Token::Close)
        invariant
            pos <= at <= toks.len(),
            tm == token_models(toks@),
            parse_units(tm, pos as nat, depth as nat) == units_then(
                unit_models(units@),
                parse_units(tm, at as nat, depth as nat),
            ),
        decreases toks.len() - at,
    {
        let ghost before = unit_models(units@);
        match parse_unit_at(toks, at, depth) {
            Ok((u, mid)) => {
                proof {
                    let rest = parse_units(tm, mid as nat, depth as nat);
                    let after = unit_models(units@.push(u));
                    assert(after =~= before + seq![u@]);
                    if rest is Ok {
                        assert(before + (seq![u@] + rest->Ok_0.0) =~= after + rest->Ok_0.0);
                    }
                }
                units.push(u);
                at = mid;
            },
            Err(e) => {
                return Err(e);
            },
        }
    }
    proof {
        assert(unit_models(units@) + Seq::<UnitModel>::empty() =~= unit_models(units@));
        assert(Units(units)@ =~= unit_models(units@));
    }
    Ok((Units(units), at))
}

/// Reads all the tokens as one script, with blocks nested at most `depth`
/// deep. A violation is reported at the index of a token.
pub fn parse_tokens(toks: &Vec<Token>, depth: usize) -> (r: Result<Units, SyntaxError>)
    ensures
        match r {
            Ok(us) => super::grammar::parse_document(token_models(toks@), depth as nat) == Ok::<
                Seq<UnitModel>,
                SyntaxError,
            >(us@),
            Err(e) => super::grammar::parse_document(token_models(toks@), depth as nat) == Err::<
                Seq<UnitModel>,
                SyntaxError,
            >(e),
        },
{
    match parse_units_at(toks, 0, depth) {
        Ok((us, end)) => {
            if end < toks.len() {
                Err(SyntaxError { kind: SyntaxErrorKind::UnmatchedClose, position: end })
            } else {
                Ok(us)
            }
        },
        Err(e) => Err(e),
    }
}

/// Reads a text as a script, with blocks nested at most `max_depth` deep.
///
/// It returns the script that the text stands for, if there is one: the
/// text is cut into tokens, and the grammar derives these tokens from the
/// script. Otherwise it returns a `ParseError` that describes the first
/// violation and gives its offset in the text: where no token can be
/// formed, where the tokens leave the grammar, or where a block is nested
/// deeper than `max_depth`.
pub fn parse_script_with_depth(text: &str, max_depth: usize) -> (r: Result<Units, Error>)
    ensures
        match r {
            Ok(doc) => {
                &&& is_script(text@, doc@, max_depth as nat)
                &&& read_script(text@, max_depth as nat) == Ok::<Seq<UnitModel>, SyntaxError>(
                    doc@,
                )
            },
            Err(e) => {
                &&& forall|us: Seq<UnitModel>| !is_script(text@, us, max_depth as nat)
                &&& read_script(text@, max_depth as nat) is Err
                &&& e.reports(read_script(text@, max_depth as nat)->Err_0)
            },
        },
{
    let chars = to_chars(text);
    proof {
        assert forall|us: Seq<UnitModel>| is_script(text@, us, max_depth as nat) implies read_script(
            text@,
            max_depth as nat,
        ) == Ok::<Seq<UnitModel>, SyntaxError>(us) by {
            lemma_read_is_script(text@, us, max_depth as nat);
        }
    }
    match tokenize(&chars) {
        Ok((toks, offsets)) => {
            match parse_tokens(&toks, max_depth) {
                Ok(doc) => {
                    proof {
                        lemma_read_is_script(text@, doc@, max_depth as nat);
                    }
                    Ok(doc)
                },
                Err(e) => {
                    let position: usize = if e.position < offsets.len() {
                        offsets[e.position]
                    } else {
                        chars.len()
                    };
                    Err(SyntaxError { kind: e.kind, position }.into_error())
                },
            }
        },
        Err(e) => Err(e.into_error()),
    }
}

/// Reads a text as a script, with blocks nested at most
/// [`DEFAULT_MAX_DEPTH`] deep: see [`parse_script_with_depth`].
pub fn parse_script(text: &str) -> (r: Result<Units, Error>)
    ensures
        match r {
            Ok(doc) => {
                &&& is_script(text@, doc@, DEFAULT_MAX_DEPTH as nat)
                &&& read_script(text@, DEFAULT_MAX_DEPTH as nat) == Ok::<
                    Seq<UnitModel>,
                    SyntaxError,
                >(doc@)
            },
            Err(e) => {
                &&& forall|us: Seq<UnitModel>| !is_script(text@, us, DEFAULT_MAX_DEPTH as nat)
                &&& read_script(text@, DEFAULT_MAX_DEPTH as nat) is Err
                &&& e.reports(read_script(text@, DEFAULT_MAX_DEPTH as nat)->Err_0)
            },
        },
{
    parse_script_with_depth(text, DEFAULT_MAX_DEPTH)
}

} // verus!
