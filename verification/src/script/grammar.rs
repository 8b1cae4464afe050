//! The grammar of a script over its tokens, and what reading a script
//! means.
//!
//! ```text
//! units := unit*
//! unit  := entry "=" value | entry "?=" value | entry relation value | value
//! value := "{" "}" | "{" unit+ "}" | entry
//! entry := word | quoted literal
//! ```
//!
//! After an entry one token decides: an operator makes the entry a key,
//! anything else leaves it a value of its own.

use super::lexer::{lex, token_offsets, TokenModel};
use super::{units_within, wf_units, EntryModel, UnitModel, ValueModel};
use crate::result::{SyntaxError, SyntaxErrorKind};
use vstd::prelude::*;

verus! {

/// The token that an entry is written as.
pub open spec fn entry_token(e: EntryModel) -> TokenModel {
    match e {
        EntryModel::Ident(s) => TokenModel::Ident(s),
        EntryModel::RawStr(s) => TokenModel::RawStr(s),
    }
}

/// The tokens that a value is written as.
pub open spec fn value_tokens(v: ValueModel) -> Seq<TokenModel>
    decreases v,
{
    match v {
        ValueModel::Empty => seq![TokenModel::Open, TokenModel::Close],
        ValueModel::Primitive(e) => seq![entry_token(e)],
        ValueModel::Units(us) => seq![TokenModel::Open] + units_tokens(us) + seq![
            TokenModel::Close,
        ],
    }
}

/// The tokens that a unit is written as.
pub open spec fn unit_tokens(u: UnitModel) -> Seq<TokenModel>
    decreases u,
{
    match u {
        UnitModel::KeyValue(k, v) => seq![entry_token(k), TokenModel::Assign] + value_tokens(v),
        UnitModel::SingleValue(v) => value_tokens(v),
        UnitModel::Questioned(k, v) => seq![entry_token(k), TokenModel::Question] + value_tokens(
            v,
        ),
        UnitModel::Relation(k, op, v) => seq![entry_token(k), TokenModel::Relation(op)]
            + value_tokens(v),
    }
}

/// The tokens that a script is written as: those of its units, in their
/// order.
pub open spec fn units_tokens(us: Seq<UnitModel>) -> Seq<TokenModel>
    decreases us,
{
    if us.len() == 0 {
        Seq::empty()
    } else {
        units_tokens(us.drop_last()) + unit_tokens(us.last())
    }
}

/// Whether a token is an entry: a word or a quoted literal.
pub open spec fn is_entry(t: TokenModel) -> bool {
    t is Ident || t is RawStr
}

/// Whether a token is an operator: `=`, `?=` or a relation.
pub open spec fn is_operator(t: TokenModel) -> bool {
    t is Assign || t is Question || t is Relation
}

/// The entry that a token is, if it is one.
pub open spec fn token_entry(t: TokenModel) -> EntryModel {
    match t {
        TokenModel::RawStr(s) => EntryModel::RawStr(s),
        TokenModel::Ident(s) => EntryModel::Ident(s),
        _ => arbitrary(),
    }
}

/// The unit that a key, an operator and a value make.
pub open spec fn unit_of(key: EntryModel, op: TokenModel, v: ValueModel) -> UnitModel {
    match op {
        TokenModel::Question => UnitModel::Questioned(key, v),
        TokenModel::Relation(r) => UnitModel::Relation(key, r, v),
        _ => UnitModel::KeyValue(key, v),
    }
}

/// The violation of `kind` at the token `pos`.
pub open spec fn violation(kind: SyntaxErrorKind, pos: nat) -> SyntaxError {
    SyntaxError { kind, position: pos as usize }
}

/// Reads a value at the token `pos`, with blocks nested at most `depth`
/// deep, and tells where it ends.
pub open spec fn parse_value(toks: Seq<TokenModel>, pos: nat, depth: nat) -> Result<
    (ValueModel, nat),
    SyntaxError,
>
    decreases toks.len() - pos, 0nat,
{
    if pos >= toks.len() {
        Err(violation(SyntaxErrorKind::ExpectedValue, pos))
    } else {
        match toks[pos as int] {
            TokenModel::Ident(s) => Ok((ValueModel::Primitive(EntryModel::Ident(s)), pos + 1)),
            TokenModel::RawStr(s) => Ok((ValueModel::Primitive(EntryModel::RawStr(s)), pos + 1)),
            TokenModel::Open => {
                if pos + 1 < toks.len() && toks[pos as int + 1] is Close {
                    Ok((ValueModel::Empty, pos + 2))
                } else if depth == 0 {
                    Err(violation(SyntaxErrorKind::NestingTooDeep, pos))
                } else {
                    match parse_units(toks, pos + 1, (depth - 1) as nat) {
                        Ok((us, end)) => {
                            if end < toks.len() {
                                Ok((ValueModel::Units(us), end + 1))
                            } else {
                                Err(violation(SyntaxErrorKind::UnclosedBlock, pos))
                            }
                        },
                        Err(e) => Err(e),
                    }
                }
            },
            _ => Err(violation(SyntaxErrorKind::ExpectedValue, pos)),
        }
    }
}

/// Reads a unit at the token `pos`, and tells where it ends. An entry with
/// an operator behind it is a key; anything else is read as a value.
pub open spec fn parse_unit(toks: Seq<TokenModel>, pos: nat, depth: nat) -> Result<
    (UnitModel, nat),
    SyntaxError,
>
    decreases toks.len() - pos, 1nat,
{
    if pos + 1 < toks.len() && is_entry(toks[pos as int]) && is_operator(toks[pos as int + 1]) {
        match parse_value(toks, pos + 2, depth) {
            Ok((v, end)) => Ok((unit_of(token_entry(toks[pos as int]), toks[pos as int + 1], v), end)),
            Err(e) => Err(e),
        }
    } else {
        match parse_value(toks, pos, depth) {
            Ok((v, end)) => Ok((UnitModel::SingleValue(v), end)),
            Err(e) => Err(e),
        }
    }
}

/// Reads units from the token `pos` up to a `}` or the end of the tokens,
/// and tells where it stopped.
pub open spec fn parse_units(toks: Seq<TokenModel>, pos: nat, depth: nat) -> Result<
    (Seq<UnitModel>, nat),
    SyntaxError,
>
    decreases toks.len() - pos, 2nat,
{
    if pos >= toks.len() || toks[pos as int] is Close {
        Ok((Seq::empty(), pos))
    } else {
        match parse_unit(toks, pos, depth) {
            Ok((u, mid)) => {
                // A unit takes at least one token and no more than there
                // are, so this always holds: see `lemma_parse_sound`.
                if pos < mid <= toks.len() {
                    match parse_units(toks, mid, depth) {
                        Ok((us, end)) => Ok((seq![u] + us, end)),
                        Err(e) => Err(e),
                    }
                } else {
                    Ok((seq![u], mid))
                }
            },
            Err(e) => Err(e),
        }
    }
}

/// Reads all the tokens as one script. A `}` that closes nothing is a
/// violation.
pub open spec fn parse_document(toks: Seq<TokenModel>, depth: nat) -> Result<
    Seq<UnitModel>,
    SyntaxError,
> {
    match parse_units(toks, 0, depth) {
        Ok((us, end)) => {
            if end < toks.len() {
                Err(violation(SyntaxErrorKind::UnmatchedClose, end))
            } else {
                Ok(us)
            }
        },
        Err(e) => Err(e),
    }
}

/// The violation `e`, found at a token, as a violation at the offset at
/// which that token starts; at `end` where it was found behind the last
/// token.
pub open spec fn at_offset(e: SyntaxError, offsets: Seq<usize>, end: nat) -> SyntaxError {
    SyntaxError {
        kind: e.kind,
        position: if e.position < offsets.len() {
            offsets[e.position as int]
        } else {
            end as usize
        },
    }
}

/// Reads a text as a script, with blocks nested at most `depth` deep: the
/// script, or the first violation with its offset in the text.
pub open spec fn read_script(text: Seq<char>, depth: nat) -> Result<Seq<UnitModel>, SyntaxError> {
    match lex(text, 0) {
        Ok(toks) => match parse_document(toks, depth) {
            Ok(us) => Ok(us),
            Err(e) => Err(at_offset(e, token_offsets(text, 0), text.len())),
        },
        Err(e) => Err(e),
    }
}

/// Whether `text` is a script that stands for `us`: `us` is well formed,
/// its blocks are nested at most `depth` deep, and the tokens of `text` are
/// the ones that the grammar derives from `us`.
pub open spec fn is_script(text: Seq<char>, us: Seq<UnitModel>, depth: nat) -> bool {
    &&& wf_units(us)
    &&& units_within(us, depth)
    &&& lex(text, 0) == Ok::<Seq<TokenModel>, SyntaxError>(units_tokens(us))
}

} // verus!
