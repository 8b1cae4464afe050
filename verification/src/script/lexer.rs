//! The tokens of a script, and how a text is cut into them.
//!
//! Whitespace separates tokens and is dropped. Each token is the longest
//! that can start where it starts: `>=` is never `>` and then `=`, and a
//! bare word runs until whitespace, a quote mark, a brace or an operator
//! character.

use crate::result::{SyntaxError, SyntaxErrorKind};
use crate::text::{collect_string, is_space, lemma_run_len_holds, run_len, scan_run, CharClass};
use vstd::prelude::*;

verus! {

/// A token of a script.
#[derive(Debug, PartialEq, Eq)]
pub enum Token {
    /// A bare word.
    Ident(String),
    /// A quoted literal, with its quotes.
    RawStr(String),
    /// `=`
    Assign,
    /// `?=`
    Question,
    /// One of `>`, `<`, `>=`, `<=`, `==`, as written.
    Relation(String),
    /// `{`
    Open,
    /// `}`
    Close,
}

/// What a [`Token`] stands for.
pub enum TokenModel {
    Ident(Seq<char>),
    RawStr(Seq<char>),
    Assign,
    Question,
    Relation(Seq<char>),
    Open,
    Close,
}

impl View for Token {
    type V = TokenModel;

    open spec fn view(&self) -> TokenModel {
        match self {
            Token::Ident(s) => TokenModel::Ident(s@),
            Token::RawStr(s) => TokenModel::RawStr(s@),
            Token::Assign => TokenModel::Assign,
            Token::Question => TokenModel::Question,
            Token::Relation(s) => TokenModel::Relation(s@),
            Token::Open => TokenModel::Open,
            Token::Close => TokenModel::Close,
        }
    }
}

/// What a sequence of tokens stands for.
pub open spec fn token_models(ts: Seq<Token>) -> Seq<TokenModel> {
    Seq::new(ts.len(), |i: int| ts[i]@)
}

/// The token that `s` starts with and the number of characters it takes,
/// or the reason why `s` starts with none. `s` is not empty and does not
/// start with whitespace.
pub open spec fn first_token(s: Seq<char>) -> Result<(TokenModel, nat), SyntaxErrorKind> {
    let c = s[0];
    let pair = s.len() > 1 && s[1] == '=';
    if c == '{' {
        Ok((TokenModel::Open, 1))
    } else if c == '}' {
        Ok((TokenModel::Close, 1))
    } else if c == '"' {
        let inside = run_len(s.drop_first(), CharClass::Quoted);
        if inside + 1 < s.len() {
            Ok((TokenModel::RawStr(s.take(inside + 2 as int)), inside + 2))
        } else {
            Err(SyntaxErrorKind::UnterminatedString)
        }
    } else if c == '?' {
        if pair {
            Ok((TokenModel::Question, 2))
        } else {
            Err(SyntaxErrorKind::StrayQuestionMark)
        }
    } else if c == '=' && !pair {
        Ok((TokenModel::Assign, 1))
    } else if c == '=' || c == '<' || c == '>' {
        if pair {
            Ok((TokenModel::Relation(s.take(2)), 2))
        } else {
            Ok((TokenModel::Relation(s.take(1)), 1))
        }
    } else {
        let n = run_len(s, CharClass::Word);
        Ok((TokenModel::Ident(s.take(n as int)), n))
    }
}

/// `ts`, then what `rest` gives; the failure of `rest` if it is one.
pub open spec fn tokens_then(ts: Seq<TokenModel>, rest: Result<Seq<TokenModel>, SyntaxError>)
    -> Result<Seq<TokenModel>, SyntaxError> {
    match rest {
        Ok(more) => Ok(ts + more),
        Err(e) => Err(e),
    }
}

/// The tokens of `s`, where `s` starts at the offset `at` of a text; or
/// the first place where no token can be formed, as an offset into that
/// text.
pub open spec fn lex(s: Seq<char>, at: nat) -> Result<Seq<TokenModel>, SyntaxError>
    decreases s.len(),
    via lex_decreases
{
    if s.len() == 0 {
        Ok(Seq::empty())
    } else if is_space(s[0]) {
        lex(s.drop_first(), at + 1)
    } else {
        match first_token(s) {
            Ok((t, n)) => tokens_then(seq![t], lex(s.skip(n as int), at + n)),
            Err(kind) => Err(SyntaxError { kind, position: at as usize }),
        }
    }
}

/// The offsets at which the tokens of `s` start, where `s` starts at the
/// offset `at` of a text; up to the first place where no token can be
/// formed.
pub open spec fn token_offsets(s: Seq<char>, at: nat) -> Seq<usize>
    decreases s.len(),
    via token_offsets_decreases
{
    if s.len() == 0 {
        Seq::empty()
    } else if is_space(s[0]) {
        token_offsets(s.drop_first(), at + 1)
    } else {
        match first_token(s) {
            Ok((_, n)) => seq![at as usize] + token_offsets(s.skip(n as int), at + n),
            Err(_) => Seq::empty(),
        }
    }
}

#[via_fn]
proof fn token_offsets_decreases(s: Seq<char>, at: nat) {
    if s.len() > 0 && !is_space(s[0]) {
        lemma_first_token_len(s);
    }
}

#[via_fn]
proof fn lex_decreases(s: Seq<char>, at: nat) {
    if s.len() > 0 && !is_space(s[0]) {
        lemma_first_token_len(s);
    }
}

/// A token takes at least one character and no more than there are.
pub proof fn lemma_first_token_len(s: Seq<char>)
    requires
        s.len() > 0,
        !is_space(s[0]),
    ensures
        first_token(s) matches Ok((_, n)) ==> 0 < n <= s.len(),
{
    lemma_run_len_holds(s, CharClass::Word);
    lemma_run_len_holds(s.drop_first(), CharClass::Quoted);
}

/// Reads the token that starts at `from`, and tells where it ends.
pub fn scan_token(text: &Vec<char>, from: usize) -> (r: Result<(Token, usize), SyntaxErrorKind>)
    requires
        from < text.len(),
        !is_space(text@[from as int]),
    ensures
        match r {
            Ok((t, end)) => from < end <= text.len() && first_token(text@.skip(from as int)) == Ok::<
                (TokenModel, nat),
                SyntaxErrorKind,
            >((t@, (end - from) as nat)),
            Err(kind) => first_token(text@.skip(from as int)) == Err::<
                (TokenModel, nat),
                SyntaxErrorKind,
            >(kind),
        },
{
    let ghost s = text@.skip(from as int);
    let c: char = text[from];
    let pair: bool = from + 1 < text.len() && text[from + 1] == '=';
    proof {
        assert(s[0] == c);
        if s.len() > 1 {
            assert(s[1] == text@[from + 1]);
        }
        lemma_first_token_len(s);
        assert(s.take(1) =~= text@.subrange(from as int, from + 1));
        if s.len() > 1 {
            assert(s.take(2) =~= text@.subrange(from as int, from + 2));
        }
    }
    if c == '{' {
        Ok((Token::Open, from + 1))
    } else if c == '}' {
        Ok((Token::Close, from + 1))
    } else if c == '"' {
        let close: usize = scan_run(text, from + 1, CharClass::Quoted);
        proof {
            assert(s.drop_first() =~= text@.skip(from + 1));
        }
        if close < text.len() {
            let word = collect_string(text, from, close + 1);
            proof {
                assert(s.take(close + 1 - from) =~= text@.subrange(from as int, close + 1));
            }
            Ok((Token::RawStr(word), close + 1))
        } else {
            Err(SyntaxErrorKind::UnterminatedString)
        }
    } else if c == '?' {
        if pair {
            Ok((Token::Question, from + 2))
        } else {
            Err(SyntaxErrorKind::StrayQuestionMark)
        }
    } else if c == '=' && !pair {
        Ok((Token::Assign, from + 1))
    } else if c == '=' || c == '<' || c == '>' {
        if pair {
            Ok((Token::Relation(collect_string(text, from, from + 2)), from + 2))
        } else {
            Ok((Token::Relation(collect_string(text, from, from + 1)), from + 1))
        }
    } else {
        let end: usize = scan_run(text, from, CharClass::Word);
        let word = collect_string(text, from, end);
        proof {
            assert(s.take(end - from) =~= text@.subrange(from as int, end as int));
        }
        Ok((Token::Ident(word), end))
    }
}

/// Cuts a text into its tokens, and tells at which offset each of them
/// starts. It fails at the first place where no token can be formed: a
/// quoted literal that is never closed, or a `?` without `=` behind it.
pub fn tokenize(text: &Vec<char>) -> (r: Result<(Vec<Token>, Vec<usize>), SyntaxError>)
    ensures
        match r {
            Ok((ts, offsets)) => {
                &&& lex(text@, 0) == Ok::<Seq<TokenModel>, SyntaxError>(token_models(ts@))
                &&& offsets@ == token_offsets(text@, 0)
                &&& offsets@.len() == ts@.len()
            },
            Err(e) => lex(text@, 0) == Err::<Seq<TokenModel>, SyntaxError>(e),
        },
{
    let mut tokens: Vec<Token> = Vec::new();
    let mut offsets: Vec<usize> = Vec::new();
    let mut i: usize = 0;
    proof {
        assert(text@.skip(0) =~= text@);
        assert(token_models(tokens@) + lex(text@, 0)->Ok_0 =~= lex(text@, 0)->Ok_0);
        assert(offsets@ + token_offsets(text@, 0) =~= token_offsets(text@, 0));
    }
    while i < text.len()
        invariant
            i <= text.len(),
            offsets@.len() == tokens@.len(),
            lex(text@, 0) == tokens_then(token_models(tokens@), lex(text@.skip(i as int), i as nat)),
            token_offsets(text@, 0) == offsets@ + token_offsets(text@.skip(i as int), i as nat),
        decreases text.len() - i,
    {
        let ghost s = text@.skip(i as int);
        let ghost before = token_models(tokens@);
        let c: char = text[i];
        if crate::text::char_in_class(c, CharClass::Space) {
            proof {
                assert(s.drop_first() =~= text@.skip(i + 1));
            }
            i += 1;
        } else {
            match scan_token(text, i) {
                Ok((t, end)) => {
                    proof {
                        assert(s.skip(end - i) =~= text@.skip(end as int));
                        let rest = lex(text@.skip(end as int), end as nat);
                        let after = token_models(tokens@.push(t));
                        assert(after =~= before + seq![t@]);
                        if rest is Ok {
                            assert(before + (seq![t@] + rest->Ok_0) =~= after + rest->Ok_0);
                        }
                        let more = token_offsets(text@.skip(end as int), end as nat);
                        assert(offsets@ + (seq![i] + more) =~= offsets@.push(i) + more);
                    }
                    tokens.push(t);
                    offsets.push(i);
                    i = end;
                },
                Err(kind) => {
                    return Err(SyntaxError { kind, position: i });
                },
            }
        }
    }
    proof {
        assert(token_models(tokens@) + Seq::<TokenModel>::empty() =~= token_models(tokens@));
        assert(offsets@ + Seq::<usize>::empty() =~= offsets@);
    }
    Ok((tokens, offsets))
}

} // verus!
