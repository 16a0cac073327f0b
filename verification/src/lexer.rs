//! The lexical scanner: turns a source string into a token
//! sequence terminated by `EndOfFile`.
//!
//! The scanner reads the source exactly once, left to right,
//! assembling identifiers, keywords and integer literals in a
//! scratch buffer that is flushed at every break character.
//! `spec_lex` is the mathematical model of the scan; `lex` is
//! proved to return exactly what the model says.

use vstd::prelude::*;
use vstd::string::StrSliceExecFns;
use vstd::string::StringExecFns;

use crate::token::{Token, TokenModel};
use crate::text::{push_char, str_eq};

verus! {

/// How the scanner can fail: `ExpectedToken` for an input that ends
/// in the middle of a lexeme, `NotImplemented` for a character that
/// the language does not know.
#[derive(Debug, Clone, Copy, PartialEq, Eq, Structural)]
pub enum LexError {
    ExpectedToken,
    NotImplemented,
}

/// Whitespace: space, tab, newline.
pub open spec fn is_space_char(c: char) -> bool {
    c == ' ' || c == '\t' || c == '\n'
}

/// A character that ends the scratch buffer: whitespace, punctuation
/// or an operator character.
pub open spec fn is_break_char(c: char) -> bool {
    is_space_char(c) || c == '{' || c == '}' || c == '(' || c == ')' || c == ';' || c == '-'
        || c == '~' || c == '!' || c == '+' || c == '*' || c == '/' || c == '%' || c == '<'
        || c == '>' || c == '&' || c == '|' || c == '=' || c == ':' || c == '?' || c == ','
}

pub open spec fn is_digit_char(c: char) -> bool {
    '0' <= c && c <= '9'
}

pub open spec fn digit_val(c: char) -> int {
    c as int - '0' as int
}

/// The value of a digit string read in base ten.
pub open spec fn digits_val(s: Seq<char>) -> int
    decreases s.len(),
{
    if s.len() == 0 {
        0
    } else {
        digits_val(s.drop_last()) * 10 + digit_val(s.last())
    }
}

pub open spec fn all_digits(s: Seq<char>) -> bool {
    forall|i: int| 0 <= i < s.len() ==> is_digit_char(s[i])
}

/// What the scratch buffer flushes to: nothing when empty, a keyword
/// on an exact match, an integer literal when every character is a
/// digit and the value fits in `i32`, an identifier otherwise.
pub open spec fn flush_model(s: Seq<char>) -> Seq<TokenModel> {
    if s.len() == 0 {
        Seq::<TokenModel>::empty()
    } else if s == "return"@ {
        seq![TokenModel::KeywordReturn]
    } else if s == "int"@ {
        seq![TokenModel::KeywordInt]
    } else if s == "if"@ {
        seq![TokenModel::KeywordIf]
    } else if s == "else"@ {
        seq![TokenModel::KeywordElse]
    } else if s == "for"@ {
        seq![TokenModel::KeywordFor]
    } else if s == "while"@ {
        seq![TokenModel::KeywordWhile]
    } else if s == "do"@ {
        seq![TokenModel::KeywordDo]
    } else if s == "break"@ {
        seq![TokenModel::KeywordBreak]
    } else if s == "continue"@ {
        seq![TokenModel::KeywordContinue]
    } else if all_digits(s) && digits_val(s) <= i32::MAX as int {
        seq![TokenModel::IntLiteral(digits_val(s) as i32)]
    } else {
        seq![TokenModel::Identifier(s)]
    }
}

/// Prepends already-produced tokens to the outcome of the rest of
/// the scan; an error swallows everything.
pub open spec fn lex_cont(front: Seq<TokenModel>, rest: Result<Seq<TokenModel>, LexError>) -> Result<
    Seq<TokenModel>,
    LexError,
> {
    match rest {
        Ok(ts) => Ok(front + ts),
        Err(e) => Err(e),
    }
}

/// The model of the scan from position `i` on, with `scratch` the
/// word assembled so far. Two-character operators are greedy; a lone
/// `&` or `|` is not implemented.
pub open spec fn lex_from(s: Seq<char>, i: int, scratch: Seq<char>) -> Result<
    Seq<TokenModel>,
    LexError,
>
    decreases s.len() - i,
{
    if i >= s.len() {
        Ok(flush_model(scratch) + seq![TokenModel::EndOfFile])
    } else {
        let c = s[i];
        if !is_break_char(c) {
            lex_from(s, i + 1, scratch.push(c))
        } else {
            let fl = flush_model(scratch);
            if is_space_char(c) {
                lex_cont(fl, lex_from(s, i + 1, Seq::empty()))
            } else if c == '{' {
                lex_cont(fl + seq![TokenModel::OpenBrace], lex_from(s, i + 1, Seq::empty()))
            } else if c == '}' {
                lex_cont(fl + seq![TokenModel::CloseBrace], lex_from(s, i + 1, Seq::empty()))
            } else if c == '(' {
                lex_cont(fl + seq![TokenModel::OpenParen], lex_from(s, i + 1, Seq::empty()))
            } else if c == ')' {
                lex_cont(fl + seq![TokenModel::CloseParen], lex_from(s, i + 1, Seq::empty()))
            } else if c == ';' {
                lex_cont(fl + seq![TokenModel::SemiColon], lex_from(s, i + 1, Seq::empty()))
            } else if c == '-' {
                lex_cont(fl + seq![TokenModel::OperatorMinus], lex_from(s, i + 1, Seq::empty()))
            } else if c == '~' {
                lex_cont(
                    fl + seq![TokenModel::OperatorComplement],
                    lex_from(s, i + 1, Seq::empty()),
                )
            } else if c == '+' {
                lex_cont(fl + seq![TokenModel::OperatorAddtion], lex_from(s, i + 1, Seq::empty()))
            } else if c == '*' {
                lex_cont(
                    fl + seq![TokenModel::OperatorMultiplication],
                    lex_from(s, i + 1, Seq::empty()),
                )
            } else if c == '/' {
                lex_cont(fl + seq![TokenModel::OperatorDivision], lex_from(s, i + 1, Seq::empty()))
            } else if c == '%' {
                lex_cont(fl + seq![TokenModel::OperatorModulo], lex_from(s, i + 1, Seq::empty()))
            } else if c == ':' {
                lex_cont(fl + seq![TokenModel::Colon], lex_from(s, i + 1, Seq::empty()))
            } else if c == '?' {
                lex_cont(fl + seq![TokenModel::QuestionMark], lex_from(s, i + 1, Seq::empty()))
            } else if c == ',' {
                lex_cont(fl + seq![TokenModel::Comma], lex_from(s, i + 1, Seq::empty()))
            } else if c == '!' {
                if i + 1 < s.len() && s[i + 1] == '=' {
                    lex_cont(
                        fl + seq![TokenModel::OperatorNotEqual],
                        lex_from(s, i + 2, Seq::empty()),
                    )
                } else {
                    lex_cont(
                        fl + seq![TokenModel::OperatorNegation],
                        lex_from(s, i + 1, Seq::empty()),
                    )
                }
            } else if c == '<' {
                if i + 1 < s.len() && s[i + 1] == '=' {
                    lex_cont(
                        fl + seq![TokenModel::OperatorLessOrEqual],
                        lex_from(s, i + 2, Seq::empty()),
                    )
                } else {
                    lex_cont(fl + seq![TokenModel::OperatorLess], lex_from(s, i + 1, Seq::empty()))
                }
            } else if c == '>' {
                if i + 1 < s.len() && s[i + 1] == '=' {
                    lex_cont(
                        fl + seq![TokenModel::OperatorGreaterOrEqual],
                        lex_from(s, i + 2, Seq::empty()),
                    )
                } else {
                    lex_cont(
                        fl + seq![TokenModel::OperatorGreater],
                        lex_from(s, i + 1, Seq::empty()),
                    )
                }
            } else if c == '=' {
                if i + 1 < s.len() && s[i + 1] == '=' {
                    lex_cont(
                        fl + seq![TokenModel::OperatorEqual],
                        lex_from(s, i + 2, Seq::empty()),
                    )
                } else {
                    lex_cont(
                        fl + seq![TokenModel::OperatorAssign],
                        lex_from(s, i + 1, Seq::empty()),
                    )
                }
            } else if c == '&' {
                if i + 1 < s.len() && s[i + 1] == '&' {
                    lex_cont(fl + seq![TokenModel::OperatorAnd], lex_from(s, i + 2, Seq::empty()))
                } else {
                    Err(LexError::NotImplemented)
                }
            } else {
                if i + 1 < s.len() && s[i + 1] == '|' {
                    lex_cont(fl + seq![TokenModel::OperatorOr], lex_from(s, i + 2, Seq::empty()))
                } else {
                    Err(LexError::NotImplemented)
                }
            }
        }
    }
}

/// The model of the whole scan.
pub open spec fn spec_lex(s: Seq<char>) -> Result<Seq<TokenModel>, LexError> {
    lex_from(s, 0, Seq::empty())
}

proof fn lemma_cont_assoc(
    a: Seq<TokenModel>,
    b: Seq<TokenModel>,
    r: Result<Seq<TokenModel>, LexError>,
)
    ensures
        lex_cont(a, lex_cont(b, r)) == lex_cont(a + b, r),
{
    match r {
        Ok(ts) => {
            assert(a + (b + ts) =~= (a + b) + ts);
        },
        Err(_) => {},
    }
}

proof fn lemma_digits_val_nonneg(s: Seq<char>)
    requires
        all_digits(s),
    ensures
        digits_val(s) >= 0,
    decreases s.len(),
{
    if s.len() > 0 {
        assert(all_digits(s.drop_last()));
        lemma_digits_val_nonneg(s.drop_last());
        assert(is_digit_char(s.last()));
    }
}

/// Appending further digits can only grow the value.
proof fn lemma_digits_val_monotone(s: Seq<char>, k: int)
    requires
        all_digits(s),
        0 <= k <= s.len(),
    ensures
        digits_val(s) >= digits_val(s.take(k)),
    decreases s.len() - k,
{
    if k == s.len() {
        assert(s.take(k) =~= s);
    } else {
        lemma_digits_val_monotone(s, k + 1);
        assert(s.take(k + 1).drop_last() =~= s.take(k));
        assert(s.take(k + 1).last() == s[k]);
        lemma_digits_val_nonneg(s.take(k));
        assert(is_digit_char(s[k]));
        assert(digits_val(s.take(k + 1)) == digits_val(s.take(k)) * 10 + digit_val(s[k]));
    }
}

/// Decimal parse of a scratch word: `Some` exactly when every
/// character is a digit and the value fits in `i32`.
fn parse_int_digits(s: &str) -> (r: Option<i32>)
    ensures
        match r {
            Some(v) => all_digits(s@) && digits_val(s@) <= i32::MAX as int && v == digits_val(s@),
            None => !(all_digits(s@) && digits_val(s@) <= i32::MAX as int),
        },
{
    let n = s.unicode_len();
    let mut acc: i64 = 0;
    let mut i: usize = 0;
    while i < n
        invariant
            i <= n,
            n == s@.len(),
            all_digits(s@.take(i as int)),
            acc == digits_val(s@.take(i as int)),
            0 <= acc <= i32::MAX as int,
        decreases n - i,
    {
        let c = s.get_char(i);
        if !('0' <= c && c <= '9') {
            assert(!is_digit_char(s@[i as int]));
            return None;
        }
        let d: u32 = (c as u32) - ('0' as u32);
        let next: i64 = acc * 10 + d as i64;
        proof {
            assert(s@.take(i + 1).drop_last() =~= s@.take(i as int));
            assert(s@.take(i + 1).last() == s@[i as int]);
        }
        if next > i32::MAX as i64 {
            proof {
                if all_digits(s@) {
                    lemma_digits_val_monotone(s@, i + 1);
                }
            }
            return None;
        }
        acc = next;
        i = i + 1;
    }
    proof {
        assert(s@.take(n as int) =~= s@);
    }
    Some(acc as i32)
}

/// Pushes a token, extending the sequence of token models by one.
fn push_token(tokens: &mut Vec<Token>, t: Token)
    ensures
        final(tokens).deep_view() == old(tokens).deep_view() + seq![t@],
{
    let ghost t_model = t@;
    tokens.push(t);
    proof {
        assert(tokens.deep_view() =~= old(tokens).deep_view() + seq![t_model]);
    }
}

/// Empties the scratch buffer into the token stream, exactly as
/// `flush_model` says.
fn flush_scratch(tokens: &mut Vec<Token>, cur: &mut String)
    ensures
        final(tokens).deep_view() == old(tokens).deep_view() + flush_model(old(cur)@),
        final(cur)@ == Seq::<char>::empty(),
{
    if cur.as_str().unicode_len() > 0 {
        if str_eq(cur.as_str(), "return") {
            push_token(tokens, Token::KeywordReturn);
        } else if str_eq(cur.as_str(), "int") {
            push_token(tokens, Token::KeywordInt);
        } else if str_eq(cur.as_str(), "if") {
            push_token(tokens, Token::KeywordIf);
        } else if str_eq(cur.as_str(), "else") {
            push_token(tokens, Token::KeywordElse);
        } else if str_eq(cur.as_str(), "for") {
            push_token(tokens, Token::KeywordFor);
        } else if str_eq(cur.as_str(), "while") {
            push_token(tokens, Token::KeywordWhile);
        } else if str_eq(cur.as_str(), "do") {
            push_token(tokens, Token::KeywordDo);
        } else if str_eq(cur.as_str(), "break") {
            push_token(tokens, Token::KeywordBreak);
        } else if str_eq(cur.as_str(), "continue") {
            push_token(tokens, Token::KeywordContinue);
        } else {
            match parse_int_digits(cur.as_str()) {
                Some(v) => push_token(tokens, Token::IntLiteral(v)),
                None => push_token(tokens, Token::Identifier(cur.clone())),
            }
        }
    }
    *cur = String::new();
}

/// Scans a source string into tokens, or fails on the first
/// character the language does not know. The result is exactly
/// what the model `spec_lex` assigns to the input.
pub fn lex(input: &str) -> (r: Result<Vec<Token>, LexError>)
    ensures
        match (r, spec_lex(input@)) {
            (Ok(v), Ok(ts)) => v.deep_view() == ts,
            (Err(e1), Err(e2)) => e1 == e2,
            _ => false,
        },
{
    let ghost s = input@;
    let n = input.unicode_len();
    let mut tokens: Vec<Token> = Vec::new();
    let mut cur = String::new();
    let mut i: usize = 0;
    while i < n
        invariant
            i <= n,
            n == s.len(),
            s == input@,
            spec_lex(s) == lex_cont(tokens.deep_view(), lex_from(s, i as int, cur@)),
        decreases n - i,
    {
        let ghost tokens0 = tokens.deep_view();
        let ghost cur0 = cur@;
        let ghost i0 = i as int;
        let c = input.get_char(i);
        if !(c == ' ' || c == '\t' || c == '\n' || c == '{' || c == '}' || c == '(' || c == ')'
            || c == ';' || c == '-' || c == '~' || c == '!' || c == '+' || c == '*' || c == '/'
            || c == '%' || c == '<' || c == '>' || c == '&' || c == '|' || c == '=' || c == ':'
            || c == '?' || c == ',') {
            push_char(&mut cur, c);
            i = i + 1;
            proof {
                assert(cur@ == cur0.push(c));
                assert(lex_from(s, i0, cur0) == lex_from(s, i as int, cur@));
            }
        } else {
            flush_scratch(&mut tokens, &mut cur);
            let ghost fl = flush_model(cur0);
            assert(tokens.deep_view() == tokens0 + fl);
            if c == ' ' || c == '\t' || c == '\n' {
                i = i + 1;
                proof {
                    assert(lex_from(s, i0, cur0) == lex_cont(fl, lex_from(s, i as int, cur@)));
                    lemma_cont_assoc(tokens0, fl, lex_from(s, i as int, cur@));
                }
            } else {
                let two = if i + 1 < n {
                    let c2 = input.get_char(i + 1);
                    if c == '!' && c2 == '=' {
                        Some(Token::OperatorNotEqual)
                    } else if c == '<' && c2 == '=' {
                        Some(Token::OperatorLessOrEqual)
                    } else if c == '>' && c2 == '=' {
                        Some(Token::OperatorGreaterOrEqual)
                    } else if c == '=' && c2 == '=' {
                        Some(Token::OperatorEqual)
                    } else if c == '&' && c2 == '&' {
                        Some(Token::OperatorAnd)
                    } else if c == '|' && c2 == '|' {
                        Some(Token::OperatorOr)
                    } else {
                        None
                    }
                } else {
                    None
                };
                match two {
                    Some(t) => {
                        let ghost tm = t@;
                        push_token(&mut tokens, t);
                        i = i + 2;
                        proof {
                            assert(lex_from(s, i0, cur0) == lex_cont(
                                fl + seq![tm],
                                lex_from(s, i as int, cur@),
                            ));
                            assert(tokens.deep_view() =~= tokens0 + (fl + seq![tm]));
                            lemma_cont_assoc(tokens0, fl + seq![tm], lex_from(s, i as int, cur@));
                        }
                    },
                    None => {
                        if c == '&' || c == '|' {
                            assert(lex_from(s, i0, cur0) == Result::<
                                Seq<TokenModel>,
                                LexError,
                            >::Err(LexError::NotImplemented));
                            return Err(LexError::NotImplemented);
                        }
                        let t = if c == '{' {
                            Token::OpenBrace
                        } else if c == '}' {
                            Token::CloseBrace
                        } else if c == '(' {
                            Token::OpenParen
                        } else if c == ')' {
                            Token::CloseParen
                        } else if c == ';' {
                            Token::SemiColon
                        } else if c == '-' {
                            Token::OperatorMinus
                        } else if c == '~' {
                            Token::OperatorComplement
                        } else if c == '+' {
                            Token::OperatorAddtion
                        } else if c == '*' {
                            Token::OperatorMultiplication
                        } else if c == '/' {
                            Token::OperatorDivision
                        } else if c == '%' {
                            Token::OperatorModulo
                        } else if c == ':' {
                            Token::Colon
                        } else if c == '?' {
                            Token::QuestionMark
                        } else if c == '!' {
                            Token::OperatorNegation
                        } else if c == '<' {
                            Token::OperatorLess
                        } else if c == '>' {
                            Token::OperatorGreater
                        } else if c == '=' {
                            Token::OperatorAssign
                        } else {
                            Token::Comma
                        };
                        let ghost tm = t@;
                        push_token(&mut tokens, t);
                        i = i + 1;
                        proof {
                            assert(lex_from(s, i0, cur0) == lex_cont(
                                fl + seq![tm],
                                lex_from(s, i as int, cur@),
                            ));
                            assert(tokens.deep_view() =~= tokens0 + (fl + seq![tm]));
                            lemma_cont_assoc(tokens0, fl + seq![tm], lex_from(s, i as int, cur@));
                        }
                    },
                }
            }
        }
    }
    let ghost tokens0 = tokens.deep_view();
    let ghost cur0 = cur@;
    flush_scratch(&mut tokens, &mut cur);
    push_token(&mut tokens, Token::EndOfFile);
    proof {
        assert(lex_from(s, i as int, cur0) == Ok::<_, LexError>(
            flush_model(cur0) + seq![TokenModel::EndOfFile],
        ));
        assert(tokens.deep_view() =~= tokens0 + (flush_model(cur0)
            + seq![TokenModel::EndOfFile]));
    }
    Ok(tokens)
}

} // verus!
