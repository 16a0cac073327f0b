//! The token model: every lexeme kind of the source language.

use vstd::prelude::*;

verus! {

/// A lexeme of the source language. Tokens are immutable values,
/// produced by the lexer in source-text order and terminated by
/// `EndOfFile`.
#[derive(Debug, Clone, PartialEq, Eq)]
pub enum Token {
    KeywordInt,
    Identifier(String),
    OpenParen,
    CloseParen,
    OpenBrace,
    CloseBrace,
    KeywordReturn,
    IntLiteral(i32),
    SemiColon,
    OperatorMinus,
    OperatorComplement,
    OperatorNegation,
    OperatorAddtion,
    OperatorMultiplication,
    OperatorDivision,
    OperatorModulo,
    OperatorAnd,
    OperatorOr,
    OperatorEqual,
    OperatorNotEqual,
    OperatorLess,
    OperatorGreater,
    OperatorLessOrEqual,
    OperatorGreaterOrEqual,
    OperatorAssign,
    KeywordIf,
    KeywordElse,
    QuestionMark,
    Colon,
    EndOfFile,
    KeywordFor,
    KeywordWhile,
    KeywordDo,
    KeywordBreak,
    KeywordContinue,
    Comma,
}

/// The mathematical shape of a token: identical to `Token` except
/// that the identifier payload is a character sequence, so that two
/// tokens are equal exactly when they read the same.
pub enum TokenModel {
    KeywordInt,
    Identifier(Seq<char>),
    OpenParen,
    CloseParen,
    OpenBrace,
    CloseBrace,
    KeywordReturn,
    IntLiteral(i32),
    SemiColon,
    OperatorMinus,
    OperatorComplement,
    OperatorNegation,
    OperatorAddtion,
    OperatorMultiplication,
    OperatorDivision,
    OperatorModulo,
    OperatorAnd,
    OperatorOr,
    OperatorEqual,
    OperatorNotEqual,
    OperatorLess,
    OperatorGreater,
    OperatorLessOrEqual,
    OperatorGreaterOrEqual,
    OperatorAssign,
    KeywordIf,
    KeywordElse,
    QuestionMark,
    Colon,
    EndOfFile,
    KeywordFor,
    KeywordWhile,
    KeywordDo,
    KeywordBreak,
    KeywordContinue,
    Comma,
}

impl View for Token {
    type V = TokenModel;

    open spec fn view(&self) -> TokenModel {
        match self {
            Token::KeywordInt => TokenModel::KeywordInt,
            Token::Identifier(s) => TokenModel::Identifier(s@),
            Token::OpenParen => TokenModel::OpenParen,
            Token::CloseParen => TokenModel::CloseParen,
            Token::OpenBrace => TokenModel::OpenBrace,
            Token::CloseBrace => TokenModel::CloseBrace,
            Token::KeywordReturn => TokenModel::KeywordReturn,
            Token::IntLiteral(v) => TokenModel::IntLiteral(*v),
            Token::SemiColon => TokenModel::SemiColon,
            Token::OperatorMinus => TokenModel::OperatorMinus,
            Token::OperatorComplement => TokenModel::OperatorComplement,
            Token::OperatorNegation => TokenModel::OperatorNegation,
            Token::OperatorAddtion => TokenModel::OperatorAddtion,
            Token::OperatorMultiplication => TokenModel::OperatorMultiplication,
            Token::OperatorDivision => TokenModel::OperatorDivision,
            Token::OperatorModulo => TokenModel::OperatorModulo,
            Token::OperatorAnd => TokenModel::OperatorAnd,
            Token::OperatorOr => TokenModel::OperatorOr,
            Token::OperatorEqual => TokenModel::OperatorEqual,
            Token::OperatorNotEqual => TokenModel::OperatorNotEqual,
            Token::OperatorLess => TokenModel::OperatorLess,
            Token::OperatorGreater => TokenModel::OperatorGreater,
            Token::OperatorLessOrEqual => TokenModel::OperatorLessOrEqual,
            Token::OperatorGreaterOrEqual => TokenModel::OperatorGreaterOrEqual,
            Token::OperatorAssign => TokenModel::OperatorAssign,
            Token::KeywordIf => TokenModel::KeywordIf,
            Token::KeywordElse => TokenModel::KeywordElse,
            Token::QuestionMark => TokenModel::QuestionMark,
            Token::Colon => TokenModel::Colon,
            Token::EndOfFile => TokenModel::EndOfFile,
            Token::KeywordFor => TokenModel::KeywordFor,
            Token::KeywordWhile => TokenModel::KeywordWhile,
            Token::KeywordDo => TokenModel::KeywordDo,
            Token::KeywordBreak => TokenModel::KeywordBreak,
            Token::KeywordContinue => TokenModel::KeywordContinue,
            Token::Comma => TokenModel::Comma,
        }
    }
}

impl DeepView for Token {
    type V = TokenModel;

    open spec fn deep_view(&self) -> TokenModel {
        self.view()
    }
}

/// An exact copy of a token, field for field.
pub fn clone_token(t: &Token) -> (r: Token)
    ensures
        r@ == t@,
{
    match t {
        Token::KeywordInt => Token::KeywordInt,
        Token::Identifier(s) => Token::Identifier(s.clone()),
        Token::OpenParen => Token::OpenParen,
        Token::CloseParen => Token::CloseParen,
        Token::OpenBrace => Token::OpenBrace,
        Token::CloseBrace => Token::CloseBrace,
        Token::KeywordReturn => Token::KeywordReturn,
        Token::IntLiteral(v) => Token::IntLiteral(*v),
        Token::SemiColon => Token::SemiColon,
        Token::OperatorMinus => Token::OperatorMinus,
        Token::OperatorComplement => Token::OperatorComplement,
        Token::OperatorNegation => Token::OperatorNegation,
        Token::OperatorAddtion => Token::OperatorAddtion,
        Token::OperatorMultiplication => Token::OperatorMultiplication,
        Token::OperatorDivision => Token::OperatorDivision,
        Token::OperatorModulo => Token::OperatorModulo,
        Token::OperatorAnd => Token::OperatorAnd,
        Token::OperatorOr => Token::OperatorOr,
        Token::OperatorEqual => Token::OperatorEqual,
        Token::OperatorNotEqual => Token::OperatorNotEqual,
        Token::OperatorLess => Token::OperatorLess,
        Token::OperatorGreater => Token::OperatorGreater,
        Token::OperatorLessOrEqual => Token::OperatorLessOrEqual,
        Token::OperatorGreaterOrEqual => Token::OperatorGreaterOrEqual,
        Token::OperatorAssign => Token::OperatorAssign,
        Token::KeywordIf => Token::KeywordIf,
        Token::KeywordElse => Token::KeywordElse,
        Token::QuestionMark => Token::QuestionMark,
        Token::Colon => Token::Colon,
        Token::EndOfFile => Token::EndOfFile,
        Token::KeywordFor => Token::KeywordFor,
        Token::KeywordWhile => Token::KeywordWhile,
        Token::KeywordDo => Token::KeywordDo,
        Token::KeywordBreak => Token::KeywordBreak,
        Token::KeywordContinue => Token::KeywordContinue,
        Token::Comma => Token::Comma,
    }
}

} // verus!
