//! The recursive-descent parser: from the token sequence to the
//! syntax tree.
//!
//! The grammar is stratified by precedence; each binary level
//! parses a first operand and then a list of (operator, operand)
//! pairs, so left-associativity holds by construction. The
//! functions `sp_*` are the mathematical model of the parse: each
//! takes the token models and a position and returns the parsed
//! node's model together with the position after it, or the first
//! error. The executable functions are proved to return exactly
//! what the model says.

use vstd::prelude::*;

use crate::ast::{
    additive_list_model, additive_model, and_list_model, and_model, block_item_model,
    block_items_model, conditional_model, declaration_model, equality_list_model, equality_model,
    expression_model, expressions_model, factor_list_model, factor_model, function_model,
    functions_model, lemma_additive_list_model, lemma_and_list_model, lemma_block_items_model,
    lemma_equality_list_model, lemma_expressions_model, lemma_factor_list_model,
    lemma_functions_model, lemma_relational_list_model, lemma_strings_model, lemma_term_list_model,
    or_model, parse_error_model, program_model, relational_list_model, relational_model,
    statement_model, strings_model, term_list_model, term_model, AdditiveExpression, AdditiveModel,
    AdditiveOperator, AndModel, BlockItem, BlockItemModel, ConditionalExpression, ConditionalModel,
    Declaration, DeclarationModel, EqualityExpression, EqualityModel, EqualityOperator, Expression,
    ExpressionModel, Factor, FactorModel, Function, FunctionModel, FunctionType, InFunction,
    LogicalAndExpression, LogicalOrExpresson, MultiplicativeOperator, OrModel, ParseError,
    ParseErrorModel, Program, ProgramModel, RelationalExpression, RelationalModel,
    RelationalOperator, Statement, StatementModel, Term, TermModel, UnaryOperator,
};
use crate::token::{clone_token, Token, TokenModel};

verus! {

/// Joins a list prefix onto the outcome of parsing the remaining
/// list items; an error swallows everything.
pub open spec fn pres_cont<X>(
    front: Seq<X>,
    r: Result<(Seq<X>, int), ParseErrorModel>,
) -> Result<(Seq<X>, int), ParseErrorModel> {
    match r {
        Ok((s, p)) => Ok((front + s, p)),
        Err(e) => Err(e),
    }
}


/// Token classifiers for the binary-operator levels.
pub open spec fn spec_mul_op(tm: TokenModel) -> Option<MultiplicativeOperator> {
    if tm == TokenModel::OperatorMultiplication {
        Some(MultiplicativeOperator::Multiplication)
    } else if tm == TokenModel::OperatorDivision {
        Some(MultiplicativeOperator::Division)
    } else if tm == TokenModel::OperatorModulo {
        Some(MultiplicativeOperator::Modulo)
    } else {
        None
    }
}

pub open spec fn spec_add_op(tm: TokenModel) -> Option<AdditiveOperator> {
    if tm == TokenModel::OperatorAddtion {
        Some(AdditiveOperator::Addition)
    } else if tm == TokenModel::OperatorMinus {
        Some(AdditiveOperator::Minus)
    } else {
        None
    }
}

pub open spec fn spec_rel_op(tm: TokenModel) -> Option<RelationalOperator> {
    if tm == TokenModel::OperatorLess {
        Some(RelationalOperator::Less)
    } else if tm == TokenModel::OperatorLessOrEqual {
        Some(RelationalOperator::LessOrEqual)
    } else if tm == TokenModel::OperatorGreater {
        Some(RelationalOperator::Greater)
    } else if tm == TokenModel::OperatorGreaterOrEqual {
        Some(RelationalOperator::GreaterOrEqual)
    } else {
        None
    }
}

pub open spec fn spec_eq_op(tm: TokenModel) -> Option<EqualityOperator> {
    if tm == TokenModel::OperatorNotEqual {
        Some(EqualityOperator::NotEqual)
    } else if tm == TokenModel::OperatorEqual {
        Some(EqualityOperator::Equal)
    } else {
        None
    }
}

/// The expression the parser synthesises for an empty `for`
/// condition: the integer literal `1`.
pub open spec fn const_one_model() -> ExpressionModel {
    ExpressionModel::Operation(
        ConditionalModel {
            cond: OrModel {
                first: Box::new(
                    AndModel {
                        first: Box::new(
                            EqualityModel {
                                first: Box::new(
                                    RelationalModel {
                                        first: Box::new(
                                            AdditiveModel {
                                                first: Box::new(
                                                    TermModel {
                                                        first: Box::new(
                                                            FactorModel::Constant { value: 1 },
                                                        ),
                                                        rest: Seq::empty(),
                                                    },
                                                ),
                                                rest: Seq::empty(),
                                            },
                                        ),
                                        rest: Seq::empty(),
                                    },
                                ),
                                rest: Seq::empty(),
                            },
                        ),
                        rest: Seq::empty(),
                    },
                ),
                rest: Seq::empty(),
            },
            yes: None,
            no: None,
        },
    )
}

// ---------------------------------------------------------------
// The model of the parse. Position `p` advances strictly on every
// successful sub-parse; the progress guards (`p2 <= pos`) can never
// be taken by the executable parser and only bound the recursion.
// ---------------------------------------------------------------

#[verifier::opaque]
pub open spec fn sp_factor(t: Seq<TokenModel>, pos: int) -> Result<
    (FactorModel, int),
    ParseErrorModel,
>
    decreases t.len() - pos, 1int,
{
    if pos >= t.len() {
        Err(ParseErrorModel::ExpectedToken)
    } else {
        match t[pos] {
            TokenModel::Identifier(s) => {
                if pos + 1 >= t.len() {
                    Err(ParseErrorModel::ExpectedToken)
                } else if t[pos + 1] == TokenModel::OpenParen {
                    if pos + 2 >= t.len() {
                        Err(ParseErrorModel::ExpectedToken)
                    } else if t[pos + 2] == TokenModel::CloseParen {
                        match sp_args_rest(t, pos + 2) {
                            Ok((rest, p4)) => Ok(
                                (FactorModel::FunCall { id: s, arguments: rest }, p4),
                            ),
                            Err(e) => Err(e),
                        }
                    } else {
                        match sp_expression(t, pos + 2) {
                            Ok((a, p3)) => if p3 <= pos + 2 || p3 > t.len() {
                                Err(ParseErrorModel::ExpectedToken)
                            } else {
                                match sp_args_rest(t, p3) {
                                    Ok((rest, p4)) => Ok(
                                        (
                                            FactorModel::FunCall {
                                                id: s,
                                                arguments: seq![a] + rest,
                                            },
                                            p4,
                                        ),
                                    ),
                                    Err(e) => Err(e),
                                }
                            },
                            Err(e) => Err(e),
                        }
                    }
                } else {
                    Ok((FactorModel::Variable { var: s }, pos + 1))
                }
            },
            TokenModel::OpenParen => {
                match sp_expression(t, pos + 1) {
                    Ok((e, p2)) => if p2 <= pos + 1 || p2 > t.len() {
                        Err(ParseErrorModel::ExpectedToken)
                    } else if p2 >= t.len() {
                        Err(ParseErrorModel::ExpectedToken)
                    } else if t[p2] == TokenModel::CloseParen {
                        Ok((FactorModel::Braced { expression: e }, p2 + 1))
                    } else {
                        Err(ParseErrorModel::UnexpectedToken(t[p2], InFunction::ParseFactor))
                    },
                    Err(e) => Err(e),
                }
            },
            TokenModel::OperatorNegation => {
                match sp_factor(t, pos + 1) {
                    Ok((f, p2)) => Ok(
                        (
                            FactorModel::UnaryOperation {
                                op: UnaryOperator::Negation,
                                factor: Box::new(f),
                            },
                            p2,
                        ),
                    ),
                    Err(e) => Err(e),
                }
            },
            TokenModel::OperatorComplement => {
                match sp_factor(t, pos + 1) {
                    Ok((f, p2)) => Ok(
                        (
                            FactorModel::UnaryOperation {
                                op: UnaryOperator::Complement,
                                factor: Box::new(f),
                            },
                            p2,
                        ),
                    ),
                    Err(e) => Err(e),
                }
            },
            TokenModel::OperatorMinus => {
                match sp_factor(t, pos + 1) {
                    Ok((f, p2)) => Ok(
                        (
                            FactorModel::UnaryOperation {
                                op: UnaryOperator::Minus,
                                factor: Box::new(f),
                            },
                            p2,
                        ),
                    ),
                    Err(e) => Err(e),
                }
            },
            TokenModel::IntLiteral(v) => Ok((FactorModel::Constant { value: v }, pos + 1)),
            _ => Err(ParseErrorModel::UnexpectedToken(t[pos], InFunction::ParseFactor)),
        }
    }
}

/// The argument list after the first argument: `,` expression
/// repeated, closed by `)`.
#[verifier::opaque]
pub open spec fn sp_args_rest(t: Seq<TokenModel>, pos: int) -> Result<
    (Seq<ExpressionModel>, int),
    ParseErrorModel,
>
    decreases t.len() - pos, 0int,
{
    if pos >= t.len() {
        Ok((Seq::empty(), pos))
    } else if t[pos] == TokenModel::CloseParen {
        Ok((Seq::empty(), pos + 1))
    } else if t[pos] == TokenModel::Comma {
        match sp_expression(t, pos + 1) {
            Ok((a, p2)) => if p2 <= pos || p2 > t.len() {
                Err(ParseErrorModel::ExpectedToken)
            } else {
                pres_cont(seq![a], sp_args_rest(t, p2))
            },
            Err(e) => Err(e),
        }
    } else {
        Err(ParseErrorModel::UnexpectedToken(t[pos], InFunction::ParseFactor))
    }
}

#[verifier::opaque]
pub open spec fn sp_term(t: Seq<TokenModel>, pos: int) -> Result<(TermModel, int), ParseErrorModel>
    decreases t.len() - pos, 2int,
{
    match sp_factor(t, pos) {
        Ok((f, p1)) => if p1 <= pos || p1 > t.len() {
            Err(ParseErrorModel::ExpectedToken)
        } else {
            match sp_term_rest(t, p1) {
                Ok((rest, p2)) => Ok((TermModel { first: Box::new(f), rest }, p2)),
                Err(e) => Err(e),
            }
        },
        Err(e) => Err(e),
    }
}

#[verifier::opaque]
pub open spec fn sp_term_rest(t: Seq<TokenModel>, pos: int) -> Result<
    (Seq<(MultiplicativeOperator, FactorModel)>, int),
    ParseErrorModel,
>
    decreases t.len() - pos, 0int,
{
    if pos >= t.len() {
        Ok((Seq::empty(), pos))
    } else {
        let op = spec_mul_op(t[pos]);
        match op {
            Some(op) => match sp_factor(t, pos + 1) {
                Ok((f, p2)) => if p2 <= pos || p2 > t.len() {
                    Err(ParseErrorModel::ExpectedToken)
                } else {
                    pres_cont(seq![(op, f)], sp_term_rest(t, p2))
                },
                Err(e) => Err(e),
            },
            None => Ok((Seq::empty(), pos)),
        }
    }
}

#[verifier::opaque]
pub open spec fn sp_additive(t: Seq<TokenModel>, pos: int) -> Result<
    (AdditiveModel, int),
    ParseErrorModel,
>
    decreases t.len() - pos, 3int,
{
    match sp_term(t, pos) {
        Ok((f, p1)) => if p1 <= pos || p1 > t.len() {
            Err(ParseErrorModel::ExpectedToken)
        } else {
            match sp_additive_rest(t, p1) {
                Ok((rest, p2)) => Ok((AdditiveModel { first: Box::new(f), rest }, p2)),
                Err(e) => Err(e),
            }
        },
        Err(e) => Err(e),
    }
}

#[verifier::opaque]
pub open spec fn sp_additive_rest(t: Seq<TokenModel>, pos: int) -> Result<
    (Seq<(AdditiveOperator, TermModel)>, int),
    ParseErrorModel,
>
    decreases t.len() - pos, 0int,
{
    if pos >= t.len() {
        Ok((Seq::empty(), pos))
    } else {
        let op = spec_add_op(t[pos]);
        match op {
            Some(op) => match sp_term(t, pos + 1) {
                Ok((f, p2)) => if p2 <= pos || p2 > t.len() {
                    Err(ParseErrorModel::ExpectedToken)
                } else {
                    pres_cont(seq![(op, f)], sp_additive_rest(t, p2))
                },
                Err(e) => Err(e),
            },
            None => Ok((Seq::empty(), pos)),
        }
    }
}

#[verifier::opaque]
pub open spec fn sp_relational(t: Seq<TokenModel>, pos: int) -> Result<
    (RelationalModel, int),
    ParseErrorModel,
>
    decreases t.len() - pos, 4int,
{
    match sp_additive(t, pos) {
        Ok((f, p1)) => if p1 <= pos || p1 > t.len() {
            Err(ParseErrorModel::ExpectedToken)
        } else {
            match sp_relational_rest(t, p1) {
                Ok((rest, p2)) => Ok((RelationalModel { first: Box::new(f), rest }, p2)),
                Err(e) => Err(e),
            }
        },
        Err(e) => Err(e),
    }
}

#[verifier::opaque]
pub open spec fn sp_relational_rest(t: Seq<TokenModel>, pos: int) -> Result<
    (Seq<(RelationalOperator, AdditiveModel)>, int),
    ParseErrorModel,
>
    decreases t.len() - pos, 0int,
{
    if pos >= t.len() {
        Ok((Seq::empty(), pos))
    } else {
        let op = spec_rel_op(t[pos]);
        match op {
            Some(op) => match sp_additive(t, pos + 1) {
                Ok((f, p2)) => if p2 <= pos || p2 > t.len() {
                    Err(ParseErrorModel::ExpectedToken)
                } else {
                    pres_cont(seq![(op, f)], sp_relational_rest(t, p2))
                },
                Err(e) => Err(e),
            },
            None => Ok((Seq::empty(), pos)),
        }
    }
}

#[verifier::opaque]
pub open spec fn sp_equality(t: Seq<TokenModel>, pos: int) -> Result<
    (EqualityModel, int),
    ParseErrorModel,
>
    decreases t.len() - pos, 5int,
{
    match sp_relational(t, pos) {
        Ok((f, p1)) => if p1 <= pos || p1 > t.len() {
            Err(ParseErrorModel::ExpectedToken)
        } else {
            match sp_equality_rest(t, p1) {
                Ok((rest, p2)) => Ok((EqualityModel { first: Box::new(f), rest }, p2)),
                Err(e) => Err(e),
            }
        },
        Err(e) => Err(e),
    }
}

#[verifier::opaque]
pub open spec fn sp_equality_rest(t: Seq<TokenModel>, pos: int) -> Result<
    (Seq<(EqualityOperator, RelationalModel)>, int),
    ParseErrorModel,
>
    decreases t.len() - pos, 0int,
{
    if pos >= t.len() {
        Ok((Seq::empty(), pos))
    } else {
        let op = spec_eq_op(t[pos]);
        match op {
            Some(op) => match sp_relational(t, pos + 1) {
                Ok((f, p2)) => if p2 <= pos || p2 > t.len() {
                    Err(ParseErrorModel::ExpectedToken)
                } else {
                    pres_cont(seq![(op, f)], sp_equality_rest(t, p2))
                },
                Err(e) => Err(e),
            },
            None => Ok((Seq::empty(), pos)),
        }
    }
}

#[verifier::opaque]
pub open spec fn sp_and(t: Seq<TokenModel>, pos: int) -> Result<(AndModel, int), ParseErrorModel>
    decreases t.len() - pos, 6int,
{
    match sp_equality(t, pos) {
        Ok((f, p1)) => if p1 <= pos || p1 > t.len() {
            Err(ParseErrorModel::ExpectedToken)
        } else {
            match sp_and_rest(t, p1) {
                Ok((rest, p2)) => Ok((AndModel { first: Box::new(f), rest }, p2)),
                Err(e) => Err(e),
            }
        },
        Err(e) => Err(e),
    }
}

#[verifier::opaque]
pub open spec fn sp_and_rest(t: Seq<TokenModel>, pos: int) -> Result<
    (Seq<EqualityModel>, int),
    ParseErrorModel,
>
    decreases t.len() - pos, 0int,
{
    if pos >= t.len() {
        Ok((Seq::empty(), pos))
    } else if t[pos] == TokenModel::OperatorAnd {
        match sp_equality(t, pos + 1) {
            Ok((f, p2)) => if p2 <= pos || p2 > t.len() {
                Err(ParseErrorModel::ExpectedToken)
            } else {
                pres_cont(seq![f], sp_and_rest(t, p2))
            },
            Err(e) => Err(e),
        }
    } else {
        Ok((Seq::empty(), pos))
    }
}

#[verifier::opaque]
pub open spec fn sp_or(t: Seq<TokenModel>, pos: int) -> Result<(OrModel, int), ParseErrorModel>
    decreases t.len() - pos, 7int,
{
    match sp_and(t, pos) {
        Ok((f, p1)) => if p1 <= pos || p1 > t.len() {
            Err(ParseErrorModel::ExpectedToken)
        } else {
            match sp_or_rest(t, p1) {
                Ok((rest, p2)) => Ok((OrModel { first: Box::new(f), rest }, p2)),
                Err(e) => Err(e),
            }
        },
        Err(e) => Err(e),
    }
}

#[verifier::opaque]
pub open spec fn sp_or_rest(t: Seq<TokenModel>, pos: int) -> Result<
    (Seq<AndModel>, int),
    ParseErrorModel,
>
    decreases t.len() - pos, 0int,
{
    if pos >= t.len() {
        Ok((Seq::empty(), pos))
    } else if t[pos] == TokenModel::OperatorOr {
        match sp_and(t, pos + 1) {
            Ok((f, p2)) => if p2 <= pos || p2 > t.len() {
                Err(ParseErrorModel::ExpectedToken)
            } else {
                pres_cont(seq![f], sp_or_rest(t, p2))
            },
            Err(e) => Err(e),
        }
    } else {
        Ok((Seq::empty(), pos))
    }
}

#[verifier::opaque]
pub open spec fn sp_conditional(t: Seq<TokenModel>, pos: int) -> Result<
    (ConditionalModel, int),
    ParseErrorModel,
>
    decreases t.len() - pos, 8int,
{
    match sp_or(t, pos) {
        Ok((o, p1)) => if p1 <= pos || p1 > t.len() {
            Err(ParseErrorModel::ExpectedToken)
        } else if p1 >= t.len() {
            Err(ParseErrorModel::ExpectedToken)
        } else if t[p1] == TokenModel::QuestionMark {
            match sp_expression(t, p1 + 1) {
                Ok((yes, p2)) => if p2 <= p1 + 1 || p2 > t.len() {
                    Err(ParseErrorModel::ExpectedToken)
                } else if p2 >= t.len() {
                    Err(ParseErrorModel::ExpectedToken)
                } else if t[p2] == TokenModel::Colon {
                    match sp_conditional(t, p2 + 1) {
                        Ok((no, p3)) => Ok(
                            (
                                ConditionalModel {
                                    cond: o,
                                    yes: Some(Box::new(yes)),
                                    no: Some(Box::new(no)),
                                },
                                p3,
                            ),
                        ),
                        Err(e) => Err(e),
                    }
                } else {
                    Err(ParseErrorModel::UnexpectedToken(
                        t[p2],
                        InFunction::ParseConditionalExpression,
                    ))
                },
                Err(e) => Err(e),
            }
        } else {
            Ok((ConditionalModel { cond: o, yes: None, no: None }, p1))
        },
        Err(e) => Err(e),
    }
}

#[verifier::opaque]
pub open spec fn sp_expression(t: Seq<TokenModel>, pos: int) -> Result<
    (ExpressionModel, int),
    ParseErrorModel,
>
    decreases t.len() - pos, 9int,
{
    if pos >= t.len() {
        Err(ParseErrorModel::ExpectedToken)
    } else {
        match t[pos] {
            TokenModel::Identifier(s) => {
                if pos + 1 >= t.len() {
                    Err(ParseErrorModel::ExpectedToken)
                } else if t[pos + 1] == TokenModel::OperatorAssign {
                    match sp_expression(t, pos + 2) {
                        Ok((v, p2)) => Ok(
                            (ExpressionModel::Assignment { name: s, value: Box::new(v) }, p2),
                        ),
                        Err(e) => Err(e),
                    }
                } else {
                    match sp_conditional(t, pos) {
                        Ok((c, p2)) => Ok((ExpressionModel::Operation(c), p2)),
                        Err(e) => Err(e),
                    }
                }
            },
            _ => {
                match sp_conditional(t, pos) {
                    Ok((c, p2)) => Ok((ExpressionModel::Operation(c), p2)),
                    Err(e) => Err(e),
                }
            },
        }
    }
}

#[verifier::opaque]
pub open spec fn sp_declaration(t: Seq<TokenModel>, pos: int) -> Result<
    (DeclarationModel, int),
    ParseErrorModel,
>
    decreases t.len() - pos, 10int,
{
    if pos >= t.len() {
        Err(ParseErrorModel::ExpectedToken)
    } else if t[pos] != TokenModel::KeywordInt {
        Err(ParseErrorModel::UnexpectedToken(t[pos], InFunction::ParseDeclaration))
    } else if pos + 1 >= t.len() {
        Err(ParseErrorModel::ExpectedToken)
    } else {
        match t[pos + 1] {
            TokenModel::Identifier(id) => {
                if pos + 2 >= t.len() {
                    Err(ParseErrorModel::ExpectedToken)
                } else if t[pos + 2] == TokenModel::SemiColon {
                    Ok((DeclarationModel { id, value: None }, pos + 3))
                } else if t[pos + 2] == TokenModel::OperatorAssign {
                    match sp_expression(t, pos + 3) {
                        Ok((e, p3)) => if p3 <= pos + 2 || p3 > t.len() {
                            Err(ParseErrorModel::ExpectedToken)
                        } else if p3 >= t.len() {
                            Err(ParseErrorModel::ExpectedToken)
                        } else if t[p3] == TokenModel::SemiColon {
                            Ok((DeclarationModel { id, value: Some(e) }, p3 + 1))
                        } else {
                            Err(ParseErrorModel::UnexpectedToken(
                                t[p3],
                                InFunction::ParseDeclaration,
                            ))
                        },
                        Err(e) => Err(e),
                    }
                } else {
                    Err(ParseErrorModel::UnexpectedToken(t[pos + 2], InFunction::ParseDeclaration))
                }
            },
            _ => Err(ParseErrorModel::UnexpectedToken(t[pos + 1], InFunction::ParseDeclaration)),
        }
    }
}

#[verifier::opaque]
pub open spec fn sp_statement(t: Seq<TokenModel>, pos: int) -> Result<
    (StatementModel, int),
    ParseErrorModel,
>
    decreases t.len() - pos, 11int,
{
    if pos >= t.len() {
        Err(ParseErrorModel::ExpectedToken)
    } else {
        match t[pos] {
            TokenModel::KeywordFor => sp_for_statement(t, pos),
            TokenModel::KeywordWhile => {
                if pos + 1 >= t.len() {
                    Err(ParseErrorModel::ExpectedToken)
                } else if t[pos + 1] != TokenModel::OpenParen {
                    Err(ParseErrorModel::UnexpectedToken(t[pos + 1], InFunction::ParseStatement))
                } else {
                    match sp_expression(t, pos + 2) {
                        Ok((c, p2)) => if p2 <= pos + 2 || p2 > t.len() {
                            Err(ParseErrorModel::ExpectedToken)
                        } else if p2 >= t.len() {
                            Err(ParseErrorModel::ExpectedToken)
                        } else if t[p2] != TokenModel::CloseParen {
                            Err(ParseErrorModel::UnexpectedToken(t[p2], InFunction::ParseStatement))
                        } else {
                            match sp_statement(t, p2 + 1) {
                                Ok((b, p3)) => Ok(
                                    (StatementModel::While { cond: c, body: Box::new(b) }, p3),
                                ),
                                Err(e) => Err(e),
                            }
                        },
                        Err(e) => Err(e),
                    }
                }
            },
            TokenModel::KeywordDo => {
                match sp_statement(t, pos + 1) {
                    Ok((b, p2)) => if p2 <= pos + 1 || p2 > t.len() {
                        Err(ParseErrorModel::ExpectedToken)
                    } else if p2 >= t.len() {
                        Err(ParseErrorModel::ExpectedToken)
                    } else if t[p2] != TokenModel::KeywordWhile {
                        Err(ParseErrorModel::UnexpectedToken(t[p2], InFunction::ParseStatement))
                    } else if p2 + 1 >= t.len() {
                        Err(ParseErrorModel::ExpectedToken)
                    } else if t[p2 + 1] != TokenModel::OpenParen {
                        Err(ParseErrorModel::UnexpectedToken(t[p2 + 1], InFunction::ParseStatement))
                    } else {
                        match sp_expression(t, p2 + 2) {
                            Ok((c, p3)) => if p3 <= p2 + 2 || p3 > t.len() {
                                Err(ParseErrorModel::ExpectedToken)
                            } else if p3 >= t.len() {
                                Err(ParseErrorModel::ExpectedToken)
                            } else if t[p3] != TokenModel::CloseParen {
                                Err(ParseErrorModel::UnexpectedToken(
                                    t[p3],
                                    InFunction::ParseStatement,
                                ))
                            } else if p3 + 1 >= t.len() {
                                Err(ParseErrorModel::ExpectedToken)
                            } else if t[p3 + 1] != TokenModel::SemiColon {
                                Err(ParseErrorModel::UnexpectedToken(
                                    t[p3 + 1],
                                    InFunction::ParseStatement,
                                ))
                            } else {
                                Ok((StatementModel::Do { body: Box::new(b), cond: c }, p3 + 2))
                            },
                            Err(e) => Err(e),
                        }
                    },
                    Err(e) => Err(e),
                }
            },
            TokenModel::KeywordBreak => {
                if pos + 1 >= t.len() {
                    Err(ParseErrorModel::ExpectedToken)
                } else if t[pos + 1] == TokenModel::SemiColon {
                    Ok((StatementModel::Break, pos + 2))
                } else {
                    Err(ParseErrorModel::UnexpectedToken(t[pos + 1], InFunction::ParseStatement))
                }
            },
            TokenModel::KeywordContinue => {
                if pos + 1 >= t.len() {
                    Err(ParseErrorModel::ExpectedToken)
                } else if t[pos + 1] == TokenModel::SemiColon {
                    Ok((StatementModel::Continue, pos + 2))
                } else {
                    Err(ParseErrorModel::UnexpectedToken(t[pos + 1], InFunction::ParseStatement))
                }
            },
            TokenModel::OpenBrace => {
                match sp_block_items(t, pos + 1) {
                    Ok((items, p2)) => Ok((StatementModel::Compound { items }, p2)),
                    Err(e) => Err(e),
                }
            },
            TokenModel::KeywordIf => {
                if pos + 1 >= t.len() {
                    Err(ParseErrorModel::ExpectedToken)
                } else if t[pos + 1] != TokenModel::OpenParen {
                    Err(ParseErrorModel::UnexpectedToken(t[pos + 1], InFunction::ParseStatement))
                } else {
                    match sp_expression(t, pos + 2) {
                        Ok((c, p2)) => if p2 <= pos + 2 || p2 > t.len() {
                            Err(ParseErrorModel::ExpectedToken)
                        } else if p2 >= t.len() {
                            Err(ParseErrorModel::ExpectedToken)
                        } else if t[p2] != TokenModel::CloseParen {
                            Err(ParseErrorModel::UnexpectedToken(t[p2], InFunction::ParseStatement))
                        } else {
                            match sp_statement(t, p2 + 1) {
                                Ok((thn, p3)) => if p3 <= p2 + 1 || p3 > t.len() {
                                    Err(ParseErrorModel::ExpectedToken)
                                } else if p3 >= t.len() {
                                    Err(ParseErrorModel::ExpectedToken)
                                } else if t[p3] == TokenModel::KeywordElse {
                                    match sp_statement(t, p3 + 1) {
                                        Ok((els, p4)) => Ok(
                                            (
                                                StatementModel::If {
                                                    cond: c,
                                                    then: Box::new(thn),
                                                    els: Some(Box::new(els)),
                                                },
                                                p4,
                                            ),
                                        ),
                                        Err(e) => Err(e),
                                    }
                                } else {
                                    Ok(
                                        (
                                            StatementModel::If {
                                                cond: c,
                                                then: Box::new(thn),
                                                els: None,
                                            },
                                            p3,
                                        ),
                                    )
                                },
                                Err(e) => Err(e),
                            }
                        },
                        Err(e) => Err(e),
                    }
                }
            },
            TokenModel::KeywordReturn => {
                if pos + 1 >= t.len() {
                    Err(ParseErrorModel::ExpectedToken)
                } else if t[pos + 1] == TokenModel::SemiColon {
                    Err(ParseErrorModel::ExpectedToken)
                } else {
                    match sp_expression(t, pos + 1) {
                        Ok((e, p2)) => if p2 <= pos + 1 || p2 > t.len() {
                            Err(ParseErrorModel::ExpectedToken)
                        } else if p2 >= t.len() {
                            Err(ParseErrorModel::ExpectedToken)
                        } else if t[p2] == TokenModel::SemiColon {
                            Ok((StatementModel::Return(Some(e)), p2 + 1))
                        } else {
                            Err(ParseErrorModel::UnexpectedToken(t[p2], InFunction::ParseStatement))
                        },
                        Err(e) => Err(e),
                    }
                }
            },
            TokenModel::SemiColon => Ok((StatementModel::Expression(None), pos + 1)),
            _ => {
                match sp_expression(t, pos) {
                    Ok((e, p2)) => if p2 <= pos || p2 > t.len() {
                        Err(ParseErrorModel::ExpectedToken)
                    } else if p2 >= t.len() {
                        Err(ParseErrorModel::ExpectedToken)
                    } else if t[p2] == TokenModel::SemiColon {
                        Ok((StatementModel::Expression(Some(e)), p2 + 1))
                    } else {
                        Err(ParseErrorModel::UnexpectedToken(t[p2], InFunction::ParseStatement))
                    },
                    Err(e) => Err(e),
                }
            },
        }
    }
}

/// The `for` statement: both forms, with the condition synthesised
/// to the literal `1` when absent.
#[verifier::opaque]
pub open spec fn sp_for_statement(t: Seq<TokenModel>, pos: int) -> Result<
    (StatementModel, int),
    ParseErrorModel,
>
    decreases t.len() - pos, 10int,
{
    if pos + 1 >= t.len() {
        Err(ParseErrorModel::ExpectedToken)
    } else if t[pos + 1] != TokenModel::OpenParen {
        Err(ParseErrorModel::UnexpectedToken(t[pos + 1], InFunction::ParseStatement))
    } else if pos + 2 >= t.len() {
        Err(ParseErrorModel::ExpectedToken)
    } else {
        let init_part: Result<
            ((Option<DeclarationModel>, Option<ExpressionModel>), int),
            ParseErrorModel,
        > = if t[pos + 2] == TokenModel::KeywordInt {
            match sp_declaration(t, pos + 2) {
                Ok((d, p3)) => if p3 <= pos + 2 || p3 > t.len() {
                    Err(ParseErrorModel::ExpectedToken)
                } else {
                    Ok(((Some(d), None), p3))
                },
                Err(e) => Err(e),
            }
        } else if t[pos + 2] == TokenModel::SemiColon {
            Ok(((None, None), pos + 3))
        } else {
            match sp_expression(t, pos + 2) {
                Ok((e, p3)) => if p3 <= pos + 2 || p3 > t.len() {
                    Err(ParseErrorModel::ExpectedToken)
                } else if p3 >= t.len() {
                    Err(ParseErrorModel::ExpectedToken)
                } else if t[p3] == TokenModel::SemiColon {
                    Ok(((None, Some(e)), p3 + 1))
                } else {
                    Err(ParseErrorModel::UnexpectedToken(t[p3], InFunction::ParseStatement))
                },
                Err(e) => Err(e),
            }
        };
        match init_part {
            Ok(((init_decl, init_exp), p4)) => {
                if p4 >= t.len() {
                    Err(ParseErrorModel::ExpectedToken)
                } else {
                    let cond_part: Result<(ExpressionModel, int), ParseErrorModel> = if t[p4]
                        == TokenModel::SemiColon {
                        Ok((const_one_model(), p4 + 1))
                    } else {
                        match sp_expression(t, p4) {
                            Ok((c, p5)) => if p5 <= p4 || p5 > t.len() {
                                Err(ParseErrorModel::ExpectedToken)
                            } else if p5 >= t.len() {
                                Err(ParseErrorModel::ExpectedToken)
                            } else if t[p5] == TokenModel::SemiColon {
                                Ok((c, p5 + 1))
                            } else {
                                Err(ParseErrorModel::UnexpectedToken(
                                    t[p5],
                                    InFunction::ParseStatement,
                                ))
                            },
                            Err(e) => Err(e),
                        }
                    };
                    match cond_part {
                        Ok((cond, p6)) => {
                            if p6 >= t.len() {
                                Err(ParseErrorModel::ExpectedToken)
                            } else {
                                let post_part: Result<
                                    (Option<ExpressionModel>, int),
                                    ParseErrorModel,
                                > = if t[p6] == TokenModel::CloseParen {
                                    Ok((None, p6))
                                } else {
                                    match sp_expression(t, p6) {
                                        Ok((e, p7)) => if p7 <= p6 || p7 > t.len() {
                                            Err(ParseErrorModel::ExpectedToken)
                                        } else {
                                            Ok((Some(e), p7))
                                        },
                                        Err(e) => Err(e),
                                    }
                                };
                                match post_part {
                                    Ok((post, p8)) => {
                                        if p8 >= t.len() {
                                            Err(ParseErrorModel::ExpectedToken)
                                        } else if t[p8] != TokenModel::CloseParen {
                                            Err(ParseErrorModel::UnexpectedToken(
                                                t[p8],
                                                InFunction::ParseStatement,
                                            ))
                                        } else {
                                            match sp_statement(t, p8 + 1) {
                                                Ok((body, p9)) => {
                                                    match init_exp {
                                                        Some(e) => Ok(
                                                            (
                                                                StatementModel::For {
                                                                    init: Some(e),
                                                                    cond,
                                                                    post,
                                                                    body: Box::new(body),
                                                                },
                                                                p9,
                                                            ),
                                                        ),
                                                        None => match init_decl {
                                                            Some(d) => Ok(
                                                                (
                                                                    StatementModel::ForDecl {
                                                                        init: d,
                                                                        cond,
                                                                        post,
                                                                        body: Box::new(body),
                                                                    },
                                                                    p9,
                                                                ),
                                                            ),
                                                            None => Ok(
                                                                (
                                                                    StatementModel::For {
                                                                        init: None,
                                                                        cond,
                                                                        post,
                                                                        body: Box::new(body),
                                                                    },
                                                                    p9,
                                                                ),
                                                            ),
                                                        },
                                                    }
                                                },
                                                Err(e) => Err(e),
                                            }
                                        }
                                    },
                                    Err(e) => Err(e),
                                }
                            }
                        },
                        Err(e) => Err(e),
                    }
                }
            },
            Err(e) => Err(e),
        }
    }
}

#[verifier::opaque]
pub open spec fn sp_block_item(t: Seq<TokenModel>, pos: int) -> Result<
    (BlockItemModel, int),
    ParseErrorModel,
>
    decreases t.len() - pos, 12int,
{
    if pos >= t.len() {
        Err(ParseErrorModel::ExpectedToken)
    } else if t[pos] == TokenModel::KeywordInt {
        match sp_declaration(t, pos) {
            Ok((d, p2)) => Ok((BlockItemModel::Declaration(d), p2)),
            Err(e) => Err(e),
        }
    } else {
        match sp_statement(t, pos) {
            Ok((s, p2)) => Ok((BlockItemModel::Statement(s), p2)),
            Err(e) => Err(e),
        }
    }
}

/// Block items up to and including a closing brace; the stream
/// simply running out ends the block as well.
#[verifier::opaque]
pub open spec fn sp_block_items(t: Seq<TokenModel>, pos: int) -> Result<
    (Seq<BlockItemModel>, int),
    ParseErrorModel,
>
    decreases t.len() - pos, 13int,
{
    if pos >= t.len() {
        Ok((Seq::empty(), pos))
    } else if t[pos] == TokenModel::CloseBrace {
        Ok((Seq::empty(), pos + 1))
    } else {
        match sp_block_item(t, pos) {
            Ok((b, p2)) => if p2 <= pos || p2 > t.len() {
                Err(ParseErrorModel::ExpectedToken)
            } else {
                pres_cont(seq![b], sp_block_items(t, p2))
            },
            Err(e) => Err(e),
        }
    }
}

/// The parameter list after the first parameter: `, int ident`
/// repeated, closed by `)`.
#[verifier::opaque]
pub open spec fn sp_params_rest(t: Seq<TokenModel>, pos: int) -> Result<
    (Seq<Seq<char>>, int),
    ParseErrorModel,
>
    decreases t.len() - pos, 0int,
{
    if pos >= t.len() {
        Ok((Seq::empty(), pos))
    } else if t[pos] == TokenModel::CloseParen {
        Ok((Seq::empty(), pos + 1))
    } else if t[pos] == TokenModel::Comma {
        if pos + 1 >= t.len() {
            Err(ParseErrorModel::ExpectedToken)
        } else if t[pos + 1] != TokenModel::KeywordInt {
            Err(ParseErrorModel::UnexpectedToken(t[pos + 1], InFunction::ParseFunction))
        } else if pos + 2 >= t.len() {
            Err(ParseErrorModel::ExpectedToken)
        } else {
            match t[pos + 2] {
                TokenModel::Identifier(id) => pres_cont(seq![id], sp_params_rest(t, pos + 3)),
                _ => Err(ParseErrorModel::UnexpectedToken(t[pos + 2], InFunction::ParseFunction)),
            }
        }
    } else {
        Err(ParseErrorModel::UnexpectedToken(t[pos], InFunction::ParseFunction))
    }
}

#[verifier::opaque]
pub open spec fn sp_function(t: Seq<TokenModel>, pos: int) -> Result<
    (FunctionModel, int),
    ParseErrorModel,
>
    decreases t.len() - pos, 14int,
{
    if pos >= t.len() {
        Err(ParseErrorModel::ExpectedToken)
    } else if t[pos] != TokenModel::KeywordInt {
        Err(ParseErrorModel::UnexpectedToken(t[pos], InFunction::ParseFunction))
    } else if pos + 1 >= t.len() {
        Err(ParseErrorModel::ExpectedToken)
    } else {
        match t[pos + 1] {
            TokenModel::Identifier(id) => {
                if pos + 2 >= t.len() {
                    Err(ParseErrorModel::ExpectedToken)
                } else if t[pos + 2] != TokenModel::OpenParen {
                    Err(ParseErrorModel::UnexpectedToken(t[pos + 2], InFunction::ParseFunction))
                } else if pos + 3 >= t.len() {
                    Err(ParseErrorModel::ExpectedToken)
                } else {
                    let first_param: Result<(Seq<Seq<char>>, int), ParseErrorModel> = if t[pos + 3]
                        == TokenModel::CloseParen {
                        Ok((Seq::empty(), pos + 3))
                    } else if t[pos + 3] != TokenModel::KeywordInt {
                        Err(ParseErrorModel::UnexpectedToken(t[pos + 3], InFunction::ParseFunction))
                    } else if pos + 4 >= t.len() {
                        Err(ParseErrorModel::ExpectedToken)
                    } else {
                        match t[pos + 4] {
                            TokenModel::Identifier(pid) => Ok((seq![pid], pos + 5)),
                            _ => Err(ParseErrorModel::UnexpectedToken(
                                t[pos + 4],
                                InFunction::ParseFunction,
                            )),
                        }
                    };
                    match first_param {
                        Ok((params0, p4)) => {
                            match sp_params_rest(t, p4) {
                                Ok((params_rest, p5)) => {
                                    if p5 >= t.len() {
                                        Err(ParseErrorModel::ExpectedToken)
                                    } else if t[p5] == TokenModel::OpenBrace {
                                        match sp_block_items(t, p5 + 1) {
                                            Ok((items, p6)) => Ok(
                                                (
                                                    FunctionModel {
                                                        ftype: FunctionType::Int,
                                                        params: params0 + params_rest,
                                                        id,
                                                        items: Some(items),
                                                    },
                                                    p6,
                                                ),
                                            ),
                                            Err(e) => Err(e),
                                        }
                                    } else if t[p5] == TokenModel::SemiColon {
                                        Ok(
                                            (
                                                FunctionModel {
                                                    ftype: FunctionType::Int,
                                                    params: params0 + params_rest,
                                                    id,
                                                    items: None,
                                                },
                                                p5 + 1,
                                            ),
                                        )
                                    } else {
                                        Err(ParseErrorModel::UnexpectedToken(
                                            t[p5],
                                            InFunction::ParseFunction,
                                        ))
                                    }
                                },
                                Err(e) => Err(e),
                            }
                        },
                        Err(e) => Err(e),
                    }
                }
            },
            _ => Err(ParseErrorModel::UnexpectedToken(t[pos + 1], InFunction::ParseFunction)),
        }
    }
}

#[verifier::opaque]
pub open spec fn sp_functions(t: Seq<TokenModel>, pos: int) -> Result<
    (Seq<FunctionModel>, int),
    ParseErrorModel,
>
    decreases t.len() - pos, 15int,
{
    if pos >= t.len() {
        Ok((Seq::empty(), pos))
    } else if t[pos] == TokenModel::EndOfFile {
        Ok((Seq::empty(), pos + 1))
    } else {
        match sp_function(t, pos) {
            Ok((f, p2)) => if p2 <= pos || p2 > t.len() {
                Err(ParseErrorModel::ExpectedToken)
            } else {
                pres_cont(seq![f], sp_functions(t, p2))
            },
            Err(e) => Err(e),
        }
    }
}

/// The model of the whole parse.
#[verifier::opaque]
pub open spec fn sp_program(t: Seq<TokenModel>) -> Result<ProgramModel, ParseErrorModel> {
    match sp_functions(t, 0) {
        Ok((fs, _)) => Ok(ProgramModel { functions: fs }),
        Err(e) => Err(e),
    }
}

// ---------------------------------------------------------------
// One-step unfolding lemmas for the parse model: each executable
// parser below reasons only through these, never by unfolding the
// model in place.
// ---------------------------------------------------------------

proof fn lemma_term_rest_end(t: Seq<TokenModel>, pos: int)
    requires
        pos >= t.len() || spec_mul_op(t[pos]) is None,
    ensures
        sp_term_rest(t, pos) == Ok::<_, ParseErrorModel>(
            (Seq::<(MultiplicativeOperator, FactorModel)>::empty(), pos),
        ),
{
    reveal(sp_term_rest);
    reveal(sp_factor);
}

proof fn lemma_term_rest_step(
    t: Seq<TokenModel>,
    pos: int,
    op: MultiplicativeOperator,
    fm: FactorModel,
    p2: int,
)
    requires
        0 <= pos < t.len(),
        spec_mul_op(t[pos]) == Some(op),
        sp_factor(t, pos + 1) == Ok::<_, ParseErrorModel>((fm, p2)),
        pos < p2 <= t.len(),
    ensures
        sp_term_rest(t, pos) == pres_cont(seq![(op, fm)], sp_term_rest(t, p2)),
{
    reveal(sp_term_rest);
    reveal(sp_factor);
}

proof fn lemma_term_rest_err(t: Seq<TokenModel>, pos: int, e: ParseErrorModel)
    requires
        0 <= pos < t.len(),
        spec_mul_op(t[pos]) is Some,
        sp_factor(t, pos + 1) == Err::<(FactorModel, int), _>(e),
    ensures
        sp_term_rest(t, pos) == Err::<(Seq<(MultiplicativeOperator, FactorModel)>, int), ParseErrorModel>(e),
{
    reveal(sp_term_rest);
    reveal(sp_factor);
}

proof fn lemma_additive_rest_end(t: Seq<TokenModel>, pos: int)
    requires
        pos >= t.len() || spec_add_op(t[pos]) is None,
    ensures
        sp_additive_rest(t, pos) == Ok::<_, ParseErrorModel>(
            (Seq::<(AdditiveOperator, TermModel)>::empty(), pos),
        ),
{
    reveal(sp_additive_rest);
    reveal(sp_term);
}

proof fn lemma_additive_rest_step(
    t: Seq<TokenModel>,
    pos: int,
    op: AdditiveOperator,
    fm: TermModel,
    p2: int,
)
    requires
        0 <= pos < t.len(),
        spec_add_op(t[pos]) == Some(op),
        sp_term(t, pos + 1) == Ok::<_, ParseErrorModel>((fm, p2)),
        pos < p2 <= t.len(),
    ensures
        sp_additive_rest(t, pos) == pres_cont(seq![(op, fm)], sp_additive_rest(t, p2)),
{
    reveal(sp_additive_rest);
    reveal(sp_term);
}

proof fn lemma_additive_rest_err(t: Seq<TokenModel>, pos: int, e: ParseErrorModel)
    requires
        0 <= pos < t.len(),
        spec_add_op(t[pos]) is Some,
        sp_term(t, pos + 1) == Err::<(TermModel, int), _>(e),
    ensures
        sp_additive_rest(t, pos) == Err::<(Seq<(AdditiveOperator, TermModel)>, int), ParseErrorModel>(e),
{
    reveal(sp_additive_rest);
    reveal(sp_term);
}

proof fn lemma_relational_rest_end(t: Seq<TokenModel>, pos: int)
    requires
        pos >= t.len() || spec_rel_op(t[pos]) is None,
    ensures
        sp_relational_rest(t, pos) == Ok::<_, ParseErrorModel>(
            (Seq::<(RelationalOperator, AdditiveModel)>::empty(), pos),
        ),
{
    reveal(sp_relational_rest);
    reveal(sp_additive);
}

proof fn lemma_relational_rest_step(
    t: Seq<TokenModel>,
    pos: int,
    op: RelationalOperator,
    fm: AdditiveModel,
    p2: int,
)
    requires
        0 <= pos < t.len(),
        spec_rel_op(t[pos]) == Some(op),
        sp_additive(t, pos + 1) == Ok::<_, ParseErrorModel>((fm, p2)),
        pos < p2 <= t.len(),
    ensures
        sp_relational_rest(t, pos) == pres_cont(seq![(op, fm)], sp_relational_rest(t, p2)),
{
    reveal(sp_relational_rest);
    reveal(sp_additive);
}

proof fn lemma_relational_rest_err(t: Seq<TokenModel>, pos: int, e: ParseErrorModel)
    requires
        0 <= pos < t.len(),
        spec_rel_op(t[pos]) is Some,
        sp_additive(t, pos + 1) == Err::<(AdditiveModel, int), _>(e),
    ensures
        sp_relational_rest(t, pos) == Err::<(Seq<(RelationalOperator, AdditiveModel)>, int), ParseErrorModel>(e),
{
    reveal(sp_relational_rest);
    reveal(sp_additive);
}

proof fn lemma_equality_rest_end(t: Seq<TokenModel>, pos: int)
    requires
        pos >= t.len() || spec_eq_op(t[pos]) is None,
    ensures
        sp_equality_rest(t, pos) == Ok::<_, ParseErrorModel>(
            (Seq::<(EqualityOperator, RelationalModel)>::empty(), pos),
        ),
{
    reveal(sp_equality_rest);
    reveal(sp_relational);
}

proof fn lemma_equality_rest_step(
    t: Seq<TokenModel>,
    pos: int,
    op: EqualityOperator,
    fm: RelationalModel,
    p2: int,
)
    requires
        0 <= pos < t.len(),
        spec_eq_op(t[pos]) == Some(op),
        sp_relational(t, pos + 1) == Ok::<_, ParseErrorModel>((fm, p2)),
        pos < p2 <= t.len(),
    ensures
        sp_equality_rest(t, pos) == pres_cont(seq![(op, fm)], sp_equality_rest(t, p2)),
{
    reveal(sp_equality_rest);
    reveal(sp_relational);
}

proof fn lemma_equality_rest_err(t: Seq<TokenModel>, pos: int, e: ParseErrorModel)
    requires
        0 <= pos < t.len(),
        spec_eq_op(t[pos]) is Some,
        sp_relational(t, pos + 1) == Err::<(RelationalModel, int), _>(e),
    ensures
        sp_equality_rest(t, pos) == Err::<(Seq<(EqualityOperator, RelationalModel)>, int), ParseErrorModel>(e),
{
    reveal(sp_equality_rest);
    reveal(sp_relational);
}

proof fn lemma_and_rest_end(t: Seq<TokenModel>, pos: int)
    requires
        pos >= t.len() || t[pos] != TokenModel::OperatorAnd,
    ensures
        sp_and_rest(t, pos) == Ok::<_, ParseErrorModel>((Seq::<EqualityModel>::empty(), pos)),
{
    reveal(sp_and_rest);
    reveal(sp_equality);
}

proof fn lemma_and_rest_step(t: Seq<TokenModel>, pos: int, fm: EqualityModel, p2: int)
    requires
        0 <= pos < t.len(),
        t[pos] == TokenModel::OperatorAnd,
        sp_equality(t, pos + 1) == Ok::<_, ParseErrorModel>((fm, p2)),
        pos < p2 <= t.len(),
    ensures
        sp_and_rest(t, pos) == pres_cont(seq![fm], sp_and_rest(t, p2)),
{
    reveal(sp_and_rest);
    reveal(sp_equality);
}

proof fn lemma_and_rest_err(t: Seq<TokenModel>, pos: int, e: ParseErrorModel)
    requires
        0 <= pos < t.len(),
        t[pos] == TokenModel::OperatorAnd,
        sp_equality(t, pos + 1) == Err::<(EqualityModel, int), _>(e),
    ensures
        sp_and_rest(t, pos) == Err::<(Seq<EqualityModel>, int), ParseErrorModel>(e),
{
    reveal(sp_and_rest);
    reveal(sp_equality);
}

proof fn lemma_or_rest_end(t: Seq<TokenModel>, pos: int)
    requires
        pos >= t.len() || t[pos] != TokenModel::OperatorOr,
    ensures
        sp_or_rest(t, pos) == Ok::<_, ParseErrorModel>((Seq::<AndModel>::empty(), pos)),
{
    reveal(sp_or_rest);
    reveal(sp_and);
}

proof fn lemma_or_rest_step(t: Seq<TokenModel>, pos: int, fm: AndModel, p2: int)
    requires
        0 <= pos < t.len(),
        t[pos] == TokenModel::OperatorOr,
        sp_and(t, pos + 1) == Ok::<_, ParseErrorModel>((fm, p2)),
        pos < p2 <= t.len(),
    ensures
        sp_or_rest(t, pos) == pres_cont(seq![fm], sp_or_rest(t, p2)),
{
    reveal(sp_or_rest);
    reveal(sp_and);
}

proof fn lemma_or_rest_err(t: Seq<TokenModel>, pos: int, e: ParseErrorModel)
    requires
        0 <= pos < t.len(),
        t[pos] == TokenModel::OperatorOr,
        sp_and(t, pos + 1) == Err::<(AndModel, int), _>(e),
    ensures
        sp_or_rest(t, pos) == Err::<(Seq<AndModel>, int), ParseErrorModel>(e),
{
    reveal(sp_or_rest);
    reveal(sp_and);
}

proof fn lemma_term_ok(
    t: Seq<TokenModel>,
    pos: int,
    fm: FactorModel,
    p1: int,
    restm: Seq<(MultiplicativeOperator, FactorModel)>,
    p2: int,
)
    requires
        sp_factor(t, pos) == Ok::<_, ParseErrorModel>((fm, p1)),
        pos < p1 <= t.len(),
        sp_term_rest(t, p1) == Ok::<_, ParseErrorModel>((restm, p2)),
    ensures
        sp_term(t, pos) == Ok::<_, ParseErrorModel>((TermModel { first: Box::new(fm), rest: restm }, p2)),
{
    reveal(sp_term);
    reveal(sp_factor);
    reveal(sp_term_rest);
}

proof fn lemma_term_err_first(t: Seq<TokenModel>, pos: int, e: ParseErrorModel)
    requires
        sp_factor(t, pos) == Err::<(FactorModel, int), _>(e),
    ensures
        sp_term(t, pos) == Err::<(TermModel, int), ParseErrorModel>(e),
{
    reveal(sp_term);
    reveal(sp_factor);
    reveal(sp_term_rest);
}

proof fn lemma_term_err_rest(
    t: Seq<TokenModel>,
    pos: int,
    fm: FactorModel,
    p1: int,
    e: ParseErrorModel,
)
    requires
        sp_factor(t, pos) == Ok::<_, ParseErrorModel>((fm, p1)),
        pos < p1 <= t.len(),
        sp_term_rest(t, p1) == Err::<(Seq<(MultiplicativeOperator, FactorModel)>, int), _>(e),
    ensures
        sp_term(t, pos) == Err::<(TermModel, int), ParseErrorModel>(e),
{
    reveal(sp_term);
    reveal(sp_factor);
    reveal(sp_term_rest);
}

proof fn lemma_additive_ok(
    t: Seq<TokenModel>,
    pos: int,
    fm: TermModel,
    p1: int,
    restm: Seq<(AdditiveOperator, TermModel)>,
    p2: int,
)
    requires
        sp_term(t, pos) == Ok::<_, ParseErrorModel>((fm, p1)),
        pos < p1 <= t.len(),
        sp_additive_rest(t, p1) == Ok::<_, ParseErrorModel>((restm, p2)),
    ensures
        sp_additive(t, pos) == Ok::<_, ParseErrorModel>((AdditiveModel { first: Box::new(fm), rest: restm }, p2)),
{
    reveal(sp_additive);
    reveal(sp_term);
    reveal(sp_additive_rest);
}

proof fn lemma_additive_err_first(t: Seq<TokenModel>, pos: int, e: ParseErrorModel)
    requires
        sp_term(t, pos) == Err::<(TermModel, int), _>(e),
    ensures
        sp_additive(t, pos) == Err::<(AdditiveModel, int), ParseErrorModel>(e),
{
    reveal(sp_additive);
    reveal(sp_term);
    reveal(sp_additive_rest);
}

proof fn lemma_additive_err_rest(
    t: Seq<TokenModel>,
    pos: int,
    fm: TermModel,
    p1: int,
    e: ParseErrorModel,
)
    requires
        sp_term(t, pos) == Ok::<_, ParseErrorModel>((fm, p1)),
        pos < p1 <= t.len(),
        sp_additive_rest(t, p1) == Err::<(Seq<(AdditiveOperator, TermModel)>, int), _>(e),
    ensures
        sp_additive(t, pos) == Err::<(AdditiveModel, int), ParseErrorModel>(e),
{
    reveal(sp_additive);
    reveal(sp_term);
    reveal(sp_additive_rest);
}

proof fn lemma_relational_ok(
    t: Seq<TokenModel>,
    pos: int,
    fm: AdditiveModel,
    p1: int,
    restm: Seq<(RelationalOperator, AdditiveModel)>,
    p2: int,
)
    requires
        sp_additive(t, pos) == Ok::<_, ParseErrorModel>((fm, p1)),
        pos < p1 <= t.len(),
        sp_relational_rest(t, p1) == Ok::<_, ParseErrorModel>((restm, p2)),
    ensures
        sp_relational(t, pos) == Ok::<_, ParseErrorModel>((RelationalModel { first: Box::new(fm), rest: restm }, p2)),
{
    reveal(sp_relational);
    reveal(sp_additive);
    reveal(sp_relational_rest);
}

proof fn lemma_relational_err_first(t: Seq<TokenModel>, pos: int, e: ParseErrorModel)
    requires
        sp_additive(t, pos) == Err::<(AdditiveModel, int), _>(e),
    ensures
        sp_relational(t, pos) == Err::<(RelationalModel, int), ParseErrorModel>(e),
{
    reveal(sp_relational);
    reveal(sp_additive);
    reveal(sp_relational_rest);
}

proof fn lemma_relational_err_rest(
    t: Seq<TokenModel>,
    pos: int,
    fm: AdditiveModel,
    p1: int,
    e: ParseErrorModel,
)
    requires
        sp_additive(t, pos) == Ok::<_, ParseErrorModel>((fm, p1)),
        pos < p1 <= t.len(),
        sp_relational_rest(t, p1) == Err::<(Seq<(RelationalOperator, AdditiveModel)>, int), _>(e),
    ensures
        sp_relational(t, pos) == Err::<(RelationalModel, int), ParseErrorModel>(e),
{
    reveal(sp_relational);
    reveal(sp_additive);
    reveal(sp_relational_rest);
}

proof fn lemma_equality_ok(
    t: Seq<TokenModel>,
    pos: int,
    fm: RelationalModel,
    p1: int,
    restm: Seq<(EqualityOperator, RelationalModel)>,
    p2: int,
)
    requires
        sp_relational(t, pos) == Ok::<_, ParseErrorModel>((fm, p1)),
        pos < p1 <= t.len(),
        sp_equality_rest(t, p1) == Ok::<_, ParseErrorModel>((restm, p2)),
    ensures
        sp_equality(t, pos) == Ok::<_, ParseErrorModel>((EqualityModel { first: Box::new(fm), rest: restm }, p2)),
{
    reveal(sp_equality);
    reveal(sp_relational);
    reveal(sp_equality_rest);
}

proof fn lemma_equality_err_first(t: Seq<TokenModel>, pos: int, e: ParseErrorModel)
    requires
        sp_relational(t, pos) == Err::<(RelationalModel, int), _>(e),
    ensures
        sp_equality(t, pos) == Err::<(EqualityModel, int), ParseErrorModel>(e),
{
    reveal(sp_equality);
    reveal(sp_relational);
    reveal(sp_equality_rest);
}

proof fn lemma_equality_err_rest(
    t: Seq<TokenModel>,
    pos: int,
    fm: RelationalModel,
    p1: int,
    e: ParseErrorModel,
)
    requires
        sp_relational(t, pos) == Ok::<_, ParseErrorModel>((fm, p1)),
        pos < p1 <= t.len(),
        sp_equality_rest(t, p1) == Err::<(Seq<(EqualityOperator, RelationalModel)>, int), _>(e),
    ensures
        sp_equality(t, pos) == Err::<(EqualityModel, int), ParseErrorModel>(e),
{
    reveal(sp_equality);
    reveal(sp_relational);
    reveal(sp_equality_rest);
}

proof fn lemma_and_ok(
    t: Seq<TokenModel>,
    pos: int,
    fm: EqualityModel,
    p1: int,
    restm: Seq<EqualityModel>,
    p2: int,
)
    requires
        sp_equality(t, pos) == Ok::<_, ParseErrorModel>((fm, p1)),
        pos < p1 <= t.len(),
        sp_and_rest(t, p1) == Ok::<_, ParseErrorModel>((restm, p2)),
    ensures
        sp_and(t, pos) == Ok::<_, ParseErrorModel>((AndModel { first: Box::new(fm), rest: restm }, p2)),
{
    reveal(sp_and);
    reveal(sp_equality);
    reveal(sp_and_rest);
}

proof fn lemma_and_err_first(t: Seq<TokenModel>, pos: int, e: ParseErrorModel)
    requires
        sp_equality(t, pos) == Err::<(EqualityModel, int), _>(e),
    ensures
        sp_and(t, pos) == Err::<(AndModel, int), ParseErrorModel>(e),
{
    reveal(sp_and);
    reveal(sp_equality);
    reveal(sp_and_rest);
}

proof fn lemma_and_err_rest(
    t: Seq<TokenModel>,
    pos: int,
    fm: EqualityModel,
    p1: int,
    e: ParseErrorModel,
)
    requires
        sp_equality(t, pos) == Ok::<_, ParseErrorModel>((fm, p1)),
        pos < p1 <= t.len(),
        sp_and_rest(t, p1) == Err::<(Seq<EqualityModel>, int), _>(e),
    ensures
        sp_and(t, pos) == Err::<(AndModel, int), ParseErrorModel>(e),
{
    reveal(sp_and);
    reveal(sp_equality);
    reveal(sp_and_rest);
}

proof fn lemma_or_ok(
    t: Seq<TokenModel>,
    pos: int,
    fm: AndModel,
    p1: int,
    restm: Seq<AndModel>,
    p2: int,
)
    requires
        sp_and(t, pos) == Ok::<_, ParseErrorModel>((fm, p1)),
        pos < p1 <= t.len(),
        sp_or_rest(t, p1) == Ok::<_, ParseErrorModel>((restm, p2)),
    ensures
        sp_or(t, pos) == Ok::<_, ParseErrorModel>((OrModel { first: Box::new(fm), rest: restm }, p2)),
{
    reveal(sp_or);
    reveal(sp_and);
    reveal(sp_or_rest);
}

proof fn lemma_or_err_first(t: Seq<TokenModel>, pos: int, e: ParseErrorModel)
    requires
        sp_and(t, pos) == Err::<(AndModel, int), _>(e),
    ensures
        sp_or(t, pos) == Err::<(OrModel, int), ParseErrorModel>(e),
{
    reveal(sp_or);
    reveal(sp_and);
    reveal(sp_or_rest);
}

proof fn lemma_or_err_rest(
    t: Seq<TokenModel>,
    pos: int,
    fm: AndModel,
    p1: int,
    e: ParseErrorModel,
)
    requires
        sp_and(t, pos) == Ok::<_, ParseErrorModel>((fm, p1)),
        pos < p1 <= t.len(),
        sp_or_rest(t, p1) == Err::<(Seq<AndModel>, int), _>(e),
    ensures
        sp_or(t, pos) == Err::<(OrModel, int), ParseErrorModel>(e),
{
    reveal(sp_or);
    reveal(sp_and);
    reveal(sp_or_rest);
}

proof fn lemma_args_rest_end(t: Seq<TokenModel>, pos: int)
    requires
        pos >= t.len(),
    ensures
        sp_args_rest(t, pos) == Ok::<_, ParseErrorModel>((Seq::<ExpressionModel>::empty(), pos)),
{
    reveal(sp_args_rest);
    reveal(sp_expression);
}

proof fn lemma_args_rest_close(t: Seq<TokenModel>, pos: int)
    requires
        0 <= pos < t.len(),
        t[pos] == TokenModel::CloseParen,
    ensures
        sp_args_rest(t, pos) == Ok::<_, ParseErrorModel>(
            (Seq::<ExpressionModel>::empty(), pos + 1),
        ),
{
    reveal(sp_args_rest);
    reveal(sp_expression);
}

proof fn lemma_args_rest_step(t: Seq<TokenModel>, pos: int, am: ExpressionModel, p2: int)
    requires
        0 <= pos < t.len(),
        t[pos] == TokenModel::Comma,
        sp_expression(t, pos + 1) == Ok::<_, ParseErrorModel>((am, p2)),
        pos < p2 <= t.len(),
    ensures
        sp_args_rest(t, pos) == pres_cont(seq![am], sp_args_rest(t, p2)),
{
    reveal(sp_args_rest);
    reveal(sp_expression);
}

proof fn lemma_args_rest_err(t: Seq<TokenModel>, pos: int, e: ParseErrorModel)
    requires
        0 <= pos < t.len(),
        t[pos] == TokenModel::Comma,
        sp_expression(t, pos + 1) == Err::<(ExpressionModel, int), _>(e),
    ensures
        sp_args_rest(t, pos) == Err::<(Seq<ExpressionModel>, int), ParseErrorModel>(e),
{
    reveal(sp_args_rest);
    reveal(sp_expression);
}

proof fn lemma_args_rest_unexpected(t: Seq<TokenModel>, pos: int)
    requires
        0 <= pos < t.len(),
        t[pos] != TokenModel::CloseParen,
        t[pos] != TokenModel::Comma,
    ensures
        sp_args_rest(t, pos) == Err::<(Seq<ExpressionModel>, int), ParseErrorModel>(
            ParseErrorModel::UnexpectedToken(t[pos], InFunction::ParseFactor),
        ),
{
    reveal(sp_args_rest);
    reveal(sp_expression);
}

proof fn lemma_items_end(t: Seq<TokenModel>, pos: int)
    requires
        pos >= t.len(),
    ensures
        sp_block_items(t, pos) == Ok::<_, ParseErrorModel>((Seq::<BlockItemModel>::empty(), pos)),
{
    reveal(sp_block_items);
    reveal(sp_block_item);
}

proof fn lemma_items_close(t: Seq<TokenModel>, pos: int)
    requires
        0 <= pos < t.len(),
        t[pos] == TokenModel::CloseBrace,
    ensures
        sp_block_items(t, pos) == Ok::<_, ParseErrorModel>(
            (Seq::<BlockItemModel>::empty(), pos + 1),
        ),
{
    reveal(sp_block_items);
    reveal(sp_block_item);
}

proof fn lemma_items_step(t: Seq<TokenModel>, pos: int, bm: BlockItemModel, p2: int)
    requires
        0 <= pos < t.len(),
        t[pos] != TokenModel::CloseBrace,
        sp_block_item(t, pos) == Ok::<_, ParseErrorModel>((bm, p2)),
        pos < p2 <= t.len(),
    ensures
        sp_block_items(t, pos) == pres_cont(seq![bm], sp_block_items(t, p2)),
{
    reveal(sp_block_items);
    reveal(sp_block_item);
}

proof fn lemma_items_err(t: Seq<TokenModel>, pos: int, e: ParseErrorModel)
    requires
        0 <= pos < t.len(),
        t[pos] != TokenModel::CloseBrace,
        sp_block_item(t, pos) == Err::<(BlockItemModel, int), _>(e),
    ensures
        sp_block_items(t, pos) == Err::<(Seq<BlockItemModel>, int), ParseErrorModel>(e),
{
    reveal(sp_block_items);
    reveal(sp_block_item);
}

proof fn lemma_params_end(t: Seq<TokenModel>, pos: int)
    requires
        pos >= t.len(),
    ensures
        sp_params_rest(t, pos) == Ok::<_, ParseErrorModel>((Seq::<Seq<char>>::empty(), pos)),
{
    reveal(sp_params_rest);
}

proof fn lemma_params_close(t: Seq<TokenModel>, pos: int)
    requires
        0 <= pos < t.len(),
        t[pos] == TokenModel::CloseParen,
    ensures
        sp_params_rest(t, pos) == Ok::<_, ParseErrorModel>((Seq::<Seq<char>>::empty(), pos + 1)),
{
    reveal(sp_params_rest);
}

proof fn lemma_params_step(t: Seq<TokenModel>, pos: int, id: Seq<char>)
    requires
        0 <= pos < t.len(),
        t[pos] == TokenModel::Comma,
        0 <= pos + 1 < t.len(),
        t[pos + 1] == TokenModel::KeywordInt,
        0 <= pos + 2 < t.len(),
        t[pos + 2] == TokenModel::Identifier(id),
    ensures
        sp_params_rest(t, pos) == pres_cont(seq![id], sp_params_rest(t, pos + 3)),
{
    reveal(sp_params_rest);
}

proof fn lemma_params_fail(t: Seq<TokenModel>, pos: int, e: ParseErrorModel)
    requires
        0 <= pos < t.len(),
        t[pos] != TokenModel::CloseParen,
        ({
            if t[pos] == TokenModel::Comma {
                if pos + 1 >= t.len() {
                    e == ParseErrorModel::ExpectedToken
                } else if t[pos + 1] != TokenModel::KeywordInt {
                    e == ParseErrorModel::UnexpectedToken(t[pos + 1], InFunction::ParseFunction)
                } else if pos + 2 >= t.len() {
                    e == ParseErrorModel::ExpectedToken
                } else {
                    !(t[pos + 2] is Identifier) && e == ParseErrorModel::UnexpectedToken(
                        t[pos + 2],
                        InFunction::ParseFunction,
                    )
                }
            } else {
                e == ParseErrorModel::UnexpectedToken(t[pos], InFunction::ParseFunction)
            }
        }),
    ensures
        sp_params_rest(t, pos) == Err::<(Seq<Seq<char>>, int), ParseErrorModel>(e),
{
    reveal(sp_params_rest);
}

proof fn lemma_functions_end(t: Seq<TokenModel>, pos: int)
    requires
        pos >= t.len(),
    ensures
        sp_functions(t, pos) == Ok::<_, ParseErrorModel>((Seq::<FunctionModel>::empty(), pos)),
{
    reveal(sp_functions);
    reveal(sp_function);
}

proof fn lemma_functions_eof(t: Seq<TokenModel>, pos: int)
    requires
        0 <= pos < t.len(),
        t[pos] == TokenModel::EndOfFile,
    ensures
        sp_functions(t, pos) == Ok::<_, ParseErrorModel>(
            (Seq::<FunctionModel>::empty(), pos + 1),
        ),
{
    reveal(sp_functions);
    reveal(sp_function);
}

proof fn lemma_functions_step(t: Seq<TokenModel>, pos: int, fm: FunctionModel, p2: int)
    requires
        0 <= pos < t.len(),
        t[pos] != TokenModel::EndOfFile,
        sp_function(t, pos) == Ok::<_, ParseErrorModel>((fm, p2)),
        pos < p2 <= t.len(),
    ensures
        sp_functions(t, pos) == pres_cont(seq![fm], sp_functions(t, p2)),
{
    reveal(sp_functions);
    reveal(sp_function);
}

proof fn lemma_functions_err(t: Seq<TokenModel>, pos: int, e: ParseErrorModel)
    requires
        0 <= pos < t.len(),
        t[pos] != TokenModel::EndOfFile,
        sp_function(t, pos) == Err::<(FunctionModel, int), _>(e),
    ensures
        sp_functions(t, pos) == Err::<(Seq<FunctionModel>, int), ParseErrorModel>(e),
{
    reveal(sp_functions);
    reveal(sp_function);
}

proof fn lemma_program_ok(t: Seq<TokenModel>, fsm: Seq<FunctionModel>, p: int)
    requires
        sp_functions(t, 0) == Ok::<_, ParseErrorModel>((fsm, p)),
    ensures
        sp_program(t) == Ok::<_, ParseErrorModel>(ProgramModel { functions: fsm }),
{
    reveal(sp_program);
}

proof fn lemma_program_err(t: Seq<TokenModel>, e: ParseErrorModel)
    requires
        sp_functions(t, 0) == Err::<(Seq<FunctionModel>, int), _>(e),
    ensures
        sp_program(t) == Err::<ProgramModel, ParseErrorModel>(e),
{
    reveal(sp_program);
}


// ---------------------------------------------------------------
// The executable parser, proved to return exactly what the model
// says.
// ---------------------------------------------------------------

proof fn lemma_pres_cont_nil<X>(r: Result<(Seq<X>, int), ParseErrorModel>)
    ensures
        pres_cont(Seq::<X>::empty(), r) == r,
{
    match r {
        Ok((s, p)) => {
            assert(Seq::<X>::empty() + s =~= s);
        },
        Err(_) => {},
    }
}

proof fn lemma_pres_ok_empty<X>(front: Seq<X>, p: int)
    ensures
        pres_cont(front, Ok::<_, ParseErrorModel>((Seq::<X>::empty(), p))) == Ok::<
            (Seq<X>, int),
            ParseErrorModel,
        >((front, p)),
{
    assert(front + Seq::<X>::empty() =~= front);
}

proof fn lemma_pres_cont_assoc<X>(
    a: Seq<X>,
    b: Seq<X>,
    r: Result<(Seq<X>, int), ParseErrorModel>,
)
    ensures
        pres_cont(a, pres_cont(b, r)) == pres_cont(a + b, r),
{
    match r {
        Ok((s, p)) => {
            assert(a + (b + s) =~= (a + b) + s);
        },
        Err(_) => {},
    }
}

fn mul_op_of(tok: &Token) -> (r: Option<MultiplicativeOperator>)
    ensures
        r == spec_mul_op(tok@),
{
    match tok {
        Token::OperatorMultiplication => Some(MultiplicativeOperator::Multiplication),
        Token::OperatorDivision => Some(MultiplicativeOperator::Division),
        Token::OperatorModulo => Some(MultiplicativeOperator::Modulo),
        _ => None,
    }
}

fn add_op_of(tok: &Token) -> (r: Option<AdditiveOperator>)
    ensures
        r == spec_add_op(tok@),
{
    match tok {
        Token::OperatorAddtion => Some(AdditiveOperator::Addition),
        Token::OperatorMinus => Some(AdditiveOperator::Minus),
        _ => None,
    }
}

fn rel_op_of(tok: &Token) -> (r: Option<RelationalOperator>)
    ensures
        r == spec_rel_op(tok@),
{
    match tok {
        Token::OperatorLess => Some(RelationalOperator::Less),
        Token::OperatorLessOrEqual => Some(RelationalOperator::LessOrEqual),
        Token::OperatorGreater => Some(RelationalOperator::Greater),
        Token::OperatorGreaterOrEqual => Some(RelationalOperator::GreaterOrEqual),
        _ => None,
    }
}

fn eq_op_of(tok: &Token) -> (r: Option<EqualityOperator>)
    ensures
        r == spec_eq_op(tok@),
{
    match tok {
        Token::OperatorNotEqual => Some(EqualityOperator::NotEqual),
        Token::OperatorEqual => Some(EqualityOperator::Equal),
        _ => None,
    }
}

fn is_and_op(tok: &Token) -> (r: bool)
    ensures
        r == (tok@ == TokenModel::OperatorAnd),
{
    matches!(tok, Token::OperatorAnd)
}

fn is_or_op(tok: &Token) -> (r: bool)
    ensures
        r == (tok@ == TokenModel::OperatorOr),
{
    matches!(tok, Token::OperatorOr)
}

/// Links the outcome of an argument list to the outcome of the
/// whole call factor.
pub open spec fn funcall_link(
    t: Seq<TokenModel>,
    pos: int,
    sm: Seq<char>,
    r: Result<(Seq<ExpressionModel>, int), ParseErrorModel>,
) -> bool {
    match r {
        Ok((ams, p4)) => sp_factor(t, pos) == Ok::<_, ParseErrorModel>(
            (FactorModel::FunCall { id: sm, arguments: ams }, p4),
        ),
        Err(e) => sp_factor(t, pos) == Err::<(FactorModel, int), _>(e),
    }
}

#[verifier::rlimit(50)]
fn parse_term(tokens: &Vec<Token>, pos: usize) -> (r: Result<(Term, usize), ParseError>)
    requires
        pos <= tokens@.len(),
    ensures
        match r {
            Ok((x, p2)) => sp_term(tokens.deep_view(), pos as int) == Ok::<_, ParseErrorModel>(
                (term_model(x), p2 as int),
            ) && pos < p2 <= tokens@.len(),
            Err(e) => sp_term(tokens.deep_view(), pos as int) == Err::<
                (TermModel, int),
                _,
            >(parse_error_model(e)),
        },
    decreases tokens@.len() - pos, 2int,
{
    let ghost t = tokens.deep_view();
    proof {
        reveal(term_model);
        reveal(factor_model);
        reveal(factor_list_model);
    }
    let (first, p1) = match parse_factor(tokens, pos) {
        Ok(x) => x,
        Err(e) => {
            proof {
                lemma_term_err_first(t, pos as int, parse_error_model(e));
            }
            return Err(e);
        },
    };
    let ghost fm0 = factor_model(first);
    let mut rest: Vec<(MultiplicativeOperator, Factor)> = Vec::new();
    let mut cur: usize = p1;
    let ghost start = p1 as int;
    proof {
        lemma_pres_cont_nil(sp_term_rest(t, start));
        lemma_factor_list_model(rest@, 0);
        assert(factor_list_model(rest@, 0) =~= Seq::<(MultiplicativeOperator, FactorModel)>::empty());
    }
    loop
        invariant
            t == tokens.deep_view(),
            (pos as int) < start,
            start <= cur as int <= t.len(),
            sp_factor(t, pos as int) == Ok::<_, ParseErrorModel>((fm0, start)),
            pres_cont(factor_list_model(rest@, 0), sp_term_rest(t, cur as int)) == sp_term_rest(t, start),
        ensures
            t == tokens.deep_view(),
            cur <= tokens@.len(),
            start <= cur as int,
            (pos as int) < start,
            sp_factor(t, pos as int) == Ok::<_, ParseErrorModel>((fm0, start)),
            sp_term_rest(t, start) == Ok::<_, ParseErrorModel>(
                (factor_list_model(rest@, 0), cur as int),
            ),
        decreases tokens@.len() - cur,
    {
        if cur >= tokens.len() {
            proof {
                lemma_term_rest_end(t, cur as int);
                lemma_pres_ok_empty(factor_list_model(rest@, 0), cur as int);
            }
            break;
        }
        let op = match mul_op_of(&tokens[cur]) {
            Some(op) => op,
            None => {
                proof {
                    lemma_term_rest_end(t, cur as int);
                    lemma_pres_ok_empty(factor_list_model(rest@, 0), cur as int);
                }
                break;
            },
        };
        let ghost cur0 = cur as int;
        match parse_factor(tokens, cur + 1) {
            Ok((f2, p2)) => {
                let ghost fm = factor_model(f2);
                let ghost rest0 = rest@;
                rest.push((op, f2));
                cur = p2;
                proof {
                    lemma_term_rest_step(t, cur0, op, fm, cur as int);
                    lemma_factor_list_model(rest0, 0);
                    lemma_factor_list_model(rest@, 0);
                    assert(factor_list_model(rest@, 0) =~= factor_list_model(rest0, 0) + seq![(op, fm)]);
                    lemma_pres_cont_assoc(
                        factor_list_model(rest0, 0),
                        seq![(op, fm)],
                        sp_term_rest(t, cur as int),
                    );
                }
            },
            Err(e) => {
                proof {
                    lemma_term_rest_err(t, cur0, parse_error_model(e));
                    lemma_term_err_rest(t, pos as int, fm0, start, parse_error_model(e));
                }
                return Err(e);
            },
        }
    }
    let res = Term { m_first_factor: Box::new(first), m_rest: rest };
    proof {
        lemma_term_ok(t, pos as int, fm0, start, factor_list_model(res.m_rest@, 0), cur as int);
    }
    Ok((res, cur))
}

#[verifier::rlimit(50)]
fn parse_additive_expression(tokens: &Vec<Token>, pos: usize) -> (r: Result<(AdditiveExpression, usize), ParseError>)
    requires
        pos <= tokens@.len(),
    ensures
        match r {
            Ok((x, p2)) => sp_additive(tokens.deep_view(), pos as int) == Ok::<_, ParseErrorModel>(
                (additive_model(x), p2 as int),
            ) && pos < p2 <= tokens@.len(),
            Err(e) => sp_additive(tokens.deep_view(), pos as int) == Err::<
                (AdditiveModel, int),
                _,
            >(parse_error_model(e)),
        },
    decreases tokens@.len() - pos, 3int,
{
    let ghost t = tokens.deep_view();
    proof {
        reveal(additive_model);
        reveal(term_model);
        reveal(term_list_model);
    }
    let (first, p1) = match parse_term(tokens, pos) {
        Ok(x) => x,
        Err(e) => {
            proof {
                lemma_additive_err_first(t, pos as int, parse_error_model(e));
            }
            return Err(e);
        },
    };
    let ghost fm0 = term_model(first);
    let mut rest: Vec<(AdditiveOperator, Term)> = Vec::new();
    let mut cur: usize = p1;
    let ghost start = p1 as int;
    proof {
        lemma_pres_cont_nil(sp_additive_rest(t, start));
        lemma_term_list_model(rest@, 0);
        assert(term_list_model(rest@, 0) =~= Seq::<(AdditiveOperator, TermModel)>::empty());
    }
    loop
        invariant
            t == tokens.deep_view(),
            (pos as int) < start,
            start <= cur as int <= t.len(),
            sp_term(t, pos as int) == Ok::<_, ParseErrorModel>((fm0, start)),
            pres_cont(term_list_model(rest@, 0), sp_additive_rest(t, cur as int)) == sp_additive_rest(t, start),
        ensures
            t == tokens.deep_view(),
            cur <= tokens@.len(),
            start <= cur as int,
            (pos as int) < start,
            sp_term(t, pos as int) == Ok::<_, ParseErrorModel>((fm0, start)),
            sp_additive_rest(t, start) == Ok::<_, ParseErrorModel>(
                (term_list_model(rest@, 0), cur as int),
            ),
        decreases tokens@.len() - cur,
    {
        if cur >= tokens.len() {
            proof {
                lemma_additive_rest_end(t, cur as int);
                lemma_pres_ok_empty(term_list_model(rest@, 0), cur as int);
            }
            break;
        }
        let op = match add_op_of(&tokens[cur]) {
            Some(op) => op,
            None => {
                proof {
                    lemma_additive_rest_end(t, cur as int);
                    lemma_pres_ok_empty(term_list_model(rest@, 0), cur as int);
                }
                break;
            },
        };
        let ghost cur0 = cur as int;
        match parse_term(tokens, cur + 1) {
            Ok((f2, p2)) => {
                let ghost fm = term_model(f2);
                let ghost rest0 = rest@;
                rest.push((op, f2));
                cur = p2;
                proof {
                    lemma_additive_rest_step(t, cur0, op, fm, cur as int);
                    lemma_term_list_model(rest0, 0);
                    lemma_term_list_model(rest@, 0);
                    assert(term_list_model(rest@, 0) =~= term_list_model(rest0, 0) + seq![(op, fm)]);
                    lemma_pres_cont_assoc(
                        term_list_model(rest0, 0),
                        seq![(op, fm)],
                        sp_additive_rest(t, cur as int),
                    );
                }
            },
            Err(e) => {
                proof {
                    lemma_additive_rest_err(t, cur0, parse_error_model(e));
                    lemma_additive_err_rest(t, pos as int, fm0, start, parse_error_model(e));
                }
                return Err(e);
            },
        }
    }
    let res = AdditiveExpression { m_first_term: Box::new(first), m_rest: rest };
    proof {
        lemma_additive_ok(t, pos as int, fm0, start, term_list_model(res.m_rest@, 0), cur as int);
    }
    Ok((res, cur))
}

#[verifier::rlimit(50)]
fn parse_relational_expression(tokens: &Vec<Token>, pos: usize) -> (r: Result<(RelationalExpression, usize), ParseError>)
    requires
        pos <= tokens@.len(),
    ensures
        match r {
            Ok((x, p2)) => sp_relational(tokens.deep_view(), pos as int) == Ok::<_, ParseErrorModel>(
                (relational_model(x), p2 as int),
            ) && pos < p2 <= tokens@.len(),
            Err(e) => sp_relational(tokens.deep_view(), pos as int) == Err::<
                (RelationalModel, int),
                _,
            >(parse_error_model(e)),
        },
    decreases tokens@.len() - pos, 4int,
{
    let ghost t = tokens.deep_view();
    proof {
        reveal(relational_model);
        reveal(additive_model);
        reveal(additive_list_model);
    }
    let (first, p1) = match parse_additive_expression(tokens, pos) {
        Ok(x) => x,
        Err(e) => {
            proof {
                lemma_relational_err_first(t, pos as int, parse_error_model(e));
            }
            return Err(e);
        },
    };
    let ghost fm0 = additive_model(first);
    let mut rest: Vec<(RelationalOperator, AdditiveExpression)> = Vec::new();
    let mut cur: usize = p1;
    let ghost start = p1 as int;
    proof {
        lemma_pres_cont_nil(sp_relational_rest(t, start));
        lemma_additive_list_model(rest@, 0);
        assert(additive_list_model(rest@, 0) =~= Seq::<(RelationalOperator, AdditiveModel)>::empty());
    }
    loop
        invariant
            t == tokens.deep_view(),
            (pos as int) < start,
            start <= cur as int <= t.len(),
            sp_additive(t, pos as int) == Ok::<_, ParseErrorModel>((fm0, start)),
            pres_cont(additive_list_model(rest@, 0), sp_relational_rest(t, cur as int)) == sp_relational_rest(t, start),
        ensures
            t == tokens.deep_view(),
            cur <= tokens@.len(),
            start <= cur as int,
            (pos as int) < start,
            sp_additive(t, pos as int) == Ok::<_, ParseErrorModel>((fm0, start)),
            sp_relational_rest(t, start) == Ok::<_, ParseErrorModel>(
                (additive_list_model(rest@, 0), cur as int),
            ),
        decreases tokens@.len() - cur,
    {
        if cur >= tokens.len() {
            proof {
                lemma_relational_rest_end(t, cur as int);
                lemma_pres_ok_empty(additive_list_model(rest@, 0), cur as int);
            }
            break;
        }
        let op = match rel_op_of(&tokens[cur]) {
            Some(op) => op,
            None => {
                proof {
                    lemma_relational_rest_end(t, cur as int);
                    lemma_pres_ok_empty(additive_list_model(rest@, 0), cur as int);
                }
                break;
            },
        };
        let ghost cur0 = cur as int;
        match parse_additive_expression(tokens, cur + 1) {
            Ok((f2, p2)) => {
                let ghost fm = additive_model(f2);
                let ghost rest0 = rest@;
                rest.push((op, f2));
                cur = p2;
                proof {
                    lemma_relational_rest_step(t, cur0, op, fm, cur as int);
                    lemma_additive_list_model(rest0, 0);
                    lemma_additive_list_model(rest@, 0);
                    assert(additive_list_model(rest@, 0) =~= additive_list_model(rest0, 0) + seq![(op, fm)]);
                    lemma_pres_cont_assoc(
                        additive_list_model(rest0, 0),
                        seq![(op, fm)],
                        sp_relational_rest(t, cur as int),
                    );
                }
            },
            Err(e) => {
                proof {
                    lemma_relational_rest_err(t, cur0, parse_error_model(e));
                    lemma_relational_err_rest(t, pos as int, fm0, start, parse_error_model(e));
                }
                return Err(e);
            },
        }
    }
    let res = RelationalExpression { m_first: Box::new(first), m_rest: rest };
    proof {
        lemma_relational_ok(t, pos as int, fm0, start, additive_list_model(res.m_rest@, 0), cur as int);
    }
    Ok((res, cur))
}

#[verifier::rlimit(50)]
fn parse_equality_expression(tokens: &Vec<Token>, pos: usize) -> (r: Result<(EqualityExpression, usize), ParseError>)
    requires
        pos <= tokens@.len(),
    ensures
        match r {
            Ok((x, p2)) => sp_equality(tokens.deep_view(), pos as int) == Ok::<_, ParseErrorModel>(
                (equality_model(x), p2 as int),
            ) && pos < p2 <= tokens@.len(),
            Err(e) => sp_equality(tokens.deep_view(), pos as int) == Err::<
                (EqualityModel, int),
                _,
            >(parse_error_model(e)),
        },
    decreases tokens@.len() - pos, 5int,
{
    let ghost t = tokens.deep_view();
    proof {
        reveal(equality_model);
        reveal(relational_model);
        reveal(relational_list_model);
    }
    let (first, p1) = match parse_relational_expression(tokens, pos) {
        Ok(x) => x,
        Err(e) => {
            proof {
                lemma_equality_err_first(t, pos as int, parse_error_model(e));
            }
            return Err(e);
        },
    };
    let ghost fm0 = relational_model(first);
    let mut rest: Vec<(EqualityOperator, RelationalExpression)> = Vec::new();
    let mut cur: usize = p1;
    let ghost start = p1 as int;
    proof {
        lemma_pres_cont_nil(sp_equality_rest(t, start));
        lemma_relational_list_model(rest@, 0);
        assert(relational_list_model(rest@, 0) =~= Seq::<(EqualityOperator, RelationalModel)>::empty());
    }
    loop
        invariant
            t == tokens.deep_view(),
            (pos as int) < start,
            start <= cur as int <= t.len(),
            sp_relational(t, pos as int) == Ok::<_, ParseErrorModel>((fm0, start)),
            pres_cont(relational_list_model(rest@, 0), sp_equality_rest(t, cur as int)) == sp_equality_rest(t, start),
        ensures
            t == tokens.deep_view(),
            cur <= tokens@.len(),
            start <= cur as int,
            (pos as int) < start,
            sp_relational(t, pos as int) == Ok::<_, ParseErrorModel>((fm0, start)),
            sp_equality_rest(t, start) == Ok::<_, ParseErrorModel>(
                (relational_list_model(rest@, 0), cur as int),
            ),
        decreases tokens@.len() - cur,
    {
        if cur >= tokens.len() {
            proof {
                lemma_equality_rest_end(t, cur as int);
                lemma_pres_ok_empty(relational_list_model(rest@, 0), cur as int);
            }
            break;
        }
        let op = match eq_op_of(&tokens[cur]) {
            Some(op) => op,
            None => {
                proof {
                    lemma_equality_rest_end(t, cur as int);
                    lemma_pres_ok_empty(relational_list_model(rest@, 0), cur as int);
                }
                break;
            },
        };
        let ghost cur0 = cur as int;
        match parse_relational_expression(tokens, cur + 1) {
            Ok((f2, p2)) => {
                let ghost fm = relational_model(f2);
                let ghost rest0 = rest@;
                rest.push((op, f2));
                cur = p2;
                proof {
                    lemma_equality_rest_step(t, cur0, op, fm, cur as int);
                    lemma_relational_list_model(rest0, 0);
                    lemma_relational_list_model(rest@, 0);
                    assert(relational_list_model(rest@, 0) =~= relational_list_model(rest0, 0) + seq![(op, fm)]);
                    lemma_pres_cont_assoc(
                        relational_list_model(rest0, 0),
                        seq![(op, fm)],
                        sp_equality_rest(t, cur as int),
                    );
                }
            },
            Err(e) => {
                proof {
                    lemma_equality_rest_err(t, cur0, parse_error_model(e));
                    lemma_equality_err_rest(t, pos as int, fm0, start, parse_error_model(e));
                }
                return Err(e);
            },
        }
    }
    let res = EqualityExpression { m_first: Box::new(first), m_rest: rest };
    proof {
        lemma_equality_ok(t, pos as int, fm0, start, relational_list_model(res.m_rest@, 0), cur as int);
    }
    Ok((res, cur))
}

#[verifier::rlimit(50)]
fn parse_logical_and_expression(tokens: &Vec<Token>, pos: usize) -> (r: Result<(LogicalAndExpression, usize), ParseError>)
    requires
        pos <= tokens@.len(),
    ensures
        match r {
            Ok((x, p2)) => sp_and(tokens.deep_view(), pos as int) == Ok::<_, ParseErrorModel>(
                (and_model(x), p2 as int),
            ) && pos < p2 <= tokens@.len(),
            Err(e) => sp_and(tokens.deep_view(), pos as int) == Err::<
                (AndModel, int),
                _,
            >(parse_error_model(e)),
        },
    decreases tokens@.len() - pos, 6int,
{
    let ghost t = tokens.deep_view();
    proof {
        reveal(and_model);
        reveal(equality_model);
        reveal(equality_list_model);
    }
    let (first, p1) = match parse_equality_expression(tokens, pos) {
        Ok(x) => x,
        Err(e) => {
            proof {
                lemma_and_err_first(t, pos as int, parse_error_model(e));
            }
            return Err(e);
        },
    };
    let ghost fm0 = equality_model(first);
    let mut rest: Vec<EqualityExpression> = Vec::new();
    let mut cur: usize = p1;
    let ghost start = p1 as int;
    proof {
        lemma_pres_cont_nil(sp_and_rest(t, start));
        lemma_equality_list_model(rest@, 0);
        assert(equality_list_model(rest@, 0) =~= Seq::<EqualityModel>::empty());
    }
    loop
        invariant
            t == tokens.deep_view(),
            (pos as int) < start,
            start <= cur as int <= t.len(),
            sp_equality(t, pos as int) == Ok::<_, ParseErrorModel>((fm0, start)),
            pres_cont(equality_list_model(rest@, 0), sp_and_rest(t, cur as int)) == sp_and_rest(t, start),
        ensures
            t == tokens.deep_view(),
            cur <= tokens@.len(),
            start <= cur as int,
            (pos as int) < start,
            sp_equality(t, pos as int) == Ok::<_, ParseErrorModel>((fm0, start)),
            sp_and_rest(t, start) == Ok::<_, ParseErrorModel>(
                (equality_list_model(rest@, 0), cur as int),
            ),
        decreases tokens@.len() - cur,
    {
        if cur >= tokens.len() {
            proof {
                lemma_and_rest_end(t, cur as int);
                lemma_pres_ok_empty(equality_list_model(rest@, 0), cur as int);
            }
            break;
        }
        let is_op = is_and_op(&tokens[cur]);
        if !is_op {
            proof {
                lemma_and_rest_end(t, cur as int);
                lemma_pres_ok_empty(equality_list_model(rest@, 0), cur as int);
            }
            break;
        }
        let ghost cur0 = cur as int;
        match parse_equality_expression(tokens, cur + 1) {
            Ok((f2, p2)) => {
                let ghost fm = equality_model(f2);
                let ghost rest0 = rest@;
                rest.push(f2);
                cur = p2;
                proof {
                    lemma_and_rest_step(t, cur0, fm, cur as int);
                    lemma_equality_list_model(rest0, 0);
                    lemma_equality_list_model(rest@, 0);
                    assert(equality_list_model(rest@, 0) =~= equality_list_model(rest0, 0) + seq![fm]);
                    lemma_pres_cont_assoc(
                        equality_list_model(rest0, 0),
                        seq![fm],
                        sp_and_rest(t, cur as int),
                    );
                }
            },
            Err(e) => {
                proof {
                    lemma_and_rest_err(t, cur0, parse_error_model(e));
                    lemma_and_err_rest(t, pos as int, fm0, start, parse_error_model(e));
                }
                return Err(e);
            },
        }
    }
    let res = LogicalAndExpression { m_first: Box::new(first), m_rest: rest };
    proof {
        lemma_and_ok(t, pos as int, fm0, start, equality_list_model(res.m_rest@, 0), cur as int);
    }
    Ok((res, cur))
}

#[verifier::rlimit(50)]
fn parse_logical_or_expression(tokens: &Vec<Token>, pos: usize) -> (r: Result<(LogicalOrExpresson, usize), ParseError>)
    requires
        pos <= tokens@.len(),
    ensures
        match r {
            Ok((x, p2)) => sp_or(tokens.deep_view(), pos as int) == Ok::<_, ParseErrorModel>(
                (or_model(x), p2 as int),
            ) && pos < p2 <= tokens@.len(),
            Err(e) => sp_or(tokens.deep_view(), pos as int) == Err::<
                (OrModel, int),
                _,
            >(parse_error_model(e)),
        },
    decreases tokens@.len() - pos, 7int,
{
    let ghost t = tokens.deep_view();
    proof {
        reveal(or_model);
        reveal(and_model);
        reveal(and_list_model);
    }
    let (first, p1) = match parse_logical_and_expression(tokens, pos) {
        Ok(x) => x,
        Err(e) => {
            proof {
                lemma_or_err_first(t, pos as int, parse_error_model(e));
            }
            return Err(e);
        },
    };
    let ghost fm0 = and_model(first);
    let mut rest: Vec<LogicalAndExpression> = Vec::new();
    let mut cur: usize = p1;
    let ghost start = p1 as int;
    proof {
        lemma_pres_cont_nil(sp_or_rest(t, start));
        lemma_and_list_model(rest@, 0);
        assert(and_list_model(rest@, 0) =~= Seq::<AndModel>::empty());
    }
    loop
        invariant
            t == tokens.deep_view(),
            (pos as int) < start,
            start <= cur as int <= t.len(),
            sp_and(t, pos as int) == Ok::<_, ParseErrorModel>((fm0, start)),
            pres_cont(and_list_model(rest@, 0), sp_or_rest(t, cur as int)) == sp_or_rest(t, start),
        ensures
            t == tokens.deep_view(),
            cur <= tokens@.len(),
            start <= cur as int,
            (pos as int) < start,
            sp_and(t, pos as int) == Ok::<_, ParseErrorModel>((fm0, start)),
            sp_or_rest(t, start) == Ok::<_, ParseErrorModel>(
                (and_list_model(rest@, 0), cur as int),
            ),
        decreases tokens@.len() - cur,
    {
        if cur >= tokens.len() {
            proof {
                lemma_or_rest_end(t, cur as int);
                lemma_pres_ok_empty(and_list_model(rest@, 0), cur as int);
            }
            break;
        }
        let is_op = is_or_op(&tokens[cur]);
        if !is_op {
            proof {
                lemma_or_rest_end(t, cur as int);
                lemma_pres_ok_empty(and_list_model(rest@, 0), cur as int);
            }
            break;
        }
        let ghost cur0 = cur as int;
        match parse_logical_and_expression(tokens, cur + 1) {
            Ok((f2, p2)) => {
                let ghost fm = and_model(f2);
                let ghost rest0 = rest@;
                rest.push(f2);
                cur = p2;
                proof {
                    lemma_or_rest_step(t, cur0, fm, cur as int);
                    lemma_and_list_model(rest0, 0);
                    lemma_and_list_model(rest@, 0);
                    assert(and_list_model(rest@, 0) =~= and_list_model(rest0, 0) + seq![fm]);
                    lemma_pres_cont_assoc(
                        and_list_model(rest0, 0),
                        seq![fm],
                        sp_or_rest(t, cur as int),
                    );
                }
            },
            Err(e) => {
                proof {
                    lemma_or_rest_err(t, cur0, parse_error_model(e));
                    lemma_or_err_rest(t, pos as int, fm0, start, parse_error_model(e));
                }
                return Err(e);
            },
        }
    }
    let res = LogicalOrExpresson { m_first: Box::new(first), m_rest: rest };
    proof {
        lemma_or_ok(t, pos as int, fm0, start, and_list_model(res.m_rest@, 0), cur as int);
    }
    Ok((res, cur))
}


/// The expression the parser substitutes for an absent `for`
/// condition: the literal `1`.
fn const_one_expression() -> (r: Expression)
    ensures
        expression_model(r) == const_one_model(),
{
    let f = Factor::Constant { m_value: 1 };
    let tm = Term { m_first_factor: Box::new(f), m_rest: Vec::new() };
    let ad = AdditiveExpression { m_first_term: Box::new(tm), m_rest: Vec::new() };
    let rl = RelationalExpression { m_first: Box::new(ad), m_rest: Vec::new() };
    let eq = EqualityExpression { m_first: Box::new(rl), m_rest: Vec::new() };
    let an = LogicalAndExpression { m_first: Box::new(eq), m_rest: Vec::new() };
    let or = LogicalOrExpresson { m_first: Box::new(an), m_rest: Vec::new() };
    let r = Expression::Operation(
        ConditionalExpression { m_condition: or, m_true: None, m_false: None },
    );
    proof {
        reveal(factor_model);
        reveal(term_model);
        reveal(factor_list_model);
        reveal(additive_model);
        reveal(term_list_model);
        reveal(relational_model);
        reveal(additive_list_model);
        reveal(equality_model);
        reveal(relational_list_model);
        reveal(and_model);
        reveal(equality_list_model);
        reveal(or_model);
        reveal(and_list_model);
        reveal(conditional_model);
        reveal(expression_model);
        reveal(expressions_model);
        assert(expression_model(r) =~= ExpressionModel::Operation(
            conditional_model(r->Operation_0),
        ));
        assert(conditional_model(r->Operation_0) =~= ConditionalModel {
            cond: or_model(r->Operation_0.m_condition),
            yes: None,
            no: None,
        });
        assert(or_model(r->Operation_0.m_condition) =~= OrModel {
            first: Box::new(and_model(*r->Operation_0.m_condition.m_first)),
            rest: Seq::empty(),
        });
        assert(and_model(*r->Operation_0.m_condition.m_first) =~= AndModel {
            first: Box::new(equality_model(*r->Operation_0.m_condition.m_first.m_first)),
            rest: Seq::empty(),
        });
        assert(equality_model(*r->Operation_0.m_condition.m_first.m_first) =~= EqualityModel {
            first: Box::new(
                relational_model(*r->Operation_0.m_condition.m_first.m_first.m_first),
            ),
            rest: Seq::empty(),
        });
        assert(relational_model(*r->Operation_0.m_condition.m_first.m_first.m_first)
            =~= RelationalModel {
            first: Box::new(
                additive_model(*r->Operation_0.m_condition.m_first.m_first.m_first.m_first),
            ),
            rest: Seq::empty(),
        });
        assert(additive_model(*r->Operation_0.m_condition.m_first.m_first.m_first.m_first)
            =~= AdditiveModel {
            first: Box::new(
                term_model(
                    *r->Operation_0.m_condition.m_first.m_first.m_first.m_first.m_first_term,
                ),
            ),
            rest: Seq::empty(),
        });
        assert(term_model(
            *r->Operation_0.m_condition.m_first.m_first.m_first.m_first.m_first_term,
        ) =~= TermModel { first: Box::new(FactorModel::Constant { value: 1 }), rest: Seq::empty() });
        assert(expression_model(r) =~= const_one_model());
    }
    r
}

#[verifier::rlimit(100)]
#[verifier::spinoff_prover]
fn parse_factor(tokens: &Vec<Token>, pos: usize) -> (r: Result<(Factor, usize), ParseError>)
    requires
        pos <= tokens@.len(),
    ensures
        match r {
            Ok((x, p2)) => sp_factor(tokens.deep_view(), pos as int) == Ok::<_, ParseErrorModel>(
                (factor_model(x), p2 as int),
            ) && pos < p2 <= tokens@.len(),
            Err(e) => sp_factor(tokens.deep_view(), pos as int) == Err::<
                (FactorModel, int),
                _,
            >(parse_error_model(e)),
        },
    decreases tokens@.len() - pos, 1int,
{
    let ghost t = tokens.deep_view();
    proof {
        reveal(sp_factor);
        reveal(sp_args_rest);
        reveal(sp_expression);
        reveal(factor_model);
        reveal(expression_model);
        reveal(expressions_model);
    }
    if pos >= tokens.len() {
        return Err(ParseError::ExpectedToken);
    }
    match &tokens[pos] {
        Token::Identifier(s) => {
            if pos + 1 >= tokens.len() {
                return Err(ParseError::ExpectedToken);
            }
            match &tokens[pos + 1] {
                Token::OpenParen => {
                    if pos + 2 >= tokens.len() {
                        return Err(ParseError::ExpectedToken);
                    }
                    let mut args: Vec<Expression> = Vec::new();
                    let mut cur: usize = pos + 2;
                    let is_close = matches!(&tokens[pos + 2], Token::CloseParen);
                    if !is_close {
                        match parse_expression(tokens, pos + 2) {
                            Ok((a, p3)) => {
                                args.push(a);
                                cur = p3;
                            },
                            Err(e) => {
                                return Err(e);
                            },
                        }
                    }
                    let ghost start = cur as int;
                    let ghost models0 = expressions_model(args@, 0);
                    let ghost sm = s@;
                    proof {
                        lemma_pres_cont_nil(sp_args_rest(t, start));
                        lemma_expressions_model(args@, 0);
                        if !is_close {
                            assert(expressions_model(args@, 0) =~= seq![
                                expression_model(args@[0]),
                            ]);
                        } else {
                            assert(expressions_model(args@, 0)
                                =~= Seq::<ExpressionModel>::empty());
                        }
                        assert(funcall_link(t, pos as int, sm, pres_cont(models0, sp_args_rest(t, start))));
                    }
                    loop
                        invariant_except_break
                            pres_cont(expressions_model(args@, 0), sp_args_rest(t, cur as int))
                                == pres_cont(models0, sp_args_rest(t, start)),
                        invariant
                            t == tokens.deep_view(),
                            (pos as int) < start,
                            start <= cur as int <= t.len(),
                            funcall_link(t, pos as int, sm, pres_cont(models0, sp_args_rest(t, start))),
                        ensures
                            t == tokens.deep_view(),
                            cur <= tokens@.len(),
                            (pos as int) < cur as int,
                            funcall_link(t, pos as int, sm, pres_cont(models0, sp_args_rest(t, start))),
                            pres_cont(models0, sp_args_rest(t, start)) == Ok::<
                                _,
                                ParseErrorModel,
                            >((expressions_model(args@, 0), cur as int)),
                        decreases tokens@.len() - cur,
                    {
                        if cur >= tokens.len() {
                            proof {
                                lemma_args_rest_end(t, cur as int);
                                lemma_pres_ok_empty(expressions_model(args@, 0), cur as int);
                            }
                            break;
                        }
                        match &tokens[cur] {
                            Token::CloseParen => {
                                let ghost cur0 = cur as int;
                                cur = cur + 1;
                                proof {
                                    lemma_args_rest_close(t, cur0);
                                    lemma_pres_ok_empty(expressions_model(args@, 0), cur as int);
                                }
                                break;
                            },
                            Token::Comma => {
                                let ghost cur0 = cur as int;
                                match parse_expression(tokens, cur + 1) {
                                    Ok((a, p2)) => {
                                        let ghost am = expression_model(a);
                                        let ghost rest0 = args@;
                                        args.push(a);
                                        cur = p2;
                                        proof {
                                            lemma_args_rest_step(t, cur0, am, cur as int);
                                            lemma_expressions_model(rest0, 0);
                                            lemma_expressions_model(args@, 0);
                                            assert(expressions_model(args@, 0)
                                                =~= expressions_model(rest0, 0) + seq![am]);
                                            lemma_pres_cont_assoc(
                                                expressions_model(rest0, 0),
                                                seq![am],
                                                sp_args_rest(t, cur as int),
                                            );
                                        }
                                    },
                                    Err(e) => {
                                        proof {
                                            lemma_args_rest_err(t, cur0, parse_error_model(e));
                                        }
                                        return Err(e);
                                    },
                                }
                            },
                            _ => {
                                proof {
                                    lemma_args_rest_unexpected(t, cur as int);
                                }
                                return Err(
                                    ParseError::UnexpectedToken(
                                        clone_token(&tokens[cur]),
                                        InFunction::ParseFactor,
                                    ),
                                );
                            },
                        }
                    }
                    let f = Factor::FunCall { m_id: s.clone(), m_arguments: args };
                    Ok((f, cur))
                },
                _ => Ok((Factor::Variable { m_var: s.clone() }, pos + 1)),
            }
        },
        Token::OpenParen => {
            match parse_expression(tokens, pos + 1) {
                Ok((e, p2)) => {
                    if p2 >= tokens.len() {
                        return Err(ParseError::ExpectedToken);
                    }
                    match &tokens[p2] {
                        Token::CloseParen => Ok((Factor::Braced { m_expression: e }, p2 + 1)),
                        _ => Err(
                            ParseError::UnexpectedToken(
                                clone_token(&tokens[p2]),
                                InFunction::ParseFactor,
                            ),
                        ),
                    }
                },
                Err(e) => Err(e),
            }
        },
        Token::OperatorNegation => {
            match parse_factor(tokens, pos + 1) {
                Ok((f, p2)) => Ok(
                    (
                        Factor::UnaryOperation {
                            m_opertator: UnaryOperator::Negation,
                            m_factor: Box::new(f),
                        },
                        p2,
                    ),
                ),
                Err(e) => Err(e),
            }
        },
        Token::OperatorComplement => {
            match parse_factor(tokens, pos + 1) {
                Ok((f, p2)) => Ok(
                    (
                        Factor::UnaryOperation {
                            m_opertator: UnaryOperator::Complement,
                            m_factor: Box::new(f),
                        },
                        p2,
                    ),
                ),
                Err(e) => Err(e),
            }
        },
        Token::OperatorMinus => {
            match parse_factor(tokens, pos + 1) {
                Ok((f, p2)) => Ok(
                    (
                        Factor::UnaryOperation {
                            m_opertator: UnaryOperator::Minus,
                            m_factor: Box::new(f),
                        },
                        p2,
                    ),
                ),
                Err(e) => Err(e),
            }
        },
        Token::IntLiteral(v) => Ok((Factor::Constant { m_value: *v }, pos + 1)),
        _ => Err(ParseError::UnexpectedToken(clone_token(&tokens[pos]), InFunction::ParseFactor)),
    }
}

#[verifier::rlimit(100)]
#[verifier::spinoff_prover]
fn parse_conditional_expression(tokens: &Vec<Token>, pos: usize) -> (r: Result<
    (ConditionalExpression, usize),
    ParseError,
>)
    requires
        pos <= tokens@.len(),
    ensures
        match r {
            Ok((x, p2)) => sp_conditional(tokens.deep_view(), pos as int) == Ok::<
                _,
                ParseErrorModel,
            >((conditional_model(x), p2 as int)) && pos < p2 <= tokens@.len(),
            Err(e) => sp_conditional(tokens.deep_view(), pos as int) == Err::<
                (ConditionalModel, int),
                _,
            >(parse_error_model(e)),
        },
    decreases tokens@.len() - pos, 8int,
{
    let ghost t = tokens.deep_view();
    proof {
        reveal(sp_conditional);
        reveal(sp_or);
        reveal(sp_expression);
        reveal(conditional_model);
        reveal(or_model);
        reveal(expression_model);
    }
    let (o, p1) = match parse_logical_or_expression(tokens, pos) {
        Ok(x) => x,
        Err(e) => {
            return Err(e);
        },
    };
    if p1 >= tokens.len() {
        return Err(ParseError::ExpectedToken);
    }
    match &tokens[p1] {
        Token::QuestionMark => {
            let (yes, p2) = match parse_expression(tokens, p1 + 1) {
                Ok(x) => x,
                Err(e) => {
                    return Err(e);
                },
            };
            if p2 >= tokens.len() {
                return Err(ParseError::ExpectedToken);
            }
            match &tokens[p2] {
                Token::Colon => {
                    let (no, p3) = match parse_conditional_expression(tokens, p2 + 1) {
                        Ok(x) => x,
                        Err(e) => {
                            return Err(e);
                        },
                    };
                    Ok(
                        (
                            ConditionalExpression {
                                m_condition: o,
                                m_true: Some(Box::new(yes)),
                                m_false: Some(Box::new(no)),
                            },
                            p3,
                        ),
                    )
                },
                _ => Err(
                    ParseError::UnexpectedToken(
                        clone_token(&tokens[p2]),
                        InFunction::ParseConditionalExpression,
                    ),
                ),
            }
        },
        _ => Ok((ConditionalExpression { m_condition: o, m_true: None, m_false: None }, p1)),
    }
}

#[verifier::rlimit(100)]
#[verifier::spinoff_prover]
fn parse_expression(tokens: &Vec<Token>, pos: usize) -> (r: Result<(Expression, usize), ParseError>)
    requires
        pos <= tokens@.len(),
    ensures
        match r {
            Ok((x, p2)) => sp_expression(tokens.deep_view(), pos as int) == Ok::<
                _,
                ParseErrorModel,
            >((expression_model(x), p2 as int)) && pos < p2 <= tokens@.len(),
            Err(e) => sp_expression(tokens.deep_view(), pos as int) == Err::<
                (ExpressionModel, int),
                _,
            >(parse_error_model(e)),
        },
    decreases tokens@.len() - pos, 9int,
{
    let ghost t = tokens.deep_view();
    proof {
        reveal(sp_expression);
        reveal(sp_conditional);
        reveal(expression_model);
        reveal(conditional_model);
    }
    if pos >= tokens.len() {
        return Err(ParseError::ExpectedToken);
    }
    let is_ident = matches!(&tokens[pos], Token::Identifier(_));
    if is_ident {
        if pos + 1 >= tokens.len() {
            return Err(ParseError::ExpectedToken);
        }
        let is_assign = matches!(&tokens[pos + 1], Token::OperatorAssign);
        if is_assign {
            let name = match &tokens[pos] {
                Token::Identifier(s) => s.clone(),
                _ => {
                    return Err(ParseError::ExpectedToken);
                },
            };
            match parse_expression(tokens, pos + 2) {
                Ok((v, p2)) => {
                    return Ok(
                        (Expression::Assignment { m_name: name, m_value: Box::new(v) }, p2),
                    );
                },
                Err(e) => {
                    return Err(e);
                },
            }
        }
    }
    match parse_conditional_expression(tokens, pos) {
        Ok((c, p2)) => Ok((Expression::Operation(c), p2)),
        Err(e) => Err(e),
    }
}

#[verifier::rlimit(100)]
#[verifier::spinoff_prover]
fn parse_declaration(tokens: &Vec<Token>, pos: usize) -> (r: Result<(Declaration, usize), ParseError>)
    requires
        pos <= tokens@.len(),
    ensures
        match r {
            Ok((x, p2)) => sp_declaration(tokens.deep_view(), pos as int) == Ok::<
                _,
                ParseErrorModel,
            >((declaration_model(x), p2 as int)) && pos < p2 <= tokens@.len(),
            Err(e) => sp_declaration(tokens.deep_view(), pos as int) == Err::<
                (DeclarationModel, int),
                _,
            >(parse_error_model(e)),
        },
    decreases tokens@.len() - pos, 10int,
{
    let ghost t = tokens.deep_view();
    proof {
        reveal(sp_declaration);
        reveal(sp_expression);
        reveal(declaration_model);
        reveal(expression_model);
    }
    if pos >= tokens.len() {
        return Err(ParseError::ExpectedToken);
    }
    if !matches!(&tokens[pos], Token::KeywordInt) {
        return Err(
            ParseError::UnexpectedToken(clone_token(&tokens[pos]), InFunction::ParseDeclaration),
        );
    }
    if pos + 1 >= tokens.len() {
        return Err(ParseError::ExpectedToken);
    }
    let id = match &tokens[pos + 1] {
        Token::Identifier(s) => s.clone(),
        _ => {
            return Err(
                ParseError::UnexpectedToken(
                    clone_token(&tokens[pos + 1]),
                    InFunction::ParseDeclaration,
                ),
            );
        },
    };
    if pos + 2 >= tokens.len() {
        return Err(ParseError::ExpectedToken);
    }
    match &tokens[pos + 2] {
        Token::SemiColon => Ok((Declaration { m_id: id, m_value: None }, pos + 3)),
        Token::OperatorAssign => {
            match parse_expression(tokens, pos + 3) {
                Ok((e, p3)) => {
                    if p3 >= tokens.len() {
                        return Err(ParseError::ExpectedToken);
                    }
                    match &tokens[p3] {
                        Token::SemiColon => Ok((Declaration { m_id: id, m_value: Some(e) }, p3 + 1)),
                        _ => Err(
                            ParseError::UnexpectedToken(
                                clone_token(&tokens[p3]),
                                InFunction::ParseDeclaration,
                            ),
                        ),
                    }
                },
                Err(e) => Err(e),
            }
        },
        _ => Err(
            ParseError::UnexpectedToken(
                clone_token(&tokens[pos + 2]),
                InFunction::ParseDeclaration,
            ),
        ),
    }
}


#[verifier::rlimit(60)]
#[verifier::spinoff_prover]
fn parse_block_items(tokens: &Vec<Token>, pos: usize) -> (r: Result<
    (Vec<BlockItem>, usize),
    ParseError,
>)
    requires
        pos <= tokens@.len(),
    ensures
        match r {
            Ok((items, p2)) => sp_block_items(tokens.deep_view(), pos as int) == Ok::<
                _,
                ParseErrorModel,
            >((block_items_model(items@, 0), p2 as int)) && pos <= p2 <= tokens@.len(),
            Err(e) => sp_block_items(tokens.deep_view(), pos as int) == Err::<
                (Seq<BlockItemModel>, int),
                _,
            >(parse_error_model(e)),
        },
    decreases tokens@.len() - pos, 13int,
{
    let ghost t = tokens.deep_view();
    let mut items: Vec<BlockItem> = Vec::new();
    let mut cur: usize = pos;
    proof {
        lemma_pres_cont_nil(sp_block_items(t, pos as int));
        lemma_block_items_model(items@, 0);
        assert(block_items_model(items@, 0) =~= Seq::<BlockItemModel>::empty());
    }
    loop
        invariant_except_break
            pres_cont(block_items_model(items@, 0), sp_block_items(t, cur as int))
                == sp_block_items(t, pos as int),
        invariant
            t == tokens.deep_view(),
            pos as int <= cur as int <= t.len(),
        ensures
            t == tokens.deep_view(),
            cur <= tokens@.len(),
            pos <= cur,
            sp_block_items(t, pos as int) == Ok::<_, ParseErrorModel>(
                (block_items_model(items@, 0), cur as int),
            ),
        decreases tokens@.len() - cur,
    {
        if cur >= tokens.len() {
            proof {
                lemma_items_end(t, cur as int);
                lemma_pres_ok_empty(block_items_model(items@, 0), cur as int);
            }
            break;
        }
        let is_close = matches!(&tokens[cur], Token::CloseBrace);
        if is_close {
            let ghost cur0 = cur as int;
            cur = cur + 1;
            proof {
                lemma_items_close(t, cur0);
                lemma_pres_ok_empty(block_items_model(items@, 0), cur as int);
            }
            break;
        }
        let ghost cur0 = cur as int;
        match parse_block_item(tokens, cur) {
            Ok((b, p2)) => {
                let ghost bm = block_item_model(b);
                let ghost rest0 = items@;
                items.push(b);
                cur = p2;
                proof {
                    lemma_items_step(t, cur0, bm, cur as int);
                    lemma_block_items_model(rest0, 0);
                    lemma_block_items_model(items@, 0);
                    assert(block_items_model(items@, 0) =~= block_items_model(rest0, 0) + seq![
                        bm,
                    ]);
                    lemma_pres_cont_assoc(
                        block_items_model(rest0, 0),
                        seq![bm],
                        sp_block_items(t, cur as int),
                    );
                }
            },
            Err(e) => {
                proof {
                    lemma_items_err(t, cur0, parse_error_model(e));
                }
                return Err(e);
            },
        }
    }
    Ok((items, cur))
}

#[verifier::rlimit(60)]
#[verifier::spinoff_prover]
fn parse_block_item(tokens: &Vec<Token>, pos: usize) -> (r: Result<(BlockItem, usize), ParseError>)
    requires
        pos <= tokens@.len(),
    ensures
        match r {
            Ok((x, p2)) => sp_block_item(tokens.deep_view(), pos as int) == Ok::<
                _,
                ParseErrorModel,
            >((block_item_model(x), p2 as int)) && pos < p2 <= tokens@.len(),
            Err(e) => sp_block_item(tokens.deep_view(), pos as int) == Err::<
                (BlockItemModel, int),
                _,
            >(parse_error_model(e)),
        },
    decreases tokens@.len() - pos, 12int,
{
    let ghost t = tokens.deep_view();
    proof {
        reveal(sp_block_item);
        reveal(sp_declaration);
        reveal(sp_statement);
        reveal(block_item_model);
        reveal(statement_model);
        reveal(declaration_model);
    }
    if pos >= tokens.len() {
        return Err(ParseError::ExpectedToken);
    }
    let is_int = matches!(&tokens[pos], Token::KeywordInt);
    if is_int {
        match parse_declaration(tokens, pos) {
            Ok((d, p2)) => Ok((BlockItem::Declaration(d), p2)),
            Err(e) => Err(e),
        }
    } else {
        match parse_statement(tokens, pos) {
            Ok((st, p2)) => Ok((BlockItem::Statement(st), p2)),
            Err(e) => Err(e),
        }
    }
}

#[verifier::rlimit(100)]
#[verifier::spinoff_prover]
fn parse_statement(tokens: &Vec<Token>, pos: usize) -> (r: Result<(Statement, usize), ParseError>)
    requires
        pos <= tokens@.len(),
    ensures
        match r {
            Ok((x, p2)) => sp_statement(tokens.deep_view(), pos as int) == Ok::<
                _,
                ParseErrorModel,
            >((statement_model(x), p2 as int)) && pos < p2 <= tokens@.len(),
            Err(e) => sp_statement(tokens.deep_view(), pos as int) == Err::<
                (StatementModel, int),
                _,
            >(parse_error_model(e)),
        },
    decreases tokens@.len() - pos, 11int,
{
    let ghost t = tokens.deep_view();
    proof {
        reveal(sp_statement);
        reveal(sp_for_statement);
        reveal(sp_expression);
        reveal(sp_block_items);
        reveal(statement_model);
        reveal(expression_model);
        reveal(block_items_model);
        reveal(declaration_model);
    }
    if pos >= tokens.len() {
        return Err(ParseError::ExpectedToken);
    }
    match &tokens[pos] {
        Token::KeywordFor => parse_for_statement(tokens, pos),
        Token::KeywordWhile => {
            if pos + 1 >= tokens.len() {
                return Err(ParseError::ExpectedToken);
            }
            if !matches!(&tokens[pos + 1], Token::OpenParen) {
                return Err(
                    ParseError::UnexpectedToken(
                        clone_token(&tokens[pos + 1]),
                        InFunction::ParseStatement,
                    ),
                );
            }
            let (c, p2) = match parse_expression(tokens, pos + 2) {
                Ok(x) => x,
                Err(e) => {
                    return Err(e);
                },
            };
            if p2 >= tokens.len() {
                return Err(ParseError::ExpectedToken);
            }
            if !matches!(&tokens[p2], Token::CloseParen) {
                return Err(
                    ParseError::UnexpectedToken(
                        clone_token(&tokens[p2]),
                        InFunction::ParseStatement,
                    ),
                );
            }
            let (b, p3) = match parse_statement(tokens, p2 + 1) {
                Ok(x) => x,
                Err(e) => {
                    return Err(e);
                },
            };
            Ok((Statement::While { m_condition: c, m_statement: Box::new(b) }, p3))
        },
        Token::KeywordDo => {
            let (b, p2) = match parse_statement(tokens, pos + 1) {
                Ok(x) => x,
                Err(e) => {
                    return Err(e);
                },
            };
            if p2 >= tokens.len() {
                return Err(ParseError::ExpectedToken);
            }
            if !matches!(&tokens[p2], Token::KeywordWhile) {
                return Err(
                    ParseError::UnexpectedToken(
                        clone_token(&tokens[p2]),
                        InFunction::ParseStatement,
                    ),
                );
            }
            if p2 + 1 >= tokens.len() {
                return Err(ParseError::ExpectedToken);
            }
            if !matches!(&tokens[p2 + 1], Token::OpenParen) {
                return Err(
                    ParseError::UnexpectedToken(
                        clone_token(&tokens[p2 + 1]),
                        InFunction::ParseStatement,
                    ),
                );
            }
            let (c, p3) = match parse_expression(tokens, p2 + 2) {
                Ok(x) => x,
                Err(e) => {
                    return Err(e);
                },
            };
            if p3 >= tokens.len() {
                return Err(ParseError::ExpectedToken);
            }
            if !matches!(&tokens[p3], Token::CloseParen) {
                return Err(
                    ParseError::UnexpectedToken(
                        clone_token(&tokens[p3]),
                        InFunction::ParseStatement,
                    ),
                );
            }
            if p3 + 1 >= tokens.len() {
                return Err(ParseError::ExpectedToken);
            }
            if !matches!(&tokens[p3 + 1], Token::SemiColon) {
                return Err(
                    ParseError::UnexpectedToken(
                        clone_token(&tokens[p3 + 1]),
                        InFunction::ParseStatement,
                    ),
                );
            }
            Ok((Statement::Do { m_statement: Box::new(b), m_condition: c }, p3 + 2))
        },
        Token::KeywordBreak => {
            if pos + 1 >= tokens.len() {
                return Err(ParseError::ExpectedToken);
            }
            if matches!(&tokens[pos + 1], Token::SemiColon) {
                Ok((Statement::Break, pos + 2))
            } else {
                Err(
                    ParseError::UnexpectedToken(
                        clone_token(&tokens[pos + 1]),
                        InFunction::ParseStatement,
                    ),
                )
            }
        },
        Token::KeywordContinue => {
            if pos + 1 >= tokens.len() {
                return Err(ParseError::ExpectedToken);
            }
            if matches!(&tokens[pos + 1], Token::SemiColon) {
                Ok((Statement::Continue, pos + 2))
            } else {
                Err(
                    ParseError::UnexpectedToken(
                        clone_token(&tokens[pos + 1]),
                        InFunction::ParseStatement,
                    ),
                )
            }
        },
        Token::OpenBrace => {
            match parse_block_items(tokens, pos + 1) {
                Ok((items, p2)) => Ok((Statement::Compound { m_block_items: items }, p2)),
                Err(e) => Err(e),
            }
        },
        Token::KeywordIf => {
            if pos + 1 >= tokens.len() {
                return Err(ParseError::ExpectedToken);
            }
            if !matches!(&tokens[pos + 1], Token::OpenParen) {
                return Err(
                    ParseError::UnexpectedToken(
                        clone_token(&tokens[pos + 1]),
                        InFunction::ParseStatement,
                    ),
                );
            }
            let (c, p2) = match parse_expression(tokens, pos + 2) {
                Ok(x) => x,
                Err(e) => {
                    return Err(e);
                },
            };
            if p2 >= tokens.len() {
                return Err(ParseError::ExpectedToken);
            }
            if !matches!(&tokens[p2], Token::CloseParen) {
                return Err(
                    ParseError::UnexpectedToken(
                        clone_token(&tokens[p2]),
                        InFunction::ParseStatement,
                    ),
                );
            }
            let (thn, p3) = match parse_statement(tokens, p2 + 1) {
                Ok(x) => x,
                Err(e) => {
                    return Err(e);
                },
            };
            if p3 >= tokens.len() {
                return Err(ParseError::ExpectedToken);
            }
            if matches!(&tokens[p3], Token::KeywordElse) {
                let (els, p4) = match parse_statement(tokens, p3 + 1) {
                    Ok(x) => x,
                    Err(e) => {
                        return Err(e);
                    },
                };
                Ok(
                    (
                        Statement::If {
                            m_condition: c,
                            m_true_statement: Box::new(thn),
                            m_else_statement: Some(Box::new(els)),
                        },
                        p4,
                    ),
                )
            } else {
                Ok(
                    (
                        Statement::If {
                            m_condition: c,
                            m_true_statement: Box::new(thn),
                            m_else_statement: None,
                        },
                        p3,
                    ),
                )
            }
        },
        Token::KeywordReturn => {
            if pos + 1 >= tokens.len() {
                return Err(ParseError::ExpectedToken);
            }
            if matches!(&tokens[pos + 1], Token::SemiColon) {
                return Err(ParseError::ExpectedToken);
            }
            let (e, p2) = match parse_expression(tokens, pos + 1) {
                Ok(x) => x,
                Err(e) => {
                    return Err(e);
                },
            };
            if p2 >= tokens.len() {
                return Err(ParseError::ExpectedToken);
            }
            if matches!(&tokens[p2], Token::SemiColon) {
                Ok((Statement::Return(Some(e)), p2 + 1))
            } else {
                Err(
                    ParseError::UnexpectedToken(
                        clone_token(&tokens[p2]),
                        InFunction::ParseStatement,
                    ),
                )
            }
        },
        Token::SemiColon => Ok((Statement::Expression(None), pos + 1)),
        _ => {
            let (e, p2) = match parse_expression(tokens, pos) {
                Ok(x) => x,
                Err(e) => {
                    return Err(e);
                },
            };
            if p2 >= tokens.len() {
                return Err(ParseError::ExpectedToken);
            }
            if matches!(&tokens[p2], Token::SemiColon) {
                Ok((Statement::Expression(Some(e)), p2 + 1))
            } else {
                Err(
                    ParseError::UnexpectedToken(
                        clone_token(&tokens[p2]),
                        InFunction::ParseStatement,
                    ),
                )
            }
        },
    }
}

#[verifier::rlimit(100)]
#[verifier::spinoff_prover]
fn parse_for_statement(tokens: &Vec<Token>, pos: usize) -> (r: Result<
    (Statement, usize),
    ParseError,
>)
    requires
        pos <= tokens@.len(),
        pos < tokens@.len(),
        tokens.deep_view()[pos as int] == TokenModel::KeywordFor,
    ensures
        match r {
            Ok((x, p2)) => sp_for_statement(tokens.deep_view(), pos as int) == Ok::<
                _,
                ParseErrorModel,
            >((statement_model(x), p2 as int)) && pos < p2 <= tokens@.len(),
            Err(e) => sp_for_statement(tokens.deep_view(), pos as int) == Err::<
                (StatementModel, int),
                _,
            >(parse_error_model(e)),
        },
    decreases tokens@.len() - pos, 10int,
{
    let ghost t = tokens.deep_view();
    proof {
        reveal(sp_for_statement);
        reveal(sp_declaration);
        reveal(sp_expression);
        reveal(sp_statement);
        reveal(statement_model);
        reveal(declaration_model);
        reveal(expression_model);
    }
    if pos >= tokens.len() || pos + 1 >= tokens.len() {
        return Err(ParseError::ExpectedToken);
    }
    if !matches!(&tokens[pos + 1], Token::OpenParen) {
        return Err(
            ParseError::UnexpectedToken(clone_token(&tokens[pos + 1]), InFunction::ParseStatement),
        );
    }
    if pos + 2 >= tokens.len() {
        return Err(ParseError::ExpectedToken);
    }
    let mut initial_declaration: Option<Declaration> = None;
    let mut initial_exp: Option<Expression> = None;
    let mut p4: usize = 0;
    if matches!(&tokens[pos + 2], Token::KeywordInt) {
        match parse_declaration(tokens, pos + 2) {
            Ok((d, p3)) => {
                initial_declaration = Some(d);
                p4 = p3;
            },
            Err(e) => {
                return Err(e);
            },
        }
    } else if matches!(&tokens[pos + 2], Token::SemiColon) {
        p4 = pos + 3;
    } else {
        match parse_expression(tokens, pos + 2) {
            Ok((e, p3)) => {
                if p3 >= tokens.len() {
                    return Err(ParseError::ExpectedToken);
                }
                if !matches!(&tokens[p3], Token::SemiColon) {
                    return Err(
                        ParseError::UnexpectedToken(
                            clone_token(&tokens[p3]),
                            InFunction::ParseStatement,
                        ),
                    );
                }
                initial_exp = Some(e);
                p4 = p3 + 1;
            },
            Err(e) => {
                return Err(e);
            },
        }
    }
    if p4 >= tokens.len() {
        return Err(ParseError::ExpectedToken);
    }
    let condition: Expression;
    let p6: usize;
    if matches!(&tokens[p4], Token::SemiColon) {
        condition = const_one_expression();
        p6 = p4 + 1;
    } else {
        match parse_expression(tokens, p4) {
            Ok((c, p5)) => {
                if p5 >= tokens.len() {
                    return Err(ParseError::ExpectedToken);
                }
                if !matches!(&tokens[p5], Token::SemiColon) {
                    return Err(
                        ParseError::UnexpectedToken(
                            clone_token(&tokens[p5]),
                            InFunction::ParseStatement,
                        ),
                    );
                }
                condition = c;
                p6 = p5 + 1;
            },
            Err(e) => {
                return Err(e);
            },
        }
    }
    if p6 >= tokens.len() {
        return Err(ParseError::ExpectedToken);
    }
    let mut post_expression: Option<Expression> = None;
    let p8: usize;
    if matches!(&tokens[p6], Token::CloseParen) {
        p8 = p6;
    } else {
        match parse_expression(tokens, p6) {
            Ok((e, p7)) => {
                post_expression = Some(e);
                p8 = p7;
            },
            Err(e) => {
                return Err(e);
            },
        }
    }
    if p8 >= tokens.len() {
        return Err(ParseError::ExpectedToken);
    }
    if !matches!(&tokens[p8], Token::CloseParen) {
        return Err(
            ParseError::UnexpectedToken(clone_token(&tokens[p8]), InFunction::ParseStatement),
        );
    }
    let (body, p9) = match parse_statement(tokens, p8 + 1) {
        Ok(x) => x,
        Err(e) => {
            return Err(e);
        },
    };
    match initial_exp {
        Some(e) => Ok(
            (
                Statement::For {
                    m_initial_expression: Some(e),
                    m_condition: condition,
                    m_post_expression: post_expression,
                    m_statement: Box::new(body),
                },
                p9,
            ),
        ),
        None => match initial_declaration {
            Some(d) => Ok(
                (
                    Statement::ForDecl {
                        m_initial_declaration: d,
                        m_condition: condition,
                        m_post_expression: post_expression,
                        m_statement: Box::new(body),
                    },
                    p9,
                ),
            ),
            None => Ok(
                (
                    Statement::For {
                        m_initial_expression: None,
                        m_condition: condition,
                        m_post_expression: post_expression,
                        m_statement: Box::new(body),
                    },
                    p9,
                ),
            ),
        },
    }
}


/// What remains of a function once its parameter list is closed:
/// a body in braces, a bare semicolon for a forward declaration,
/// or an error.
pub open spec fn sp_function_after_params(
    t: Seq<TokenModel>,
    id: Seq<char>,
    params: Seq<Seq<char>>,
    p5: int,
) -> Result<(FunctionModel, int), ParseErrorModel> {
    if p5 >= t.len() {
        Err(ParseErrorModel::ExpectedToken)
    } else if t[p5] == TokenModel::OpenBrace {
        match sp_block_items(t, p5 + 1) {
            Ok((items, p6)) => Ok(
                (FunctionModel { ftype: FunctionType::Int, params, id, items: Some(items) }, p6),
            ),
            Err(e) => Err(e),
        }
    } else if t[p5] == TokenModel::SemiColon {
        Ok((FunctionModel { ftype: FunctionType::Int, params, id, items: None }, p5 + 1))
    } else {
        Err(ParseErrorModel::UnexpectedToken(t[p5], InFunction::ParseFunction))
    }
}

/// Links the outcome of the parameter-list tail to the outcome of
/// the whole function.
pub open spec fn function_link(
    t: Seq<TokenModel>,
    pos: int,
    id: Seq<char>,
    r: Result<(Seq<Seq<char>>, int), ParseErrorModel>,
) -> bool {
    match r {
        Ok((ps, p5)) => sp_function(t, pos) == sp_function_after_params(t, id, ps, p5),
        Err(e) => sp_function(t, pos) == Err::<(FunctionModel, int), _>(e),
    }
}

proof fn lemma_function_noparam(t: Seq<TokenModel>, pos: int, id: Seq<char>)
    requires
        0 <= pos < t.len(),
        t[pos] == TokenModel::KeywordInt,
        pos + 1 < t.len(),
        t[pos + 1] == TokenModel::Identifier(id),
        pos + 2 < t.len(),
        t[pos + 2] == TokenModel::OpenParen,
        pos + 3 < t.len(),
        t[pos + 3] == TokenModel::CloseParen,
    ensures
        function_link(
            t,
            pos,
            id,
            pres_cont(Seq::<Seq<char>>::empty(), sp_params_rest(t, pos + 3)),
        ),
{
    reveal(sp_function);
    reveal(sp_params_rest);
    lemma_pres_cont_nil(sp_params_rest(t, pos + 3));
    match sp_params_rest(t, pos + 3) {
        Ok((pr, p5)) => {
            assert(Seq::<Seq<char>>::empty() + pr =~= pr);
        },
        Err(_) => {},
    }
}

proof fn lemma_function_firstparam(t: Seq<TokenModel>, pos: int, id: Seq<char>, pid: Seq<char>)
    requires
        0 <= pos < t.len(),
        t[pos] == TokenModel::KeywordInt,
        pos + 1 < t.len(),
        t[pos + 1] == TokenModel::Identifier(id),
        pos + 2 < t.len(),
        t[pos + 2] == TokenModel::OpenParen,
        pos + 3 < t.len(),
        t[pos + 3] != TokenModel::CloseParen,
        t[pos + 3] == TokenModel::KeywordInt,
        pos + 4 < t.len(),
        t[pos + 4] == TokenModel::Identifier(pid),
    ensures
        function_link(t, pos, id, pres_cont(seq![pid], sp_params_rest(t, pos + 5))),
{
    reveal(sp_function);
    reveal(sp_params_rest);
}

proof fn lemma_function_fail(t: Seq<TokenModel>, pos: int, e: ParseErrorModel)
    requires
        ({
            if pos >= t.len() {
                e == ParseErrorModel::ExpectedToken
            } else if t[pos] != TokenModel::KeywordInt {
                e == ParseErrorModel::UnexpectedToken(t[pos], InFunction::ParseFunction)
            } else if pos + 1 >= t.len() {
                e == ParseErrorModel::ExpectedToken
            } else if !(t[pos + 1] is Identifier) {
                e == ParseErrorModel::UnexpectedToken(t[pos + 1], InFunction::ParseFunction)
            } else if pos + 2 >= t.len() {
                e == ParseErrorModel::ExpectedToken
            } else if t[pos + 2] != TokenModel::OpenParen {
                e == ParseErrorModel::UnexpectedToken(t[pos + 2], InFunction::ParseFunction)
            } else if pos + 3 >= t.len() {
                e == ParseErrorModel::ExpectedToken
            } else if t[pos + 3] == TokenModel::CloseParen {
                false
            } else if t[pos + 3] != TokenModel::KeywordInt {
                e == ParseErrorModel::UnexpectedToken(t[pos + 3], InFunction::ParseFunction)
            } else if pos + 4 >= t.len() {
                e == ParseErrorModel::ExpectedToken
            } else {
                !(t[pos + 4] is Identifier) && e == ParseErrorModel::UnexpectedToken(
                    t[pos + 4],
                    InFunction::ParseFunction,
                )
            }
        }),
    ensures
        sp_function(t, pos) == Err::<(FunctionModel, int), ParseErrorModel>(e),
{
    reveal(sp_function);
    reveal(sp_params_rest);
}

#[verifier::rlimit(100)]
#[verifier::spinoff_prover]
fn parse_function(tokens: &Vec<Token>, pos: usize) -> (r: Result<(Function, usize), ParseError>)
    requires
        pos <= tokens@.len(),
    ensures
        match r {
            Ok((f, p2)) => sp_function(tokens.deep_view(), pos as int) == Ok::<
                _,
                ParseErrorModel,
            >((function_model(f), p2 as int)) && pos < p2 <= tokens@.len(),
            Err(e) => sp_function(tokens.deep_view(), pos as int) == Err::<
                (FunctionModel, int),
                _,
            >(parse_error_model(e)),
        },
    decreases tokens@.len() - pos, 14int,
{
    let ghost t = tokens.deep_view();
    proof {
        reveal(function_model);
        reveal(strings_model);
        reveal(block_items_model);
    }
    if pos >= tokens.len() {
        proof {
            lemma_function_fail(t, pos as int, ParseErrorModel::ExpectedToken);
        }
        return Err(ParseError::ExpectedToken);
    }
    if !matches!(&tokens[pos], Token::KeywordInt) {
        proof {
            lemma_function_fail(
                t,
                pos as int,
                ParseErrorModel::UnexpectedToken(t[pos as int], InFunction::ParseFunction),
            );
        }
        return Err(
            ParseError::UnexpectedToken(clone_token(&tokens[pos]), InFunction::ParseFunction),
        );
    }
    if pos + 1 >= tokens.len() {
        proof {
            lemma_function_fail(t, pos as int, ParseErrorModel::ExpectedToken);
        }
        return Err(ParseError::ExpectedToken);
    }
    let id: String = match &tokens[pos + 1] {
        Token::Identifier(s) => s.clone(),
        _ => {
            proof {
                lemma_function_fail(
                    t,
                    pos as int,
                    ParseErrorModel::UnexpectedToken(t[pos + 1], InFunction::ParseFunction),
                );
            }
            return Err(
                ParseError::UnexpectedToken(
                    clone_token(&tokens[pos + 1]),
                    InFunction::ParseFunction,
                ),
            );
        },
    };
    if pos + 2 >= tokens.len() {
        proof {
            lemma_function_fail(t, pos as int, ParseErrorModel::ExpectedToken);
        }
        return Err(ParseError::ExpectedToken);
    }
    if !matches!(&tokens[pos + 2], Token::OpenParen) {
        proof {
            lemma_function_fail(
                t,
                pos as int,
                ParseErrorModel::UnexpectedToken(t[pos + 2], InFunction::ParseFunction),
            );
        }
        return Err(
            ParseError::UnexpectedToken(clone_token(&tokens[pos + 2]), InFunction::ParseFunction),
        );
    }
    if pos + 3 >= tokens.len() {
        proof {
            lemma_function_fail(t, pos as int, ParseErrorModel::ExpectedToken);
        }
        return Err(ParseError::ExpectedToken);
    }
    let mut params: Vec<String> = Vec::new();
    let mut cur: usize;
    if matches!(&tokens[pos + 3], Token::CloseParen) {
        cur = pos + 3;
        proof {
            lemma_function_noparam(t, pos as int, id@);
        }
    } else {
        if !matches!(&tokens[pos + 3], Token::KeywordInt) {
            proof {
                lemma_function_fail(
                    t,
                    pos as int,
                    ParseErrorModel::UnexpectedToken(t[pos + 3], InFunction::ParseFunction),
                );
            }
            return Err(
                ParseError::UnexpectedToken(
                    clone_token(&tokens[pos + 3]),
                    InFunction::ParseFunction,
                ),
            );
        }
        if pos + 4 >= tokens.len() {
            proof {
                lemma_function_fail(t, pos as int, ParseErrorModel::ExpectedToken);
            }
            return Err(ParseError::ExpectedToken);
        }
        match &tokens[pos + 4] {
            Token::Identifier(p) => {
                proof {
                    lemma_function_firstparam(t, pos as int, id@, p@);
                }
                params.push(p.clone());
            },
            _ => {
                proof {
                    lemma_function_fail(
                        t,
                        pos as int,
                        ParseErrorModel::UnexpectedToken(t[pos + 4], InFunction::ParseFunction),
                    );
                }
                return Err(
                    ParseError::UnexpectedToken(
                        clone_token(&tokens[pos + 4]),
                        InFunction::ParseFunction,
                    ),
                );
            },
        }
        cur = pos + 5;
    }
    let ghost start = cur as int;
    let ghost models0 = strings_model(params@, 0);
    let ghost idm = id@;
    proof {
        lemma_strings_model(params@, 0);
        if params@.len() == 0 {
            assert(strings_model(params@, 0) =~= Seq::<Seq<char>>::empty());
        } else {
            assert(strings_model(params@, 0) =~= seq![params@[0]@]);
        }
    }
    loop
        invariant_except_break
            pres_cont(strings_model(params@, 0), sp_params_rest(t, cur as int)) == pres_cont(
                models0,
                sp_params_rest(t, start),
            ),
        invariant
            t == tokens.deep_view(),
            (pos as int) < start,
            start <= cur as int <= t.len(),
            function_link(t, pos as int, idm, pres_cont(models0, sp_params_rest(t, start))),
        ensures
            t == tokens.deep_view(),
            cur <= tokens@.len(),
            (pos as int) < cur as int,
            function_link(t, pos as int, idm, pres_cont(models0, sp_params_rest(t, start))),
            pres_cont(models0, sp_params_rest(t, start)) == Ok::<_, ParseErrorModel>(
                (strings_model(params@, 0), cur as int),
            ),
        decreases tokens@.len() - cur,
    {
        if cur >= tokens.len() {
            proof {
                lemma_params_end(t, cur as int);
                lemma_pres_ok_empty(strings_model(params@, 0), cur as int);
            }
            break;
        }
        match &tokens[cur] {
            Token::CloseParen => {
                let ghost cur0 = cur as int;
                cur = cur + 1;
                proof {
                    lemma_params_close(t, cur0);
                    lemma_pres_ok_empty(strings_model(params@, 0), cur as int);
                }
                break;
            },
            Token::Comma => {
                let ghost cur0 = cur as int;
                if cur + 1 >= tokens.len() {
                    proof {
                        lemma_params_fail(t, cur0, ParseErrorModel::ExpectedToken);
                    }
                    return Err(ParseError::ExpectedToken);
                }
                if !matches!(&tokens[cur + 1], Token::KeywordInt) {
                    proof {
                        lemma_params_fail(
                            t,
                            cur0,
                            ParseErrorModel::UnexpectedToken(
                                t[cur0 + 1],
                                InFunction::ParseFunction,
                            ),
                        );
                    }
                    return Err(
                        ParseError::UnexpectedToken(
                            clone_token(&tokens[cur + 1]),
                            InFunction::ParseFunction,
                        ),
                    );
                }
                if cur + 2 >= tokens.len() {
                    proof {
                        lemma_params_fail(t, cur0, ParseErrorModel::ExpectedToken);
                    }
                    return Err(ParseError::ExpectedToken);
                }
                match &tokens[cur + 2] {
                    Token::Identifier(p) => {
                        let ghost pm = p@;
                        let ghost rest0 = params@;
                        params.push(p.clone());
                        cur = cur + 3;
                        proof {
                            lemma_params_step(t, cur0, pm);
                            lemma_strings_model(rest0, 0);
                            lemma_strings_model(params@, 0);
                            assert(strings_model(params@, 0) =~= strings_model(rest0, 0) + seq![
                                pm,
                            ]);
                            lemma_pres_cont_assoc(
                                strings_model(rest0, 0),
                                seq![pm],
                                sp_params_rest(t, cur as int),
                            );
                        }
                    },
                    _ => {
                        proof {
                            lemma_params_fail(
                                t,
                                cur0,
                                ParseErrorModel::UnexpectedToken(
                                    t[cur0 + 2],
                                    InFunction::ParseFunction,
                                ),
                            );
                        }
                        return Err(
                            ParseError::UnexpectedToken(
                                clone_token(&tokens[cur + 2]),
                                InFunction::ParseFunction,
                            ),
                        );
                    },
                }
            },
            _ => {
                proof {
                    lemma_params_fail(
                        t,
                        cur as int,
                        ParseErrorModel::UnexpectedToken(
                            t[cur as int],
                            InFunction::ParseFunction,
                        ),
                    );
                }
                return Err(
                    ParseError::UnexpectedToken(
                        clone_token(&tokens[cur]),
                        InFunction::ParseFunction,
                    ),
                );
            },
        }
    }
    if cur >= tokens.len() {
        return Err(ParseError::ExpectedToken);
    }
    if matches!(&tokens[cur], Token::OpenBrace) {
        match parse_block_items(tokens, cur + 1) {
            Ok((items, p6)) => {
                let f = Function {
                    m_type: FunctionType::Int,
                    m_params: params,
                    m_id: id,
                    m_items: Some(items),
                };
                Ok((f, p6))
            },
            Err(e) => Err(e),
        }
    } else if matches!(&tokens[cur], Token::SemiColon) {
        let f = Function {
            m_type: FunctionType::Int,
            m_params: params,
            m_id: id,
            m_items: None,
        };
        Ok((f, cur + 1))
    } else {
        Err(ParseError::UnexpectedToken(clone_token(&tokens[cur]), InFunction::ParseFunction))
    }
}

/// Parses a whole program: functions until the end-of-file token.
/// The result is exactly what the model `sp_program` assigns to
/// the token sequence.
#[verifier::rlimit(60)]
#[verifier::spinoff_prover]
pub fn parse_program(tokens: &Vec<Token>) -> (r: Result<Program, ParseError>)
    ensures
        match r {
            Ok(p) => sp_program(tokens.deep_view()) == Ok::<_, ParseErrorModel>(program_model(p)),
            Err(e) => sp_program(tokens.deep_view()) == Err::<ProgramModel, _>(
                parse_error_model(e),
            ),
        },
{
    let ghost t = tokens.deep_view();
    proof {
        reveal(program_model);
        reveal(functions_model);
        reveal(function_model);
    }
    let mut functions: Vec<Function> = Vec::new();
    let mut cur: usize = 0;
    proof {
        lemma_pres_cont_nil(sp_functions(t, 0));
        lemma_functions_model(functions@, 0);
        assert(functions_model(functions@, 0) =~= Seq::<FunctionModel>::empty());
    }
    loop
        invariant_except_break
            pres_cont(functions_model(functions@, 0), sp_functions(t, cur as int))
                == sp_functions(t, 0),
        invariant
            t == tokens.deep_view(),
            cur as int <= t.len(),
        ensures
            t == tokens.deep_view(),
            sp_functions(t, 0) is Ok,
            (sp_functions(t, 0)->Ok_0).0 == functions_model(functions@, 0),
        decreases tokens@.len() - cur,
    {
        if cur >= tokens.len() {
            proof {
                lemma_functions_end(t, cur as int);
                lemma_pres_ok_empty(functions_model(functions@, 0), cur as int);
            }
            break;
        }
        if matches!(&tokens[cur], Token::EndOfFile) {
            proof {
                lemma_functions_eof(t, cur as int);
                lemma_pres_ok_empty(functions_model(functions@, 0), cur as int + 1);
            }
            break;
        }
        let ghost cur0 = cur as int;
        match parse_function(tokens, cur) {
            Ok((f, p2)) => {
                let ghost fm = function_model(f);
                let ghost rest0 = functions@;
                functions.push(f);
                cur = p2;
                proof {
                    lemma_functions_step(t, cur0, fm, cur as int);
                    lemma_functions_model(rest0, 0);
                    lemma_functions_model(functions@, 0);
                    assert(functions_model(functions@, 0) =~= functions_model(rest0, 0) + seq![
                        fm,
                    ]);
                    lemma_pres_cont_assoc(
                        functions_model(rest0, 0),
                        seq![fm],
                        sp_functions(t, cur as int),
                    );
                }
            },
            Err(e) => {
                proof {
                    lemma_functions_err(t, cur0, parse_error_model(e));
                    lemma_program_err(t, parse_error_model(e));
                }
                return Err(e);
            },
        }
    }
    let p = Program { m_functions: functions };
    proof {
        lemma_program_ok(
            t,
            functions_model(p.m_functions@, 0),
            sp_functions(t, 0)->Ok_0.1,
        );
    }
    Ok(p)
}

} // verus!
