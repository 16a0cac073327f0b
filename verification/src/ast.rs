//! The syntax tree: an immutable tree produced by the parser and
//! read by the analyser and the generator, together with its
//! mathematical model.
//!
//! Each binary precedence level is its own node type carrying a
//! first operand and an ordered list of (operator, operand) pairs,
//! which encodes left-associative evaluation structurally. The
//! model types mirror the tree with character sequences for names,
//! so that model equality is exactly structural equality.

use vstd::prelude::*;

use crate::token::{Token, TokenModel};

verus! {

/// The production a parse error was raised in.
#[derive(Debug, Clone, Copy, PartialEq, Eq, Structural)]
pub enum InFunction {
    ParseProgram,
    ParseFunction,
    ParseBlockItem,
    ParseDeclaration,
    ParseStatement,
    ParseExpression,
    ParseConditionalExpression,
    ParseLogicalAndExpression,
    ParseEqualityExpression,
    ParseRelationalExpression,
    ParseAdditiveExpression,
    ParseTerm,
    ParseFactor,
}

/// How the parser fails: the token stream ran out, or the wrong
/// token appeared, recorded with the production that saw it.
#[derive(Debug, PartialEq)]
pub enum ParseError {
    UnexpectedToken(Token, InFunction),
    ExpectedToken,
}

#[verifier::ext_equal]
pub enum ParseErrorModel {
    UnexpectedToken(TokenModel, InFunction),
    ExpectedToken,
}

pub open spec fn parse_error_model(e: ParseError) -> ParseErrorModel {
    match e {
        ParseError::UnexpectedToken(t, f) => ParseErrorModel::UnexpectedToken(t@, f),
        ParseError::ExpectedToken => ParseErrorModel::ExpectedToken,
    }
}

/// The only return type of the language.
#[derive(Debug, Clone, Copy, PartialEq, Eq, Structural)]
pub enum FunctionType {
    Int,
}

#[derive(Debug, PartialEq)]
pub struct Program {
    pub m_functions: Vec<Function>,
}

/// A function: name, parameter names, and either a body or, for a
/// forward declaration, no body at all.
#[derive(Debug, PartialEq)]
pub struct Function {
    pub m_type: FunctionType,
    pub m_params: Vec<String>,
    pub m_id: String,
    pub m_items: Option<Vec<BlockItem>>,
}

#[derive(Debug, PartialEq)]
pub enum BlockItem {
    Statement(Statement),
    Declaration(Declaration),
}

#[derive(Debug, PartialEq)]
pub enum Statement {
    Return(Option<Expression>),
    Expression(Option<Expression>),
    If {
        m_condition: Expression,
        m_true_statement: Box<Statement>,
        m_else_statement: Option<Box<Statement>>,
    },
    Compound {
        m_block_items: Vec<BlockItem>,
    },
    For {
        m_initial_expression: Option<Expression>,
        m_condition: Expression,
        m_post_expression: Option<Expression>,
        m_statement: Box<Statement>,
    },
    ForDecl {
        m_initial_declaration: Declaration,
        m_condition: Expression,
        m_post_expression: Option<Expression>,
        m_statement: Box<Statement>,
    },
    While {
        m_condition: Expression,
        m_statement: Box<Statement>,
    },
    Do {
        m_statement: Box<Statement>,
        m_condition: Expression,
    },
    Break,
    Continue,
}

/// A declaration of an integer variable, with an optional
/// initialiser.
#[derive(Debug, PartialEq)]
pub struct Declaration {
    pub m_id: String,
    pub m_value: Option<Expression>,
}

#[derive(Debug, PartialEq)]
pub enum Expression {
    Assignment { m_name: String, m_value: Box<Expression> },
    Operation(ConditionalExpression),
}

/// The ternary: either a bare condition, or condition, true arm and
/// false arm together.
#[derive(Debug, PartialEq)]
pub struct ConditionalExpression {
    pub m_condition: LogicalOrExpresson,
    pub m_true: Option<Box<Expression>>,
    pub m_false: Option<Box<ConditionalExpression>>,
}

#[derive(Debug, PartialEq)]
pub struct LogicalOrExpresson {
    pub m_first: Box<LogicalAndExpression>,
    pub m_rest: Vec<LogicalAndExpression>,
}

#[derive(Debug, PartialEq)]
pub struct LogicalAndExpression {
    pub m_first: Box<EqualityExpression>,
    pub m_rest: Vec<EqualityExpression>,
}

#[derive(Debug, Clone, Copy, PartialEq, Eq, Structural)]
pub enum EqualityOperator {
    NotEqual,
    Equal,
}

#[derive(Debug, PartialEq)]
pub struct EqualityExpression {
    pub m_first: Box<RelationalExpression>,
    pub m_rest: Vec<(EqualityOperator, RelationalExpression)>,
}

#[derive(Debug, Clone, Copy, PartialEq, Eq, Structural)]
pub enum RelationalOperator {
    Less,
    LessOrEqual,
    Greater,
    GreaterOrEqual,
}

#[derive(Debug, PartialEq)]
pub struct RelationalExpression {
    pub m_first: Box<AdditiveExpression>,
    pub m_rest: Vec<(RelationalOperator, AdditiveExpression)>,
}

#[derive(Debug, Clone, Copy, PartialEq, Eq, Structural)]
pub enum AdditiveOperator {
    Minus,
    Addition,
}

#[derive(Debug, PartialEq)]
pub struct AdditiveExpression {
    pub m_first_term: Box<Term>,
    pub m_rest: Vec<(AdditiveOperator, Term)>,
}

#[derive(Debug, Clone, Copy, PartialEq, Eq, Structural)]
pub enum MultiplicativeOperator {
    Multiplication,
    Division,
    Modulo,
}

#[derive(Debug, PartialEq)]
pub struct Term {
    pub m_first_factor: Box<Factor>,
    pub m_rest: Vec<(MultiplicativeOperator, Factor)>,
}

#[derive(Debug, Clone, Copy, PartialEq, Eq, Structural)]
pub enum UnaryOperator {
    Complement,
    Negation,
    Minus,
}

#[derive(Debug, PartialEq)]
pub enum Factor {
    FunCall { m_id: String, m_arguments: Vec<Expression> },
    Constant { m_value: i32 },
    UnaryOperation { m_opertator: UnaryOperator, m_factor: Box<Factor> },
    Braced { m_expression: Expression },
    Variable { m_var: String },
}

// ---------------------------------------------------------------
// The mathematical model of the tree.
// ---------------------------------------------------------------

#[verifier::ext_equal]
pub struct ProgramModel {
    pub functions: Seq<FunctionModel>,
}

#[verifier::ext_equal]
pub struct FunctionModel {
    pub ftype: FunctionType,
    pub params: Seq<Seq<char>>,
    pub id: Seq<char>,
    pub items: Option<Seq<BlockItemModel>>,
}

#[verifier::ext_equal]
pub enum BlockItemModel {
    Statement(StatementModel),
    Declaration(DeclarationModel),
}

#[verifier::ext_equal]
pub enum StatementModel {
    Return(Option<ExpressionModel>),
    Expression(Option<ExpressionModel>),
    If {
        cond: ExpressionModel,
        then: Box<StatementModel>,
        els: Option<Box<StatementModel>>,
    },
    Compound {
        items: Seq<BlockItemModel>,
    },
    For {
        init: Option<ExpressionModel>,
        cond: ExpressionModel,
        post: Option<ExpressionModel>,
        body: Box<StatementModel>,
    },
    ForDecl {
        init: DeclarationModel,
        cond: ExpressionModel,
        post: Option<ExpressionModel>,
        body: Box<StatementModel>,
    },
    While {
        cond: ExpressionModel,
        body: Box<StatementModel>,
    },
    Do {
        body: Box<StatementModel>,
        cond: ExpressionModel,
    },
    Break,
    Continue,
}

#[verifier::ext_equal]
pub struct DeclarationModel {
    pub id: Seq<char>,
    pub value: Option<ExpressionModel>,
}

#[verifier::ext_equal]
pub enum ExpressionModel {
    Assignment { name: Seq<char>, value: Box<ExpressionModel> },
    Operation(ConditionalModel),
}

#[verifier::ext_equal]
pub struct ConditionalModel {
    pub cond: OrModel,
    pub yes: Option<Box<ExpressionModel>>,
    pub no: Option<Box<ConditionalModel>>,
}

#[verifier::ext_equal]
pub struct OrModel {
    pub first: Box<AndModel>,
    pub rest: Seq<AndModel>,
}

#[verifier::ext_equal]
pub struct AndModel {
    pub first: Box<EqualityModel>,
    pub rest: Seq<EqualityModel>,
}

#[verifier::ext_equal]
pub struct EqualityModel {
    pub first: Box<RelationalModel>,
    pub rest: Seq<(EqualityOperator, RelationalModel)>,
}

#[verifier::ext_equal]
pub struct RelationalModel {
    pub first: Box<AdditiveModel>,
    pub rest: Seq<(RelationalOperator, AdditiveModel)>,
}

#[verifier::ext_equal]
pub struct AdditiveModel {
    pub first: Box<TermModel>,
    pub rest: Seq<(AdditiveOperator, TermModel)>,
}

#[verifier::ext_equal]
pub struct TermModel {
    pub first: Box<FactorModel>,
    pub rest: Seq<(MultiplicativeOperator, FactorModel)>,
}

#[verifier::ext_equal]
pub enum FactorModel {
    FunCall { id: Seq<char>, arguments: Seq<ExpressionModel> },
    Constant { value: i32 },
    UnaryOperation { op: UnaryOperator, factor: Box<FactorModel> },
    Braced { expression: ExpressionModel },
    Variable { var: Seq<char> },
}

// ---------------------------------------------------------------
// Model functions: from the executable tree to its model.
// ---------------------------------------------------------------

#[verifier::opaque]
pub open spec fn program_model(p: Program) -> ProgramModel
    decreases p,
{
    ProgramModel { functions: functions_model(p.m_functions@, 0) }
}

#[verifier::opaque]
pub open spec fn functions_model(v: Seq<Function>, i: int) -> Seq<FunctionModel>
    decreases v, v.len() - i,
{
    if 0 <= i < v.len() {
        seq![function_model(v[i])] + functions_model(v, i + 1)
    } else {
        Seq::<FunctionModel>::empty()
    }
}

#[verifier::opaque]
pub open spec fn strings_model(v: Seq<String>, i: int) -> Seq<Seq<char>>
    decreases v.len() - i,
{
    if 0 <= i < v.len() {
        seq![v[i]@] + strings_model(v, i + 1)
    } else {
        Seq::<Seq<char>>::empty()
    }
}

#[verifier::opaque]
pub open spec fn function_model(f: Function) -> FunctionModel
    decreases f,
{
    FunctionModel {
        ftype: f.m_type,
        params: strings_model(f.m_params@, 0),
        id: f.m_id@,
        items: match f.m_items {
            Some(v) => Some(block_items_model(v@, 0)),
            None => None,
        },
    }
}

#[verifier::opaque]
pub open spec fn block_items_model(v: Seq<BlockItem>, i: int) -> Seq<BlockItemModel>
    decreases v, v.len() - i,
{
    if 0 <= i < v.len() {
        seq![block_item_model(v[i])] + block_items_model(v, i + 1)
    } else {
        Seq::<BlockItemModel>::empty()
    }
}

#[verifier::opaque]
pub open spec fn block_item_model(b: BlockItem) -> BlockItemModel
    decreases b,
{
    match b {
        BlockItem::Statement(s) => BlockItemModel::Statement(statement_model(s)),
        BlockItem::Declaration(d) => BlockItemModel::Declaration(declaration_model(d)),
    }
}

#[verifier::opaque]
pub open spec fn declaration_model(d: Declaration) -> DeclarationModel
    decreases d,
{
    DeclarationModel {
        id: d.m_id@,
        value: match d.m_value {
            Some(e) => Some(expression_model(e)),
            None => None,
        },
    }
}

#[verifier::opaque]
pub open spec fn statement_model(s: Statement) -> StatementModel
    decreases s,
{
    match s {
        Statement::Return(e) => StatementModel::Return(
            match e {
                Some(e) => Some(expression_model(e)),
                None => None,
            },
        ),
        Statement::Expression(e) => StatementModel::Expression(
            match e {
                Some(e) => Some(expression_model(e)),
                None => None,
            },
        ),
        Statement::If { m_condition, m_true_statement, m_else_statement } => StatementModel::If {
            cond: expression_model(m_condition),
            then: Box::new(statement_model(*m_true_statement)),
            els: match m_else_statement {
                Some(s) => Some(Box::new(statement_model(*s))),
                None => None,
            },
        },
        Statement::Compound { m_block_items } => StatementModel::Compound {
            items: block_items_model(m_block_items@, 0),
        },
        Statement::For { m_initial_expression, m_condition, m_post_expression, m_statement } => {
            StatementModel::For {
                init: match m_initial_expression {
                    Some(e) => Some(expression_model(e)),
                    None => None,
                },
                cond: expression_model(m_condition),
                post: match m_post_expression {
                    Some(e) => Some(expression_model(e)),
                    None => None,
                },
                body: Box::new(statement_model(*m_statement)),
            }
        },
        Statement::ForDecl { m_initial_declaration, m_condition, m_post_expression, m_statement } => {
            StatementModel::ForDecl {
                init: declaration_model(m_initial_declaration),
                cond: expression_model(m_condition),
                post: match m_post_expression {
                    Some(e) => Some(expression_model(e)),
                    None => None,
                },
                body: Box::new(statement_model(*m_statement)),
            }
        },
        Statement::While { m_condition, m_statement } => StatementModel::While {
            cond: expression_model(m_condition),
            body: Box::new(statement_model(*m_statement)),
        },
        Statement::Do { m_statement, m_condition } => StatementModel::Do {
            body: Box::new(statement_model(*m_statement)),
            cond: expression_model(m_condition),
        },
        Statement::Break => StatementModel::Break,
        Statement::Continue => StatementModel::Continue,
    }
}

#[verifier::opaque]
pub open spec fn expression_model(e: Expression) -> ExpressionModel
    decreases e,
{
    match e {
        Expression::Assignment { m_name, m_value } => ExpressionModel::Assignment {
            name: m_name@,
            value: Box::new(expression_model(*m_value)),
        },
        Expression::Operation(c) => ExpressionModel::Operation(conditional_model(c)),
    }
}

#[verifier::opaque]
pub open spec fn conditional_model(c: ConditionalExpression) -> ConditionalModel
    decreases c,
{
    ConditionalModel {
        cond: or_model(c.m_condition),
        yes: match c.m_true {
            Some(e) => Some(Box::new(expression_model(*e))),
            None => None,
        },
        no: match c.m_false {
            Some(e) => Some(Box::new(conditional_model(*e))),
            None => None,
        },
    }
}

#[verifier::opaque]
pub open spec fn or_model(e: LogicalOrExpresson) -> OrModel
    decreases e,
{
    OrModel { first: Box::new(and_model(*e.m_first)), rest: and_list_model(e.m_rest@, 0) }
}

#[verifier::opaque]
pub open spec fn and_list_model(v: Seq<LogicalAndExpression>, i: int) -> Seq<AndModel>
    decreases v, v.len() - i,
{
    if 0 <= i < v.len() {
        seq![and_model(v[i])] + and_list_model(v, i + 1)
    } else {
        Seq::<AndModel>::empty()
    }
}

#[verifier::opaque]
pub open spec fn and_model(e: LogicalAndExpression) -> AndModel
    decreases e,
{
    AndModel { first: Box::new(equality_model(*e.m_first)), rest: equality_list_model(e.m_rest@, 0) }
}

#[verifier::opaque]
pub open spec fn equality_list_model(v: Seq<EqualityExpression>, i: int) -> Seq<EqualityModel>
    decreases v, v.len() - i,
{
    if 0 <= i < v.len() {
        seq![equality_model(v[i])] + equality_list_model(v, i + 1)
    } else {
        Seq::<EqualityModel>::empty()
    }
}

#[verifier::opaque]
pub open spec fn equality_model(e: EqualityExpression) -> EqualityModel
    decreases e,
{
    EqualityModel {
        first: Box::new(relational_model(*e.m_first)),
        rest: relational_list_model(e.m_rest@, 0),
    }
}

#[verifier::opaque]
pub open spec fn relational_list_model(v: Seq<(EqualityOperator, RelationalExpression)>, i: int) -> Seq<
    (EqualityOperator, RelationalModel),
>
    decreases v, v.len() - i,
{
    if 0 <= i < v.len() {
        seq![(v[i].0, relational_model(v[i].1))] + relational_list_model(v, i + 1)
    } else {
        Seq::<(EqualityOperator, RelationalModel)>::empty()
    }
}

#[verifier::opaque]
pub open spec fn relational_model(e: RelationalExpression) -> RelationalModel
    decreases e,
{
    RelationalModel {
        first: Box::new(additive_model(*e.m_first)),
        rest: additive_list_model(e.m_rest@, 0),
    }
}

#[verifier::opaque]
pub open spec fn additive_list_model(v: Seq<(RelationalOperator, AdditiveExpression)>, i: int) -> Seq<
    (RelationalOperator, AdditiveModel),
>
    decreases v, v.len() - i,
{
    if 0 <= i < v.len() {
        seq![(v[i].0, additive_model(v[i].1))] + additive_list_model(v, i + 1)
    } else {
        Seq::<(RelationalOperator, AdditiveModel)>::empty()
    }
}

#[verifier::opaque]
pub open spec fn additive_model(e: AdditiveExpression) -> AdditiveModel
    decreases e,
{
    AdditiveModel {
        first: Box::new(term_model(*e.m_first_term)),
        rest: term_list_model(e.m_rest@, 0),
    }
}

#[verifier::opaque]
pub open spec fn term_list_model(v: Seq<(AdditiveOperator, Term)>, i: int) -> Seq<
    (AdditiveOperator, TermModel),
>
    decreases v, v.len() - i,
{
    if 0 <= i < v.len() {
        seq![(v[i].0, term_model(v[i].1))] + term_list_model(v, i + 1)
    } else {
        Seq::<(AdditiveOperator, TermModel)>::empty()
    }
}

#[verifier::opaque]
pub open spec fn term_model(t: Term) -> TermModel
    decreases t,
{
    TermModel {
        first: Box::new(factor_model(*t.m_first_factor)),
        rest: factor_list_model(t.m_rest@, 0),
    }
}

#[verifier::opaque]
pub open spec fn factor_list_model(v: Seq<(MultiplicativeOperator, Factor)>, i: int) -> Seq<
    (MultiplicativeOperator, FactorModel),
>
    decreases v, v.len() - i,
{
    if 0 <= i < v.len() {
        seq![(v[i].0, factor_model(v[i].1))] + factor_list_model(v, i + 1)
    } else {
        Seq::<(MultiplicativeOperator, FactorModel)>::empty()
    }
}

#[verifier::opaque]
pub open spec fn factor_model(f: Factor) -> FactorModel
    decreases f,
{
    match f {
        Factor::FunCall { m_id, m_arguments } => FactorModel::FunCall {
            id: m_id@,
            arguments: expressions_model(m_arguments@, 0),
        },
        Factor::Constant { m_value } => FactorModel::Constant { value: m_value },
        Factor::UnaryOperation { m_opertator, m_factor } => FactorModel::UnaryOperation {
            op: m_opertator,
            factor: Box::new(factor_model(*m_factor)),
        },
        Factor::Braced { m_expression } => FactorModel::Braced {
            expression: expression_model(m_expression),
        },
        Factor::Variable { m_var } => FactorModel::Variable { var: m_var@ },
    }
}

#[verifier::opaque]
pub open spec fn expressions_model(v: Seq<Expression>, i: int) -> Seq<ExpressionModel>
    decreases v, v.len() - i,
{
    if 0 <= i < v.len() {
        seq![expression_model(v[i])] + expressions_model(v, i + 1)
    } else {
        Seq::<ExpressionModel>::empty()
    }
}

// ---------------------------------------------------------------
// Length and index of the list models.
// ---------------------------------------------------------------

#[verifier::rlimit(50)]
pub proof fn lemma_functions_model(v: Seq<Function>, i: int)
    requires
        0 <= i <= v.len(),
    ensures
        functions_model(v, i).len() == v.len() - i,
        forall|j: int|
            0 <= j < v.len() - i ==> #[trigger] functions_model(v, i)[j] == function_model(v[i + j]),
    decreases v.len() - i,
{
    reveal(functions_model);
    reveal(function_model);
    if i < v.len() {
        lemma_functions_model(v, i + 1);
        assert(functions_model(v, i) == seq![function_model(v[i])] + functions_model(v, i + 1));
        assert forall|j: int| 0 <= j < v.len() - i implies #[trigger] functions_model(v, i)[j] == function_model(v[i + j]) by {
            if j == 0 {
                assert((seq![function_model(v[i])] + functions_model(v, i + 1))[0] == function_model(v[i]));
            } else {
                assert((seq![function_model(v[i])] + functions_model(v, i + 1))[j] == functions_model(v, i + 1)[j - 1]);
            }
        }
    }
}

#[verifier::rlimit(50)]
pub proof fn lemma_strings_model(v: Seq<String>, i: int)
    requires
        0 <= i <= v.len(),
    ensures
        strings_model(v, i).len() == v.len() - i,
        forall|j: int|
            0 <= j < v.len() - i ==> #[trigger] strings_model(v, i)[j] == v[i + j]@,
    decreases v.len() - i,
{
    reveal(strings_model);
    if i < v.len() {
        lemma_strings_model(v, i + 1);
        assert(strings_model(v, i) == seq![v[i]@] + strings_model(v, i + 1));
        assert forall|j: int| 0 <= j < v.len() - i implies #[trigger] strings_model(v, i)[j] == v[i + j]@ by {
            if j == 0 {
                assert((seq![v[i]@] + strings_model(v, i + 1))[0] == v[i]@);
            } else {
                assert((seq![v[i]@] + strings_model(v, i + 1))[j] == strings_model(v, i + 1)[j - 1]);
            }
        }
    }
}

#[verifier::rlimit(50)]
pub proof fn lemma_block_items_model(v: Seq<BlockItem>, i: int)
    requires
        0 <= i <= v.len(),
    ensures
        block_items_model(v, i).len() == v.len() - i,
        forall|j: int|
            0 <= j < v.len() - i ==> #[trigger] block_items_model(v, i)[j] == block_item_model(v[i + j]),
    decreases v.len() - i,
{
    reveal(block_items_model);
    reveal(block_item_model);
    if i < v.len() {
        lemma_block_items_model(v, i + 1);
        assert(block_items_model(v, i) == seq![block_item_model(v[i])] + block_items_model(v, i + 1));
        assert forall|j: int| 0 <= j < v.len() - i implies #[trigger] block_items_model(v, i)[j] == block_item_model(v[i + j]) by {
            if j == 0 {
                assert((seq![block_item_model(v[i])] + block_items_model(v, i + 1))[0] == block_item_model(v[i]));
            } else {
                assert((seq![block_item_model(v[i])] + block_items_model(v, i + 1))[j] == block_items_model(v, i + 1)[j - 1]);
            }
        }
    }
}

#[verifier::rlimit(50)]
pub proof fn lemma_and_list_model(v: Seq<LogicalAndExpression>, i: int)
    requires
        0 <= i <= v.len(),
    ensures
        and_list_model(v, i).len() == v.len() - i,
        forall|j: int|
            0 <= j < v.len() - i ==> #[trigger] and_list_model(v, i)[j] == and_model(v[i + j]),
    decreases v.len() - i,
{
    reveal(and_list_model);
    reveal(and_model);
    if i < v.len() {
        lemma_and_list_model(v, i + 1);
        assert(and_list_model(v, i) == seq![and_model(v[i])] + and_list_model(v, i + 1));
        assert forall|j: int| 0 <= j < v.len() - i implies #[trigger] and_list_model(v, i)[j] == and_model(v[i + j]) by {
            if j == 0 {
                assert((seq![and_model(v[i])] + and_list_model(v, i + 1))[0] == and_model(v[i]));
            } else {
                assert((seq![and_model(v[i])] + and_list_model(v, i + 1))[j] == and_list_model(v, i + 1)[j - 1]);
            }
        }
    }
}

#[verifier::rlimit(50)]
pub proof fn lemma_equality_list_model(v: Seq<EqualityExpression>, i: int)
    requires
        0 <= i <= v.len(),
    ensures
        equality_list_model(v, i).len() == v.len() - i,
        forall|j: int|
            0 <= j < v.len() - i ==> #[trigger] equality_list_model(v, i)[j] == equality_model(v[i + j]),
    decreases v.len() - i,
{
    reveal(equality_list_model);
    reveal(equality_model);
    if i < v.len() {
        lemma_equality_list_model(v, i + 1);
        assert(equality_list_model(v, i) == seq![equality_model(v[i])] + equality_list_model(v, i + 1));
        assert forall|j: int| 0 <= j < v.len() - i implies #[trigger] equality_list_model(v, i)[j] == equality_model(v[i + j]) by {
            if j == 0 {
                assert((seq![equality_model(v[i])] + equality_list_model(v, i + 1))[0] == equality_model(v[i]));
            } else {
                assert((seq![equality_model(v[i])] + equality_list_model(v, i + 1))[j] == equality_list_model(v, i + 1)[j - 1]);
            }
        }
    }
}

#[verifier::rlimit(50)]
pub proof fn lemma_relational_list_model(v: Seq<(EqualityOperator, RelationalExpression)>, i: int)
    requires
        0 <= i <= v.len(),
    ensures
        relational_list_model(v, i).len() == v.len() - i,
        forall|j: int|
            0 <= j < v.len() - i ==> #[trigger] relational_list_model(v, i)[j] == (v[i + j].0, relational_model(v[i + j].1)),
    decreases v.len() - i,
{
    reveal(relational_list_model);
    reveal(relational_model);
    if i < v.len() {
        lemma_relational_list_model(v, i + 1);
        assert(relational_list_model(v, i) == seq![(v[i].0, relational_model(v[i].1))] + relational_list_model(v, i + 1));
        assert forall|j: int| 0 <= j < v.len() - i implies #[trigger] relational_list_model(v, i)[j] == (v[i + j].0, relational_model(v[i + j].1)) by {
            if j == 0 {
                assert((seq![(v[i].0, relational_model(v[i].1))] + relational_list_model(v, i + 1))[0] == (v[i].0, relational_model(v[i].1)));
            } else {
                assert((seq![(v[i].0, relational_model(v[i].1))] + relational_list_model(v, i + 1))[j] == relational_list_model(v, i + 1)[j - 1]);
            }
        }
    }
}

#[verifier::rlimit(50)]
pub proof fn lemma_additive_list_model(v: Seq<(RelationalOperator, AdditiveExpression)>, i: int)
    requires
        0 <= i <= v.len(),
    ensures
        additive_list_model(v, i).len() == v.len() - i,
        forall|j: int|
            0 <= j < v.len() - i ==> #[trigger] additive_list_model(v, i)[j] == (v[i + j].0, additive_model(v[i + j].1)),
    decreases v.len() - i,
{
    reveal(additive_list_model);
    reveal(additive_model);
    if i < v.len() {
        lemma_additive_list_model(v, i + 1);
        assert(additive_list_model(v, i) == seq![(v[i].0, additive_model(v[i].1))] + additive_list_model(v, i + 1));
        assert forall|j: int| 0 <= j < v.len() - i implies #[trigger] additive_list_model(v, i)[j] == (v[i + j].0, additive_model(v[i + j].1)) by {
            if j == 0 {
                assert((seq![(v[i].0, additive_model(v[i].1))] + additive_list_model(v, i + 1))[0] == (v[i].0, additive_model(v[i].1)));
            } else {
                assert((seq![(v[i].0, additive_model(v[i].1))] + additive_list_model(v, i + 1))[j] == additive_list_model(v, i + 1)[j - 1]);
            }
        }
    }
}

#[verifier::rlimit(50)]
pub proof fn lemma_term_list_model(v: Seq<(AdditiveOperator, Term)>, i: int)
    requires
        0 <= i <= v.len(),
    ensures
        term_list_model(v, i).len() == v.len() - i,
        forall|j: int|
            0 <= j < v.len() - i ==> #[trigger] term_list_model(v, i)[j] == (v[i + j].0, term_model(v[i + j].1)),
    decreases v.len() - i,
{
    reveal(term_list_model);
    reveal(term_model);
    if i < v.len() {
        lemma_term_list_model(v, i + 1);
        assert(term_list_model(v, i) == seq![(v[i].0, term_model(v[i].1))] + term_list_model(v, i + 1));
        assert forall|j: int| 0 <= j < v.len() - i implies #[trigger] term_list_model(v, i)[j] == (v[i + j].0, term_model(v[i + j].1)) by {
            if j == 0 {
                assert((seq![(v[i].0, term_model(v[i].1))] + term_list_model(v, i + 1))[0] == (v[i].0, term_model(v[i].1)));
            } else {
                assert((seq![(v[i].0, term_model(v[i].1))] + term_list_model(v, i + 1))[j] == term_list_model(v, i + 1)[j - 1]);
            }
        }
    }
}

#[verifier::rlimit(50)]
pub proof fn lemma_factor_list_model(v: Seq<(MultiplicativeOperator, Factor)>, i: int)
    requires
        0 <= i <= v.len(),
    ensures
        factor_list_model(v, i).len() == v.len() - i,
        forall|j: int|
            0 <= j < v.len() - i ==> #[trigger] factor_list_model(v, i)[j] == (v[i + j].0, factor_model(v[i + j].1)),
    decreases v.len() - i,
{
    reveal(factor_list_model);
    reveal(factor_model);
    if i < v.len() {
        lemma_factor_list_model(v, i + 1);
        assert(factor_list_model(v, i) == seq![(v[i].0, factor_model(v[i].1))] + factor_list_model(v, i + 1));
        assert forall|j: int| 0 <= j < v.len() - i implies #[trigger] factor_list_model(v, i)[j] == (v[i + j].0, factor_model(v[i + j].1)) by {
            if j == 0 {
                assert((seq![(v[i].0, factor_model(v[i].1))] + factor_list_model(v, i + 1))[0] == (v[i].0, factor_model(v[i].1)));
            } else {
                assert((seq![(v[i].0, factor_model(v[i].1))] + factor_list_model(v, i + 1))[j] == factor_list_model(v, i + 1)[j - 1]);
            }
        }
    }
}

#[verifier::rlimit(50)]
pub proof fn lemma_expressions_model(v: Seq<Expression>, i: int)
    requires
        0 <= i <= v.len(),
    ensures
        expressions_model(v, i).len() == v.len() - i,
        forall|j: int|
            0 <= j < v.len() - i ==> #[trigger] expressions_model(v, i)[j] == expression_model(v[i + j]),
    decreases v.len() - i,
{
    reveal(expressions_model);
    reveal(expression_model);
    if i < v.len() {
        lemma_expressions_model(v, i + 1);
        assert(expressions_model(v, i) == seq![expression_model(v[i])] + expressions_model(v, i + 1));
        assert forall|j: int| 0 <= j < v.len() - i implies #[trigger] expressions_model(v, i)[j] == expression_model(v[i + j]) by {
            if j == 0 {
                assert((seq![expression_model(v[i])] + expressions_model(v, i + 1))[0] == expression_model(v[i]));
            } else {
                assert((seq![expression_model(v[i])] + expressions_model(v, i + 1))[j] == expressions_model(v, i + 1)[j - 1]);
            }
        }
    }
}

} // verus!
