//! The semantic analyser: walks the tree once and rejects a call
//! to an undeclared function and a call whose argument count does
//! not match the declaration. It keeps a stack of scopes, each a
//! table from name to symbol; variable references are left to the
//! generator by design.

use vstd::prelude::*;

use crate::ast::{
    additive_list_model, additive_model, and_list_model, and_model, block_item_model,
    block_items_model, conditional_model, declaration_model, equality_list_model, equality_model,
    expression_model, expressions_model, factor_list_model, factor_model, function_model,
    functions_model, lemma_additive_list_model, lemma_and_list_model, lemma_block_items_model,
    lemma_equality_list_model, lemma_expressions_model, lemma_factor_list_model,
    lemma_functions_model, lemma_relational_list_model, lemma_strings_model, lemma_term_list_model,
    or_model, program_model, relational_list_model, relational_model, statement_model,
    strings_model, term_list_model, term_model, AdditiveExpression, AdditiveModel,
    AdditiveOperator, AndModel, BlockItem, BlockItemModel, ConditionalExpression, ConditionalModel,
    Declaration, DeclarationModel, EqualityExpression, EqualityModel, EqualityOperator, Expression,
    ExpressionModel, Factor, FactorModel, Function, FunctionModel, FunctionType,
    LogicalAndExpression, LogicalOrExpresson, MultiplicativeOperator, OrModel, Program,
    ProgramModel, RelationalExpression, RelationalModel, RelationalOperator, Statement,
    StatementModel, Term, TermModel,
};
use crate::text::str_eq;
use vstd::string::StringExecFns;

verus! {

/// The analysis errors the core can surface; this walker raises
/// only `FunctionError`.
#[derive(Debug)]
pub enum AnalysisError {
    TypeError(String, String),
    UndeclaredIdentifier(String, String),
    UninitializedVariable(String, String),
    ReturnError(String, String),
    AssignmentError(String, String),
    DuplicateDeclaration(String, String),
    FunctionError(String, String),
}

/// A recorded function signature: return type and parameter names.
#[derive(Debug)]
pub struct FunctionDef {
    pub m_type: FunctionType,
    pub m_parameters: Vec<String>,
}

impl FunctionDef {
    /// An exact copy: same type tag, same parameter names.
    pub fn clone(&self) -> (r: FunctionDef)
        ensures
            r.m_type == self.m_type,
            r.m_parameters@.len() == self.m_parameters@.len(),
            forall|i: int|
                0 <= i < self.m_parameters@.len() ==> r.m_parameters@[i]@
                    == self.m_parameters@[i]@,
    {
        let mut params: Vec<String> = Vec::new();
        let mut i: usize = 0;
        while i < self.m_parameters.len()
            invariant
                i <= self.m_parameters@.len(),
                params@.len() == i,
                forall|j: int| 0 <= j < i ==> params@[j]@ == self.m_parameters@[j]@,
            decreases self.m_parameters@.len() - i,
        {
            params.push(self.m_parameters[i].clone());
            i = i + 1;
        }
        FunctionDef { m_type: self.m_type, m_parameters: params }
    }
}

/// A name in scope: a function signature or an integer variable.
#[derive(Debug)]
pub enum Symbol {
    Func(FunctionDef),
    Var,
}



// ---------------------------------------------------------------
// The model of the analysis: a flat table of recorded function
// signatures, and a verdict for every node of the tree model.
// ---------------------------------------------------------------

/// The model of an analysis error.
#[verifier::ext_equal]
pub enum AnalysisErrorModel {
    TypeError(Seq<char>, Seq<char>),
    UndeclaredIdentifier(Seq<char>, Seq<char>),
    UninitializedVariable(Seq<char>, Seq<char>),
    ReturnError(Seq<char>, Seq<char>),
    AssignmentError(Seq<char>, Seq<char>),
    DuplicateDeclaration(Seq<char>, Seq<char>),
    FunctionError(Seq<char>, Seq<char>),
}

pub open spec fn analysis_error_model(e: AnalysisError) -> AnalysisErrorModel {
    match e {
        AnalysisError::TypeError(a, b) => AnalysisErrorModel::TypeError(a@, b@),
        AnalysisError::UndeclaredIdentifier(a, b) => AnalysisErrorModel::UndeclaredIdentifier(
            a@,
            b@,
        ),
        AnalysisError::UninitializedVariable(a, b) => AnalysisErrorModel::UninitializedVariable(
            a@,
            b@,
        ),
        AnalysisError::ReturnError(a, b) => AnalysisErrorModel::ReturnError(a@, b@),
        AnalysisError::AssignmentError(a, b) => AnalysisErrorModel::AssignmentError(a@, b@),
        AnalysisError::DuplicateDeclaration(a, b) => AnalysisErrorModel::DuplicateDeclaration(
            a@,
            b@,
        ),
        AnalysisError::FunctionError(a, b) => AnalysisErrorModel::FunctionError(a@, b@),
    }
}

/// A recorded signature in the model: name and parameter count.
pub type FnTable = Seq<(Seq<char>, nat)>;

/// Every symbol the walker records is a function signature.
pub open spec fn scope_wf(sc: Seq<(String, Symbol)>) -> bool {
    forall|k: int| 0 <= k < sc.len() ==> (#[trigger] sc[k].1) is Func
}

pub open spec fn ctx_wf(ctx: Seq<Vec<(String, Symbol)>>) -> bool {
    forall|i: int| 0 <= i < ctx.len() ==> scope_wf(#[trigger] ctx[i]@)
}

/// The table a scope contributes: its first `k` entries.
pub open spec fn scope_model(sc: Seq<(String, Symbol)>, k: int) -> FnTable
    decreases k,
{
    if k <= 0 || k > sc.len() {
        Seq::empty()
    } else {
        scope_model(sc, k - 1).push(
            (
                sc[k - 1].0@,
                match sc[k - 1].1 {
                    Symbol::Func(fd) => fd.m_parameters@.len(),
                    Symbol::Var => 0,
                },
            ),
        )
    }
}

/// The table the first `s` scopes contribute, innermost last.
pub open spec fn ctx_model_upto(ctx: Seq<Vec<(String, Symbol)>>, s: int) -> FnTable
    decreases s,
{
    if s <= 0 || s > ctx.len() {
        Seq::empty()
    } else {
        ctx_model_upto(ctx, s - 1) + scope_model(ctx[s - 1]@, ctx[s - 1]@.len() as int)
    }
}

/// The whole recorded table of an analyser.
pub open spec fn ctx_model(ctx: Seq<Vec<(String, Symbol)>>) -> FnTable {
    ctx_model_upto(ctx, ctx.len() as int)
}

/// Name resolution: the most recently recorded signature wins.
pub open spec fn fn_lookup(fns: FnTable, id: Seq<char>) -> Option<nat>
    decreases fns.len(),
{
    if fns.len() == 0 {
        None
    } else if fns.last().0 == id {
        Some(fns.last().1)
    } else {
        fn_lookup(fns.drop_last(), id)
    }
}

// The verdict of the walk, for each node of the tree model. The
// table never changes below function level, and the walker checks
// exactly the call sites: a call must resolve, and its argument
// count must equal the recorded parameter count. Arguments of a
// call are not themselves walked, as the walk order of the
// analyser prescribes.

#[verifier::opaque]
pub open spec fn sa_factor(fns: FnTable, f: FactorModel) -> Result<(), AnalysisErrorModel>
    decreases f, 1int,
{
    match f {
        FactorModel::FunCall { id, arguments } => {
            match fn_lookup(fns, id) {
                None => Err(AnalysisErrorModel::FunctionError(id, "Undefined identifier"@)),
                Some(n) => if arguments.len() == n {
                    Ok(())
                } else {
                    Err(AnalysisErrorModel::FunctionError(id, "Invalid Arguments"@))
                },
            }
        },
        FactorModel::Constant { value: _ } => Ok(()),
        FactorModel::UnaryOperation { op: _, factor } => sa_factor(fns, *factor),
        FactorModel::Braced { expression } => sa_expression(fns, expression),
        FactorModel::Variable { var: _ } => Ok(()),
    }
}

#[verifier::opaque]
pub open spec fn sa_factor_list(
    fns: FnTable,
    v: Seq<(MultiplicativeOperator, FactorModel)>,
    i: int,
) -> Result<(), AnalysisErrorModel>
    decreases v, v.len() - i, 0int,
{
    if 0 <= i < v.len() {
        match sa_factor(fns, v[i].1) {
            Ok(_) => sa_factor_list(fns, v, i + 1),
            Err(e) => Err(e),
        }
    } else {
        Ok(())
    }
}

#[verifier::opaque]
pub open spec fn sa_term(fns: FnTable, t: TermModel) -> Result<(), AnalysisErrorModel>
    decreases t, 2int,
{
    match sa_factor(fns, *t.first) {
        Ok(_) => sa_factor_list(fns, t.rest, 0),
        Err(e) => Err(e),
    }
}

#[verifier::opaque]
pub open spec fn sa_term_list(
    fns: FnTable,
    v: Seq<(AdditiveOperator, TermModel)>,
    i: int,
) -> Result<(), AnalysisErrorModel>
    decreases v, v.len() - i, 0int,
{
    if 0 <= i < v.len() {
        match sa_term(fns, v[i].1) {
            Ok(_) => sa_term_list(fns, v, i + 1),
            Err(e) => Err(e),
        }
    } else {
        Ok(())
    }
}

#[verifier::opaque]
pub open spec fn sa_additive(fns: FnTable, a: AdditiveModel) -> Result<(), AnalysisErrorModel>
    decreases a, 3int,
{
    match sa_term(fns, *a.first) {
        Ok(_) => sa_term_list(fns, a.rest, 0),
        Err(e) => Err(e),
    }
}

#[verifier::opaque]
pub open spec fn sa_additive_list(
    fns: FnTable,
    v: Seq<(RelationalOperator, AdditiveModel)>,
    i: int,
) -> Result<(), AnalysisErrorModel>
    decreases v, v.len() - i, 0int,
{
    if 0 <= i < v.len() {
        match sa_additive(fns, v[i].1) {
            Ok(_) => sa_additive_list(fns, v, i + 1),
            Err(e) => Err(e),
        }
    } else {
        Ok(())
    }
}

#[verifier::opaque]
pub open spec fn sa_relational(fns: FnTable, r: RelationalModel) -> Result<(), AnalysisErrorModel>
    decreases r, 4int,
{
    match sa_additive(fns, *r.first) {
        Ok(_) => sa_additive_list(fns, r.rest, 0),
        Err(e) => Err(e),
    }
}

#[verifier::opaque]
pub open spec fn sa_relational_list(
    fns: FnTable,
    v: Seq<(EqualityOperator, RelationalModel)>,
    i: int,
) -> Result<(), AnalysisErrorModel>
    decreases v, v.len() - i, 0int,
{
    if 0 <= i < v.len() {
        match sa_relational(fns, v[i].1) {
            Ok(_) => sa_relational_list(fns, v, i + 1),
            Err(e) => Err(e),
        }
    } else {
        Ok(())
    }
}

#[verifier::opaque]
pub open spec fn sa_equality(fns: FnTable, e: EqualityModel) -> Result<(), AnalysisErrorModel>
    decreases e, 5int,
{
    match sa_relational(fns, *e.first) {
        Ok(_) => sa_relational_list(fns, e.rest, 0),
        Err(er) => Err(er),
    }
}

#[verifier::opaque]
pub open spec fn sa_equality_list(fns: FnTable, v: Seq<EqualityModel>, i: int) -> Result<
    (),
    AnalysisErrorModel,
>
    decreases v, v.len() - i, 0int,
{
    if 0 <= i < v.len() {
        match sa_equality(fns, v[i]) {
            Ok(_) => sa_equality_list(fns, v, i + 1),
            Err(e) => Err(e),
        }
    } else {
        Ok(())
    }
}

#[verifier::opaque]
pub open spec fn sa_and(fns: FnTable, a: AndModel) -> Result<(), AnalysisErrorModel>
    decreases a, 6int,
{
    match sa_equality(fns, *a.first) {
        Ok(_) => sa_equality_list(fns, a.rest, 0),
        Err(e) => Err(e),
    }
}

#[verifier::opaque]
pub open spec fn sa_and_list(fns: FnTable, v: Seq<AndModel>, i: int) -> Result<
    (),
    AnalysisErrorModel,
>
    decreases v, v.len() - i, 0int,
{
    if 0 <= i < v.len() {
        match sa_and(fns, v[i]) {
            Ok(_) => sa_and_list(fns, v, i + 1),
            Err(e) => Err(e),
        }
    } else {
        Ok(())
    }
}

#[verifier::opaque]
pub open spec fn sa_or(fns: FnTable, o: OrModel) -> Result<(), AnalysisErrorModel>
    decreases o, 7int,
{
    match sa_and(fns, *o.first) {
        Ok(_) => sa_and_list(fns, o.rest, 0),
        Err(e) => Err(e),
    }
}

/// The walker looks at the true arm, then the false arm, then the
/// condition, exactly in the order the analysis prescribes.
#[verifier::opaque]
pub open spec fn sa_conditional(fns: FnTable, c: ConditionalModel) -> Result<
    (),
    AnalysisErrorModel,
>
    decreases c, 8int,
{
    let after_yes: Result<(), AnalysisErrorModel> = match c.yes {
        Some(e) => sa_expression(fns, *e),
        None => Ok(()),
    };
    match after_yes {
        Ok(_) => {
            let after_no: Result<(), AnalysisErrorModel> = match c.no {
                Some(n) => sa_conditional(fns, *n),
                None => Ok(()),
            };
            match after_no {
                Ok(_) => sa_or(fns, c.cond),
                Err(e) => Err(e),
            }
        },
        Err(e) => Err(e),
    }
}

#[verifier::opaque]
pub open spec fn sa_expression(fns: FnTable, e: ExpressionModel) -> Result<
    (),
    AnalysisErrorModel,
>
    decreases e, 9int,
{
    match e {
        ExpressionModel::Assignment { name: _, value } => sa_expression(fns, *value),
        ExpressionModel::Operation(c) => sa_conditional(fns, c),
    }
}

#[verifier::opaque]
pub open spec fn sa_declaration(fns: FnTable, d: DeclarationModel) -> Result<
    (),
    AnalysisErrorModel,
>
    decreases d, 10int,
{
    match d.value {
        Some(e) => sa_expression(fns, e),
        None => Ok(()),
    }
}

/// The verdict for a statement; the walk order (else-arm before
/// condition, post-expression before condition) follows the
/// analyser exactly.
#[verifier::opaque]
pub open spec fn sa_statement(fns: FnTable, s: StatementModel) -> Result<(), AnalysisErrorModel>
    decreases s, 11int,
{
    match s {
        StatementModel::Return(e) => match e {
            None => Ok(()),
            Some(e) => sa_expression(fns, e),
        },
        StatementModel::Expression(e) => match e {
            None => Ok(()),
            Some(e) => sa_expression(fns, e),
        },
        StatementModel::If { cond, then, els } => {
            let after_else: Result<(), AnalysisErrorModel> = match els {
                Some(s2) => sa_statement(fns, *s2),
                None => Ok(()),
            };
            match after_else {
                Ok(_) => match sa_expression(fns, cond) {
                    Ok(_) => sa_statement(fns, *then),
                    Err(e) => Err(e),
                },
                Err(e) => Err(e),
            }
        },
        StatementModel::Compound { items } => sa_block_items(fns, items, 0),
        StatementModel::For { init, cond, post, body } => {
            let after_init: Result<(), AnalysisErrorModel> = match init {
                Some(e) => sa_expression(fns, e),
                None => Ok(()),
            };
            match after_init {
                Ok(_) => {
                    let after_post: Result<(), AnalysisErrorModel> = match post {
                        Some(e) => sa_expression(fns, e),
                        None => Ok(()),
                    };
                    match after_post {
                        Ok(_) => match sa_expression(fns, cond) {
                            Ok(_) => sa_statement(fns, *body),
                            Err(e) => Err(e),
                        },
                        Err(e) => Err(e),
                    }
                },
                Err(e) => Err(e),
            }
        },
        StatementModel::ForDecl { init, cond, post, body } => {
            let after_post: Result<(), AnalysisErrorModel> = match post {
                Some(e) => sa_expression(fns, e),
                None => Ok(()),
            };
            match after_post {
                Ok(_) => match sa_expression(fns, cond) {
                    Ok(_) => match sa_declaration(fns, init) {
                        Ok(_) => sa_statement(fns, *body),
                        Err(e) => Err(e),
                    },
                    Err(e) => Err(e),
                },
                Err(e) => Err(e),
            }
        },
        StatementModel::While { cond, body } => {
            match sa_expression(fns, cond) {
                Ok(_) => sa_statement(fns, *body),
                Err(e) => Err(e),
            }
        },
        StatementModel::Do { body, cond } => {
            match sa_expression(fns, cond) {
                Ok(_) => sa_statement(fns, *body),
                Err(e) => Err(e),
            }
        },
        StatementModel::Break => Ok(()),
        StatementModel::Continue => Ok(()),
    }
}

#[verifier::opaque]
pub open spec fn sa_block_item(fns: FnTable, b: BlockItemModel) -> Result<
    (),
    AnalysisErrorModel,
>
    decreases b, 12int,
{
    match b {
        BlockItemModel::Statement(s) => sa_statement(fns, s),
        BlockItemModel::Declaration(d) => sa_declaration(fns, d),
    }
}

#[verifier::opaque]
pub open spec fn sa_block_items(fns: FnTable, v: Seq<BlockItemModel>, i: int) -> Result<
    (),
    AnalysisErrorModel,
>
    decreases v, v.len() - i, 13int,
{
    if 0 <= i < v.len() {
        match sa_block_item(fns, v[i]) {
            Ok(_) => sa_block_items(fns, v, i + 1),
            Err(e) => Err(e),
        }
    } else {
        Ok(())
    }
}

/// One function: a redeclaration must keep the recorded parameter
/// count; a first declaration is recorded; the body, if any, is
/// walked against the updated table.
#[verifier::opaque]
pub open spec fn sa_function(fns: FnTable, f: FunctionModel) -> Result<
    FnTable,
    AnalysisErrorModel,
>
    decreases f,
{
    let fns2: FnTable = match fn_lookup(fns, f.id) {
        Some(_) => fns,
        None => fns.push((f.id, f.params.len())),
    };
    match fn_lookup(fns, f.id) {
        Some(n) => {
            if f.params.len() != n {
                Err(
                    AnalysisErrorModel::FunctionError(
                        f.id,
                        "Function declaration type error"@,
                    ),
                )
            } else {
                match f.items {
                    Some(items) => match sa_block_items(fns2, items, 0) {
                        Ok(_) => Ok(fns2),
                        Err(e) => Err(e),
                    },
                    None => Ok(fns2),
                }
            }
        },
        None => {
            match f.items {
                Some(items) => match sa_block_items(fns2, items, 0) {
                    Ok(_) => Ok(fns2),
                    Err(e) => Err(e),
                },
                None => Ok(fns2),
            }
        },
    }
}


/// Relates the verdict of a recorded function's body to the
/// verdict of the whole function.
pub open spec fn sa_fn_items_link(
    orig: FnTable,
    fm: FunctionModel,
    fns2: FnTable,
    items_m: Seq<BlockItemModel>,
) -> bool {
    match sa_block_items(fns2, items_m, 0) {
        Ok(_) => sa_function(orig, fm) == Ok::<FnTable, AnalysisErrorModel>(fns2),
        Err(e) => sa_function(orig, fm) == Err::<FnTable, AnalysisErrorModel>(e),
    }
}

/// The functions of a program in order, threading the table.
#[verifier::opaque]
pub open spec fn sa_functions(fns: FnTable, v: Seq<FunctionModel>, i: int) -> Result<
    FnTable,
    AnalysisErrorModel,
>
    decreases v, v.len() - i,
{
    if 0 <= i < v.len() {
        match sa_function(fns, v[i]) {
            Ok(fns2) => sa_functions(fns2, v, i + 1),
            Err(e) => Err(e),
        }
    } else {
        Ok(fns)
    }
}

/// The verdict for a whole program against a starting table.
pub open spec fn sa_program_from(fns: FnTable, p: ProgramModel) -> Result<
    FnTable,
    AnalysisErrorModel,
> {
    sa_functions(fns, p.functions, 0)
}

/// A program is accepted exactly when, scanning its functions in
/// order from an empty table, no function is redeclared with a
/// different parameter count and every call resolves to an
/// already-recorded function whose arity equals the argument
/// count.
pub open spec fn ok_program(p: ProgramModel) -> bool {
    sa_program_from(Seq::empty(), p) is Ok
}

/// The size of a statement subtree, counting statements and block
/// items only: the measure for the statement walker.
pub open spec fn st_size(s: Statement) -> nat
    decreases s,
{
    match s {
        Statement::If { m_condition: _, m_true_statement, m_else_statement } => {
            1 + st_size(*m_true_statement) + (match m_else_statement {
                Some(e) => st_size(*e),
                None => 0nat,
            })
        },
        Statement::Compound { m_block_items } => 1 + bi_list_size(m_block_items@, 0),
        Statement::For { m_initial_expression: _, m_condition: _, m_post_expression: _, m_statement } => {
            1 + st_size(*m_statement)
        },
        Statement::ForDecl { m_initial_declaration: _, m_condition: _, m_post_expression: _, m_statement } => {
            1 + st_size(*m_statement)
        },
        Statement::While { m_condition: _, m_statement } => 1 + st_size(*m_statement),
        Statement::Do { m_statement, m_condition: _ } => 1 + st_size(*m_statement),
        _ => 1,
    }
}

pub open spec fn bi_size(b: BlockItem) -> nat
    decreases b,
{
    match b {
        BlockItem::Statement(s) => 1 + st_size(s),
        BlockItem::Declaration(_) => 1,
    }
}

pub open spec fn bi_list_size(v: Seq<BlockItem>, i: int) -> nat
    decreases v, v.len() - i,
{
    if 0 <= i < v.len() {
        bi_size(v[i]) + bi_list_size(v, i + 1)
    } else {
        0
    }
}

/// Every item of a block weighs no more than the whole block.
pub proof fn lemma_bi_list_size(v: Seq<BlockItem>, i: int)
    requires
        0 <= i <= v.len(),
    ensures
        forall|j: int| i <= j < v.len() ==> #[trigger] bi_size(v[j]) <= bi_list_size(v, i),
    decreases v.len() - i,
{
    if i < v.len() {
        lemma_bi_list_size(v, i + 1);
        assert forall|j: int| i <= j < v.len() implies #[trigger] bi_size(v[j]) <= bi_list_size(
            v,
            i,
        ) by {
            if j > i {
                assert(bi_size(v[j]) <= bi_list_size(v, i + 1));
            }
        }
    }
}


// ---------------------------------------------------------------
// Facts about the recorded table under the walker's state changes.
// ---------------------------------------------------------------

proof fn lemma_scope_model_prefix(sc1: Seq<(String, Symbol)>, sc2: Seq<(String, Symbol)>, k: int)
    requires
        0 <= k <= sc1.len(),
        k <= sc2.len(),
        forall|j: int| 0 <= j < k ==> sc1[j] == sc2[j],
    ensures
        scope_model(sc1, k) == scope_model(sc2, k),
    decreases k,
{
    if k > 0 {
        lemma_scope_model_prefix(sc1, sc2, k - 1);
    }
}

proof fn lemma_upto_prefix(
    ctx1: Seq<Vec<(String, Symbol)>>,
    ctx2: Seq<Vec<(String, Symbol)>>,
    s: int,
)
    requires
        0 <= s <= ctx1.len(),
        s <= ctx2.len(),
        forall|i: int| 0 <= i < s ==> ctx1[i] == ctx2[i],
    ensures
        ctx_model_upto(ctx1, s) == ctx_model_upto(ctx2, s),
    decreases s,
{
    if s > 0 {
        lemma_upto_prefix(ctx1, ctx2, s - 1);
    }
}

/// Opening an empty scope leaves the table as it was.
proof fn lemma_ctx_model_push_empty(ctx: Seq<Vec<(String, Symbol)>>, v: Vec<(String, Symbol)>)
    requires
        v@.len() == 0,
    ensures
        ctx_model(ctx.push(v)) == ctx_model(ctx),
{
    let ctx2 = ctx.push(v);
    lemma_upto_prefix(ctx2, ctx, ctx.len() as int);
    assert(ctx_model_upto(ctx2, ctx2.len() as int) == ctx_model_upto(ctx2, ctx.len() as int)
        + scope_model(v@, 0));
    assert(ctx_model_upto(ctx, ctx.len() as int) + scope_model(v@, 0) =~= ctx_model_upto(
        ctx,
        ctx.len() as int,
    ));
}

/// Closing an empty scope leaves the table as it was.
proof fn lemma_ctx_model_drop_empty(ctx: Seq<Vec<(String, Symbol)>>)
    requires
        ctx.len() > 0,
        ctx.last()@.len() == 0,
    ensures
        ctx_model(ctx.drop_last()) == ctx_model(ctx),
{
    lemma_upto_prefix(ctx, ctx.drop_last(), ctx.len() - 1);
    assert(ctx_model_upto(ctx, ctx.len() as int) == ctx_model_upto(ctx, ctx.len() - 1)
        + scope_model(ctx.last()@, 0));
    assert(ctx_model_upto(ctx, ctx.len() - 1) + scope_model(ctx.last()@, 0) =~= ctx_model_upto(
        ctx,
        ctx.len() - 1,
    ));
}

/// Recording a signature in the innermost scope appends it to the
/// table.
proof fn lemma_ctx_model_add(
    ctx: Seq<Vec<(String, Symbol)>>,
    ctx2: Seq<Vec<(String, Symbol)>>,
    p: (String, Symbol),
)
    requires
        ctx.len() > 0,
        ctx2.len() == ctx.len(),
        forall|i: int| 0 <= i < ctx.len() - 1 ==> ctx[i] == ctx2[i],
        ctx2.last()@ == ctx.last()@.push(p),
    ensures
        ctx_model(ctx2) == ctx_model(ctx).push(
            (
                p.0@,
                match p.1 {
                    Symbol::Func(fd) => fd.m_parameters@.len(),
                    Symbol::Var => 0nat,
                },
            ),
        ),
{
    let n = ctx.len() as int;
    let sc = ctx.last()@;
    let sc2 = ctx2.last()@;
    lemma_upto_prefix(ctx2, ctx, n - 1);
    lemma_scope_model_prefix(sc2, sc, sc.len() as int);
    assert(ctx_model_upto(ctx2, n) == ctx_model_upto(ctx2, n - 1) + scope_model(
        sc2,
        sc2.len() as int,
    ));
    assert(scope_model(sc2, sc2.len() as int) == scope_model(sc2, sc.len() as int).push(
        (
            p.0@,
            match p.1 {
                Symbol::Func(fd) => fd.m_parameters@.len(),
                Symbol::Var => 0nat,
            },
        ),
    ));
    assert(ctx_model_upto(ctx, n) == ctx_model_upto(ctx, n - 1) + scope_model(
        sc,
        sc.len() as int,
    ));
    assert(ctx_model_upto(ctx, n - 1) + scope_model(sc, sc.len() as int).push(
        (
            p.0@,
            match p.1 {
                Symbol::Func(fd) => fd.m_parameters@.len(),
                Symbol::Var => 0nat,
            },
        ),
    ) =~= (ctx_model_upto(ctx, n - 1) + scope_model(sc, sc.len() as int)).push(
        (
            p.0@,
            match p.1 {
                Symbol::Func(fd) => fd.m_parameters@.len(),
                Symbol::Var => 0nat,
            },
        ),
    ));
}


/// The parameter count of a recorded function symbol.
fn func_arity(sym: &Symbol) -> (r: usize)
    requires
        sym is Func,
    ensures
        r as nat == sym->Func_0.m_parameters@.len(),
{
    match sym {
        Symbol::Func(f) => f.m_parameters.len(),
        Symbol::Var => 0,
    }
}

/// The walker: a stack of scopes, innermost last.
pub struct Analyser {
    pub context: Vec<Vec<(String, Symbol)>>,
}

impl Analyser {
    /// A fresh analyser: no scope open, nothing recorded.
    pub fn new() -> (r: Analyser)
        ensures
            r.context@.len() == 0,
            ctx_model(r.context@) == Seq::<(Seq<char>, nat)>::empty(),
            ctx_wf(r.context@),
    {
        let r = Analyser { context: Vec::new() };
        proof {
            assert(ctx_model(r.context@) =~= Seq::<(Seq<char>, nat)>::empty());
        }
        r
    }

    fn open_scope(&mut self)
        ensures
            final(self).context@.len() == old(self).context@.len() + 1,
            final(self).context@ == old(self).context@.push(final(self).context@.last()),
            final(self).context@.last()@.len() == 0,
            ctx_model(final(self).context@) == ctx_model(old(self).context@),
            ctx_wf(old(self).context@) ==> ctx_wf(final(self).context@),
    {
        let v: Vec<(String, Symbol)> = Vec::new();
        proof {
            lemma_ctx_model_push_empty(self.context@, v);
        }
        self.context.push(v);
        proof {
            if ctx_wf(old(self).context@) {
                assert forall|i: int| 0 <= i < self.context@.len() implies scope_wf(
                    #[trigger] self.context@[i]@,
                ) by {
                    if i < old(self).context@.len() {
                        assert(self.context@[i] == old(self).context@[i]);
                    }
                }
            }
        }
    }

    /// Closes the innermost scope; the walker only ever closes
    /// scopes it opened and left empty, so the table is unchanged.
    fn close_scope(&mut self)
        requires
            old(self).context@.len() > 0,
            old(self).context@.last()@.len() == 0,
        ensures
            final(self).context@ == old(self).context@.drop_last(),
            ctx_model(final(self).context@) == ctx_model(old(self).context@),
            ctx_wf(old(self).context@) ==> ctx_wf(final(self).context@),
    {
        proof {
            lemma_ctx_model_drop_empty(self.context@);
        }
        self.context.pop();
        proof {
            if ctx_wf(old(self).context@) {
                assert forall|i: int| 0 <= i < self.context@.len() implies scope_wf(
                    #[trigger] self.context@[i]@,
                ) by {
                    assert(self.context@[i] == old(self).context@[i]);
                }
            }
        }
    }

    /// Records a signature in the innermost scope.
    fn add_function(&mut self, id: String, func: FunctionDef)
        requires
            old(self).context@.len() > 0,
            ctx_wf(old(self).context@),
        ensures
            final(self).context@.len() == old(self).context@.len(),
            ctx_model(final(self).context@) == ctx_model(old(self).context@).push(
                (id@, func.m_parameters@.len()),
            ),
            ctx_wf(final(self).context@),
    {
        let ghost ctx0 = self.context@;
        let ghost arity = func.m_parameters@.len();
        let ghost idm = id@;
        let mut scope = match self.context.pop() {
            Some(s) => s,
            None => Vec::new(),
        };
        scope.push((id, Symbol::Func(func)));
        self.context.push(scope);
        proof {
            assert(self.context@.len() == ctx0.len());
            assert forall|i: int| 0 <= i < ctx0.len() - 1 implies ctx0[i]
                == self.context@[i] by {}
            lemma_ctx_model_add(
                ctx0,
                self.context@,
                self.context@.last()@.last(),
            );
            assert forall|i: int| 0 <= i < self.context@.len() implies scope_wf(
                #[trigger] self.context@[i]@,
            ) by {
                if i < ctx0.len() - 1 {
                    assert(self.context@[i] == ctx0[i]);
                } else {
                    assert(self.context@[i]@ == ctx0.last()@.push(
                        self.context@.last()@.last(),
                    ));
                    assert forall|k: int| 0 <= k < self.context@[i]@.len() implies (
                    #[trigger] self.context@[i]@[k].1) is Func by {
                        if k < ctx0.last()@.len() {
                            assert(self.context@[i]@[k] == ctx0.last()@[k]);
                            assert(scope_wf(ctx0.last()@));
                        }
                    }
                }
            }
        }
    }

    /// Resolves `id` against the recorded table, innermost first:
    /// the parameter count of the most recent signature of that
    /// name.
    fn num_arguments(&self, id: &String) -> (r: Option<usize>)
        requires
            ctx_wf(self.context@),
        ensures
            match (r, fn_lookup(ctx_model(self.context@), id@)) {
                (Some(n), Some(m)) => n as nat == m,
                (None, None) => true,
                _ => false,
            },
    {
        let ghost ctx = self.context@;
        let ghost full = ctx_model(ctx);
        let mut s: usize = self.context.len();
        while s > 0
            invariant
                ctx == self.context@,
                full == ctx_model(ctx),
                ctx_wf(ctx),
                s <= ctx.len(),
                fn_lookup(full, id@) == fn_lookup(ctx_model_upto(ctx, s as int), id@),
            decreases s,
        {
            s = s - 1;
            let scope = &self.context[s];
            let ghost sc = scope@;
            let mut k: usize = scope.len();
            proof {
                assert(ctx_model_upto(ctx, s + 1) == ctx_model_upto(ctx, s as int)
                    + scope_model(sc, sc.len() as int));
            }
            while k > 0
                invariant
                    ctx == self.context@,
                    full == ctx_model(ctx),
                    ctx_wf(ctx),
                    s < ctx.len(),
                    sc == ctx[s as int]@,
                    sc == scope@,
                    k <= sc.len(),
                    fn_lookup(full, id@) == fn_lookup(
                        ctx_model_upto(ctx, s as int) + scope_model(sc, k as int),
                        id@,
                    ),
                decreases k,
            {
                k = k - 1;
                let ghost pre = ctx_model_upto(ctx, s as int) + scope_model(sc, k as int);
                proof {
                    assert(scope_model(sc, k + 1) == scope_model(sc, k as int).push(
                        (
                            sc[k as int].0@,
                            match sc[k as int].1 {
                                Symbol::Func(fd) => fd.m_parameters@.len(),
                                Symbol::Var => 0nat,
                            },
                        ),
                    ));
                    assert(ctx_model_upto(ctx, s as int) + scope_model(sc, k + 1) =~= pre.push(
                        (
                            sc[k as int].0@,
                            match sc[k as int].1 {
                                Symbol::Func(fd) => fd.m_parameters@.len(),
                                Symbol::Var => 0nat,
                            },
                        ),
                    ));
                    assert((pre.push(
                        (
                            sc[k as int].0@,
                            match sc[k as int].1 {
                                Symbol::Func(fd) => fd.m_parameters@.len(),
                                Symbol::Var => 0nat,
                            },
                        ),
                    )).drop_last() =~= pre);
                }
                let hit = str_eq(scope[k].0.as_str(), id.as_str());
                proof {
                    let e = (
                        sc[k as int].0@,
                        match sc[k as int].1 {
                            Symbol::Func(fd) => fd.m_parameters@.len(),
                            Symbol::Var => 0nat,
                        },
                    );
                    assert((pre.push(e)).last() == e);
                    if hit {
                        assert(fn_lookup(pre.push(e), id@) == Some(e.1));
                        assert(fn_lookup(full, id@) == Some(e.1));
                    } else {
                        assert(fn_lookup(pre.push(e), id@) == fn_lookup(pre, id@));
                    }
                }
                if hit {
                    proof {
                        assert(scope_wf(sc));
                        assert(sc[k as int].1 is Func);
                    }
                    let entry = &scope[k];
                    proof {
                        assert(*entry == sc[k as int]);
                    }
                    let n = func_arity(&entry.1);
                    proof {
                        assert(n as nat == (match sc[k as int].1 {
                            Symbol::Func(fd) => fd.m_parameters@.len(),
                            Symbol::Var => 0nat,
                        }));
                        assert(fn_lookup(ctx_model(self.context@), id@) == Some(n as nat));
                    }
                    return Some(n);
                }
            }
            proof {
                assert(scope_model(sc, 0) =~= Seq::<(Seq<char>, nat)>::empty());
                assert(ctx_model_upto(ctx, s as int) + scope_model(sc, 0) =~= ctx_model_upto(
                    ctx,
                    s as int,
                ));
            }
        }
        proof {
            assert(ctx_model_upto(ctx, 0) =~= Seq::<(Seq<char>, nat)>::empty());
        }
        None
    }

    /// Analyses a whole program: `Ok(true)` exactly when the model
    /// verdict accepts it against the signatures already recorded,
    /// and the model's first error otherwise.
    #[verifier::rlimit(80)]
    #[verifier::spinoff_prover]
    pub fn analyse_program(&mut self, program: &Program) -> (r: Result<bool, AnalysisError>)
        requires
            ctx_wf(old(self).context@),
        ensures
            match r {
                Ok(b) => b == true && sa_program_from(
                    ctx_model(old(self).context@),
                    program_model(*program),
                ) == Ok::<FnTable, AnalysisErrorModel>(ctx_model(final(self).context@))
                    && ctx_wf(final(self).context@) && final(self).context@.len() > 0,
                Err(e) => sa_program_from(
                    ctx_model(old(self).context@),
                    program_model(*program),
                ) == Err::<FnTable, _>(analysis_error_model(e)),
            },
    {
        let ghost fns0 = ctx_model(old(self).context@);
        let ghost pm = program_model(*program);
        proof {
            reveal(program_model);
            reveal(functions_model);
            reveal(function_model);
            reveal(sa_functions);
           reveal(sa_function);
            reveal(sa_function);
            lemma_functions_model(program.m_functions@, 0);
        }
        self.open_scope();
        let mut i: usize = 0;
        loop
            invariant
                ctx_wf(self.context@),
                self.context@.len() > 0,
                i <= program.m_functions@.len(),
                fns0 == ctx_model(old(self).context@),
                pm == program_model(*program),
                pm.functions == functions_model(program.m_functions@, 0),
                pm.functions.len() == program.m_functions@.len(),
                forall|j: int|
                    0 <= j < program.m_functions@.len() ==> #[trigger] pm.functions[j]
                        == function_model(program.m_functions@[j]),
                sa_functions(fns0, pm.functions, 0) == sa_functions(
                    ctx_model(self.context@),
                    pm.functions,
                    i as int,
                ),
            ensures
                ctx_wf(self.context@),
                self.context@.len() > 0,
                sa_functions(fns0, pm.functions, 0) == Ok::<FnTable, AnalysisErrorModel>(
                    ctx_model(self.context@),
                ),
            decreases program.m_functions@.len() - i,
        {
            if i >= program.m_functions.len() {
                proof {
                    reveal(sa_functions);
                    reveal(sa_function);
                }
                break;
            }
            let ghost fns_cur = ctx_model(self.context@);
            match self.analyse_function(&program.m_functions[i]) {
                Ok(_) => {
                    proof {
                        reveal(sa_functions);
                       reveal(sa_function);
                        reveal(sa_function);
                        assert(sa_functions(fns_cur, pm.functions, i as int) == sa_functions(
                            ctx_model(self.context@),
                            pm.functions,
                            i + 1,
                        ));
                    }
                },
                Err(e) => {
                    proof {
                        reveal(sa_functions);
                        reveal(sa_function);
                        assert(sa_functions(fns_cur, pm.functions, i as int) == Err::<
                            FnTable,
                            _,
                        >(analysis_error_model(e)));
                    }
                    return Err(e);
                },
            }
            i = i + 1;
        }
        Ok(true)
    }

    /// Records or checks one function against the table, then walks
    /// its body, if any, against the updated table.
    #[verifier::rlimit(80)]
    #[verifier::spinoff_prover]
    pub fn analyse_function(&mut self, function: &Function) -> (r: Result<bool, AnalysisError>)
        requires
            ctx_wf(old(self).context@),
            old(self).context@.len() > 0,
        ensures
            match r {
                Ok(b) => b == true && sa_function(
                    ctx_model(old(self).context@),
                    function_model(*function),
                ) == Ok::<FnTable, AnalysisErrorModel>(ctx_model(final(self).context@))
                    && ctx_wf(final(self).context@) && final(self).context@.len() == old(
                    self,
                ).context@.len(),
                Err(e) => sa_function(
                    ctx_model(old(self).context@),
                    function_model(*function),
                ) == Err::<FnTable, _>(analysis_error_model(e)),
            },
    {
        let ghost fns = ctx_model(old(self).context@);
        let ghost fm = function_model(*function);
        proof {
            reveal(function_model);
            reveal(strings_model);
            reveal(block_items_model);
            reveal(sa_function);
            reveal(sa_block_items);
            reveal(sa_block_item);
            lemma_strings_model(function.m_params@, 0);
        }
        match self.num_arguments(&function.m_id) {
            Some(n) => {
                if function.m_params.len() != n {
                    return Err(
                        AnalysisError::FunctionError(
                            function.m_id.clone(),
                            String::from_str("Function declaration type error"),
                        ),
                    );
                }
            },
            None => {
                let new_function = FunctionDef {
                    m_type: function.m_type,
                    m_parameters: clone_params(&function.m_params),
                };
                proof {
                    assert(new_function.m_parameters@.len() == fm.params.len());
                }
                self.add_function(function.m_id.clone(), new_function);
            },
        }
        let ghost fns2 = ctx_model(self.context@);
        let ghost ctx_before_scope = self.context@;
        self.open_scope();
        let ghost mid = self.context@;
        match &function.m_items {
            Some(items) => {
                let ghost items_m = block_items_model(items@, 0);
                proof {
                    lemma_block_items_model(items@, 0);
                }
                let mut i: usize = 0;
                proof {
                    assert(sa_fn_items_link(fns, fm, fns2, items_m));
                }
                loop
                    invariant
                        self.context@ == mid,
                        ctx_wf(mid),
                        ctx_model(mid) == fns2,
                        fns == ctx_model(old(self).context@),
                        fm == function_model(*function),
                        sa_fn_items_link(fns, fm, fns2, items_m),
                        i <= items@.len(),
                        items_m == block_items_model(items@, 0),
                        items_m.len() == items@.len(),
                        forall|j: int|
                            0 <= j < items@.len() ==> #[trigger] items_m[j] == block_item_model(
                                items@[j],
                            ),
                        sa_block_items(fns2, items_m, 0) == sa_block_items(
                            fns2,
                            items_m,
                            i as int,
                        ),
                    ensures
                        self.context@ == mid,
                        sa_block_items(fns2, items_m, 0) == Ok::<(), AnalysisErrorModel>(()),
                    decreases items@.len() - i,
                {
                    if i >= items.len() {
                        proof {
                            reveal(sa_block_items);
                            reveal(sa_block_item);
                        }
                        break;
                    }
                    match self.analyse_block_item(&items[i]) {
                        Ok(_) => {
                            proof {
                                reveal(sa_block_items);
                               reveal(sa_block_item);
                                reveal(sa_block_item);
                            }
                        },
                        Err(e) => {
                            proof {
                                reveal(sa_block_items);
                                reveal(sa_block_item);
                            }
                            return Err(e);
                        },
                    }
                    i = i + 1;
                }
            },
            None => (),
        }
        self.close_scope();
        proof {
            assert(self.context@ == mid.drop_last());
            assert(mid.drop_last() =~= ctx_before_scope);
        }
        Ok(true)
    }

    #[verifier::rlimit(80)]
    #[verifier::spinoff_prover]
    fn analyse_block_item(&mut self, item: &BlockItem) -> (r: Result<bool, AnalysisError>)
        requires
            ctx_wf(old(self).context@),
        ensures
            match r {
                Ok(b) => b == true && final(self).context@ == old(self).context@
                    && sa_block_item(
                    ctx_model(old(self).context@),
                    block_item_model(*item),
                ) == Ok::<(), AnalysisErrorModel>(()),
                Err(e) => sa_block_item(
                    ctx_model(old(self).context@),
                    block_item_model(*item),
                ) == Err::<(), _>(analysis_error_model(e)),
            },
        decreases bi_size(*item),
    {
        proof {
            reveal(sa_block_item);
            reveal(sa_statement);
            reveal(sa_declaration);
            reveal(block_item_model);
            reveal(statement_model);
            reveal(declaration_model);
        }
        match item {
            BlockItem::Statement(statement) => self.analyse_statement(statement),
            BlockItem::Declaration(declaration) => self.analyse_declaration(declaration),
        }
    }

    #[verifier::rlimit(80)]
    #[verifier::spinoff_prover]
    fn analyse_declaration(&mut self, declaration: &Declaration) -> (r: Result<
        bool,
        AnalysisError,
    >)
        requires
            ctx_wf(old(self).context@),
        ensures
            match r {
                Ok(b) => b == true && final(self).context@ == old(self).context@
                    && sa_declaration(
                    ctx_model(old(self).context@),
                    declaration_model(*declaration),
                ) == Ok::<(), AnalysisErrorModel>(()),
                Err(e) => sa_declaration(
                    ctx_model(old(self).context@),
                    declaration_model(*declaration),
                ) == Err::<(), _>(analysis_error_model(e)),
            },
        decreases declaration,
    {
        proof {
            reveal(sa_declaration);
            reveal(sa_expression);
            reveal(declaration_model);
            reveal(expression_model);
        }
        match &declaration.m_value {
            Some(e) => self.analyse_expression(e),
            None => Ok(true),
        }
    }

    #[verifier::rlimit(80)]
    #[verifier::spinoff_prover]
    fn analyse_logical_or_expression(&mut self, e: &LogicalOrExpresson) -> (r: Result<bool, AnalysisError>)
        requires
            ctx_wf(old(self).context@),
        ensures
            match r {
                Ok(b) => b == true && final(self).context@ == old(self).context@ && sa_or(
                    ctx_model(old(self).context@),
                    or_model(*e),
                ) == Ok::<(), AnalysisErrorModel>(()),
                Err(er) => sa_or(
                    ctx_model(old(self).context@),
                    or_model(*e),
                ) == Err::<(), _>(analysis_error_model(er)),
            },
        decreases e,
    {
        let ghost fns = ctx_model(old(self).context@);
        let ghost em = or_model(*e);
        proof {
            reveal(or_model);
            reveal(and_model);
            reveal(and_list_model);
            reveal(sa_or);
            reveal(sa_and);
            reveal(sa_and_list);
            reveal(sa_and);
            lemma_and_list_model(e.m_rest@, 0);
        }
        match self.analyse_logical_and_expression(&e.m_first) {
            Ok(_) => (),
            Err(er) => {
                return Err(er);
            },
        }
        let ghost restm = em.rest;
        proof {
            assert(restm == and_list_model(e.m_rest@, 0));
        }
        let mut i: usize = 0;
        loop
            invariant
                ctx_wf(self.context@),
                self.context@ == old(self).context@,
                fns == ctx_model(old(self).context@),
                em == or_model(*e),
                i <= e.m_rest@.len(),
                restm == and_list_model(e.m_rest@, 0),
                restm.len() == e.m_rest@.len(),
                forall|j: int|
                    0 <= j < e.m_rest@.len() ==> #[trigger] restm[j] == and_model(
                        e.m_rest@[j],
                    ),
                sa_or(fns, em) == sa_and_list(fns, restm, 0),
                sa_and_list(fns, restm, 0) == sa_and_list(fns, restm, i as int),
            ensures
                self.context@ == old(self).context@,
                sa_and_list(fns, restm, 0) == Ok::<(), AnalysisErrorModel>(()),
            decreases e.m_rest@.len() - i,
        {
            if i >= e.m_rest.len() {
                proof {
                    reveal(sa_and_list);
                    reveal(sa_and);
                }
                break;
            }
            match self.analyse_logical_and_expression(&e.m_rest[i]) {
                Ok(_) => {
                    proof {
                        reveal(sa_and_list);
                        reveal(sa_and);
                    }
                },
                Err(er) => {
                    proof {
                        reveal(sa_and_list);
                        reveal(sa_and);
                    }
                    return Err(er);
                },
            }
            i = i + 1;
        }
        Ok(true)
    }

    #[verifier::rlimit(80)]
    #[verifier::spinoff_prover]
    fn analyse_logical_and_expression(&mut self, e: &LogicalAndExpression) -> (r: Result<bool, AnalysisError>)
        requires
            ctx_wf(old(self).context@),
        ensures
            match r {
                Ok(b) => b == true && final(self).context@ == old(self).context@ && sa_and(
                    ctx_model(old(self).context@),
                    and_model(*e),
                ) == Ok::<(), AnalysisErrorModel>(()),
                Err(er) => sa_and(
                    ctx_model(old(self).context@),
                    and_model(*e),
                ) == Err::<(), _>(analysis_error_model(er)),
            },
        decreases e,
    {
        let ghost fns = ctx_model(old(self).context@);
        let ghost em = and_model(*e);
        proof {
            reveal(and_model);
            reveal(equality_model);
            reveal(equality_list_model);
            reveal(sa_and);
            reveal(sa_equality);
            reveal(sa_equality_list);
            reveal(sa_equality);
            lemma_equality_list_model(e.m_rest@, 0);
        }
        match self.analyse_equality_expression(&e.m_first) {
            Ok(_) => (),
            Err(er) => {
                return Err(er);
            },
        }
        let ghost restm = em.rest;
        proof {
            assert(restm == equality_list_model(e.m_rest@, 0));
        }
        let mut i: usize = 0;
        loop
            invariant
                ctx_wf(self.context@),
                self.context@ == old(self).context@,
                fns == ctx_model(old(self).context@),
                em == and_model(*e),
                i <= e.m_rest@.len(),
                restm == equality_list_model(e.m_rest@, 0),
                restm.len() == e.m_rest@.len(),
                forall|j: int|
                    0 <= j < e.m_rest@.len() ==> #[trigger] restm[j] == equality_model(
                        e.m_rest@[j],
                    ),
                sa_and(fns, em) == sa_equality_list(fns, restm, 0),
                sa_equality_list(fns, restm, 0) == sa_equality_list(fns, restm, i as int),
            ensures
                self.context@ == old(self).context@,
                sa_equality_list(fns, restm, 0) == Ok::<(), AnalysisErrorModel>(()),
            decreases e.m_rest@.len() - i,
        {
            if i >= e.m_rest.len() {
                proof {
                    reveal(sa_equality_list);
                    reveal(sa_equality);
                }
                break;
            }
            match self.analyse_equality_expression(&e.m_rest[i]) {
                Ok(_) => {
                    proof {
                        reveal(sa_equality_list);
                        reveal(sa_equality);
                    }
                },
                Err(er) => {
                    proof {
                        reveal(sa_equality_list);
                        reveal(sa_equality);
                    }
                    return Err(er);
                },
            }
            i = i + 1;
        }
        Ok(true)
    }

    #[verifier::rlimit(80)]
    #[verifier::spinoff_prover]
    fn analyse_equality_expression(&mut self, e: &EqualityExpression) -> (r: Result<bool, AnalysisError>)
        requires
            ctx_wf(old(self).context@),
        ensures
            match r {
                Ok(b) => b == true && final(self).context@ == old(self).context@ && sa_equality(
                    ctx_model(old(self).context@),
                    equality_model(*e),
                ) == Ok::<(), AnalysisErrorModel>(()),
                Err(er) => sa_equality(
                    ctx_model(old(self).context@),
                    equality_model(*e),
                ) == Err::<(), _>(analysis_error_model(er)),
            },
        decreases e,
    {
        let ghost fns = ctx_model(old(self).context@);
        let ghost em = equality_model(*e);
        proof {
            reveal(equality_model);
            reveal(relational_model);
            reveal(relational_list_model);
            reveal(sa_equality);
            reveal(sa_relational);
            reveal(sa_relational_list);
            reveal(sa_relational);
            lemma_relational_list_model(e.m_rest@, 0);
        }
        match self.analyse_relational_expression(&e.m_first) {
            Ok(_) => (),
            Err(er) => {
                return Err(er);
            },
        }
        let ghost restm = em.rest;
        proof {
            assert(restm == relational_list_model(e.m_rest@, 0));
        }
        let mut i: usize = 0;
        loop
            invariant
                ctx_wf(self.context@),
                self.context@ == old(self).context@,
                fns == ctx_model(old(self).context@),
                em == equality_model(*e),
                i <= e.m_rest@.len(),
                restm == relational_list_model(e.m_rest@, 0),
                restm.len() == e.m_rest@.len(),
                forall|j: int|
                    0 <= j < e.m_rest@.len() ==> (#[trigger] restm[j]).1 == relational_model(
                        e.m_rest@[j].1,
                    ),
                sa_equality(fns, em) == sa_relational_list(fns, restm, 0),
                sa_relational_list(fns, restm, 0) == sa_relational_list(fns, restm, i as int),
            ensures
                self.context@ == old(self).context@,
                sa_relational_list(fns, restm, 0) == Ok::<(), AnalysisErrorModel>(()),
            decreases e.m_rest@.len() - i,
        {
            if i >= e.m_rest.len() {
                proof {
                    reveal(sa_relational_list);
                    reveal(sa_relational);
                }
                break;
            }
            match self.analyse_relational_expression(&e.m_rest[i].1) {
                Ok(_) => {
                    proof {
                        reveal(sa_relational_list);
                        reveal(sa_relational);
                    }
                },
                Err(er) => {
                    proof {
                        reveal(sa_relational_list);
                        reveal(sa_relational);
                    }
                    return Err(er);
                },
            }
            i = i + 1;
        }
        Ok(true)
    }

    #[verifier::rlimit(80)]
    #[verifier::spinoff_prover]
    fn analyse_relational_expression(&mut self, e: &RelationalExpression) -> (r: Result<bool, AnalysisError>)
        requires
            ctx_wf(old(self).context@),
        ensures
            match r {
                Ok(b) => b == true && final(self).context@ == old(self).context@ && sa_relational(
                    ctx_model(old(self).context@),
                    relational_model(*e),
                ) == Ok::<(), AnalysisErrorModel>(()),
                Err(er) => sa_relational(
                    ctx_model(old(self).context@),
                    relational_model(*e),
                ) == Err::<(), _>(analysis_error_model(er)),
            },
        decreases e,
    {
        let ghost fns = ctx_model(old(self).context@);
        let ghost em = relational_model(*e);
        proof {
            reveal(relational_model);
            reveal(additive_model);
            reveal(additive_list_model);
            reveal(sa_relational);
            reveal(sa_additive);
            reveal(sa_additive_list);
            reveal(sa_additive);
            lemma_additive_list_model(e.m_rest@, 0);
        }
        match self.analyse_additive_expression(&e.m_first) {
            Ok(_) => (),
            Err(er) => {
                return Err(er);
            },
        }
        let ghost restm = em.rest;
        proof {
            assert(restm == additive_list_model(e.m_rest@, 0));
        }
        let mut i: usize = 0;
        loop
            invariant
                ctx_wf(self.context@),
                self.context@ == old(self).context@,
                fns == ctx_model(old(self).context@),
                em == relational_model(*e),
                i <= e.m_rest@.len(),
                restm == additive_list_model(e.m_rest@, 0),
                restm.len() == e.m_rest@.len(),
                forall|j: int|
                    0 <= j < e.m_rest@.len() ==> (#[trigger] restm[j]).1 == additive_model(
                        e.m_rest@[j].1,
                    ),
                sa_relational(fns, em) == sa_additive_list(fns, restm, 0),
                sa_additive_list(fns, restm, 0) == sa_additive_list(fns, restm, i as int),
            ensures
                self.context@ == old(self).context@,
                sa_additive_list(fns, restm, 0) == Ok::<(), AnalysisErrorModel>(()),
            decreases e.m_rest@.len() - i,
        {
            if i >= e.m_rest.len() {
                proof {
                    reveal(sa_additive_list);
                    reveal(sa_additive);
                }
                break;
            }
            match self.analyse_additive_expression(&e.m_rest[i].1) {
                Ok(_) => {
                    proof {
                        reveal(sa_additive_list);
                        reveal(sa_additive);
                    }
                },
                Err(er) => {
                    proof {
                        reveal(sa_additive_list);
                        reveal(sa_additive);
                    }
                    return Err(er);
                },
            }
            i = i + 1;
        }
        Ok(true)
    }

    #[verifier::rlimit(80)]
    #[verifier::spinoff_prover]
    fn analyse_additive_expression(&mut self, e: &AdditiveExpression) -> (r: Result<bool, AnalysisError>)
        requires
            ctx_wf(old(self).context@),
        ensures
            match r {
                Ok(b) => b == true && final(self).context@ == old(self).context@ && sa_additive(
                    ctx_model(old(self).context@),
                    additive_model(*e),
                ) == Ok::<(), AnalysisErrorModel>(()),
                Err(er) => sa_additive(
                    ctx_model(old(self).context@),
                    additive_model(*e),
                ) == Err::<(), _>(analysis_error_model(er)),
            },
        decreases e,
    {
        let ghost fns = ctx_model(old(self).context@);
        let ghost em = additive_model(*e);
        proof {
            reveal(additive_model);
            reveal(term_model);
            reveal(term_list_model);
            reveal(sa_additive);
            reveal(sa_term);
            reveal(sa_term_list);
            reveal(sa_term);
            lemma_term_list_model(e.m_rest@, 0);
        }
        match self.analyse_term(&e.m_first_term) {
            Ok(_) => (),
            Err(er) => {
                return Err(er);
            },
        }
        let ghost restm = em.rest;
        proof {
            assert(restm == term_list_model(e.m_rest@, 0));
        }
        let mut i: usize = 0;
        loop
            invariant
                ctx_wf(self.context@),
                self.context@ == old(self).context@,
                fns == ctx_model(old(self).context@),
                em == additive_model(*e),
                i <= e.m_rest@.len(),
                restm == term_list_model(e.m_rest@, 0),
                restm.len() == e.m_rest@.len(),
                forall|j: int|
                    0 <= j < e.m_rest@.len() ==> (#[trigger] restm[j]).1 == term_model(
                        e.m_rest@[j].1,
                    ),
                sa_additive(fns, em) == sa_term_list(fns, restm, 0),
                sa_term_list(fns, restm, 0) == sa_term_list(fns, restm, i as int),
            ensures
                self.context@ == old(self).context@,
                sa_term_list(fns, restm, 0) == Ok::<(), AnalysisErrorModel>(()),
            decreases e.m_rest@.len() - i,
        {
            if i >= e.m_rest.len() {
                proof {
                    reveal(sa_term_list);
                    reveal(sa_term);
                }
                break;
            }
            match self.analyse_term(&e.m_rest[i].1) {
                Ok(_) => {
                    proof {
                        reveal(sa_term_list);
                        reveal(sa_term);
                    }
                },
                Err(er) => {
                    proof {
                        reveal(sa_term_list);
                        reveal(sa_term);
                    }
                    return Err(er);
                },
            }
            i = i + 1;
        }
        Ok(true)
    }

    #[verifier::rlimit(80)]
    #[verifier::spinoff_prover]
    fn analyse_term(&mut self, e: &Term) -> (r: Result<bool, AnalysisError>)
        requires
            ctx_wf(old(self).context@),
        ensures
            match r {
                Ok(b) => b == true && final(self).context@ == old(self).context@ && sa_term(
                    ctx_model(old(self).context@),
                    term_model(*e),
                ) == Ok::<(), AnalysisErrorModel>(()),
                Err(er) => sa_term(
                    ctx_model(old(self).context@),
                    term_model(*e),
                ) == Err::<(), _>(analysis_error_model(er)),
            },
        decreases e,
    {
        let ghost fns = ctx_model(old(self).context@);
        let ghost em = term_model(*e);
        proof {
            reveal(term_model);
            reveal(factor_model);
            reveal(factor_list_model);
            reveal(sa_term);
            reveal(sa_factor);
            reveal(sa_factor_list);
            reveal(sa_factor);
            lemma_factor_list_model(e.m_rest@, 0);
        }
        match self.analyse_factor(&e.m_first_factor) {
            Ok(_) => (),
            Err(er) => {
                return Err(er);
            },
        }
        let ghost restm = em.rest;
        proof {
            assert(restm == factor_list_model(e.m_rest@, 0));
        }
        let mut i: usize = 0;
        loop
            invariant
                ctx_wf(self.context@),
                self.context@ == old(self).context@,
                fns == ctx_model(old(self).context@),
                em == term_model(*e),
                i <= e.m_rest@.len(),
                restm == factor_list_model(e.m_rest@, 0),
                restm.len() == e.m_rest@.len(),
                forall|j: int|
                    0 <= j < e.m_rest@.len() ==> (#[trigger] restm[j]).1 == factor_model(
                        e.m_rest@[j].1,
                    ),
                sa_term(fns, em) == sa_factor_list(fns, restm, 0),
                sa_factor_list(fns, restm, 0) == sa_factor_list(fns, restm, i as int),
            ensures
                self.context@ == old(self).context@,
                sa_factor_list(fns, restm, 0) == Ok::<(), AnalysisErrorModel>(()),
            decreases e.m_rest@.len() - i,
        {
            if i >= e.m_rest.len() {
                proof {
                    reveal(sa_factor_list);
                    reveal(sa_factor);
                }
                break;
            }
            match self.analyse_factor(&e.m_rest[i].1) {
                Ok(_) => {
                    proof {
                        reveal(sa_factor_list);
                        reveal(sa_factor);
                    }
                },
                Err(er) => {
                    proof {
                        reveal(sa_factor_list);
                        reveal(sa_factor);
                    }
                    return Err(er);
                },
            }
            i = i + 1;
        }
        Ok(true)
    }

    #[verifier::rlimit(80)]
    #[verifier::spinoff_prover]
    fn analyse_conditional_expression(&mut self, c: &ConditionalExpression) -> (r: Result<
        bool,
        AnalysisError,
    >)
        requires
            ctx_wf(old(self).context@),
        ensures
            match r {
                Ok(b) => b == true && final(self).context@ == old(self).context@
                    && sa_conditional(
                    ctx_model(old(self).context@),
                    conditional_model(*c),
                ) == Ok::<(), AnalysisErrorModel>(()),
                Err(er) => sa_conditional(
                    ctx_model(old(self).context@),
                    conditional_model(*c),
                ) == Err::<(), _>(analysis_error_model(er)),
            },
        decreases c,
    {
        proof {
            reveal(conditional_model);
            reveal(or_model);
            reveal(expression_model);
            reveal(sa_conditional);
            reveal(sa_or);
            reveal(sa_expression);
        }
        match &c.m_true {
            Some(e) => {
                match self.analyse_expression(e) {
                    Ok(_) => (),
                    Err(er) => {
                        return Err(er);
                    },
                }
            },
            None => (),
        }
        match &c.m_false {
            Some(n) => {
                match self.analyse_conditional_expression(n) {
                    Ok(_) => (),
                    Err(er) => {
                        return Err(er);
                    },
                }
            },
            None => (),
        }
        self.analyse_logical_or_expression(&c.m_condition)
    }

    #[verifier::rlimit(80)]
    #[verifier::spinoff_prover]
    fn analyse_expression(&mut self, expression: &Expression) -> (r: Result<bool, AnalysisError>)
        requires
            ctx_wf(old(self).context@),
        ensures
            match r {
                Ok(b) => b == true && final(self).context@ == old(self).context@
                    && sa_expression(
                    ctx_model(old(self).context@),
                    expression_model(*expression),
                ) == Ok::<(), AnalysisErrorModel>(()),
                Err(er) => sa_expression(
                    ctx_model(old(self).context@),
                    expression_model(*expression),
                ) == Err::<(), _>(analysis_error_model(er)),
            },
        decreases expression,
    {
        proof {
            reveal(expression_model);
            reveal(conditional_model);
            reveal(sa_expression);
            reveal(sa_conditional);
        }
        match expression {
            Expression::Assignment { m_name: _, m_value } => self.analyse_expression(m_value),
            Expression::Operation(c) => self.analyse_conditional_expression(c),
        }
    }

    /// The one place the analysis can fail: a call must resolve to
    /// a recorded function whose parameter count equals the number
    /// of arguments.
    #[verifier::rlimit(80)]
    #[verifier::spinoff_prover]
    fn analyse_factor(&mut self, f: &Factor) -> (r: Result<bool, AnalysisError>)
        requires
            ctx_wf(old(self).context@),
        ensures
            match r {
                Ok(b) => b == true && final(self).context@ == old(self).context@ && sa_factor(
                    ctx_model(old(self).context@),
                    factor_model(*f),
                ) == Ok::<(), AnalysisErrorModel>(()),
                Err(er) => sa_factor(
                    ctx_model(old(self).context@),
                    factor_model(*f),
                ) == Err::<(), _>(analysis_error_model(er)),
            },
        decreases f,
    {
        proof {
            reveal(factor_model);
            reveal(expression_model);
            reveal(expressions_model);
            reveal(sa_factor);
            reveal(sa_expression);
        }
        match f {
            Factor::FunCall { m_id, m_arguments } => {
                proof {
                    lemma_expressions_model(m_arguments@, 0);
                }
                match self.num_arguments(m_id) {
                    None => Err(
                        AnalysisError::FunctionError(
                            m_id.clone(),
                            String::from_str("Undefined identifier"),
                        ),
                    ),
                    Some(n) => {
                        if m_arguments.len() != n {
                            Err(
                                AnalysisError::FunctionError(
                                    m_id.clone(),
                                    String::from_str("Invalid Arguments"),
                                ),
                            )
                        } else {
                            Ok(true)
                        }
                    },
                }
            },
            Factor::Constant { m_value: _ } => Ok(true),
            Factor::UnaryOperation { m_opertator: _, m_factor } => self.analyse_factor(m_factor),
            Factor::Braced { m_expression } => self.analyse_expression(m_expression),
            Factor::Variable { m_var: _ } => Ok(true),
        }
    }

    #[verifier::rlimit(80)]
    #[verifier::spinoff_prover]
    fn analyse_statement(&mut self, statement: &Statement) -> (r: Result<bool, AnalysisError>)
        requires
            ctx_wf(old(self).context@),
        ensures
            match r {
                Ok(b) => b == true && final(self).context@ == old(self).context@
                    && sa_statement(
                    ctx_model(old(self).context@),
                    statement_model(*statement),
                ) == Ok::<(), AnalysisErrorModel>(()),
                Err(er) => sa_statement(
                    ctx_model(old(self).context@),
                    statement_model(*statement),
                ) == Err::<(), _>(analysis_error_model(er)),
            },
        decreases st_size(*statement),
    {
        let ghost fns = ctx_model(old(self).context@);
        let ghost sm = statement_model(*statement);
        proof {
            reveal(statement_model);
            reveal(expression_model);
            reveal(block_items_model);
            reveal(declaration_model);
            reveal(sa_statement);
            reveal(sa_expression);
            reveal(sa_block_items);
           reveal(sa_block_item);
            reveal(sa_block_item);
            reveal(sa_declaration);
        }
        match statement {
            Statement::Return(e) => match e {
                None => Ok(true),
                Some(exp) => self.analyse_expression(exp),
            },
            Statement::Expression(e) => match e {
                None => Ok(true),
                Some(exp) => self.analyse_expression(exp),
            },
            Statement::If { m_condition, m_true_statement, m_else_statement } => {
                match m_else_statement {
                    Some(s2) => {
                        match self.analyse_statement(s2) {
                            Ok(_) => (),
                            Err(er) => {
                                return Err(er);
                            },
                        }
                    },
                    None => (),
                }
                match self.analyse_expression(m_condition) {
                    Ok(_) => (),
                    Err(er) => {
                        return Err(er);
                    },
                }
                self.analyse_statement(m_true_statement)
            },
            Statement::Compound { m_block_items } => {
                let ghost ctx0 = self.context@;
                self.open_scope();
                let ghost mid = self.context@;
                let ghost items_m = block_items_model(m_block_items@, 0);
                proof {
                    lemma_block_items_model(m_block_items@, 0);
                }
                let mut i: usize = 0;
                loop
                    invariant
                        self.context@ == mid,
                        ctx_wf(mid),
                        fns == ctx_model(old(self).context@),
                        sm == statement_model(*statement),
                        mid.len() == ctx0.len() + 1,
                        mid.last()@.len() == 0,
                        mid.drop_last() == ctx0,
                        ctx_model(mid) == fns,
                        i <= m_block_items@.len(),
                        items_m == block_items_model(m_block_items@, 0),
                        items_m.len() == m_block_items@.len(),
                        forall|j: int|
                            0 <= j < m_block_items@.len() ==> #[trigger] items_m[j]
                                == block_item_model(m_block_items@[j]),
                        sa_statement(fns, sm) == sa_block_items(fns, items_m, 0),
                        sa_block_items(fns, items_m, 0) == sa_block_items(
                            fns,
                            items_m,
                            i as int,
                        ),
                        st_size(*statement) == 1 + bi_list_size(m_block_items@, 0),
                    ensures
                        self.context@ == mid,
                        sa_block_items(fns, items_m, 0) == Ok::<(), AnalysisErrorModel>(()),
                    decreases m_block_items@.len() - i,
                {
                    if i >= m_block_items.len() {
                        proof {
                            reveal(sa_block_items);
                            reveal(sa_block_item);
                        }
                        break;
                    }
                    proof {
                        lemma_bi_list_size(m_block_items@, 0);
                        assert(bi_size(m_block_items@[i as int]) <= bi_list_size(
                            m_block_items@,
                            0,
                        ));
                    }
                    match self.analyse_block_item(&m_block_items[i]) {
                        Ok(_) => {
                            proof {
                                reveal(sa_block_items);
                                reveal(sa_block_item);
                            }
                        },
                        Err(er) => {
                            proof {
                                reveal(sa_block_items);
                                reveal(sa_block_item);
                            }
                            return Err(er);
                        },
                    }
                    i = i + 1;
                }
                self.close_scope();
                proof {
                    assert(self.context@ == mid.drop_last());
                }
                Ok(true)
            },
            Statement::For { m_initial_expression, m_condition, m_post_expression, m_statement } => {
                let ghost ctx0 = self.context@;
                self.open_scope();
                match m_initial_expression {
                    None => (),
                    Some(e) => {
                        match self.analyse_expression(e) {
                            Ok(_) => (),
                            Err(er) => {
                                return Err(er);
                            },
                        }
                    },
                }
                match m_post_expression {
                    None => (),
                    Some(e) => {
                        match self.analyse_expression(e) {
                            Ok(_) => (),
                            Err(er) => {
                                return Err(er);
                            },
                        }
                    },
                }
                match self.analyse_expression(m_condition) {
                    Ok(_) => (),
                    Err(er) => {
                        return Err(er);
                    },
                }
                match self.analyse_statement(m_statement) {
                    Ok(_) => (),
                    Err(er) => {
                        return Err(er);
                    },
                }
                self.close_scope();
                proof {
                    assert(self.context@ == ctx0.push(self.context@.last()).drop_last()
                        || self.context@ == ctx0);
                    assert(ctx0.push(old(self).context@.last()).drop_last() =~= ctx0);
                }
                Ok(true)
            },
            Statement::ForDecl {
                m_initial_declaration,
                m_condition,
                m_post_expression,
                m_statement,
            } => {
                let ghost ctx0 = self.context@;
                self.open_scope();
                match m_post_expression {
                    None => (),
                    Some(e) => {
                        match self.analyse_expression(e) {
                            Ok(_) => (),
                            Err(er) => {
                                return Err(er);
                            },
                        }
                    },
                }
                match self.analyse_expression(m_condition) {
                    Ok(_) => (),
                    Err(er) => {
                        return Err(er);
                    },
                }
                match self.analyse_declaration(m_initial_declaration) {
                    Ok(_) => (),
                    Err(er) => {
                        return Err(er);
                    },
                }
                match self.analyse_statement(m_statement) {
                    Ok(_) => (),
                    Err(er) => {
                        return Err(er);
                    },
                }
                self.close_scope();
                Ok(true)
            },
            Statement::While { m_condition, m_statement } => {
                match self.analyse_expression(m_condition) {
                    Ok(_) => (),
                    Err(er) => {
                        return Err(er);
                    },
                }
                match self.analyse_statement(m_statement) {
                    Ok(_) => (),
                    Err(er) => {
                        return Err(er);
                    },
                }
                Ok(true)
            },
            Statement::Do { m_statement, m_condition } => {
                match self.analyse_expression(m_condition) {
                    Ok(_) => (),
                    Err(er) => {
                        return Err(er);
                    },
                }
                match self.analyse_statement(m_statement) {
                    Ok(_) => (),
                    Err(er) => {
                        return Err(er);
                    },
                }
                Ok(true)
            },
            Statement::Break => Ok(true),
            Statement::Continue => Ok(true),
        }
    }
}

/// An exact copy of a parameter-name list.
fn clone_params(v: &Vec<String>) -> (r: Vec<String>)
    ensures
        r@.len() == v@.len(),
        forall|i: int| 0 <= i < v@.len() ==> r@[i]@ == v@[i]@,
{
    let mut out: Vec<String> = Vec::new();
    let mut i: usize = 0;
    while i < v.len()
        invariant
            i <= v@.len(),
            out@.len() == i,
            forall|j: int| 0 <= j < i ==> out@[j]@ == v@[j]@,
        decreases v@.len() - i,
    {
        out.push(v[i].clone());
        i = i + 1;
    }
    out
}

} // verus!
