//! An earlier, flat shape of the semantic analyser: function
//! signatures are kept in one list instead of a scope stack, and
//! the walk reports plain success or failure. The verdict is the
//! same model verdict as the scoped analyser's.

use vstd::prelude::*;

use crate::analyser::{
    bi_list_size, bi_size, fn_lookup, lemma_bi_list_size, sa_additive, sa_additive_list, sa_and,
    sa_and_list, sa_block_item, sa_block_items, sa_conditional, sa_declaration, sa_equality,
    sa_equality_list, sa_expression, sa_factor, sa_factor_list, sa_fn_items_link, sa_function,
    sa_functions, sa_or, sa_program_from, sa_relational, sa_relational_list, sa_statement,
    sa_term, sa_term_list, st_size, AnalysisErrorModel, FnTable,
};
use crate::ast::{
    additive_list_model, additive_model, and_list_model, and_model, block_item_model,
    block_items_model, conditional_model, declaration_model, equality_list_model, equality_model,
    expression_model, expressions_model, factor_list_model, factor_model, function_model,
    functions_model, lemma_and_list_model, lemma_block_items_model, lemma_equality_list_model,
    lemma_expressions_model, lemma_factor_list_model, lemma_functions_model,
    lemma_relational_list_model, lemma_strings_model, lemma_term_list_model,
    lemma_additive_list_model, or_model, program_model, relational_list_model, relational_model,
    statement_model, strings_model, term_list_model, term_model,
    AdditiveExpression, BlockItem, ConditionalExpression, Declaration, EqualityExpression,
    Expression, Factor, Function, FunctionModel, FunctionType, LogicalAndExpression,
    LogicalOrExpresson, Program, RelationalExpression, Statement, Term,
};
use crate::text::str_eq;

verus! {

/// A recorded signature: name, return type, parameter names.
#[derive(Debug)]
pub struct FunctionDef {
    pub m_id: String,
    pub m_type: FunctionType,
    pub m_parameters: Vec<String>,
}

impl FunctionDef {
    /// An exact copy: same name, type tag and parameter names.
    pub fn clone(&self) -> (r: FunctionDef)
        ensures
            r.m_id@ == self.m_id@,
            r.m_type == self.m_type,
            r.m_parameters@.len() == self.m_parameters@.len(),
            forall|i: int|
                0 <= i < self.m_parameters@.len() ==> r.m_parameters@[i]@
                    == self.m_parameters@[i]@,
    {
        let mut params: Vec<String> = Vec::new();
        let mut i: usize = 0;
        while i < self.m_parameters.len()
            invariant
                i <= self.m_parameters@.len(),
                params@.len() == i,
                forall|j: int| 0 <= j < i ==> params@[j]@ == self.m_parameters@[j]@,
            decreases self.m_parameters@.len() - i,
        {
            params.push(self.m_parameters[i].clone());
            i = i + 1;
        }
        FunctionDef { m_id: self.m_id.clone(), m_type: self.m_type, m_parameters: params }
    }
}

/// The table the first `k` recorded signatures contribute.
pub open spec fn tbl_model(v: Seq<FunctionDef>, k: int) -> FnTable
    decreases k,
{
    if k <= 0 || k > v.len() {
        Seq::empty()
    } else {
        tbl_model(v, k - 1).push((v[k - 1].m_id@, v[k - 1].m_parameters@.len()))
    }
}

/// The whole recorded table of an analyzer.
pub open spec fn analyzer_model(v: Seq<FunctionDef>) -> FnTable {
    tbl_model(v, v.len() as int)
}

/// No name recorded twice: what the guarded recording maintains.
pub open spec fn tbl_distinct(fns: FnTable) -> bool {
    forall|i: int, j: int| 0 <= i < j < fns.len() ==> (#[trigger] fns[i]).0 != (#[trigger] fns[j]).0
}

proof fn lemma_tbl_model(v: Seq<FunctionDef>, k: int)
    requires
        0 <= k <= v.len(),
    ensures
        tbl_model(v, k).len() == k,
        forall|j: int|
            0 <= j < k ==> #[trigger] tbl_model(v, k)[j] == (v[j].m_id@, v[j].m_parameters@.len()),
    decreases k,
{
    if k > 0 {
        lemma_tbl_model(v, k - 1);
    }
}

/// With distinct names, the most-recent-wins lookup finds exactly
/// the recorded entry of a name.
proof fn lemma_lookup_found(fns: FnTable, id: Seq<char>, j: int)
    requires
        tbl_distinct(fns),
        0 <= j < fns.len(),
        fns[j].0 == id,
    ensures
        fn_lookup(fns, id) == Some(fns[j].1),
    decreases fns.len(),
{
    if j == fns.len() - 1 {
    } else {
        assert(fns[fns.len() - 1].0 != fns[j].0);
        assert(forall|a: int, b: int|
            0 <= a < b < fns.drop_last().len() ==> (#[trigger] fns.drop_last()[a]).0 != (
            #[trigger] fns.drop_last()[b]).0);
        assert(fns.drop_last()[j] == fns[j]);
        lemma_lookup_found(fns.drop_last(), id, j);
    }
}

proof fn lemma_lookup_absent(fns: FnTable, id: Seq<char>)
    requires
        forall|k: int| 0 <= k < fns.len() ==> (#[trigger] fns[k]).0 != id,
    ensures
        fn_lookup(fns, id) is None,
    decreases fns.len(),
{
    if fns.len() > 0 {
        assert(forall|k: int|
            0 <= k < fns.drop_last().len() ==> (#[trigger] fns.drop_last()[k]).0 != id);
        lemma_lookup_absent(fns.drop_last(), id);
    }
}

proof fn lemma_lookup_none_absent(fns: FnTable, id: Seq<char>)
    requires
        fn_lookup(fns, id) is None,
    ensures
        forall|k: int| 0 <= k < fns.len() ==> (#[trigger] fns[k]).0 != id,
    decreases fns.len(),
{
    if fns.len() > 0 {
        lemma_lookup_none_absent(fns.drop_last(), id);
        assert(forall|k: int|
            0 <= k < fns.len() - 1 ==> #[trigger] fns[k] == fns.drop_last()[k]);
    }
}

/// The walker: the functions recorded so far, in declaration order.
pub struct Analyzer {
    pub m_functions: Vec<FunctionDef>,
}

impl Analyzer {
    /// A fresh analyzer with no function recorded.
    pub fn new() -> (r: Analyzer)
        ensures
            r.m_functions@.len() == 0,
            analyzer_model(r.m_functions@) == Seq::<(Seq<char>, nat)>::empty(),
            tbl_distinct(analyzer_model(r.m_functions@)),
    {
        let r = Analyzer { m_functions: Vec::new() };
        proof {
            assert(analyzer_model(r.m_functions@) =~= Seq::<(Seq<char>, nat)>::empty());
        }
        r
    }

    /// The parameter count of the recorded function of this name,
    /// if any; scans in recording order, which under distinct names
    /// is the model lookup.
    fn num_arguments(&self, id: &String) -> (r: Option<usize>)
        requires
            tbl_distinct(analyzer_model(self.m_functions@)),
        ensures
            match (r, fn_lookup(analyzer_model(self.m_functions@), id@)) {
                (Some(n), Some(m)) => n as nat == m,
                (None, None) => true,
                _ => false,
            },
    {
        let ghost tbl = analyzer_model(self.m_functions@);
        proof {
            lemma_tbl_model(self.m_functions@, self.m_functions@.len() as int);
        }
        let mut i: usize = 0;
        while i < self.m_functions.len()
            invariant
                tbl == analyzer_model(self.m_functions@),
                tbl_distinct(tbl),
                tbl.len() == self.m_functions@.len(),
                forall|j: int|
                    0 <= j < tbl.len() ==> #[trigger] tbl[j] == (
                        self.m_functions@[j].m_id@,
                        self.m_functions@[j].m_parameters@.len(),
                    ),
                i <= self.m_functions@.len(),
                forall|k: int| 0 <= k < i ==> (#[trigger] tbl[k]).0 != id@,
            decreases self.m_functions@.len() - i,
        {
            if str_eq(self.m_functions[i].m_id.as_str(), id.as_str()) {
                let n = self.m_functions[i].m_parameters.len();
                proof {
                    lemma_lookup_found(tbl, id@, i as int);
                }
                return Some(n);
            }
            i = i + 1;
        }
        proof {
            lemma_lookup_absent(tbl, id@);
        }
        None
    }

    /// Walks a whole program from the signatures already recorded:
    /// `true` exactly when the model verdict accepts it.
    pub fn analyze_program(&mut self, program: &Program) -> (r: bool)
        requires
            tbl_distinct(analyzer_model(old(self).m_functions@)),
        ensures
            r == (sa_program_from(
                analyzer_model(old(self).m_functions@),
                program_model(*program),
            ) is Ok),
            r ==> sa_program_from(
                analyzer_model(old(self).m_functions@),
                program_model(*program),
            ) == Ok::<FnTable, AnalysisErrorModel>(analyzer_model(final(self).m_functions@))
                && tbl_distinct(analyzer_model(final(self).m_functions@)),
    {
        let ghost fns0 = analyzer_model(old(self).m_functions@);
        let ghost pm = program_model(*program);
        proof {
            reveal(program_model);
            reveal(functions_model);
            reveal(function_model);
            reveal(sa_functions);
            reveal(sa_function);
            lemma_functions_model(program.m_functions@, 0);
        }
        let mut i: usize = 0;
        loop
            invariant
                tbl_distinct(analyzer_model(self.m_functions@)),
                i <= program.m_functions@.len(),
                fns0 == analyzer_model(old(self).m_functions@),
                pm == program_model(*program),
                pm.functions == functions_model(program.m_functions@, 0),
                pm.functions.len() == program.m_functions@.len(),
                forall|j: int|
                    0 <= j < program.m_functions@.len() ==> #[trigger] pm.functions[j]
                        == function_model(program.m_functions@[j]),
                sa_functions(fns0, pm.functions, 0) == sa_functions(
                    analyzer_model(self.m_functions@),
                    pm.functions,
                    i as int,
                ),
            ensures
                tbl_distinct(analyzer_model(self.m_functions@)),
                sa_functions(fns0, pm.functions, 0) == Ok::<FnTable, AnalysisErrorModel>(
                    analyzer_model(self.m_functions@),
                ),
            decreases program.m_functions@.len() - i,
        {
            if i >= program.m_functions.len() {
                proof {
                    reveal(sa_functions);
                }
                break;
            }
            let ghost fns_cur = analyzer_model(self.m_functions@);
            if !self.analyze_function(&program.m_functions[i]) {
                proof {
                    reveal(sa_functions);
                    assert(sa_functions(fns_cur, pm.functions, i as int) is Err);
                }
                return false;
            }
            proof {
                reveal(sa_functions);
            }
            i = i + 1;
        }
        true
    }

    /// Records or checks one function, then walks its body.
    pub fn analyze_function(&mut self, function: &Function) -> (r: bool)
        requires
            tbl_distinct(analyzer_model(old(self).m_functions@)),
        ensures
            r == (sa_function(
                analyzer_model(old(self).m_functions@),
                function_model(*function),
            ) is Ok),
            r ==> sa_function(
                analyzer_model(old(self).m_functions@),
                function_model(*function),
            ) == Ok::<FnTable, AnalysisErrorModel>(analyzer_model(final(self).m_functions@))
                && tbl_distinct(analyzer_model(final(self).m_functions@)),
    {
        let ghost fns = analyzer_model(old(self).m_functions@);
        let ghost fm = function_model(*function);
        proof {
            reveal(function_model);
            reveal(strings_model);
            reveal(block_items_model);
            reveal(sa_function);
            reveal(sa_block_items);
            reveal(sa_block_item);
            lemma_strings_model(function.m_params@, 0);
            lemma_tbl_model(self.m_functions@, self.m_functions@.len() as int);
        }
        match self.num_arguments(&function.m_id) {
            Some(n) => {
                if function.m_params.len() != n {
                    return false;
                }
            },
            None => {
                let mut params: Vec<String> = Vec::new();
                let mut i: usize = 0;
                while i < function.m_params.len()
                    invariant
                        i <= function.m_params@.len(),
                        params@.len() == i,
                        forall|j: int| 0 <= j < i ==> params@[j]@ == function.m_params@[j]@,
                    decreases function.m_params@.len() - i,
                {
                    params.push(function.m_params[i].clone());
                    i = i + 1;
                }
                let new_function = FunctionDef {
                    m_id: function.m_id.clone(),
                    m_type: function.m_type,
                    m_parameters: params,
                };
                let ghost v0 = self.m_functions@;
                self.m_functions.push(new_function);
                proof {
                    assert(tbl_model(self.m_functions@, (v0.len() + 1) as int) == tbl_model(
                        self.m_functions@,
                        v0.len() as int,
                    ).push((fm.id, fm.params.len())));
                    assert(forall|j: int| 0 <= j < v0.len() ==> #[trigger] self.m_functions@[j]
                        == v0[j]);
                    lemma_tbl_prefix(self.m_functions@, v0, v0.len() as int);
                    lemma_lookup_none_absent(fns, fm.id);
                    lemma_tbl_model(v0, v0.len() as int);
                    assert(tbl_distinct(analyzer_model(self.m_functions@))) by {
                        lemma_tbl_model(self.m_functions@, self.m_functions@.len() as int);
                    }
                }
            },
        }
        let ghost fns2 = analyzer_model(self.m_functions@);
        match &function.m_items {
            Some(items) => {
                let ghost items_m = block_items_model(items@, 0);
                proof {
                    lemma_block_items_model(items@, 0);
                    assert(sa_fn_items_link(fns, fm, fns2, items_m));
                }
                let mut i: usize = 0;
                loop
                    invariant
                        analyzer_model(self.m_functions@) == fns2,
                        tbl_distinct(fns2),
                        fns == analyzer_model(old(self).m_functions@),
                        fm == function_model(*function),
                        sa_fn_items_link(fns, fm, fns2, items_m),
                        i <= items@.len(),
                        items_m == block_items_model(items@, 0),
                        items_m.len() == items@.len(),
                        forall|j: int|
                            0 <= j < items@.len() ==> #[trigger] items_m[j] == block_item_model(
                                items@[j],
                            ),
                        sa_block_items(fns2, items_m, 0) == sa_block_items(
                            fns2,
                            items_m,
                            i as int,
                        ),
                    ensures
                        analyzer_model(self.m_functions@) == fns2,
                        tbl_distinct(fns2),
                        sa_block_items(fns2, items_m, 0) == Ok::<(), AnalysisErrorModel>(()),
                    decreases items@.len() - i,
                {
                    if i >= items.len() {
                        proof {
                            reveal(sa_block_items);
                            reveal(sa_block_item);
                        }
                        break;
                    }
                    if !self.analyze_block(&items[i]) {
                        proof {
                            reveal(sa_block_items);
                            reveal(sa_block_item);
                        }
                        return false;
                    }
                    proof {
                        reveal(sa_block_items);
                        reveal(sa_block_item);
                    }
                    i = i + 1;
                }
            },
            None => (),
        }
        true
    }

    fn analyze_block(&mut self, item: &BlockItem) -> (r: bool)
        requires
            tbl_distinct(analyzer_model(old(self).m_functions@)),
        ensures
            final(self).m_functions@ == old(self).m_functions@,
            r == (sa_block_item(
                analyzer_model(old(self).m_functions@),
                block_item_model(*item),
            ) is Ok),
        decreases bi_size(*item),
    {
        proof {
            reveal(block_item_model);
            reveal(statement_model);
            reveal(declaration_model);
            reveal(sa_block_item);
            reveal(sa_statement);
            reveal(sa_declaration);
        }
        match item {
            BlockItem::Statement(statement) => self.analyze_statement(statement),
            BlockItem::Declaration(declaration) => self.analyze_declaration(declaration),
        }
    }

    fn analyze_declaration(&mut self, declaration: &Declaration) -> (r: bool)
        requires
            tbl_distinct(analyzer_model(old(self).m_functions@)),
        ensures
            final(self).m_functions@ == old(self).m_functions@,
            r == (sa_declaration(
                analyzer_model(old(self).m_functions@),
                declaration_model(*declaration),
            ) is Ok),
        decreases declaration,
    {
        proof {
            reveal(declaration_model);
            reveal(expression_model);
            reveal(sa_declaration);
            reveal(sa_expression);
        }
        match &declaration.m_value {
            Some(e) => self.analyze_expression(e),
            None => true,
        }
    }

    fn analyze_statement(&mut self, statement: &Statement) -> (r: bool)
        requires
            tbl_distinct(analyzer_model(old(self).m_functions@)),
        ensures
            final(self).m_functions@ == old(self).m_functions@,
            r == (sa_statement(
                analyzer_model(old(self).m_functions@),
                statement_model(*statement),
            ) is Ok),
        decreases st_size(*statement),
    {
        let ghost fns = analyzer_model(old(self).m_functions@);
        let ghost sm = statement_model(*statement);
        proof {
            reveal(statement_model);
            reveal(expression_model);
            reveal(block_items_model);
            reveal(declaration_model);
            reveal(sa_statement);
            reveal(sa_expression);
            reveal(sa_block_items);
            reveal(sa_block_item);
            reveal(sa_declaration);
        }
        match statement {
            Statement::Return(e) => match e {
                None => true,
                Some(exp) => self.analyze_expression(exp),
            },
            Statement::Expression(e) => match e {
                None => true,
                Some(exp) => self.analyze_expression(exp),
            },
            Statement::If { m_condition, m_true_statement, m_else_statement } => {
                match m_else_statement {
                    Some(s2) => {
                        if !self.analyze_statement(s2) {
                            return false;
                        }
                    },
                    None => (),
                }
                if !self.analyze_expression(m_condition) {
                    return false;
                }
                self.analyze_statement(m_true_statement)
            },
            Statement::Compound { m_block_items } => {
                let ghost items_m = block_items_model(m_block_items@, 0);
                proof {
                    lemma_block_items_model(m_block_items@, 0);
                }
                let mut i: usize = 0;
                loop
                    invariant
                        self.m_functions@ == old(self).m_functions@,
                        tbl_distinct(fns),
                        fns == analyzer_model(old(self).m_functions@),
                        sm == statement_model(*statement),
                        i <= m_block_items@.len(),
                        items_m == block_items_model(m_block_items@, 0),
                        items_m.len() == m_block_items@.len(),
                        forall|j: int|
                            0 <= j < m_block_items@.len() ==> #[trigger] items_m[j]
                                == block_item_model(m_block_items@[j]),
                        sa_statement(fns, sm) == sa_block_items(fns, items_m, 0),
                        sa_block_items(fns, items_m, 0) == sa_block_items(
                            fns,
                            items_m,
                            i as int,
                        ),
                        st_size(*statement) == 1 + bi_list_size(m_block_items@, 0),
                    ensures
                        self.m_functions@ == old(self).m_functions@,
                        sa_block_items(fns, items_m, 0) == Ok::<(), AnalysisErrorModel>(()),
                    decreases m_block_items@.len() - i,
                {
                    if i >= m_block_items.len() {
                        proof {
                            reveal(sa_block_items);
                            reveal(sa_block_item);
                        }
                        break;
                    }
                    proof {
                        lemma_bi_list_size(m_block_items@, 0);
                        assert(bi_size(m_block_items@[i as int]) <= bi_list_size(
                            m_block_items@,
                            0,
                        ));
                    }
                    if !self.analyze_block(&m_block_items[i]) {
                        proof {
                            reveal(sa_block_items);
                            reveal(sa_block_item);
                        }
                        return false;
                    }
                    proof {
                        reveal(sa_block_items);
                        reveal(sa_block_item);
                    }
                    i = i + 1;
                }
                true
            },
            Statement::For { m_initial_expression, m_condition, m_post_expression, m_statement } => {
                match m_initial_expression {
                    None => (),
                    Some(e) => {
                        if !self.analyze_expression(e) {
                            return false;
                        }
                    },
                }
                match m_post_expression {
                    None => (),
                    Some(e) => {
                        if !self.analyze_expression(e) {
                            return false;
                        }
                    },
                }
                if !self.analyze_expression(m_condition) {
                    return false;
                }
                self.analyze_statement(m_statement)
            },
            Statement::ForDecl {
                m_initial_declaration,
                m_condition,
                m_post_expression,
                m_statement,
            } => {
                match m_post_expression {
                    None => (),
                    Some(e) => {
                        if !self.analyze_expression(e) {
                            return false;
                        }
                    },
                }
                if !self.analyze_expression(m_condition) {
                    return false;
                }
                if !self.analyze_declaration(m_initial_declaration) {
                    return false;
                }
                self.analyze_statement(m_statement)
            },
            Statement::While { m_condition, m_statement } => {
                if !self.analyze_expression(m_condition) {
                    return false;
                }
                self.analyze_statement(m_statement)
            },
            Statement::Do { m_statement, m_condition } => {
                if !self.analyze_expression(m_condition) {
                    return false;
                }
                self.analyze_statement(m_statement)
            },
            Statement::Break => true,
            Statement::Continue => true,
        }
    }

    fn analyze_expression(&mut self, expression: &Expression) -> (r: bool)
        requires
            tbl_distinct(analyzer_model(old(self).m_functions@)),
        ensures
            final(self).m_functions@ == old(self).m_functions@,
            r == (sa_expression(
                analyzer_model(old(self).m_functions@),
                expression_model(*expression),
            ) is Ok),
        decreases expression,
    {
        proof {
            reveal(expression_model);
            reveal(conditional_model);
            reveal(sa_expression);
            reveal(sa_conditional);
        }
        match expression {
            Expression::Assignment { m_name: _, m_value } => self.analyze_expression(m_value),
            Expression::Operation(c) => self.analyze_conditional_expression(c),
        }
    }

    fn analyze_conditional_expression(&mut self, c: &ConditionalExpression) -> (r: bool)
        requires
            tbl_distinct(analyzer_model(old(self).m_functions@)),
        ensures
            final(self).m_functions@ == old(self).m_functions@,
            r == (sa_conditional(
                analyzer_model(old(self).m_functions@),
                conditional_model(*c),
            ) is Ok),
        decreases c,
    {
        proof {
            reveal(conditional_model);
            reveal(or_model);
            reveal(expression_model);
            reveal(sa_conditional);
            reveal(sa_or);
            reveal(sa_expression);
        }
        match &c.m_true {
            Some(e) => {
                if !self.analyze_expression(e) {
                    return false;
                }
            },
            None => (),
        }
        match &c.m_false {
            Some(n) => {
                if !self.analyze_conditional_expression(n) {
                    return false;
                }
            },
            None => (),
        }
        self.analyze_logical_or_expression(&c.m_condition)
    }

    fn analyze_logical_or_expression(&mut self, e: &LogicalOrExpresson) -> (r: bool)
        requires
            tbl_distinct(analyzer_model(old(self).m_functions@)),
        ensures
            final(self).m_functions@ == old(self).m_functions@,
            r == (sa_or(analyzer_model(old(self).m_functions@), or_model(*e)) is Ok),
        decreases e,
    {
        let ghost fns = analyzer_model(old(self).m_functions@);
        let ghost em = or_model(*e);
        proof {
            reveal(or_model);
            reveal(and_model);
            reveal(and_list_model);
            reveal(sa_or);
            reveal(sa_and);
            reveal(sa_and_list);
            lemma_and_list_model(e.m_rest@, 0);
        }
        if !self.analyze_logical_and_expression(&e.m_first) {
            return false;
        }
        let ghost restm = em.rest;
        proof {
            assert(restm == and_list_model(e.m_rest@, 0));
        }
        let mut i: usize = 0;
        loop
            invariant
                tbl_distinct(fns),
                self.m_functions@ == old(self).m_functions@,
                fns == analyzer_model(old(self).m_functions@),
                em == or_model(*e),
                i <= e.m_rest@.len(),
                restm == and_list_model(e.m_rest@, 0),
                restm.len() == e.m_rest@.len(),
                forall|j: int|
                    0 <= j < e.m_rest@.len() ==> #[trigger] restm[j] == and_model(
                        e.m_rest@[j],
                    ),
                sa_or(fns, em) == sa_and_list(fns, restm, 0),
                sa_and_list(fns, restm, 0) == sa_and_list(fns, restm, i as int),
            ensures
                self.m_functions@ == old(self).m_functions@,
                sa_and_list(fns, restm, 0) == Ok::<(), AnalysisErrorModel>(()),
            decreases e.m_rest@.len() - i,
        {
            if i >= e.m_rest.len() {
                proof {
                    reveal(sa_and_list);
                    reveal(sa_and);
                }
                break;
            }
            if !self.analyze_logical_and_expression(&e.m_rest[i]) {
                proof {
                    reveal(sa_and_list);
                    reveal(sa_and);
                }
                return false;
            }
            proof {
                reveal(sa_and_list);
                reveal(sa_and);
            }
            i = i + 1;
        }
        true
    }

    fn analyze_logical_and_expression(&mut self, e: &LogicalAndExpression) -> (r: bool)
        requires
            tbl_distinct(analyzer_model(old(self).m_functions@)),
        ensures
            final(self).m_functions@ == old(self).m_functions@,
            r == (sa_and(analyzer_model(old(self).m_functions@), and_model(*e)) is Ok),
        decreases e,
    {
        let ghost fns = analyzer_model(old(self).m_functions@);
        let ghost em = and_model(*e);
        proof {
            reveal(and_model);
            reveal(equality_model);
            reveal(equality_list_model);
            reveal(sa_and);
            reveal(sa_equality);
            reveal(sa_equality_list);
            lemma_equality_list_model(e.m_rest@, 0);
        }
        if !self.analyze_equality_expression(&e.m_first) {
            return false;
        }
        let ghost restm = em.rest;
        proof {
            assert(restm == equality_list_model(e.m_rest@, 0));
        }
        let mut i: usize = 0;
        loop
            invariant
                tbl_distinct(fns),
                self.m_functions@ == old(self).m_functions@,
                fns == analyzer_model(old(self).m_functions@),
                em == and_model(*e),
                i <= e.m_rest@.len(),
                restm == equality_list_model(e.m_rest@, 0),
                restm.len() == e.m_rest@.len(),
                forall|j: int|
                    0 <= j < e.m_rest@.len() ==> #[trigger] restm[j] == equality_model(
                        e.m_rest@[j],
                    ),
                sa_and(fns, em) == sa_equality_list(fns, restm, 0),
                sa_equality_list(fns, restm, 0) == sa_equality_list(fns, restm, i as int),
            ensures
                self.m_functions@ == old(self).m_functions@,
                sa_equality_list(fns, restm, 0) == Ok::<(), AnalysisErrorModel>(()),
            decreases e.m_rest@.len() - i,
        {
            if i >= e.m_rest.len() {
                proof {
                    reveal(sa_equality_list);
                    reveal(sa_equality);
                }
                break;
            }
            if !self.analyze_equality_expression(&e.m_rest[i]) {
                proof {
                    reveal(sa_equality_list);
                    reveal(sa_equality);
                }
                return false;
            }
            proof {
                reveal(sa_equality_list);
                reveal(sa_equality);
            }
            i = i + 1;
        }
        true
    }

    fn analyze_equality_expression(&mut self, e: &EqualityExpression) -> (r: bool)
        requires
            tbl_distinct(analyzer_model(old(self).m_functions@)),
        ensures
            final(self).m_functions@ == old(self).m_functions@,
            r == (sa_equality(analyzer_model(old(self).m_functions@), equality_model(*e)) is Ok),
        decreases e,
    {
        let ghost fns = analyzer_model(old(self).m_functions@);
        let ghost em = equality_model(*e);
        proof {
            reveal(equality_model);
            reveal(relational_model);
            reveal(relational_list_model);
            reveal(sa_equality);
            reveal(sa_relational);
            reveal(sa_relational_list);
            lemma_relational_list_model(e.m_rest@, 0);
        }
        if !self.analyze_relational_expression(&e.m_first) {
            return false;
        }
        let ghost restm = em.rest;
        proof {
            assert(restm == relational_list_model(e.m_rest@, 0));
        }
        let mut i: usize = 0;
        loop
            invariant
                tbl_distinct(fns),
                self.m_functions@ == old(self).m_functions@,
                fns == analyzer_model(old(self).m_functions@),
                em == equality_model(*e),
                i <= e.m_rest@.len(),
                restm == relational_list_model(e.m_rest@, 0),
                restm.len() == e.m_rest@.len(),
                forall|j: int|
                    0 <= j < e.m_rest@.len() ==> (#[trigger] restm[j]).1 == relational_model(
                        e.m_rest@[j].1,
                    ),
                sa_equality(fns, em) == sa_relational_list(fns, restm, 0),
                sa_relational_list(fns, restm, 0) == sa_relational_list(fns, restm, i as int),
            ensures
                self.m_functions@ == old(self).m_functions@,
                sa_relational_list(fns, restm, 0) == Ok::<(), AnalysisErrorModel>(()),
            decreases e.m_rest@.len() - i,
        {
            if i >= e.m_rest.len() {
                proof {
                    reveal(sa_relational_list);
                    reveal(sa_relational);
                }
                break;
            }
            if !self.analyze_relational_expression(&e.m_rest[i].1) {
                proof {
                    reveal(sa_relational_list);
                    reveal(sa_relational);
                }
                return false;
            }
            proof {
                reveal(sa_relational_list);
                reveal(sa_relational);
            }
            i = i + 1;
        }
        true
    }

    fn analyze_relational_expression(&mut self, e: &RelationalExpression) -> (r: bool)
        requires
            tbl_distinct(analyzer_model(old(self).m_functions@)),
        ensures
            final(self).m_functions@ == old(self).m_functions@,
            r == (sa_relational(analyzer_model(old(self).m_functions@), relational_model(*e)) is Ok),
        decreases e,
    {
        let ghost fns = analyzer_model(old(self).m_functions@);
        let ghost em = relational_model(*e);
        proof {
            reveal(relational_model);
            reveal(additive_model);
            reveal(additive_list_model);
            reveal(sa_relational);
            reveal(sa_additive);
            reveal(sa_additive_list);
            lemma_additive_list_model(e.m_rest@, 0);
        }
        if !self.analyze_additive_expression(&e.m_first) {
            return false;
        }
        let ghost restm = em.rest;
        proof {
            assert(restm == additive_list_model(e.m_rest@, 0));
        }
        let mut i: usize = 0;
        loop
            invariant
                tbl_distinct(fns),
                self.m_functions@ == old(self).m_functions@,
                fns == analyzer_model(old(self).m_functions@),
                em == relational_model(*e),
                i <= e.m_rest@.len(),
                restm == additive_list_model(e.m_rest@, 0),
                restm.len() == e.m_rest@.len(),
                forall|j: int|
                    0 <= j < e.m_rest@.len() ==> (#[trigger] restm[j]).1 == additive_model(
                        e.m_rest@[j].1,
                    ),
                sa_relational(fns, em) == sa_additive_list(fns, restm, 0),
                sa_additive_list(fns, restm, 0) == sa_additive_list(fns, restm, i as int),
            ensures
                self.m_functions@ == old(self).m_functions@,
                sa_additive_list(fns, restm, 0) == Ok::<(), AnalysisErrorModel>(()),
            decreases e.m_rest@.len() - i,
        {
            if i >= e.m_rest.len() {
                proof {
                    reveal(sa_additive_list);
                    reveal(sa_additive);
                }
                break;
            }
            if !self.analyze_additive_expression(&e.m_rest[i].1) {
                proof {
                    reveal(sa_additive_list);
                    reveal(sa_additive);
                }
                return false;
            }
            proof {
                reveal(sa_additive_list);
                reveal(sa_additive);
            }
            i = i + 1;
        }
        true
    }

    fn analyze_additive_expression(&mut self, e: &AdditiveExpression) -> (r: bool)
        requires
            tbl_distinct(analyzer_model(old(self).m_functions@)),
        ensures
            final(self).m_functions@ == old(self).m_functions@,
            r == (sa_additive(analyzer_model(old(self).m_functions@), additive_model(*e)) is Ok),
        decreases e,
    {
        let ghost fns = analyzer_model(old(self).m_functions@);
        let ghost em = additive_model(*e);
        proof {
            reveal(additive_model);
            reveal(term_model);
            reveal(term_list_model);
            reveal(sa_additive);
            reveal(sa_term);
            reveal(sa_term_list);
            lemma_term_list_model(e.m_rest@, 0);
        }
        if !self.analyze_term(&e.m_first_term) {
            return false;
        }
        let ghost restm = em.rest;
        proof {
            assert(restm == term_list_model(e.m_rest@, 0));
        }
        let mut i: usize = 0;
        loop
            invariant
                tbl_distinct(fns),
                self.m_functions@ == old(self).m_functions@,
                fns == analyzer_model(old(self).m_functions@),
                em == additive_model(*e),
                i <= e.m_rest@.len(),
                restm == term_list_model(e.m_rest@, 0),
                restm.len() == e.m_rest@.len(),
                forall|j: int|
                    0 <= j < e.m_rest@.len() ==> (#[trigger] restm[j]).1 == term_model(
                        e.m_rest@[j].1,
                    ),
                sa_additive(fns, em) == sa_term_list(fns, restm, 0),
                sa_term_list(fns, restm, 0) == sa_term_list(fns, restm, i as int),
            ensures
                self.m_functions@ == old(self).m_functions@,
                sa_term_list(fns, restm, 0) == Ok::<(), AnalysisErrorModel>(()),
            decreases e.m_rest@.len() - i,
        {
            if i >= e.m_rest.len() {
                proof {
                    reveal(sa_term_list);
                    reveal(sa_term);
                }
                break;
            }
            if !self.analyze_term(&e.m_rest[i].1) {
                proof {
                    reveal(sa_term_list);
                    reveal(sa_term);
                }
                return false;
            }
            proof {
                reveal(sa_term_list);
                reveal(sa_term);
            }
            i = i + 1;
        }
        true
    }

    fn analyze_term(&mut self, e: &Term) -> (r: bool)
        requires
            tbl_distinct(analyzer_model(old(self).m_functions@)),
        ensures
            final(self).m_functions@ == old(self).m_functions@,
            r == (sa_term(analyzer_model(old(self).m_functions@), term_model(*e)) is Ok),
        decreases e,
    {
        let ghost fns = analyzer_model(old(self).m_functions@);
        let ghost em = term_model(*e);
        proof {
            reveal(term_model);
            reveal(factor_model);
            reveal(factor_list_model);
            reveal(sa_term);
            reveal(sa_factor);
            reveal(sa_factor_list);
            lemma_factor_list_model(e.m_rest@, 0);
        }
        if !self.analyze_factor(&e.m_first_factor) {
            return false;
        }
        let ghost restm = em.rest;
        proof {
            assert(restm == factor_list_model(e.m_rest@, 0));
        }
        let mut i: usize = 0;
        loop
            invariant
                tbl_distinct(fns),
                self.m_functions@ == old(self).m_functions@,
                fns == analyzer_model(old(self).m_functions@),
                em == term_model(*e),
                i <= e.m_rest@.len(),
                restm == factor_list_model(e.m_rest@, 0),
                restm.len() == e.m_rest@.len(),
                forall|j: int|
                    0 <= j < e.m_rest@.len() ==> (#[trigger] restm[j]).1 == factor_model(
                        e.m_rest@[j].1,
                    ),
                sa_term(fns, em) == sa_factor_list(fns, restm, 0),
                sa_factor_list(fns, restm, 0) == sa_factor_list(fns, restm, i as int),
            ensures
                self.m_functions@ == old(self).m_functions@,
                sa_factor_list(fns, restm, 0) == Ok::<(), AnalysisErrorModel>(()),
            decreases e.m_rest@.len() - i,
        {
            if i >= e.m_rest.len() {
                proof {
                    reveal(sa_factor_list);
                    reveal(sa_factor);
                }
                break;
            }
            if !self.analyze_factor(&e.m_rest[i].1) {
                proof {
                    reveal(sa_factor_list);
                    reveal(sa_factor);
                }
                return false;
            }
            proof {
                reveal(sa_factor_list);
                reveal(sa_factor);
            }
            i = i + 1;
        }
        true
    }

    fn analyze_factor(&mut self, f: &Factor) -> (r: bool)
        requires
            tbl_distinct(analyzer_model(old(self).m_functions@)),
        ensures
            final(self).m_functions@ == old(self).m_functions@,
            r == (sa_factor(analyzer_model(old(self).m_functions@), factor_model(*f)) is Ok),
        decreases f,
    {
        proof {
            reveal(factor_model);
            reveal(expression_model);
            reveal(expressions_model);
            reveal(sa_factor);
            reveal(sa_expression);
        }
        match f {
            Factor::FunCall { m_id, m_arguments } => {
                proof {
                    lemma_expressions_model(m_arguments@, 0);
                }
                match self.num_arguments(m_id) {
                    None => false,
                    Some(n) => m_arguments.len() == n,
                }
            },
            Factor::Constant { m_value: _ } => true,
            Factor::UnaryOperation { m_opertator: _, m_factor } => self.analyze_factor(m_factor),
            Factor::Braced { m_expression } => self.analyze_expression(m_expression),
            Factor::Variable { m_var: _ } => true,
        }
    }
}

proof fn lemma_tbl_prefix(v1: Seq<FunctionDef>, v0: Seq<FunctionDef>, k: int)
    requires
        0 <= k <= v0.len(),
        k <= v1.len(),
        forall|j: int| 0 <= j < k ==> v1[j] == v0[j],
    ensures
        tbl_model(v1, k) == tbl_model(v0, k),
    decreases k,
{
    if k > 0 {
        lemma_tbl_prefix(v1, v0, k - 1);
    }
}

} // verus!
