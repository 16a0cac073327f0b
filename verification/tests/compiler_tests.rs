use minicc::analyser::Analyser;
use minicc::analyzer::Analyzer;
use minicc::ast::{
    AdditiveExpression, BlockItem, ConditionalExpression, EqualityExpression, Expression, Factor,
    Function, FunctionType, LogicalAndExpression, LogicalOrExpresson, Program,
    RelationalExpression, Statement, Term,
};
use minicc::lexer::{lex, LexError};
use minicc::token::Token;

fn expr_of_factor(f: Factor) -> Expression {
    Expression::Operation(ConditionalExpression {
        m_condition: LogicalOrExpresson {
            m_first: Box::new(LogicalAndExpression {
                m_first: Box::new(EqualityExpression {
                    m_first: Box::new(RelationalExpression {
                        m_first: Box::new(AdditiveExpression {
                            m_first_term: Box::new(Term {
                                m_first_factor: Box::new(f),
                                m_rest: Vec::new(),
                            }),
                            m_rest: Vec::new(),
                        }),
                        m_rest: Vec::new(),
                    }),
                    m_rest: Vec::new(),
                }),
                m_rest: Vec::new(),
            }),
            m_rest: Vec::new(),
        },
        m_true: None,
        m_false: None,
    })
}

fn call(name: &str, args: Vec<Expression>) -> Expression {
    expr_of_factor(Factor::FunCall { m_id: String::from(name), m_arguments: args })
}

fn int_fn(name: &str, params: Vec<&str>, items: Option<Vec<BlockItem>>) -> Function {
    Function {
        m_type: FunctionType::Int,
        m_params: params.into_iter().map(String::from).collect(),
        m_id: String::from(name),
        m_items: items,
    }
}

#[test]
fn lex_return_two() {
    let toks = lex("int main() { return 2; }").unwrap();
    assert_eq!(
        toks,
        vec![
            Token::KeywordInt,
            Token::Identifier(String::from("main")),
            Token::OpenParen,
            Token::CloseParen,
            Token::OpenBrace,
            Token::KeywordReturn,
            Token::IntLiteral(2),
            Token::SemiColon,
            Token::CloseBrace,
            Token::EndOfFile,
        ]
    );
}

#[test]
fn lex_two_char_operators_are_greedy() {
    let toks = lex("<= >= == != && || =<").unwrap();
    assert_eq!(
        toks,
        vec![
            Token::OperatorLessOrEqual,
            Token::OperatorGreaterOrEqual,
            Token::OperatorEqual,
            Token::OperatorNotEqual,
            Token::OperatorAnd,
            Token::OperatorOr,
            Token::OperatorAssign,
            Token::OperatorLess,
            Token::EndOfFile,
        ]
    );
}

#[test]
fn lex_single_ampersand_is_not_implemented() {
    match lex("a & b") {
        Err(LexError::NotImplemented) => (),
        other => panic!("expected NotImplemented, got {:?}", other),
    }
}

#[test]
fn lex_single_pipe_is_not_implemented() {
    match lex("a | b") {
        Err(LexError::NotImplemented) => (),
        other => panic!("expected NotImplemented, got {:?}", other),
    }
}

#[test]
fn lex_literal_that_fits_is_a_literal() {
    let toks = lex("2147483647").unwrap();
    assert_eq!(toks, vec![Token::IntLiteral(2147483647), Token::EndOfFile]);
}

#[test]
fn lex_literal_too_large_becomes_identifier() {
    let toks = lex("2147483648").unwrap();
    assert_eq!(
        toks,
        vec![Token::Identifier(String::from("2147483648")), Token::EndOfFile]
    );
}

#[test]
fn lex_keywords_match_exactly() {
    let toks = lex("intx int returnx do while").unwrap();
    assert_eq!(
        toks,
        vec![
            Token::Identifier(String::from("intx")),
            Token::KeywordInt,
            Token::Identifier(String::from("returnx")),
            Token::KeywordDo,
            Token::KeywordWhile,
            Token::EndOfFile,
        ]
    );
}

#[test]
fn lex_empty_input_is_end_of_file_only() {
    let toks = lex("").unwrap();
    assert_eq!(toks, vec![Token::EndOfFile]);
}

#[test]
fn lex_operators_without_spaces() {
    let toks = lex("a=b*3%2").unwrap();
    assert_eq!(
        toks,
        vec![
            Token::Identifier(String::from("a")),
            Token::OperatorAssign,
            Token::Identifier(String::from("b")),
            Token::OperatorMultiplication,
            Token::IntLiteral(3),
            Token::OperatorModulo,
            Token::IntLiteral(2),
            Token::EndOfFile,
        ]
    );
}

#[test]
fn analyser_rejects_arity_mismatch() {
    // int f(int a); int main() { return f(1, 2); }
    let program = Program {
        m_functions: vec![
            int_fn("f", vec!["a"], None),
            int_fn(
                "main",
                vec![],
                Some(vec![BlockItem::Statement(Statement::Return(Some(call(
                    "f",
                    vec![
                        expr_of_factor(Factor::Constant { m_value: 1 }),
                        expr_of_factor(Factor::Constant { m_value: 2 }),
                    ],
                ))))]),
            ),
        ],
    };
    let mut a = Analyser::new();
    assert!(a.analyse_program(&program).is_err());
    let mut b = Analyzer::new();
    assert!(!b.analyze_program(&program));
}

#[test]
fn analyser_accepts_forward_declaration() {
    // int three(); int main() { return three(); } int three() { ... }
    let program = Program {
        m_functions: vec![
            int_fn("three", vec![], None),
            int_fn(
                "main",
                vec![],
                Some(vec![BlockItem::Statement(Statement::Return(Some(call(
                    "three",
                    vec![],
                ))))]),
            ),
            int_fn(
                "three",
                vec![],
                Some(vec![BlockItem::Statement(Statement::Return(Some(
                    expr_of_factor(Factor::Constant { m_value: 3 }),
                )))]),
            ),
        ],
    };
    let mut a = Analyser::new();
    assert_eq!(a.analyse_program(&program).unwrap(), true);
    let mut b = Analyzer::new();
    assert!(b.analyze_program(&program));
}

#[test]
fn analyser_rejects_call_to_undeclared_function() {
    let program = Program {
        m_functions: vec![int_fn(
            "main",
            vec![],
            Some(vec![BlockItem::Statement(Statement::Return(Some(call(
                "missing",
                vec![],
            ))))]),
        )],
    };
    let mut a = Analyser::new();
    assert!(a.analyse_program(&program).is_err());
    let mut b = Analyzer::new();
    assert!(!b.analyze_program(&program));
}

#[test]
fn analyser_rejects_inconsistent_redeclaration() {
    let program = Program {
        m_functions: vec![
            int_fn("f", vec!["a"], None),
            int_fn("f", vec!["a", "b"], None),
        ],
    };
    let mut a = Analyser::new();
    assert!(a.analyse_program(&program).is_err());
    let mut b = Analyzer::new();
    assert!(!b.analyze_program(&program));
}

#[test]
fn analyser_walks_nested_compounds() {
    // int main() { { { return f(); } } }  with f undeclared
    let inner = Statement::Compound {
        m_block_items: vec![BlockItem::Statement(Statement::Return(Some(call(
            "f",
            vec![],
        ))))],
    };
    let outer = Statement::Compound {
        m_block_items: vec![BlockItem::Statement(inner)],
    };
    let program = Program {
        m_functions: vec![int_fn(
            "main",
            vec![],
            Some(vec![BlockItem::Statement(outer)]),
        )],
    };
    let mut a = Analyser::new();
    assert!(a.analyse_program(&program).is_err());
}

#[test]
fn function_def_clone_copies_parameters() {
    let d = minicc::analyser::FunctionDef {
        m_type: FunctionType::Int,
        m_parameters: vec![String::from("a"), String::from("b")],
    };
    let c = d.clone();
    assert_eq!(c.m_parameters, vec![String::from("a"), String::from("b")]);
    let d2 = minicc::analyzer::FunctionDef {
        m_id: String::from("f"),
        m_type: FunctionType::Int,
        m_parameters: vec![String::from("x")],
    };
    let c2 = d2.clone();
    assert_eq!(c2.m_id, String::from("f"));
    assert_eq!(c2.m_parameters, vec![String::from("x")]);
}

use minicc::analyser::AnalysisError;
use minicc::ast::{AdditiveOperator, MultiplicativeOperator, ParseError};
use minicc::parser::parse_program;

fn parsed(src: &str) -> minicc::ast::Program {
    parse_program(&lex(src).unwrap()).unwrap()
}

fn main_body(p: &minicc::ast::Program) -> &Vec<BlockItem> {
    p.m_functions[0].m_items.as_ref().unwrap()
}

fn return_expr(p: &minicc::ast::Program) -> &Expression {
    match &main_body(p)[0] {
        BlockItem::Statement(Statement::Return(Some(e))) => e,
        other => panic!("expected return, got {:?}", other),
    }
}

fn additive_of(e: &Expression) -> &AdditiveExpression {
    match e {
        Expression::Operation(c) => &c.m_condition.m_first.m_first.m_first.m_first,
        _ => panic!("expected operation"),
    }
}

#[test]
fn parse_return_two() {
    let p = parsed("int main() { return 2; }");
    assert_eq!(p.m_functions.len(), 1);
    assert_eq!(p.m_functions[0].m_id, "main");
    assert_eq!(
        *return_expr(&p),
        expr_of_factor(Factor::Constant { m_value: 2 })
    );
}

#[test]
fn parse_subtraction_is_left_associative() {
    // a - b - c parses as one additive level: first `a`, then the
    // pairs (−, b) and (−, c) in order, i.e. (a − b) − c.
    let p = parsed("int main() { return a - b - c; }");
    let add = additive_of(return_expr(&p));
    match *add.m_first_term.m_first_factor {
        Factor::Variable { ref m_var } => assert_eq!(m_var, "a"),
        ref other => panic!("expected variable, got {:?}", other),
    }
    assert_eq!(add.m_rest.len(), 2);
    assert!(matches!(add.m_rest[0].0, AdditiveOperator::Minus));
    match *add.m_rest[0].1.m_first_factor {
        Factor::Variable { ref m_var } => assert_eq!(m_var, "b"),
        ref other => panic!("expected variable, got {:?}", other),
    }
    assert!(matches!(add.m_rest[1].0, AdditiveOperator::Minus));
    match *add.m_rest[1].1.m_first_factor {
        Factor::Variable { ref m_var } => assert_eq!(m_var, "c"),
        ref other => panic!("expected variable, got {:?}", other),
    }
}

#[test]
fn parse_multiplication_binds_tighter_than_addition() {
    // 1 + 2 * 3: the multiplication sits inside the second term of
    // the additive level.
    let p = parsed("int main() { return 1 + 2 * 3; }");
    let add = additive_of(return_expr(&p));
    assert_eq!(add.m_rest.len(), 1);
    assert!(matches!(add.m_rest[0].0, AdditiveOperator::Addition));
    let term = &add.m_rest[0].1;
    assert_eq!(
        *term.m_first_factor,
        Factor::Constant { m_value: 2 }
    );
    assert_eq!(term.m_rest.len(), 1);
    assert!(matches!(
        term.m_rest[0].0,
        MultiplicativeOperator::Multiplication
    ));
    assert_eq!(term.m_rest[0].1, Factor::Constant { m_value: 3 });
}

#[test]
fn parse_parentheses_override_precedence() {
    // (1 + 2) * 3: the addition sits inside a braced factor of the
    // first term.
    let p = parsed("int main() { return (1 + 2) * 3; }");
    let add = additive_of(return_expr(&p));
    assert_eq!(add.m_rest.len(), 0);
    let term = &add.m_first_term;
    assert_eq!(term.m_rest.len(), 1);
    assert!(matches!(*term.m_first_factor, Factor::Braced { .. }));
    assert_eq!(term.m_rest[0].1, Factor::Constant { m_value: 3 });
}

#[test]
fn parse_for_without_condition_synthesises_one() {
    let p = parsed("int main() { for (int i = 0; ; i = i + 1) break; return 0; }");
    match &main_body(&p)[0] {
        BlockItem::Statement(Statement::ForDecl { m_condition, .. }) => {
            assert_eq!(
                *m_condition,
                expr_of_factor(Factor::Constant { m_value: 1 })
            );
        },
        other => panic!("expected for with declaration, got {:?}", other),
    }
}

#[test]
fn parse_forward_declaration_has_no_body() {
    let p = parsed("int three();");
    assert_eq!(p.m_functions.len(), 1);
    assert!(p.m_functions[0].m_items.is_none());
}

#[test]
fn parse_rejects_bare_return() {
    let r = parse_program(&lex("int main() { return; }").unwrap());
    assert!(matches!(r, Err(ParseError::ExpectedToken)));
}

#[test]
fn parse_rejects_missing_semicolon() {
    let r = parse_program(&lex("int main() { return 2 }").unwrap());
    assert!(matches!(r, Err(ParseError::UnexpectedToken(Token::CloseBrace, _))));
}

#[test]
fn analyser_rejects_arity_mismatch_from_source() {
    let p = parsed("int f(int a); int main() { return f(1, 2); }");
    let mut a = Analyser::new();
    match a.analyse_program(&p) {
        Err(AnalysisError::FunctionError(name, _)) => assert_eq!(name, "f"),
        other => panic!("expected function error, got {:?}", other),
    }
    let mut b = Analyzer::new();
    assert!(!b.analyze_program(&p));
}

#[test]
fn analyser_rejects_undeclared_call_from_source() {
    let p = parsed("int main() { return g(); }");
    let mut a = Analyser::new();
    match a.analyse_program(&p) {
        Err(AnalysisError::FunctionError(name, _)) => assert_eq!(name, "g"),
        other => panic!("expected function error, got {:?}", other),
    }
}

#[test]
fn analyser_accepts_undeclared_variable_reference() {
    // Variable declaration-before-use is deliberately left to the
    // code-generation stage; the analyser accepts this program.
    let p = parsed("int main() { return x; }");
    let mut a = Analyser::new();
    assert_eq!(a.analyse_program(&p).unwrap(), true);
}

#[test]
fn analyser_accepts_forward_declaration_from_source() {
    let p = parsed("int three(); int main() { return three(); } int three() { return 3; }");
    let mut a = Analyser::new();
    assert_eq!(a.analyse_program(&p).unwrap(), true);
    let mut b = Analyzer::new();
    assert!(b.analyze_program(&p));
}

#[test]
fn analyser_rejects_redeclaration_with_other_arity_from_source() {
    let p = parsed("int f(int a); int f(int a, int b);");
    let mut a = Analyser::new();
    assert!(a.analyse_program(&p).is_err());
    let mut b = Analyzer::new();
    assert!(!b.analyze_program(&p));
}

#[test]
fn fresh_analysers_agree() {
    // Two fresh instances of either walker, and the two walker
    // variants themselves, return the same verdict for a program.
    let good = parsed("int f(int a); int main() { return f(1); }");
    let bad = parsed("int f(int a); int main() { return f(1, 2); }");
    for p in [&good, &bad] {
        let mut a1 = Analyser::new();
        let mut a2 = Analyser::new();
        let v1 = a1.analyse_program(p).is_ok();
        let v2 = a2.analyse_program(p).is_ok();
        assert_eq!(v1, v2);
        let mut b1 = Analyzer::new();
        let mut b2 = Analyzer::new();
        assert_eq!(b1.analyze_program(p), v1);
        assert_eq!(b2.analyze_program(p), v1);
    }
}
