use alin::ast::Expr;
use alin::eval::{EvalDiag, EvalResult, Evaluator, Value};
use alin::lexer::{LexWarn, Lexer};
use alin::parser::{ParseError, Parser};
use alin::token::Token;

fn parse_source(src: &str) -> Vec<Expr> {
    let mut lexer = Lexer::new(src);
    let tokens = lexer.tokenize();
    let mut parser = Parser::new(tokens);
    parser.parse().expect("source should parse")
}

fn eval_one(src: &str) -> (EvalResult, Evaluator) {
    let exprs = parse_source(src);
    assert_eq!(exprs.len(), 1);
    let mut ev = Evaluator::new();
    let r = ev.eval(&exprs[0]);
    (r, ev)
}

fn num_of(r: &EvalResult) -> f64 {
    match r {
        EvalResult::Val(Some(Value::Num(bits))) => f64::from_bits(*bits),
        other => panic!("expected a number, got {:?}", other),
    }
}

#[test]
fn lex_basic_tokens() {
    let mut lexer = Lexer::new("x = 1 + 2;");
    let tokens = lexer.tokenize();
    assert_eq!(
        tokens,
        vec![
            Token::Identifier("x".to_string()),
            Token::Equal,
            Token::Number(1.0f64.to_bits()),
            Token::Plus,
            Token::Number(2.0f64.to_bits()),
            Token::Semicolon,
            Token::Eof,
        ]
    );
    assert!(lexer.warnings().is_empty());
}

#[test]
fn lex_keywords_come_out_as_identifiers() {
    // The scanner has no keyword table: `while` and `if` are plain
    // identifiers, and braces are unknown characters.
    let mut lexer = Lexer::new("while if {");
    let tokens = lexer.tokenize();
    assert_eq!(
        tokens,
        vec![
            Token::Identifier("while".to_string()),
            Token::Identifier("if".to_string()),
            Token::Eof,
        ]
    );
    assert!(matches!(lexer.warnings()[..], [LexWarn::UnknownChar('{')]));
}

#[test]
fn lex_comparison_operators_are_not_scanned() {
    // `<` is not among the single-character tokens the scanner knows, so
    // comparisons cannot reach the parser from source text.
    let mut lexer = Lexer::new("a < b");
    let tokens = lexer.tokenize();
    assert_eq!(
        tokens,
        vec![
            Token::Identifier("a".to_string()),
            Token::Identifier("b".to_string()),
            Token::Eof,
        ]
    );
    assert!(matches!(lexer.warnings()[..], [LexWarn::UnknownChar('<')]));
}

#[test]
fn lex_string_escapes() {
    let mut lexer = Lexer::new("'a\\nb\\t\\q'");
    let tokens = lexer.tokenize();
    assert_eq!(tokens, vec![Token::Str("a\nb\tq".to_string()), Token::Eof]);
}

#[test]
fn lex_unterminated_string_keeps_collected_text() {
    let mut lexer = Lexer::new("\"abc");
    let tokens = lexer.tokenize();
    assert_eq!(tokens, vec![Token::Str("abc".to_string()), Token::Eof]);
}

#[test]
fn lex_invalid_number_becomes_zero_with_warning() {
    let mut lexer = Lexer::new("1.2.3");
    let tokens = lexer.tokenize();
    assert_eq!(tokens, vec![Token::Number(0), Token::Eof]);
    match &lexer.warnings()[..] {
        [LexWarn::InvalidNumber(text)] => assert_eq!(text, "1.2.3"),
        other => panic!("expected one invalid-number warning, got {:?}", other),
    }
}

#[test]
fn lex_line_comment_is_discarded() {
    let mut lexer = Lexer::new("1 // two three\n2");
    let tokens = lexer.tokenize();
    assert_eq!(
        tokens,
        vec![
            Token::Number(1.0f64.to_bits()),
            Token::Number(2.0f64.to_bits()),
            Token::Eof,
        ]
    );
}

#[test]
fn lex_empty_input_gives_only_eof() {
    let mut lexer = Lexer::new("");
    assert_eq!(lexer.tokenize(), vec![Token::Eof]);
}

#[test]
fn parse_precedence_binds_star_tighter() {
    let exprs = parse_source("1+2*3");
    assert_eq!(exprs.len(), 1);
    match &exprs[0] {
        Expr::Binary { left, op: Token::Plus, right } => {
            assert!(matches!(**left, Expr::Number(_)));
            assert!(matches!(**right, Expr::Binary { op: Token::Star, .. }));
        },
        other => panic!("unexpected tree {:?}", other),
    }
}

#[test]
fn parse_invalid_assignment_target_is_fatal() {
    let mut lexer = Lexer::new("1 = 2");
    let tokens = lexer.tokenize();
    let mut parser = Parser::new(tokens);
    assert!(matches!(parser.parse(), Err(ParseError::InvalidAssignmentTarget)));
}

#[test]
fn parse_unparseable_statement_is_fatal() {
    let mut lexer = Lexer::new("+");
    let tokens = lexer.tokenize();
    let mut parser = Parser::new(tokens);
    assert!(matches!(parser.parse(), Err(ParseError::Syntax(_))));
}

#[test]
fn parse_empty_program() {
    let exprs = parse_source("");
    assert!(exprs.is_empty());
}

#[test]
fn eval_numeric_expression_matches_doubles() {
    let (r, _) = eval_one("1+2*3");
    assert_eq!(num_of(&r), 7.0);
}

#[test]
fn eval_each_operator_matches_doubles() {
    assert_eq!(num_of(&eval_one("9 - 2.5").0), 9.0 - 2.5);
    assert_eq!(num_of(&eval_one("0.1 + 0.2").0), 0.1 + 0.2);
    assert_eq!(num_of(&eval_one("3 * 0.5").0), 1.5);
    assert_eq!(num_of(&eval_one("7 / 2").0), 3.5);
}

#[test]
fn eval_division_by_zero_gives_infinity() {
    assert_eq!(num_of(&eval_one("1/0").0), f64::INFINITY);
}

#[test]
fn eval_string_concatenation() {
    let (r, _) = eval_one("\"ab\" + \"cd\"");
    match r {
        EvalResult::Val(Some(Value::Str(s))) => assert_eq!(s, "abcd"),
        other => panic!("expected a string, got {:?}", other),
    }
}

#[test]
fn eval_mixed_types_give_nil_and_diagnostic() {
    let (r, ev) = eval_one("1 + \"x\"");
    assert!(matches!(r, EvalResult::Val(None)));
    assert!(matches!(ev.diagnostics()[..], [EvalDiag::TypeMismatch]));
}

#[test]
fn eval_assignment_yields_value_and_persists() {
    let mut ev = Evaluator::new();
    ev.run(&parse_source("x = 5;"));
    let exprs = parse_source("x + 1");
    let r = ev.eval(&exprs[0]);
    assert_eq!(num_of(&r), 6.0);
    match ev.get_var(&"x".to_string()) {
        Some(Value::Num(bits)) => assert_eq!(f64::from_bits(bits), 5.0),
        other => panic!("expected x bound to 5, got {:?}", other),
    }
}

#[test]
fn eval_unknown_variable_is_nil_without_diagnostic() {
    let (r, ev) = eval_one("y");
    assert!(matches!(r, EvalResult::Val(None)));
    assert!(ev.diagnostics().is_empty());
}

#[test]
fn eval_parenthesised_grouping() {
    assert_eq!(num_of(&eval_one("(1+2)*3").0), 9.0);
}

#[test]
fn eval_while_loop_counts_to_three() {
    // Comparisons and braces cannot be scanned from source text, so the
    // loop is built as the parser would have to build it.
    let mut ev = Evaluator::new();
    ev.run(&parse_source("i = 0;"));
    let body = Expr::Block(vec![Expr::Assignment {
        name: "i".to_string(),
        expr: Box::new(Expr::Binary {
            left: Box::new(Expr::Variable("i".to_string())),
            op: Token::Plus,
            right: Box::new(Expr::Number(1.0f64.to_bits())),
        }),
    }]);
    let node = Expr::While {
        condition: Box::new(Expr::Binary {
            left: Box::new(Expr::Variable("i".to_string())),
            op: Token::Less,
            right: Box::new(Expr::Number(3.0f64.to_bits())),
        }),
        body: Box::new(body),
    };
    let r = ev.eval(&node);
    assert!(matches!(r, EvalResult::Val(Some(Value::Nil))));
    match ev.get_var(&"i".to_string()) {
        Some(Value::Num(bits)) => assert_eq!(f64::from_bits(bits), 3.0),
        other => panic!("expected i bound to 3, got {:?}", other),
    }
}

#[test]
fn eval_break_stops_loop_early() {
    let mut ev = Evaluator::new();
    let node = Expr::While {
        condition: Box::new(Expr::Number(1.0f64.to_bits())),
        body: Box::new(Expr::Block(vec![Expr::Break])),
    };
    let r = ev.eval(&node);
    assert!(matches!(r, EvalResult::Val(Some(Value::Nil))));
    assert!(ev.diagnostics().is_empty());
}

#[test]
fn eval_continue_skips_rest_of_iteration() {
    let mut ev = Evaluator::new();
    ev.run(&parse_source("i = 0;"));
    let step = Expr::Assignment {
        name: "i".to_string(),
        expr: Box::new(Expr::Binary {
            left: Box::new(Expr::Variable("i".to_string())),
            op: Token::Plus,
            right: Box::new(Expr::Number(1.0f64.to_bits())),
        }),
    };
    let poison = Expr::Assignment {
        name: "i".to_string(),
        expr: Box::new(Expr::Number(100.0f64.to_bits())),
    };
    let node = Expr::While {
        condition: Box::new(Expr::Binary {
            left: Box::new(Expr::Variable("i".to_string())),
            op: Token::Less,
            right: Box::new(Expr::Number(3.0f64.to_bits())),
        }),
        body: Box::new(Expr::Block(vec![step, Expr::Continue, poison])),
    };
    ev.eval(&node);
    match ev.get_var(&"i".to_string()) {
        Some(Value::Num(bits)) => assert_eq!(f64::from_bits(bits), 3.0),
        other => panic!("expected i bound to 3, got {:?}", other),
    }
}

#[test]
fn top_level_break_is_reported_as_invalid() {
    // `break` scans as an identifier, so the token is supplied directly.
    let mut parser = Parser::new(vec![Token::Break, Token::Eof]);
    let exprs = parser.parse().expect("break should parse");
    let mut ev = Evaluator::new();
    ev.run(&exprs);
    assert!(matches!(ev.diagnostics()[..], [EvalDiag::StrayLoopSignal]));
}

#[test]
fn top_level_continue_is_reported_as_invalid() {
    let mut parser = Parser::new(vec![Token::Continue, Token::Eof]);
    let exprs = parser.parse().expect("continue should parse");
    let mut ev = Evaluator::new();
    ev.run(&exprs);
    assert!(matches!(ev.diagnostics()[..], [EvalDiag::StrayLoopSignal]));
}

#[test]
fn print_joins_arguments_with_single_spaces() {
    let mut ev = Evaluator::new();
    ev.run(&parse_source("print(1, \"a\")"));
    assert_eq!(ev.output(), &vec!["1 a".to_string()]);
}

#[test]
fn print_renders_values_naturally() {
    let mut ev = Evaluator::new();
    ev.run(&parse_source("print(0.5); print(100000); print(10); print(0 - 2.5); print(1/0)"));
    assert_eq!(
        ev.output(),
        &vec![
            "0.5".to_string(),
            "100000".to_string(),
            "10".to_string(),
            "-2.5".to_string(),
            "inf".to_string(),
        ]
    );
}

#[test]
fn print_of_failed_argument_shows_nil() {
    let mut ev = Evaluator::new();
    ev.run(&parse_source("print(y)"));
    assert_eq!(ev.output(), &vec!["nil".to_string()]);
}

#[test]
fn unknown_function_yields_nil_with_diagnostic() {
    let (r, ev) = eval_one("foo(1)");
    assert!(matches!(r, EvalResult::Val(Some(Value::Nil))));
    match &ev.diagnostics()[..] {
        [EvalDiag::UnknownFunction(name)] => assert_eq!(name, "foo"),
        other => panic!("expected one unknown-function diagnostic, got {:?}", other),
    }
}

#[test]
fn if_takes_truthy_branch_and_else_otherwise() {
    // `if` cannot be reached from source text (it scans as an identifier),
    // so the trees are built directly.
    let mut ev = Evaluator::new();
    let mk = |cond_bits: u64| Expr::If {
        condition: Box::new(Expr::Number(cond_bits)),
        then_branch: Box::new(Expr::FunctionCall {
            name: "print".to_string(),
            args: vec![Expr::StringLiteral("t".to_string())],
        }),
        else_branch: Some(Box::new(Expr::FunctionCall {
            name: "print".to_string(),
            args: vec![Expr::StringLiteral("f".to_string())],
        })),
    };
    ev.eval(&mk(1.0f64.to_bits()));
    ev.eval(&mk(0.0f64.to_bits()));
    assert_eq!(ev.output(), &vec!["t".to_string(), "f".to_string()]);
}

#[test]
fn return_passes_its_operand_through() {
    // `return` scans as an identifier, so the token is supplied directly.
    let mut parser = Parser::new(vec![
        Token::Return,
        Token::Number(4.0f64.to_bits()),
        Token::Eof,
    ]);
    let exprs = parser.parse().expect("return should parse");
    assert_eq!(exprs.len(), 1);
    let mut ev = Evaluator::new();
    let r = ev.eval(&exprs[0]);
    assert_eq!(num_of(&r), 4.0);
}

#[test]
fn comparisons_yield_one_or_zero() {
    // Comparison tokens are supplied directly; the evaluator turns a true
    // comparison into one and a false one into zero.
    let mk = |op: Token| {
        let mut parser = Parser::new(vec![
            Token::Number(2.0f64.to_bits()),
            op,
            Token::Number(3.0f64.to_bits()),
            Token::Eof,
        ]);
        let exprs = parser.parse().expect("comparison should parse");
        let mut ev = Evaluator::new();
        let r = ev.eval(&exprs[0]);
        num_of(&r)
    };
    assert_eq!(mk(Token::Less), 1.0);
    assert_eq!(mk(Token::LessEqual), 1.0);
    assert_eq!(mk(Token::EqualEqual), 0.0);
    assert_eq!(mk(Token::BangEqual), 1.0);
}

#[test]
fn semicolons_between_statements_are_optional() {
    let mut ev = Evaluator::new();
    ev.run(&parse_source("x = 1; y = 2\nz = 3"));
    assert!(ev.get_var(&"x".to_string()).is_some());
    assert!(ev.get_var(&"y".to_string()).is_some());
    assert!(ev.get_var(&"z".to_string()).is_some());
}
