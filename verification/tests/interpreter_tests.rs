use prefix_calc::eval::eval_program;
use prefix_calc::eval::EvalError;
use prefix_calc::eval::Value;
use prefix_calc::lexer::lex;
use prefix_calc::lexer::LexError;
use prefix_calc::lexer::Operator;
use prefix_calc::lexer::UnaryOperator;
use prefix_calc::parser::parse;
use prefix_calc::parser::parse_program;
use prefix_calc::parser::Expr;
use prefix_calc::parser::ParseError;
use prefix_calc::run;
use prefix_calc::PipelineError;

/// Folds a resolved value tree into the machine number it denotes.
fn fold(v: &Value) -> f64 {
    match v {
        Value::Number(lit) => {
            let text: String = lit.iter().collect();
            text.parse().expect("Invalid Program")
        }
        Value::BinOp { op, left, right } => {
            let l = fold(left);
            let r = fold(right);
            match op {
                Operator::Add => l + r,
                Operator::Sub => l - r,
                Operator::Mul => l * r,
                Operator::Div => l / r,
                Operator::Pow => l.powf(r),
            }
        }
        Value::UnOp { op: UnaryOperator::Log, operand } => fold(operand).ln(),
    }
}

/// Runs a source text and folds each printed value into a number.
fn outputs_of(source: &str) -> (Vec<f64>, Option<EvalError>) {
    let outcome = run(source).unwrap();
    (outcome.outputs.iter().map(fold).collect(), outcome.error)
}

#[test]
fn test_parsing() {
    let input = "+ 9 - 8 * 4 / 6 ^ 9 7 ; a : + 6 7 ; + 0 a ; ";
    let token_string = lex(input).unwrap();
    let ast = parse_program(token_string).unwrap();
    println!("Ast: {ast:#?}");
    let outcome = eval_program(ast);
    assert!(outcome.error.is_none());
    assert_eq!(outcome.outputs.len(), 2);
}

#[test]
fn parsing_consumes_the_whole_statement() {
    let tokens = lex("+ 9 0").unwrap();
    let (expr, consumed) = parse(&tokens, 0).unwrap();
    assert_eq!(consumed, tokens.len());
    match expr {
        Expr::BinOp { op: Operator::Add, left, right } => {
            assert_eq!(*left, Expr::Number(vec!['9']));
            assert_eq!(*right, Expr::Number(vec!['0']));
        }
        other => panic!("parsed to {other:?}"),
    }
}

#[test]
fn unterminated_trailing_tokens_are_dropped() {
    let tokens = lex("+ 1 2").unwrap();
    let program = parse_program(tokens).unwrap();
    assert_eq!(program.statements.len(), 0);
}

#[test]
fn missing_operand_is_invalid_syntax() {
    let tokens = lex("+ 9 ;").unwrap();
    assert_eq!(parse_program(tokens), Err(ParseError::InvalidSyntax));
}

#[test]
fn colon_in_operand_position_is_invalid_syntax() {
    let tokens = lex("a : : ;").unwrap();
    assert_eq!(parse_program(tokens), Err(ParseError::InvalidSyntax));
}

#[test]
fn declaration_must_start_with_a_name_and_colon() {
    let tokens = lex("9 : 1 ;").unwrap();
    assert_eq!(parse_program(tokens), Err(ParseError::MalformedDeclaration));
}

#[test]
fn leftover_tokens_after_an_expression_are_refused() {
    let tokens = lex("9 9 ;").unwrap();
    assert_eq!(parse_program(tokens), Err(ParseError::TrailingTokens));
}

#[test]
fn evaluating_addition_with_zero() {
    let (outputs, error) = outputs_of("+ 9 0 ;");
    assert!(error.is_none());
    assert_eq!(outputs, vec![9.0]);
}

#[test]
fn full_expression_matches_direct_recursive_evaluation() {
    let (outputs, error) = outputs_of("+ 9 - 8 * 4 / 6 ^ 9 7 ;");
    assert!(error.is_none());
    // the prefix reading: 9 + (8 - (4 * (6 / 9^7)))
    let expected = 9.0_f64 + (8.0_f64 - (4.0_f64 * (6.0_f64 / 9.0_f64.powf(7.0_f64))));
    assert_eq!(outputs.len(), 1);
    assert_eq!(outputs[0].to_bits(), expected.to_bits());
}

#[test]
fn variable_declarations_are_lazy() {
    let (outputs, error) = outputs_of("a : + 6 7 ; + 0 a ;");
    assert!(error.is_none());
    assert_eq!(outputs, vec![13.0]);
}

#[test]
fn redeclaration_before_the_reference_wins() {
    let (outputs, error) = outputs_of("a : + 6 7 ; a : 1 ; + 0 a ;");
    assert!(error.is_none());
    assert_eq!(outputs, vec![1.0]);
}

#[test]
fn bindings_resolve_against_the_environment_at_the_reference() {
    // b is bound when a is declared only through a's later resolution
    let (outputs, error) = outputs_of("a : + b 1 ; b : 2 ; + a 0 ;");
    assert!(error.is_none());
    assert_eq!(outputs, vec![3.0]);
}

#[test]
fn a_binding_is_not_evaluated_at_declaration() {
    // z is never bound, but a is never referenced either
    let (outputs, error) = outputs_of("a : + 0 z ; 5 ;");
    assert!(error.is_none());
    assert_eq!(outputs, vec![5.0]);
}

#[test]
fn undeclared_identifier_fails_the_run() {
    let (outputs, error) = outputs_of("+ 0 b ;");
    assert_eq!(error, Some(EvalError::UndefinedVariable('b')));
    assert_eq!(outputs, Vec::<f64>::new());
}

#[test]
fn no_output_after_the_failing_statement() {
    let (outputs, error) = outputs_of("+ 1 2 ; + 0 b ; + 3 4 ;");
    assert_eq!(error, Some(EvalError::UndefinedVariable('b')));
    assert_eq!(outputs, vec![3.0]);
}

#[test]
fn self_referential_binding_exhausts_the_depth_allowance() {
    let (outputs, error) = outputs_of("a : + a 1 ; + a 0 ;");
    assert_eq!(error, Some(EvalError::RecursionLimit));
    assert_eq!(outputs, Vec::<f64>::new());
}

#[test]
fn unary_log_takes_one_operand() {
    let (outputs, error) = outputs_of("+ 9 # ^ 2.71828 7 ;");
    assert!(error.is_none());
    assert_eq!(outputs.len(), 1);
    let expected = 9.0_f64 + 7.0_f64 * 2.71828_f64.ln();
    assert!((outputs[0] - expected).abs() < 1e-9);
}

#[test]
fn division_by_zero_is_not_an_error() {
    let (outputs, error) = outputs_of("/ 1 0 ; / 0 0 ;");
    assert!(error.is_none());
    assert_eq!(outputs[0], f64::INFINITY);
    assert!(outputs[1].is_nan());
}

#[test]
fn log_of_a_non_positive_number_is_not_an_error() {
    let (outputs, error) = outputs_of("# 0 ; # -1 ;");
    assert!(error.is_none());
    assert_eq!(outputs[0], f64::NEG_INFINITY);
    assert!(outputs[1].is_nan());
}

#[test]
fn lex_failure_reaches_the_pipeline() {
    assert_eq!(run("1..2 ;"), Err(PipelineError::Lex(LexError::MalformedLiteral)));
}

#[test]
fn parse_failure_reaches_the_pipeline() {
    assert_eq!(run("+ 9 ;"), Err(PipelineError::Parse(ParseError::InvalidSyntax)));
}

#[test]
fn empty_source_runs_to_nothing() {
    let (outputs, error) = outputs_of("");
    assert!(error.is_none());
    assert_eq!(outputs, Vec::<f64>::new());
}
