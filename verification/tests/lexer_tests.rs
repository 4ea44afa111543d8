use prefix_calc::lexer::lex;
use prefix_calc::lexer::LexError;
use prefix_calc::lexer::Operator;
use prefix_calc::lexer::Token;
use prefix_calc::lexer::UnaryOperator;

fn chars(s: &str) -> Vec<char> {
    s.chars().collect()
}

fn num(s: &str) -> Token {
    Token::Number(chars(s))
}

#[test]
fn text_lexer() {
    let input = "+ 9 - 8 * 4 / 6 ^ 9 7".to_string();
    let token_string = lex(&input).unwrap();

    let test_tkn_str = vec![
        Token::Operator(Operator::Add),
        num("9"),
        Token::Operator(Operator::Sub),
        num("8"),
        Token::Operator(Operator::Mul),
        num("4"),
        Token::Operator(Operator::Div),
        num("6"),
        Token::Operator(Operator::Pow),
        num("9"),
        num("7"),
    ];

    assert_eq!(test_tkn_str, token_string);
    println!("{input:?}");
    println!("{token_string:?}");
}

#[test]
fn digits_lex_to_their_value() {
    for d in 0..10u32 {
        let text = d.to_string();
        let tokens = lex(&text).unwrap();
        assert_eq!(tokens.len(), 1);
        match &tokens[0] {
            Token::Number(lit) => {
                let back: String = lit.iter().collect();
                let value: f64 = back.parse().unwrap();
                assert_eq!(value, d as f64);
            }
            other => panic!("digit {d} lexed to {other:?}"),
        }
    }
}

#[test]
fn operator_symbols_lex_to_their_operator() {
    assert_eq!(lex("+").unwrap(), vec![Token::Operator(Operator::Add)]);
    assert_eq!(lex("-").unwrap(), vec![Token::Operator(Operator::Sub)]);
    assert_eq!(lex("*").unwrap(), vec![Token::Operator(Operator::Mul)]);
    assert_eq!(lex("/").unwrap(), vec![Token::Operator(Operator::Div)]);
    assert_eq!(lex("^").unwrap(), vec![Token::Operator(Operator::Pow)]);
    assert_eq!(lex("#").unwrap(), vec![Token::Unary(UnaryOperator::Log)]);
}

#[test]
fn punctuation_and_idents() {
    assert_eq!(lex(":").unwrap(), vec![Token::Colon]);
    assert_eq!(lex(";").unwrap(), vec![Token::SemiColon]);
    assert_eq!(lex("a").unwrap(), vec![Token::Ident('a')]);
    assert_eq!(lex("Z").unwrap(), vec![Token::Ident('Z')]);
}

#[test]
fn unrecognized_symbol_is_dropped_without_shifting_tokens() {
    let with_stray = lex("+ ? 5 ;").unwrap();
    let without = lex("+ 5 ;").unwrap();
    assert_eq!(with_stray, without);
    assert_eq!(lex("@").unwrap(), Vec::<Token>::new());
}

#[test]
fn multi_character_words_lex_as_float_literals() {
    assert_eq!(lex("2.71828").unwrap(), vec![num("2.71828")]);
    assert_eq!(lex("-3.5").unwrap(), vec![num("-3.5")]);
    assert_eq!(lex(".5").unwrap(), vec![num(".5")]);
    assert_eq!(lex("5.").unwrap(), vec![num("5.")]);
    assert_eq!(lex("1e5").unwrap(), vec![num("1e5")]);
    assert_eq!(lex("1.5E-3").unwrap(), vec![num("1.5E-3")]);
    assert_eq!(lex("inf").unwrap(), vec![num("inf")]);
    assert_eq!(lex("NaN").unwrap(), vec![num("NaN")]);
    assert_eq!(lex("+Infinity").unwrap(), vec![num("+Infinity")]);
}

#[test]
fn every_accepted_literal_is_readable_as_a_double() {
    for text in ["2.71828", "-3.5", ".5", "5.", "1e5", "1.5E-3", "inf", "NaN", "+Infinity"] {
        let tokens = lex(text).unwrap();
        match &tokens[0] {
            Token::Number(lit) => {
                let back: String = lit.iter().collect();
                assert!(back.parse::<f64>().is_ok(), "{back} did not read back");
            }
            other => panic!("{text} lexed to {other:?}"),
        }
    }
}

#[test]
fn malformed_literals_stop_lexing() {
    assert_eq!(lex("1..2"), Err(LexError::MalformedLiteral));
    assert_eq!(lex("abc"), Err(LexError::MalformedLiteral));
    assert_eq!(lex("1e"), Err(LexError::MalformedLiteral));
    assert_eq!(lex("12x"), Err(LexError::MalformedLiteral));
    assert_eq!(lex("--5"), Err(LexError::MalformedLiteral));
    // the failure is fatal even when sound tokens follow
    assert_eq!(lex("1..2 5 ;"), Err(LexError::MalformedLiteral));
}

#[test]
fn literal_grammar_agrees_with_the_standard_library() {
    // multi-character words are accepted exactly when they read as a double
    let words = [
        "2.5", "2.", ".5", "007", "00.00", "5.e2", "12e+03", "12E-3", "1e00005", "-INF", "+nan",
        "Infinity", "iNfInItY", "-3.5e-7", "+.5", "5e5e5", "e5", ".e5", "-.5e", "1_000", "0x1A",
        "infinityy", "nANe", "+-3", "1.2.3", "..", "3e+", "++", "--",
    ];
    for w in words {
        assert_eq!(
            lex(w).is_ok(),
            w.parse::<f64>().is_ok(),
            "lexer and standard library disagree on {w:?}"
        );
    }
}

#[test]
fn empty_input_lexes_to_no_tokens() {
    assert_eq!(lex("").unwrap(), Vec::<Token>::new());
    assert_eq!(lex("   \t\n ").unwrap(), Vec::<Token>::new());
}
