use expr_anim::lexer::{lex, Token};

#[test]
fn lex_reads_numbers_operators_and_gaps() {
    assert_eq!(
        lex("12 + 7"),
        vec![Token::Number(12), Token::Space(1), Token::Plus, Token::Space(1), Token::Number(7)]
    );
}

#[test]
fn lex_reads_every_operator_and_parenthesis() {
    assert_eq!(
        lex("+-*/&|><=!()"),
        vec![
            Token::Plus,
            Token::Minus,
            Token::Mult,
            Token::Div,
            Token::And,
            Token::Or,
            Token::Gt,
            Token::Lt,
            Token::Eq,
            Token::Neq,
            Token::Oparen,
            Token::Cparen,
        ]
    );
}

#[test]
fn lex_reads_keywords() {
    assert_eq!(
        lex("true false if then else"),
        vec![
            Token::True,
            Token::Space(1),
            Token::False,
            Token::Space(1),
            Token::If,
            Token::Space(1),
            Token::Then,
            Token::Space(1),
            Token::Else,
        ]
    );
}

#[test]
fn lex_turns_a_tab_into_four_spaces() {
    assert_eq!(lex("\t1"), vec![Token::Space(4), Token::Number(1)]);
    assert_eq!(lex(" \t "), vec![Token::Space(6)]);
}

#[test]
fn lex_drops_carriage_returns() {
    assert_eq!(lex("1\r\n2"), vec![Token::Number(1), Token::Newline, Token::Number(2)]);
    assert_eq!(lex("1\r2"), vec![Token::Number(12)]);
}

#[test]
fn lex_measures_runs_of_spaces() {
    assert_eq!(lex("1     2"), vec![Token::Number(1), Token::Space(5), Token::Number(2)]);
}

#[test]
fn lex_reads_double_quoted_strings() {
    assert_eq!(lex("\"ab\""), vec![Token::String("ab".to_string())]);
    assert_eq!(lex("\"\""), vec![Token::String(String::new())]);
    assert_eq!(lex("\"a b\t\""), vec![Token::String("a b    ".to_string())]);
}

#[test]
fn lex_reads_single_quoted_strings() {
    assert_eq!(lex("'a \"b\"'"), vec![Token::String("a \"b\"".to_string())]);
}

#[test]
fn lex_keeps_escapes_as_written() {
    assert_eq!(lex("\"a\\\"b\""), vec![Token::String("a\\\"b".to_string())]);
    assert_eq!(lex("'it\\'s'"), vec![Token::String("it\\'s".to_string())]);
}

#[test]
fn lex_takes_word_characters_before_a_quote_into_the_string() {
    assert_eq!(lex("ab\"cd\""), vec![Token::String("b\"cd".to_string())]);
    assert_eq!(lex("12\"x\""), vec![Token::String("2\"x".to_string())]);
    assert_eq!(lex("true\"x\""), vec![Token::String("rue\"x".to_string())]);
}

#[test]
fn lex_rejects_a_string_that_is_not_closed() {
    assert_eq!(lex("\"ab"), vec![Token::Error, Token::Error, Token::Error]);
    assert_eq!(lex("\"a\\"), vec![Token::Error, Token::Error, Token::Error]);
    assert_eq!(
        lex("\"a\\\n\""),
        vec![Token::Error, Token::Error, Token::Error, Token::Newline, Token::Error]
    );
}

#[test]
fn lex_reads_numbers_of_sixteen_bits() {
    assert_eq!(lex("0"), vec![Token::Number(0)]);
    assert_eq!(lex("007"), vec![Token::Number(7)]);
    assert_eq!(lex("65535"), vec![Token::Number(65535)]);
}

#[test]
fn lex_rejects_a_number_that_is_too_large() {
    assert_eq!(lex("65536"), vec![Token::Error]);
    assert_eq!(lex("99999999999999999999999999"), vec![Token::Error]);
    assert_eq!(lex("70000+1"), vec![Token::Error, Token::Plus, Token::Number(1)]);
}

#[test]
fn lex_rejects_characters_that_start_no_token() {
    assert_eq!(lex("#"), vec![Token::Error]);
    assert_eq!(lex("tru"), vec![Token::Error, Token::Error, Token::Error]);
    assert_eq!(lex("iffy"), vec![Token::If, Token::Error, Token::Error]);
    assert_eq!(lex("\u{e9}1"), vec![Token::Error, Token::Number(1)]);
}

#[test]
fn lex_of_nothing_is_nothing() {
    assert_eq!(lex(""), Vec::<Token>::new());
    assert_eq!(lex("\r\r"), Vec::<Token>::new());
}

#[test]
fn token_clone_and_same_agree() {
    let t = Token::String("ab".to_string());
    let u = t.clone();
    assert!(t.same(&u));
    assert_eq!(t, u);
    assert!(!t.same(&Token::String("ac".to_string())));
    assert!(!Token::Space(1).same(&Token::Space(2)));
    assert!(Token::Space(2).same(&Token::Space(2)));
    assert!(!Token::Plus.same(&Token::Minus));
    assert!(Token::Number(3).same(&Token::Number(3)));
    assert!(!Token::Number(3).same(&Token::Number(4)));
}
