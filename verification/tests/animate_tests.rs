use expr_anim::animate::{animate_eval, center, eval_op, extent_of, EvalError, Value};
use expr_anim::lexer::{lex, Token};
use expr_anim::parser::{parse, Expr};

fn evaluate(code: &str) -> Result<(Value, Vec<String>, (usize, String, usize)), EvalError> {
    let (_, expr, _) = parse(lex(code)).unwrap();
    assert!(extent_of(&expr).is_some());
    animate_eval(expr).map(|r| (r.value, r.anim, r.last))
}

fn strings(frames: &[&str]) -> Vec<String> {
    frames.iter().map(|f| f.to_string()).collect()
}

#[test]
fn a_literal_has_no_frames() {
    assert_eq!(evaluate("42"), Ok((Value::Number(42), vec![], (0, "42".to_string(), 0))));
    assert_eq!(
        evaluate("\"ab\""),
        Ok((Value::String("ab".to_string()), vec![], (0, "\"ab\"".to_string(), 0)))
    );
    assert_eq!(evaluate("true"), Ok((Value::Bool(true), vec![], (0, "true".to_string(), 0))));
    assert_eq!(evaluate("false"), Ok((Value::Bool(false), vec![], (0, "false".to_string(), 0))));
}

#[test]
fn twelve_plus_seven_is_nineteen() {
    let (value, frames, last) = evaluate("12 + 7").unwrap();
    assert_eq!(value, Value::Number(19));
    assert_eq!(frames.last().unwrap().trim_matches(' '), "19");
    assert_eq!(frames, strings(&["12 + 7", " 12+7 ", "  19  "]));
    assert_eq!(last, (2, "19".to_string(), 2));
}

#[test]
fn frames_share_the_width_of_the_first() {
    for code in ["12 + 7", "(1+2)", "10 - 4 - 3", "1   +      2", "(  1 ) * 2", "\"\u{e9}\" + \"a\""] {
        let (_, frames, last) = evaluate(code).unwrap();
        assert!(!frames.is_empty());
        let w: usize = frames[0].len();
        for f in frames.iter() {
            assert_eq!(f.len(), w, "{code}: {f:?}");
        }
        assert_eq!(last.0 + last.1.len() + last.2, w, "{code}");
    }
}

#[test]
fn a_result_wider_than_the_first_frame_is_not_padded() {
    let (value, frames, last) = evaluate("9*9").unwrap();
    assert_eq!(value, Value::Number(81));
    assert_eq!(frames, strings(&["9*9", " 81 "]));
    assert_eq!(last, (1, "81".to_string(), 1));
}

#[test]
fn a_group_keeps_its_parentheses() {
    let (value, frames, last) = evaluate("(1+2)").unwrap();
    assert_eq!(value, Value::Number(3));
    for f in frames.iter() {
        assert_eq!(f.matches('(').count(), 1);
        assert_eq!(f.matches(')').count(), 1);
    }
    assert_eq!(frames, strings(&["(1+2)", "( 3 )", "( 3 )", " (3) "]));
    assert_eq!(last, (2, "3".to_string(), 2));
}

#[test]
fn a_group_of_a_literal_closes_its_gaps() {
    let (value, frames, last) = evaluate("(  7 )").unwrap();
    assert_eq!(value, Value::Number(7));
    assert_eq!(frames, strings(&["(  7 )", " ( 7) ", " ( 7) "]));
    assert_eq!(last, (2, "7".to_string(), 2));
}

#[test]
fn strings_are_joined() {
    let (value, frames, last) = evaluate("\"ab\" + \"cd\"").unwrap();
    assert_eq!(value, Value::String("abcd".to_string()));
    assert_eq!(frames, strings(&["\"ab\" + \"cd\"", " \"ab\"+\"cd\" ", "  \"abcd\"   "]));
    assert_eq!(last, (2, "\"abcd\"".to_string(), 3));
}

#[test]
fn strings_cannot_be_subtracted() {
    assert_eq!(evaluate("\"ab\" - \"cd\""), Err(EvalError::TypeMismatch));
}

#[test]
fn division_by_zero_fails() {
    assert_eq!(evaluate("5 / 0"), Err(EvalError::DivisionByZero));
    assert_eq!(evaluate("(1 + 2) * (5 / 0)"), Err(EvalError::DivisionByZero));
}

#[test]
fn subtraction_groups_to_the_right() {
    let (value, frames, last) = evaluate("10 - 4 - 3").unwrap();
    assert_eq!(value, Value::Number(9));
    assert_eq!(
        frames,
        strings(&[
            "10 - 4 - 3",
            "10 -  4-3 ",
            "10 -   1  ",
            "10 -   1  ",
            " 10-  1   ",
            " 10-  1   ",
            " 10- 1    ",
            "   9      ",
        ])
    );
    assert_eq!(last, (3, "9".to_string(), 6));
}

#[test]
fn two_literals_without_gaps_take_two_frames() {
    let (_, frames, last) = evaluate("1+2").unwrap();
    assert_eq!(frames, strings(&["1+2", " 3 "]));
    assert_eq!(last, (1, "3".to_string(), 1));
    assert_eq!(evaluate("true&false").unwrap().1.len(), 2);
}

#[test]
fn gaps_close_in_at_most_ten_steps() {
    let code = format!("1{}+{}2", " ".repeat(20), " ".repeat(5));
    let (_, frames, _) = evaluate(&code).unwrap();
    assert_eq!(frames.len(), 11);
    let left: [usize; 10] = [20, 19, 19, 18, 16, 15, 12, 10, 7, 3];
    let right: [usize; 10] = [5, 4, 4, 4, 4, 3, 3, 2, 1, 0];
    for i in 0..10 {
        let body = format!("1{}+{}2", " ".repeat(left[i]), " ".repeat(right[i]));
        assert_eq!(frames[i].trim_matches(' '), body, "step {i}");
        assert_eq!(frames[i].len(), 28);
    }
    assert_eq!(frames[10].trim_matches(' '), "3");
}

#[test]
fn the_number_of_steps_follows_the_wider_gap() {
    for gap in 0..12usize {
        let code = format!("1{}+2", " ".repeat(gap));
        let (_, frames, _) = evaluate(&code).unwrap();
        assert_eq!(frames.len(), std::cmp::min(gap + 1, 10) + 1);
    }
}

#[test]
fn the_shorter_side_waits_on_its_settled_text() {
    let (value, frames, _) = evaluate("(1+2)*4").unwrap();
    assert_eq!(value, Value::Number(12));
    assert_eq!(&frames[..4], &strings(&["(1+2)*4", "( 3 )*4", "( 3 )*4", " (3) *4"])[..]);
    let (_, frames, _) = evaluate("4*(1+2)").unwrap();
    assert_eq!(&frames[..4], &strings(&["4*(1+2)", "4*( 3 )", "4*( 3 )", "4* (3) "])[..]);
}

#[test]
fn arithmetic_that_leaves_sixteen_bits_fails() {
    assert_eq!(evaluate("65535 + 1"), Err(EvalError::ArithmeticOverflow));
    assert_eq!(evaluate("0 - 1"), Err(EvalError::ArithmeticOverflow));
    assert_eq!(evaluate("256 * 256"), Err(EvalError::ArithmeticOverflow));
    assert_eq!(evaluate("65535 + 0").unwrap().0, Value::Number(65535));
    assert_eq!(evaluate("255 * 257").unwrap().0, Value::Number(65535));
    assert_eq!(evaluate("7 - 7").unwrap().0, Value::Number(0));
    assert_eq!(evaluate("7 / 2").unwrap().0, Value::Number(3));
}

#[test]
fn a_conditional_is_not_evaluated() {
    assert_eq!(evaluate("if true then(1) else 2"), Err(EvalError::UnsupportedConstruct));
    assert_eq!(evaluate("1 + if true then(1) else 2"), Err(EvalError::UnsupportedConstruct));
}

#[test]
fn the_left_operand_fails_first() {
    assert_eq!(evaluate("(1 / 0) + (\"a\" - 1)"), Err(EvalError::DivisionByZero));
    assert_eq!(evaluate("(\"a\" - 1) + (1 / 0)"), Err(EvalError::TypeMismatch));
}

#[test]
fn eval_op_follows_the_table() {
    let n = |x: u16| Value::Number(x);
    let s = |x: &str| Value::String(x.to_string());
    let b = |x: bool| Value::Bool(x);
    assert_eq!(eval_op(n(2), n(3), &Token::Plus), Ok(n(5)));
    assert_eq!(eval_op(n(3), n(2), &Token::Minus), Ok(n(1)));
    assert_eq!(eval_op(n(2), n(3), &Token::Mult), Ok(n(6)));
    assert_eq!(eval_op(n(7), n(2), &Token::Div), Ok(n(3)));
    assert_eq!(eval_op(n(7), n(0), &Token::Div), Err(EvalError::DivisionByZero));
    assert_eq!(eval_op(s("a"), s("b"), &Token::Plus), Ok(s("ab")));
    assert_eq!(eval_op(b(true), b(false), &Token::Or), Ok(b(true)));
    assert_eq!(eval_op(b(false), b(false), &Token::Or), Ok(b(false)));
    assert_eq!(eval_op(b(true), b(false), &Token::And), Ok(b(false)));
    assert_eq!(eval_op(b(true), b(true), &Token::And), Ok(b(true)));
    assert_eq!(eval_op(n(2), n(2), &Token::Eq), Ok(b(true)));
    assert_eq!(eval_op(n(2), n(3), &Token::Eq), Ok(b(false)));
    assert_eq!(eval_op(s("a"), s("a"), &Token::Eq), Ok(b(true)));
    assert_eq!(eval_op(s("a"), s("b"), &Token::Neq), Ok(b(true)));
    assert_eq!(eval_op(b(true), b(true), &Token::Neq), Ok(b(false)));
    assert_eq!(eval_op(n(3), n(2), &Token::Gt), Ok(b(true)));
    assert_eq!(eval_op(n(3), n(3), &Token::Gt), Ok(b(false)));
    assert_eq!(eval_op(n(2), n(3), &Token::Lt), Ok(b(true)));
    assert_eq!(eval_op(n(3), n(2), &Token::Lt), Ok(b(false)));
}

#[test]
fn eval_op_rejects_what_the_table_lacks() {
    let n = |x: u16| Value::Number(x);
    let s = |x: &str| Value::String(x.to_string());
    let b = |x: bool| Value::Bool(x);
    assert_eq!(eval_op(n(1), b(true), &Token::Eq), Err(EvalError::TypeMismatch));
    assert_eq!(eval_op(s("1"), n(1), &Token::Neq), Err(EvalError::TypeMismatch));
    assert_eq!(eval_op(n(1), s("a"), &Token::Plus), Err(EvalError::TypeMismatch));
    assert_eq!(eval_op(s("a"), s("b"), &Token::Mult), Err(EvalError::TypeMismatch));
    assert_eq!(eval_op(s("a"), s("b"), &Token::Lt), Err(EvalError::TypeMismatch));
    assert_eq!(eval_op(b(true), b(true), &Token::Plus), Err(EvalError::TypeMismatch));
    assert_eq!(eval_op(b(true), b(true), &Token::Gt), Err(EvalError::TypeMismatch));
    assert_eq!(eval_op(n(1), n(1), &Token::And), Err(EvalError::TypeMismatch));
    assert_eq!(eval_op(n(1), n(1), &Token::Or), Err(EvalError::TypeMismatch));
    assert_eq!(eval_op(n(1), n(1), &Token::Oparen), Err(EvalError::TypeMismatch));
    assert_eq!(eval_op(n(1), n(1), &Token::Space(1)), Err(EvalError::TypeMismatch));
}

#[test]
fn an_operation_on_a_token_that_is_no_operator_is_a_mismatch() {
    let e = Expr::Bin {
        lhs: Box::new(Expr::Number(1)),
        rhs: Box::new(Expr::Number(2)),
        op: Token::Oparen,
        lspace: 0,
        rspace: 0,
    };
    assert_eq!(animate_eval(e).err(), Some(EvalError::TypeMismatch));
}

#[test]
fn values_have_a_canonical_text() {
    assert_eq!(Value::Number(0).to_string(), "0");
    assert_eq!(Value::Number(9).to_string(), "9");
    assert_eq!(Value::Number(10).to_string(), "10");
    assert_eq!(Value::Number(1203).to_string(), "1203");
    assert_eq!(Value::Number(65535).to_string(), "65535");
    assert_eq!(Value::String("a b".to_string()).to_string(), "\"a b\"");
    assert_eq!(Value::String(String::new()).to_string(), "\"\"");
    assert_eq!(Value::Bool(true).to_string(), "true");
    assert_eq!(Value::Bool(false).to_string(), "false");
    let v = Value::String("x".to_string());
    assert_eq!(v.clone(), v);
}

#[test]
fn center_pads_to_the_first_frame() {
    let mut frames = strings(&["abcdef", "ab", "abc", "abcdefg", "abcde"]);
    assert_eq!(center(&mut frames), (0, 1));
    assert_eq!(frames, strings(&["abcdef", "  ab  ", " abc  ", "abcdefg", "abcde "]));
}

#[test]
fn center_reports_the_padding_of_the_last_frame() {
    let mut frames = strings(&["abcd", "a", "abcd"]);
    assert_eq!(center(&mut frames), (0, 0));
    assert_eq!(frames, strings(&["abcd", " a  ", "abcd"]));
    let mut frames = strings(&["abcd", "abcdef", "a"]);
    assert_eq!(center(&mut frames), (1, 2));
    assert_eq!(frames, strings(&["abcd", "abcdef", " a  "]));
    let mut none: Vec<String> = Vec::new();
    assert_eq!(center(&mut none), (0, 0));
    assert!(none.is_empty());
}

#[test]
fn center_counts_bytes() {
    let mut frames = strings(&["abcd", "\u{e9}"]);
    assert_eq!(center(&mut frames), (1, 1));
    assert_eq!(frames, strings(&["abcd", " \u{e9} "]));
}

#[test]
fn extent_bounds_every_frame() {
    for code in ["1", "\"ab\"", "12 + 7", "(1+2)", "10 - 4 - 3", "9*9", "(9*9)+1", "1 = 2"] {
        let (_, expr, _) = parse(lex(code)).unwrap();
        let bound: usize = extent_of(&expr).unwrap();
        let r = animate_eval(expr).unwrap();
        for f in r.anim.iter() {
            assert!(f.len() <= bound);
        }
        assert!(r.last.0 + r.last.1.len() + r.last.2 <= bound);
    }
}

#[test]
fn extent_adds_gaps_and_room() {
    assert_eq!(extent_of(&Expr::Number(123)), Some(3));
    assert_eq!(extent_of(&Expr::String("ab".to_string())), Some(4));
    assert_eq!(extent_of(&Expr::Bool(false)), Some(5));
    let (_, e, _) = parse(lex("(1  + 22)")).unwrap();
    assert_eq!(extent_of(&e), Some(1 + 2 + 1 + 2 + 8 + 2));
    let (_, c, _) = parse(lex("if 1 then(2) else 3")).unwrap();
    assert_eq!(extent_of(&c), Some(0));
}

#[test]
fn extent_that_leaves_the_machine_is_reported() {
    let e = Expr::Bin {
        lhs: Box::new(Expr::Number(1)),
        rhs: Box::new(Expr::Number(2)),
        op: Token::Plus,
        lspace: usize::MAX,
        rspace: 0,
    };
    assert_eq!(extent_of(&e), None);
    let g = Expr::Parenthesized { expr: Box::new(Expr::Number(1)), lspace: 3, rspace: usize::MAX - 4 };
    assert_eq!(extent_of(&g), None);
    let h = Expr::Parenthesized { expr: Box::new(Expr::Number(1)), lspace: 3, rspace: usize::MAX - 6 };
    assert_eq!(extent_of(&h), Some(usize::MAX));
}
