use expr_anim::lexer::{lex, Token};
use expr_anim::parser::{is_op, parse, precedence, Expr, ParseError, Parser, MAX_PREC};

fn num(n: u16) -> Box<Expr> {
    Box::new(Expr::Number(n))
}

fn bin(lhs: Box<Expr>, op: Token, rhs: Box<Expr>, lspace: usize, rspace: usize) -> Expr {
    Expr::Bin { lhs, rhs, op, lspace, rspace }
}

#[test]
fn parse_reads_a_literal() {
    assert_eq!(parse(lex("42")), Ok((0, Expr::Number(42), 0)));
    assert_eq!(parse(lex("\"ab\"")), Ok((0, Expr::String("ab".to_string()), 0)));
    assert_eq!(parse(lex("true")), Ok((0, Expr::Bool(true), 0)));
    assert_eq!(parse(lex("false")), Ok((0, Expr::Bool(false), 0)));
}

#[test]
fn parse_keeps_the_gaps_around_an_operator() {
    assert_eq!(
        parse(lex("  1  +   2 ")),
        Ok((2, bin(num(1), Token::Plus, num(2), 2, 3), 1))
    );
    assert_eq!(parse(lex("1+2")), Ok((0, bin(num(1), Token::Plus, num(2), 0, 0), 0)));
}

#[test]
fn parse_keeps_the_gaps_inside_parentheses() {
    assert_eq!(
        parse(lex("(  7 )")),
        Ok((0, Expr::Parenthesized { expr: num(7), lspace: 2, rspace: 1 }, 0))
    );
}

#[test]
fn parse_binds_multiplication_tighter_than_addition() {
    assert_eq!(
        parse(lex("1 + 2 * 3")),
        Ok((
            0,
            bin(num(1), Token::Plus, Box::new(bin(num(2), Token::Mult, num(3), 1, 1)), 1, 1),
            0
        ))
    );
    assert_eq!(
        parse(lex("1 * 2 + 3")),
        Ok((
            0,
            bin(Box::new(bin(num(1), Token::Mult, num(2), 1, 1)), Token::Plus, num(3), 1, 1),
            0
        ))
    );
}

#[test]
fn parse_binds_addition_tighter_than_comparison() {
    assert_eq!(
        parse(lex("1 < 2 + 3")),
        Ok((
            0,
            bin(num(1), Token::Lt, Box::new(bin(num(2), Token::Plus, num(3), 1, 1)), 1, 1),
            0
        ))
    );
    assert_eq!(
        parse(lex("1+2=3")),
        Ok((
            0,
            bin(Box::new(bin(num(1), Token::Plus, num(2), 0, 0)), Token::Eq, num(3), 0, 0),
            0
        ))
    );
}

#[test]
fn parse_groups_a_chain_of_one_tier_to_the_right() {
    assert_eq!(
        parse(lex("10 - 4 - 3")),
        Ok((
            0,
            bin(num(10), Token::Minus, Box::new(bin(num(4), Token::Minus, num(3), 1, 1)), 1, 1),
            0
        ))
    );
}

#[test]
fn parse_reads_a_conditional() {
    assert_eq!(
        parse(lex("if  true then(1)  else   2")),
        Ok((
            0,
            Expr::If {
                cond: Box::new(Expr::Bool(true)),
                then_: Box::new(Expr::Parenthesized { expr: num(1), lspace: 0, rspace: 0 }),
                else_: num(2),
                space: [2, 1, 2, 3],
            },
            0
        ))
    );
}

#[test]
fn parse_leaves_what_follows_the_expression() {
    assert_eq!(parse(lex("1 2")), Ok((0, Expr::Number(1), 1)));
    assert_eq!(parse(lex("1)")), Ok((0, Expr::Number(1), 0)));
}

#[test]
fn parse_fails_on_a_missing_parenthesis() {
    assert_eq!(parse(lex("(1")), Err(ParseError::UnexpectedEnd));
    assert_eq!(parse(lex("(1 ")), Err(ParseError::UnexpectedEnd));
}

#[test]
fn parse_fails_where_the_tokens_end_before_a_term() {
    assert_eq!(parse(lex("")), Err(ParseError::UnexpectedEnd));
    assert_eq!(parse(lex("   ")), Err(ParseError::UnexpectedEnd));
    assert_eq!(parse(lex("1 +")), Err(ParseError::UnexpectedEnd));
    assert_eq!(parse(lex("1 + ")), Err(ParseError::UnexpectedEnd));
    assert_eq!(parse(lex("(")), Err(ParseError::UnexpectedEnd));
    assert_eq!(parse(lex("if 1 then")), Err(ParseError::UnexpectedEnd));
    assert_eq!(parse(Vec::new()), Err(ParseError::UnexpectedEnd));
}

#[test]
fn parse_fails_on_a_wrong_token() {
    assert_eq!(
        parse(lex("(1 2")),
        Err(ParseError::UnexpectedToken { expected: Token::Cparen, found: Token::Number(2) })
    );
    assert_eq!(
        parse(lex("if 1 else 2")),
        Err(ParseError::UnexpectedToken { expected: Token::Then, found: Token::Else })
    );
    assert_eq!(
        parse(lex("if 1 then(2) 3")),
        Err(ParseError::UnexpectedToken { expected: Token::Else, found: Token::Number(3) })
    );
}

#[test]
fn parse_fails_where_no_term_starts() {
    assert_eq!(parse(lex("+")), Err(ParseError::InvalidExpression));
    assert_eq!(parse(lex("1 + )")), Err(ParseError::InvalidExpression));
    assert_eq!(parse(lex("#")), Err(ParseError::InvalidExpression));
    assert_eq!(parse(lex("\n1")), Err(ParseError::InvalidExpression));
    assert_eq!(parse(lex("if 1 then 2 else 3")), Err(ParseError::InvalidExpression));
}

#[test]
fn parse_takes_one_run_of_spaces_before_an_operator() {
    let tokens = vec![
        Token::Number(1),
        Token::Space(1),
        Token::Space(2),
        Token::Plus,
        Token::Number(2),
    ];
    assert_eq!(parse(tokens), Err(ParseError::InvalidExpression));
}

#[test]
fn is_op_knows_the_ten_operators() {
    let ops = [
        Token::Plus,
        Token::Minus,
        Token::Mult,
        Token::Div,
        Token::And,
        Token::Or,
        Token::Eq,
        Token::Neq,
        Token::Gt,
        Token::Lt,
    ];
    for op in ops.iter() {
        assert!(is_op(op));
    }
    let others = [
        Token::Number(1),
        Token::String(String::new()),
        Token::True,
        Token::False,
        Token::If,
        Token::Then,
        Token::Else,
        Token::Oparen,
        Token::Cparen,
        Token::Space(1),
        Token::Newline,
        Token::Error,
    ];
    for t in others.iter() {
        assert!(!is_op(t));
    }
}

#[test]
fn precedence_has_three_tiers() {
    assert_eq!(MAX_PREC, 2);
    for op in [Token::And, Token::Or, Token::Eq, Token::Neq, Token::Gt, Token::Lt].iter() {
        assert_eq!(precedence(op), 0);
    }
    assert_eq!(precedence(&Token::Plus), 1);
    assert_eq!(precedence(&Token::Minus), 1);
    assert_eq!(precedence(&Token::Mult), 2);
    assert_eq!(precedence(&Token::Div), 2);
    assert_eq!(precedence(&Token::Oparen), 0);
}

#[test]
fn cursor_next_stops_at_the_end() {
    let mut p = Parser::new(vec![Token::Number(1), Token::Plus]);
    assert_eq!(p.peek(), Some(&Token::Number(1)));
    assert_eq!(p.next(), Some(&Token::Number(1)));
    assert_eq!(p.pos, 1);
    assert_eq!(p.next(), Some(&Token::Plus));
    assert_eq!(p.pos, 2);
    assert_eq!(p.peek(), None);
    assert_eq!(p.next(), None);
    assert_eq!(p.pos, 2);
}

#[test]
fn cursor_prev_stops_at_the_start() {
    let mut p = Parser::new(vec![Token::Number(1), Token::Plus]);
    assert_eq!(p.prev(), None);
    assert_eq!(p.pos, 0);
    p.next();
    p.next();
    assert_eq!(p.prev(), Some(&Token::Plus));
    assert_eq!(p.pos, 1);
    assert_eq!(p.prev(), Some(&Token::Number(1)));
    assert_eq!(p.pos, 0);
}

#[test]
fn cursor_peek_nonspace_looks_past_spaces() {
    let p = Parser::new(vec![Token::Space(1), Token::Space(3), Token::Minus]);
    assert_eq!(p.peek_nonspace(), Some(&Token::Minus));
    assert_eq!(p.pos, 0);
    let q = Parser::new(vec![Token::Space(1)]);
    assert_eq!(q.peek_nonspace(), None);
}

#[test]
fn cursor_space_takes_one_run() {
    let mut p = Parser::new(vec![Token::Space(3), Token::Space(2), Token::Number(1)]);
    assert_eq!(p.space(), 3);
    assert_eq!(p.pos, 1);
    assert_eq!(p.space(), 2);
    assert_eq!(p.space(), 0);
    assert_eq!(p.pos, 2);
    p.next();
    assert_eq!(p.space(), 0);
    assert_eq!(p.pos, 3);
}

#[test]
fn cursor_expect_takes_the_token() {
    let mut p = Parser::new(vec![Token::Cparen, Token::Oparen]);
    assert_eq!(p.expect(Token::Cparen), Ok(()));
    assert_eq!(p.pos, 1);
    assert_eq!(
        p.expect(Token::Cparen),
        Err(ParseError::UnexpectedToken { expected: Token::Cparen, found: Token::Oparen })
    );
    assert_eq!(p.pos, 2);
    assert_eq!(p.expect(Token::Cparen), Err(ParseError::UnexpectedEnd));
    assert_eq!(p.pos, 2);
}

#[test]
fn parse_op_of_a_tier_leaves_looser_operators() {
    let mut p = Parser::new(lex("1 * 2 + 3"));
    assert_eq!(p.parse_op(2), Ok(bin(num(1), Token::Mult, num(2), 1, 1)));
    assert_eq!(p.pos, 5);
    let mut q = Parser::new(lex("1 * 2 + 3"));
    assert_eq!(q.parse_term(), Ok(Expr::Number(1)));
    assert_eq!(q.pos, 1);
    let mut r = Parser::new(lex("1 * 2 + 3"));
    assert_eq!(
        r.parse_expr(),
        Ok(bin(Box::new(bin(num(1), Token::Mult, num(2), 1, 1)), Token::Plus, num(3), 1, 1))
    );
    assert_eq!(r.pos, 9);
}

#[test]
fn parse_op_above_the_tightest_tier_reads_a_term() {
    let mut p = Parser::new(lex("1*2"));
    assert_eq!(p.parse_op(7), Ok(Expr::Number(1)));
    assert_eq!(p.pos, 1);
}

#[test]
fn expr_clone_is_equal() {
    let (_, e, _) = parse(lex("(1 + \"a\") * if true then(2) else 3")).unwrap();
    assert_eq!(e.clone(), e);
}

fn gap(n: usize, out: &mut Vec<Token>) {
    if n > 0 {
        out.push(Token::Space(n));
    }
}

fn write(e: &Expr, out: &mut Vec<Token>) {
    match e {
        Expr::Number(n) => out.push(Token::Number(*n)),
        Expr::String(s) => out.push(Token::String(s.clone())),
        Expr::Bool(b) => out.push(if *b { Token::True } else { Token::False }),
        Expr::Bin { lhs, rhs, op, lspace, rspace } => {
            write(lhs, out);
            gap(*lspace, out);
            out.push(op.clone());
            gap(*rspace, out);
            write(rhs, out);
        }
        Expr::Parenthesized { expr, lspace, rspace } => {
            out.push(Token::Oparen);
            gap(*lspace, out);
            write(expr, out);
            gap(*rspace, out);
            out.push(Token::Cparen);
        }
        Expr::If { cond, then_, else_, space } => {
            out.push(Token::If);
            gap(space[0], out);
            write(cond, out);
            gap(space[1], out);
            out.push(Token::Then);
            write(then_, out);
            gap(space[2], out);
            out.push(Token::Else);
            gap(space[3], out);
            write(else_, out);
        }
    }
}

#[test]
fn parse_keeps_the_tokens_that_it_takes() {
    for code in [
        "1",
        "  1 ",
        "1+2",
        " 12   +  7  ",
        "10 - 4 - 3",
        "( 1 +   2 )*3 = 9  & true",
        "\"ab\"  + 'cd'",
        "if  1 < 2   then(  3 )  else    4 * 5",
        "((( 1 )))",
        "1 + 2 ) garbage",
    ] {
        let tokens = lex(code);
        let (l, e, r) = parse(tokens.clone()).unwrap();
        let mut out: Vec<Token> = Vec::new();
        gap(l, &mut out);
        write(&e, &mut out);
        gap(r, &mut out);
        assert!(out.len() <= tokens.len(), "{code}");
        assert_eq!(&tokens[..out.len()], &out[..], "{code}");
    }
}

#[test]
fn lexed_runs_of_spaces_are_not_empty() {
    for code in ["", " ", "1  + 2", "\t\r \t", "( 1 )\n  2", "' '  \" \""] {
        for t in lex(code).iter() {
            if let Token::Space(w) = t {
                assert!(*w > 0, "{code}");
            }
        }
    }
}
