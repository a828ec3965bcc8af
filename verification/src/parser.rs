//! The expression tree and the parser that builds it from tokens.

use crate::lexer::{token_views, Token, TokenView};
use vstd::prelude::*;

verus! {

/// An expression, with the widths of the whitespace that was written inside
/// it.
#[derive(Debug, PartialEq)]
pub enum Expr {
    Number(u16),
    String(String),
    Bool(bool),
    /// A binary operation; `lspace` and `rspace` are the gaps before and
    /// after the operator.
    Bin { lhs: Box<Expr>, rhs: Box<Expr>, op: Token, lspace: usize, rspace: usize },
    /// A parenthesized expression; `lspace` and `rspace` are the gaps just
    /// inside the parentheses.
    Parenthesized { expr: Box<Expr>, lspace: usize, rspace: usize },
    /// A conditional; `space` holds the gaps after `if`, before `then`,
    /// before `else` and after `else`.
    If { cond: Box<Expr>, then_: Box<Expr>, else_: Box<Expr>, space: [usize; 4] },
}

/// The mathematical value of an [`Expr`].
pub enum ExprView {
    Number(u16),
    String(Seq<char>),
    Bool(bool),
    Bin { lhs: Box<ExprView>, rhs: Box<ExprView>, op: TokenView, lspace: nat, rspace: nat },
    Parenthesized { expr: Box<ExprView>, lspace: nat, rspace: nat },
    If { cond: Box<ExprView>, then_: Box<ExprView>, else_: Box<ExprView>, space: Seq<nat> },
}

/// The value of an expression tree.
pub open spec fn expr_view(e: Expr) -> ExprView
    decreases e,
{
    match e {
        Expr::Number(n) => ExprView::Number(n),
        Expr::String(s) => ExprView::String(s@),
        Expr::Bool(b) => ExprView::Bool(b),
        Expr::Bin { lhs, rhs, op, lspace, rspace } => ExprView::Bin {
            lhs: Box::new(expr_view(*lhs)),
            rhs: Box::new(expr_view(*rhs)),
            op: op@,
            lspace: lspace as nat,
            rspace: rspace as nat,
        },
        Expr::Parenthesized { expr, lspace, rspace } => ExprView::Parenthesized {
            expr: Box::new(expr_view(*expr)),
            lspace: lspace as nat,
            rspace: rspace as nat,
        },
        Expr::If { cond, then_, else_, space } => ExprView::If {
            cond: Box::new(expr_view(*cond)),
            then_: Box::new(expr_view(*then_)),
            else_: Box::new(expr_view(*else_)),
            space: Seq::new(4, |i: int| space@[i] as nat),
        },
    }
}

impl Clone for Expr {
    fn clone(&self) -> (res: Expr)
        ensures
            res == *self,
        decreases *self,
    {
        match self {
            Expr::Number(n) => Expr::Number(*n),
            Expr::String(s) => Expr::String(s.clone()),
            Expr::Bool(b) => Expr::Bool(*b),
            Expr::Bin { lhs, rhs, op, lspace, rspace } => Expr::Bin {
                lhs: Box::new((**lhs).clone()),
                rhs: Box::new((**rhs).clone()),
                op: op.clone(),
                lspace: *lspace,
                rspace: *rspace,
            },
            Expr::Parenthesized { expr, lspace, rspace } => Expr::Parenthesized {
                expr: Box::new((**expr).clone()),
                lspace: *lspace,
                rspace: *rspace,
            },
            Expr::If { cond, then_, else_, space } => Expr::If {
                cond: Box::new((**cond).clone()),
                then_: Box::new((**then_).clone()),
                else_: Box::new((**else_).clone()),
                space: *space,
            },
        }
    }
}

impl View for Expr {
    type V = ExprView;

    open spec fn view(&self) -> ExprView {
        expr_view(*self)
    }
}

/// Why parsing failed.
#[derive(Debug, PartialEq)]
pub enum ParseError {
    /// Another token stands where `expected` has to.
    UnexpectedToken { expected: Token, found: Token },
    /// The tokens end where one more has to follow.
    UnexpectedEnd,
    /// No term starts here.
    InvalidExpression,
}

/// The mathematical value of a [`ParseError`].
pub enum ParseErrorView {
    UnexpectedToken { expected: TokenView, found: TokenView },
    UnexpectedEnd,
    InvalidExpression,
}

impl View for ParseError {
    type V = ParseErrorView;

    open spec fn view(&self) -> ParseErrorView {
        match *self {
            ParseError::UnexpectedToken { expected, found } => ParseErrorView::UnexpectedToken {
                expected: expected@,
                found: found@,
            },
            ParseError::UnexpectedEnd => ParseErrorView::UnexpectedEnd,
            ParseError::InvalidExpression => ParseErrorView::InvalidExpression,
        }
    }
}

/// The tightest tier of binary operators.
pub const MAX_PREC: usize = 2;

/// Whether a token is a binary operator.
pub open spec fn is_operator(t: TokenView) -> bool {
    t is Plus || t is Minus || t is Mult || t is Div || t is And || t is Or || t is Eq || t is Neq
        || t is Gt || t is Lt
}

/// The tier of an operator: 0 for logic and comparison, 1 for `+` and `-`,
/// 2 for `*` and `/`. Any other token has tier 0.
pub open spec fn tier(t: TokenView) -> nat {
    if t is Plus || t is Minus {
        1
    } else if t is Mult || t is Div {
        2
    } else {
        0
    }
}

/// Whether a token is a binary operator.
pub fn is_op(tok: &Token) -> (res: bool)
    ensures
        res == is_operator(tok@),
{
    match tok {
        Token::Plus
        | Token::Minus
        | Token::Mult
        | Token::Div
        | Token::And
        | Token::Or
        | Token::Eq
        | Token::Neq
        | Token::Gt
        | Token::Lt => true,
        _ => false,
    }
}

/// The tier of an operator.
pub fn precedence(op: &Token) -> (res: usize)
    ensures
        res == tier(op@),
{
    match op {
        Token::And | Token::Or => 0,
        Token::Eq | Token::Neq | Token::Gt | Token::Lt => 0,
        Token::Plus | Token::Minus => 1,
        Token::Mult | Token::Div => 2,
        _ => 0,
    }
}

/// Where a parse stopped, and what it made.
pub struct Parsed {
    pub end: nat,
    pub result: Result<ExprView, ParseErrorView>,
}

/// The width of the run of spaces at `pos`, and 0 where none stands there.
pub open spec fn gap_at(ts: Seq<TokenView>, pos: nat) -> nat {
    if pos < ts.len() && ts[pos as int] is Space {
        ts[pos as int]->Space_0
    } else {
        0
    }
}

/// The position behind the run of spaces at `pos`, and `pos` where none
/// stands there.
pub open spec fn after_gap(ts: Seq<TokenView>, pos: nat) -> nat {
    if pos < ts.len() && ts[pos as int] is Space {
        pos + 1
    } else {
        pos
    }
}

/// The position behind the token at `pos`, and `pos` at the end.
pub open spec fn after_token(ts: Seq<TokenView>, pos: nat) -> nat {
    if pos < ts.len() {
        pos + 1
    } else {
        pos
    }
}

/// The position of the first token from `pos` on that is no run of spaces.
pub open spec fn skip_spaces(ts: Seq<TokenView>, pos: nat) -> nat
    decreases ts.len() - pos,
{
    if pos < ts.len() && ts[pos as int] is Space {
        skip_spaces(ts, pos + 1)
    } else {
        pos
    }
}

/// Taking the token `want` at `pos`: the position behind it, or why it is
/// not there.
pub open spec fn expect_spec(ts: Seq<TokenView>, pos: nat, want: TokenView) -> Result<
    nat,
    ParseErrorView,
> {
    if pos >= ts.len() {
        Err(ParseErrorView::UnexpectedEnd)
    } else if ts[pos as int] == want {
        Ok((pos + 1) as nat)
    } else {
        Err(ParseErrorView::UnexpectedToken { expected: want, found: ts[pos as int] })
    }
}

/// A parse that stopped at `end` for want of an expression.
pub open spec fn no_expression(end: nat) -> Parsed {
    Parsed { end, result: Err(ParseErrorView::InvalidExpression) }
}

/// A parse that stopped at `end` because the tokens ended.
pub open spec fn no_token(end: nat) -> Parsed {
    Parsed { end, result: Err(ParseErrorView::UnexpectedEnd) }
}

/// The rank of a tier in the order in which the parser descends.
pub open spec fn rank(prec: nat) -> nat {
    if prec < MAX_PREC {
        (MAX_PREC - prec + 1) as nat
    } else {
        1
    }
}

/// The rank of what follows an opening parenthesis or an `if`.
pub open spec fn rank_inside() -> nat {
    (MAX_PREC + 2) as nat
}

/// A parse that stopped at `end` with `result`.
pub open spec fn parsed(end: nat, result: Result<ExprView, ParseErrorView>) -> Parsed {
    Parsed { end, result }
}

/// Parsing a term at `pos`: a literal, a parenthesized expression or a
/// conditional. Where the tokens have ended the parse fails for that; where
/// another token stands it is taken, and the parse fails for want of an
/// expression.
pub open spec fn parse_term_spec(ts: Seq<TokenView>, pos: nat) -> Parsed
    decreases ts.len() - pos, 0nat,
{
    if pos >= ts.len() {
        no_token(pos)
    } else {
        match ts[pos as int] {
            TokenView::Number(n) => parsed(pos + 1, Ok(ExprView::Number(n))),
            TokenView::String(s) => parsed(pos + 1, Ok(ExprView::String(s))),
            TokenView::True => parsed(pos + 1, Ok(ExprView::Bool(true))),
            TokenView::False => parsed(pos + 1, Ok(ExprView::Bool(false))),
            TokenView::Oparen => parse_group_spec(ts, pos + 1),
            TokenView::If => parse_conditional_spec(ts, pos + 1),
            _ => no_expression(pos + 1),
        }
    }
}

/// Parsing what follows an opening parenthesis, which ends at `pos`: a gap,
/// an expression, a gap and the closing parenthesis.
pub open spec fn parse_group_spec(ts: Seq<TokenView>, pos: nat) -> Parsed
    decreases ts.len() - pos, rank_inside(),
{
    let inner = parse_op_spec(ts, after_gap(ts, pos), 0);
    match inner.result {
        Err(err) => inner,
        Ok(expr) => {
            let close = after_gap(ts, inner.end);
            match expect_spec(ts, close, TokenView::Cparen) {
                Err(err) => parsed(after_token(ts, close), Err(err)),
                Ok(end) => parsed(
                    end,
                    Ok(
                        ExprView::Parenthesized {
                            expr: Box::new(expr),
                            lspace: gap_at(ts, pos),
                            rspace: gap_at(ts, inner.end),
                        },
                    ),
                ),
            }
        },
    }
}

/// Parsing what follows an `if`, which ends at `pos`: a gap, the condition,
/// a gap, `then`, the first branch, a gap, `else`, a gap and the second
/// branch. No gap is taken between `then` and the first branch.
pub open spec fn parse_conditional_spec(ts: Seq<TokenView>, pos: nat) -> Parsed
    decreases ts.len() - pos, rank_inside(),
{
    let cond = parse_op_spec(ts, after_gap(ts, pos), 0);
    match (cond.result, expect_spec(ts, after_gap(ts, cond.end), TokenView::Then)) {
        (Err(err), _) => cond,
        (Ok(c), Err(err)) => parsed(after_token(ts, after_gap(ts, cond.end)), Err(err)),
        (Ok(c), Ok(p)) => if p < pos {
            no_expression(p)
        } else {
            let first = parse_op_spec(ts, p, 0);
            match (first.result, expect_spec(ts, after_gap(ts, first.end), TokenView::Else)) {
                (Err(err), _) => first,
                (Ok(t), Err(err)) => parsed(after_token(ts, after_gap(ts, first.end)), Err(err)),
                (Ok(t), Ok(q)) => if q < pos {
                    no_expression(q)
                } else {
                    let second = parse_op_spec(ts, after_gap(ts, q), 0);
                    match second.result {
                        Err(err) => second,
                        Ok(e) => parsed(
                            second.end,
                            Ok(
                                ExprView::If {
                                    cond: Box::new(c),
                                    then_: Box::new(t),
                                    else_: Box::new(e),
                                    space: seq![
                                        gap_at(ts, pos),
                                        gap_at(ts, cond.end),
                                        gap_at(ts, first.end),
                                        gap_at(ts, q),
                                    ],
                                },
                            ),
                        ),
                    }
                },
            }
        },
    }
}

/// Parsing an expression of tier `prec` at `pos`.
///
/// The left operand is of the next tighter tier, or a term where there is
/// none. Where the first token behind it that is no run of spaces is an
/// operator of this tier, one run of spaces, one token and one more run of
/// spaces are taken, and the right operand is of this same tier: a chain of
/// operators of one tier groups to the right.
pub open spec fn parse_op_spec(ts: Seq<TokenView>, pos: nat, prec: nat) -> Parsed
    decreases ts.len() - pos, rank(prec),
{
    let left = if prec < MAX_PREC {
        parse_op_spec(ts, pos, prec + 1)
    } else {
        parse_term_spec(ts, pos)
    };
    match left.result {
        Err(err) => left,
        Ok(lhs) => {
            let at = skip_spaces(ts, left.end);
            if at < ts.len() && is_operator(ts[at as int]) && tier(ts[at as int]) == prec {
                let behind = after_token(ts, after_gap(ts, left.end));
                if behind <= pos {
                    no_expression(behind)
                } else {
                    let right = parse_op_spec(ts, after_gap(ts, behind), prec);
                    match right.result {
                        Err(err) => right,
                        Ok(rhs) => parsed(
                            right.end,
                            Ok(
                                ExprView::Bin {
                                    lhs: Box::new(lhs),
                                    rhs: Box::new(rhs),
                                    op: ts[at as int],
                                    lspace: gap_at(ts, left.end),
                                    rspace: gap_at(ts, behind),
                                },
                            ),
                        ),
                    }
                }
            } else {
                left
            }
        },
    }
}

/// No parse ends before where it started, and a successful parse of an
/// expression or a term ends behind it.
pub proof fn lemma_parse_advances(ts: Seq<TokenView>, pos: nat, prec: nat)
    ensures
        pos <= parse_op_spec(ts, pos, prec).end,
        parse_op_spec(ts, pos, prec).result is Ok ==> pos < parse_op_spec(ts, pos, prec).end,
    decreases ts.len() - pos, rank(prec),
{
    let left = if prec < MAX_PREC {
        lemma_parse_advances(ts, pos, prec + 1);
        parse_op_spec(ts, pos, prec + 1)
    } else {
        lemma_term_advances(ts, pos);
        parse_term_spec(ts, pos)
    };
    if left.result is Ok {
        let at = skip_spaces(ts, left.end);
        if at < ts.len() && is_operator(ts[at as int]) && tier(ts[at as int]) == prec {
            let behind = after_token(ts, after_gap(ts, left.end));
            lemma_parse_advances(ts, after_gap(ts, behind), prec);
        }
    }
}

/// No parse of a term ends before where it started, and a successful one
/// ends behind it.
pub proof fn lemma_term_advances(ts: Seq<TokenView>, pos: nat)
    ensures
        pos <= parse_term_spec(ts, pos).end,
        parse_term_spec(ts, pos).result is Ok ==> pos < parse_term_spec(ts, pos).end,
    decreases ts.len() - pos, 0nat,
{
    if pos < ts.len() {
        lemma_group_advances(ts, pos + 1);
        lemma_conditional_advances(ts, pos + 1);
    }
}

/// What follows an opening parenthesis ends where it starts or behind.
pub proof fn lemma_group_advances(ts: Seq<TokenView>, pos: nat)
    ensures
        pos <= parse_group_spec(ts, pos).end,
    decreases ts.len() - pos, rank_inside(),
{
    lemma_parse_advances(ts, after_gap(ts, pos), 0);
}

/// What follows an `if` ends where it starts or behind.
pub proof fn lemma_conditional_advances(ts: Seq<TokenView>, pos: nat)
    ensures
        pos <= parse_conditional_spec(ts, pos).end,
    decreases ts.len() - pos, rank_inside(),
{
    let cond = parse_op_spec(ts, after_gap(ts, pos), 0);
    lemma_parse_advances(ts, after_gap(ts, pos), 0);
    if cond.result is Ok {
        match expect_spec(ts, after_gap(ts, cond.end), TokenView::Then) {
            Err(err) => {},
            Ok(p) => {
                let first = parse_op_spec(ts, p, 0);
                lemma_parse_advances(ts, p, 0);
                if first.result is Ok {
                    match expect_spec(ts, after_gap(ts, first.end), TokenView::Else) {
                        Err(err) => {},
                        Ok(q) => {
                            lemma_parse_advances(ts, after_gap(ts, q), 0);
                        },
                    }
                }
            },
        }
    }
}

/// The value of what a parse made.
pub open spec fn result_view(r: Result<Expr, ParseError>) -> Result<ExprView, ParseErrorView> {
    match r {
        Ok(e) => Ok(e@),
        Err(err) => Err(err@),
    }
}

/// A cursor over a sequence of tokens.
pub struct Parser {
    pub tokens: Vec<Token>,
    pub pos: usize,
}

impl Parser {
    /// The values of the tokens.
    pub open spec fn views(&self) -> Seq<TokenView> {
        token_views(self.tokens@)
    }

    /// A cursor at the first of `tokens`.
    pub fn new(tokens: Vec<Token>) -> (res: Parser)
        ensures
            res.tokens == tokens,
            res.pos == 0,
    {
        Parser { tokens, pos: 0 }
    }

    /// Takes the token at the cursor; at the end there is none and the
    /// cursor stays.
    pub fn next(&mut self) -> (res: Option<&Token>)
        ensures
            final(self).tokens == old(self).tokens,
            final(self).pos == after_token(old(self).views(), old(self).pos as nat),
            old(self).pos < old(self).tokens.len() ==> res == Some(
                &old(self).tokens[old(self).pos as int],
            ),
            old(self).pos >= old(self).tokens.len() ==> res is None,
    {
        if self.pos < self.tokens.len() {
            self.pos += 1;
            Some(&self.tokens[self.pos - 1])
        } else {
            None
        }
    }

    /// Steps back one token and returns the token that the cursor is then
    /// at; at the start there is none and the cursor stays.
    pub fn prev(&mut self) -> (res: Option<&Token>)
        ensures
            final(self).tokens == old(self).tokens,
            0 < old(self).pos ==> final(self).pos == old(self).pos - 1,
            old(self).pos == 0 ==> final(self).pos == 0,
            0 < old(self).pos <= old(self).tokens.len() ==> res == Some(
                &old(self).tokens[old(self).pos - 1],
            ),
            old(self).pos == 0 || old(self).pos > old(self).tokens.len() ==> res is None,
    {
        if self.pos == 0 {
            None
        } else {
            self.pos -= 1;
            if self.pos < self.tokens.len() {
                Some(&self.tokens[self.pos])
            } else {
                None
            }
        }
    }

    /// The token at the cursor.
    pub fn peek(&self) -> (res: Option<&Token>)
        ensures
            self.pos < self.tokens.len() ==> res == Some(&self.tokens[self.pos as int]),
            self.pos >= self.tokens.len() ==> res is None,
    {
        if self.pos < self.tokens.len() {
            Some(&self.tokens[self.pos])
        } else {
            None
        }
    }

    /// The first token from the cursor on that is no run of spaces.
    pub fn peek_nonspace(&self) -> (res: Option<&Token>)
        ensures
            skip_spaces(self.views(), self.pos as nat) < self.tokens.len() ==> res == Some(
                &self.tokens[skip_spaces(self.views(), self.pos as nat) as int],
            ),
            skip_spaces(self.views(), self.pos as nat) >= self.tokens.len() ==> res is None,
    {
        let mut at = self.pos;
        while at < self.tokens.len() && matches!(self.tokens[at], Token::Space(_))
            invariant
                skip_spaces(self.views(), at as nat) == skip_spaces(self.views(), self.pos as nat),
            decreases self.tokens.len() - at,
        {
            at += 1;
        }
        if at < self.tokens.len() {
            Some(&self.tokens[at])
        } else {
            None
        }
    }

    /// Takes the run of spaces at the cursor and returns its width; where
    /// none stands there, the cursor stays and the width is 0.
    pub fn space(&mut self) -> (res: usize)
        ensures
            final(self).tokens == old(self).tokens,
            final(self).pos == after_gap(old(self).views(), old(self).pos as nat),
            res == gap_at(old(self).views(), old(self).pos as nat),
    {
        if self.pos < self.tokens.len() {
            if let Token::Space(w) = &self.tokens[self.pos] {
                let w = *w;
                self.pos += 1;
                return w;
            }
        }
        0
    }

    /// Takes the token at the cursor, which has to be `token`.
    pub fn expect(&mut self, token: Token) -> (res: Result<(), ParseError>)
        ensures
            final(self).tokens == old(self).tokens,
            final(self).pos == after_token(old(self).views(), old(self).pos as nat),
            match res {
                Ok(_) => expect_spec(old(self).views(), old(self).pos as nat, token@) == Ok::<
                    nat,
                    ParseErrorView,
                >(final(self).pos as nat),
                Err(err) => expect_spec(old(self).views(), old(self).pos as nat, token@) == Err::<
                    nat,
                    ParseErrorView,
                >(err@),
            },
    {
        if self.pos < self.tokens.len() {
            self.pos += 1;
            if self.tokens[self.pos - 1].same(&token) {
                Ok(())
            } else {
                Err(
                    ParseError::UnexpectedToken {
                        expected: token,
                        found: self.tokens[self.pos - 1].clone(),
                    },
                )
            }
        } else {
            Err(ParseError::UnexpectedEnd)
        }
    }

    /// Parses an expression at the cursor.
    pub fn parse_expr(&mut self) -> (res: Result<Expr, ParseError>)
        ensures
            final(self).tokens == old(self).tokens,
            final(self).pos == parse_op_spec(old(self).views(), old(self).pos as nat, 0).end,
            result_view(res) == parse_op_spec(old(self).views(), old(self).pos as nat, 0).result,
        decreases old(self).tokens.len() - old(self).pos, rank_inside() + 1,
    {
        self.parse_op(0)
    }

    /// Parses a term at the cursor.
    pub fn parse_term(&mut self) -> (res: Result<Expr, ParseError>)
        ensures
            final(self).tokens == old(self).tokens,
            final(self).pos == parse_term_spec(old(self).views(), old(self).pos as nat).end,
            result_view(res) == parse_term_spec(old(self).views(), old(self).pos as nat).result,
        decreases old(self).tokens.len() - old(self).pos, 0nat,
    {
        if self.pos >= self.tokens.len() {
            return Err(ParseError::UnexpectedEnd);
        }
        self.pos += 1;
        match &self.tokens[self.pos - 1] {
            Token::Number(n) => Ok(Expr::Number(*n)),
            Token::String(s) => Ok(Expr::String(s.clone())),
            Token::True => Ok(Expr::Bool(true)),
            Token::False => Ok(Expr::Bool(false)),
            Token::Oparen => self.parse_group(),
            Token::If => self.parse_conditional(),
            _ => Err(ParseError::InvalidExpression),
        }
    }

    /// Parses what follows an opening parenthesis.
    fn parse_group(&mut self) -> (res: Result<Expr, ParseError>)
        ensures
            final(self).tokens == old(self).tokens,
            final(self).pos == parse_group_spec(old(self).views(), old(self).pos as nat).end,
            result_view(res) == parse_group_spec(old(self).views(), old(self).pos as nat).result,
        decreases old(self).tokens.len() - old(self).pos, rank_inside(),
    {
        let lspace = self.space();
        let expr = match self.parse_op(0) {
            Ok(e) => e,
            Err(err) => {
                return Err(err);
            },
        };
        let rspace = self.space();
        match self.expect(Token::Cparen) {
            Ok(_) => Ok(Expr::Parenthesized { expr: Box::new(expr), lspace, rspace }),
            Err(err) => Err(err),
        }
    }

    /// Parses what follows an `if`.
    #[verifier::rlimit(30)]
    fn parse_conditional(&mut self) -> (res: Result<Expr, ParseError>)
        ensures
            final(self).tokens == old(self).tokens,
            final(self).pos == parse_conditional_spec(old(self).views(), old(self).pos as nat).end,
            result_view(res) == parse_conditional_spec(
                old(self).views(),
                old(self).pos as nat,
            ).result,
        decreases old(self).tokens.len() - old(self).pos, rank_inside(),
    {
        let ghost ts = self.views();
        let space1 = self.space();
        proof {
            lemma_parse_advances(ts, self.pos as nat, 0);
        }
        let cond = match self.parse_op(0) {
            Ok(e) => e,
            Err(err) => {
                return Err(err);
            },
        };
        let space2 = self.space();
        match self.expect(Token::Then) {
            Ok(_) => {},
            Err(err) => {
                return Err(err);
            },
        }
        proof {
            lemma_parse_advances(ts, self.pos as nat, 0);
        }
        let first = match self.parse_op(0) {
            Ok(e) => e,
            Err(err) => {
                return Err(err);
            },
        };
        let space3 = self.space();
        match self.expect(Token::Else) {
            Ok(_) => {},
            Err(err) => {
                return Err(err);
            },
        }
        let space4 = self.space();
        let second = match self.parse_op(0) {
            Ok(e) => e,
            Err(err) => {
                return Err(err);
            },
        };
        let res = Expr::If {
            cond: Box::new(cond),
            then_: Box::new(first),
            else_: Box::new(second),
            space: [space1, space2, space3, space4],
        };
        assert(res@->If_space =~= seq![space1 as nat, space2 as nat, space3 as nat, space4 as nat]);
        Ok(res)
    }

    /// Parses an expression of tier `prec` at the cursor.
    #[verifier::rlimit(30)]
    pub fn parse_op(&mut self, prec: usize) -> (res: Result<Expr, ParseError>)
        ensures
            final(self).tokens == old(self).tokens,
            final(self).pos == parse_op_spec(
                old(self).views(),
                old(self).pos as nat,
                prec as nat,
            ).end,
            result_view(res) == parse_op_spec(
                old(self).views(),
                old(self).pos as nat,
                prec as nat,
            ).result,
        decreases old(self).tokens.len() - old(self).pos, rank(prec as nat),
    {
        let ghost ts = self.views();
        let ghost start = self.pos as nat;
        let parsed = if prec < MAX_PREC {
            self.parse_op(prec + 1)
        } else {
            self.parse_term()
        };
        let left = match parsed {
            Ok(e) => e,
            Err(err) => {
                return Err(err);
            },
        };
        proof {
            if prec < MAX_PREC {
                lemma_parse_advances(ts, start, (prec + 1) as nat);
            } else {
                lemma_term_advances(ts, start);
            }
        }
        let op = match self.peek_nonspace() {
            Some(a) => a.clone(),
            None => {
                return Ok(left);
            },
        };
        if is_op(&op) && precedence(&op) == prec {
            let lspace = self.space();
            self.next();
            let rspace = self.space();
            let right = match self.parse_op(prec) {
                Ok(e) => e,
                Err(err) => {
                    return Err(err);
                },
            };
            Ok(Expr::Bin { lhs: Box::new(left), rhs: Box::new(right), op, lspace, rspace })
        } else {
            Ok(left)
        }
    }
}

/// What parsing the whole of `ts` makes: the gap before the expression, the
/// expression, and the gap behind it.
pub open spec fn parse_spec(ts: Seq<TokenView>) -> Result<(nat, ExprView, nat), ParseErrorView> {
    let parsed = parse_op_spec(ts, after_gap(ts, 0), 0);
    match parsed.result {
        Err(err) => Err(err),
        Ok(e) => Ok((gap_at(ts, 0), e, gap_at(ts, parsed.end))),
    }
}

/// Parses `tokens` into an expression, with the gap before it and the gap
/// behind it. What follows the gap behind the expression is not read.
pub fn parse(tokens: Vec<Token>) -> (res: Result<(usize, Expr, usize), ParseError>)
    ensures
        match res {
            Ok((l, e, r)) => parse_spec(token_views(tokens@)) == Ok::<
                (nat, ExprView, nat),
                ParseErrorView,
            >((l as nat, e@, r as nat)),
            Err(err) => parse_spec(token_views(tokens@)) == Err::<
                (nat, ExprView, nat),
                ParseErrorView,
            >(err@),
        },
{
    let mut parser = Parser::new(tokens);
    let lspace = parser.space();
    let expr = match parser.parse_expr() {
        Ok(e) => e,
        Err(err) => {
            return Err(err);
        },
    };
    let rspace = parser.space();
    Ok((lspace, expr, rspace))
}

} // verus!
