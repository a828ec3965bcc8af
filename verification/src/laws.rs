//! Properties of evaluation that hold of every expression.

use crate::animate::{
    apply_operator, binary_outcome, center_frame, display, evaluation, lemma_width_centered,
    raw_frames, steps, AnimateResultView, ValueView,
};
use crate::lexer::{
    lemma_run_ends, lemma_token_advances, lex_spec, normalized, token_at, tokens_from, TokenView,
};
use crate::parser::{
    after_gap, after_token, expect_spec, gap_at, is_operator, parse_conditional_spec,
    parse_group_spec, parse_op_spec, parse_spec, parse_term_spec, rank, rank_inside, skip_spaces,
    tier, ExprView, MAX_PREC,
};
use crate::text::width;
use vstd::prelude::*;

verus! {

/// Whether an expression is a number, a string or a boolean.
pub open spec fn is_literal(e: ExprView) -> bool {
    e is Number || e is String || e is Bool
}

/// The value that a literal stands for.
pub open spec fn literal_value(e: ExprView) -> ValueView
    recommends
        is_literal(e),
{
    match e {
        ExprView::Number(n) => ValueView::Number(n),
        ExprView::String(s) => ValueView::String(s),
        ExprView::Bool(b) => ValueView::Bool(b),
        _ => arbitrary(),
    }
}

/// A literal evaluates to its value without a frame, and settles on the text
/// of its value without padding.
pub proof fn lemma_literal_has_no_frames(e: ExprView)
    requires
        is_literal(e),
    ensures
        evaluation(e) is Ok,
        evaluation(e)->Ok_0.value == literal_value(e),
        evaluation(e)->Ok_0.anim.len() == 0,
        evaluation(e)->Ok_0.last == (0nat, display(literal_value(e)), 0nat),
{
}

/// The frames of an evaluation are the frames before centering, each padded
/// to the width of the first where it is narrower: the first frame is kept
/// as it is, and every frame is as wide as the wider of itself and the first.
pub proof fn lemma_frames_are_centered(e: ExprView)
    requires
        evaluation(e) is Ok,
    ensures
        evaluation(e)->Ok_0.anim.len() == raw_frames(e).len(),
        forall|i: int|
            0 <= i < raw_frames(e).len() ==> #[trigger] evaluation(e)->Ok_0.anim[i] == center_frame(
                raw_frames(e)[i],
                width(raw_frames(e)[0]),
            ),
        raw_frames(e).len() > 0 ==> evaluation(e)->Ok_0.anim[0] == raw_frames(e)[0],
        forall|i: int|
            0 <= i < raw_frames(e).len() ==> width(#[trigger] evaluation(e)->Ok_0.anim[i]) == if width(
                raw_frames(e)[i],
            ) < width(raw_frames(e)[0]) {
                width(raw_frames(e)[0])
            } else {
                width(raw_frames(e)[i])
            },
{
    let raw = raw_frames(e);
    let anim = evaluation(e)->Ok_0.anim;
    if raw.len() > 0 {
        assert(center_frame(raw[0], width(raw[0])) =~= raw[0]);
    }
    assert forall|i: int| 0 <= i < raw.len() implies width(#[trigger] anim[i]) == if width(raw[i])
        < width(raw[0]) {
        width(raw[0])
    } else {
        width(raw[i])
    } by {
        lemma_width_centered(raw[i], width(raw[0]));
    }
}

/// Where no frame is wider before centering than the first, all frames of
/// the evaluation are as wide as the first.
pub proof fn lemma_frames_share_width(e: ExprView)
    requires
        evaluation(e) is Ok,
        forall|i: int|
            0 <= i < raw_frames(e).len() ==> width(#[trigger] raw_frames(e)[i]) <= width(
                raw_frames(e)[0],
            ),
    ensures
        forall|i: int|
            0 <= i < evaluation(e)->Ok_0.anim.len() ==> width(#[trigger] evaluation(e)->Ok_0.anim[i])
                == width(evaluation(e)->Ok_0.anim[0]),
{
    lemma_frames_are_centered(e);
    let raw = raw_frames(e);
    let anim = evaluation(e)->Ok_0.anim;
    assert forall|i: int| 0 <= i < anim.len() implies width(#[trigger] anim[i]) == width(
        anim[0],
    ) by {
        assert(width(raw[i]) <= width(raw[0]));
    }
}

/// A frame that is wider before centering than the first stays wider than
/// the first: the frames share one width only where the first is the widest.
pub proof fn lemma_wider_frame_stays_wider(e: ExprView, i: int)
    requires
        evaluation(e) is Ok,
        0 <= i < raw_frames(e).len(),
        width(raw_frames(e)[i]) > width(raw_frames(e)[0]),
    ensures
        width(evaluation(e)->Ok_0.anim[i]) > width(evaluation(e)->Ok_0.anim[0]),
{
    lemma_frames_are_centered(e);
}

/// A binary operation shows as many frames as the longer animation of its
/// operands, then one for every step in which the gaps close, the operands'
/// padding folded into them, then one for the result.
pub proof fn lemma_binary_frame_count(
    o1: AnimateResultView,
    o2: AnimateResultView,
    op: TokenView,
    lgap: nat,
    rgap: nat,
    result: ValueView,
)
    ensures
        binary_outcome(o1, o2, op, lgap, rgap, result).anim.len() == (if o1.anim.len()
            < o2.anim.len() {
            o2.anim.len()
        } else {
            o1.anim.len()
        }) + steps(lgap + o1.last.2, rgap + o2.last.0) + 1,
{
}

/// An operation on two literals shows one frame for every step in which its
/// gaps close and one for the result: two frames where it has no gaps.
pub proof fn lemma_literal_operation_frame_count(e: ExprView)
    requires
        e is Bin,
        is_literal(*e->Bin_lhs),
        is_literal(*e->Bin_rhs),
        evaluation(e) is Ok,
    ensures
        evaluation(e)->Ok_0.anim.len() == steps(e->Bin_lspace, e->Bin_rspace) + 1,
        e->Bin_lspace == 0 && e->Bin_rspace == 0 ==> evaluation(e)->Ok_0.anim.len() == 2,
{
    let o1 = evaluation(*e->Bin_lhs)->Ok_0;
    let o2 = evaluation(*e->Bin_rhs)->Ok_0;
    lemma_literal_has_no_frames(*e->Bin_lhs);
    lemma_literal_has_no_frames(*e->Bin_rhs);
    let v = apply_operator(o1.value, e->Bin_op, o2.value)->Ok_0;
    lemma_binary_frame_count(o1, o2, e->Bin_op, e->Bin_lspace, e->Bin_rspace, v);
}

/// The tokens that a gap is written with: none for no gap, one run of
/// spaces for any other.
pub open spec fn gap_tokens(n: nat) -> Seq<TokenView> {
    if n == 0 {
        Seq::empty()
    } else {
        seq![TokenView::Space(n)]
    }
}

/// The tokens that an expression is written with.
pub open spec fn written(e: ExprView) -> Seq<TokenView>
    decreases e,
{
    match e {
        ExprView::Number(n) => seq![TokenView::Number(n)],
        ExprView::String(s) => seq![TokenView::String(s)],
        ExprView::Bool(b) => seq![
            if b {
                TokenView::True
            } else {
                TokenView::False
            },
        ],
        ExprView::Bin { lhs, rhs, op, lspace, rspace } => written(*lhs) + gap_tokens(lspace)
            + seq![op] + gap_tokens(rspace) + written(*rhs),
        ExprView::Parenthesized { expr, lspace, rspace } => seq![TokenView::Oparen] + inside_group(
            written(*expr),
            lspace,
            rspace,
        ),
        ExprView::If { cond, then_, else_, space } => seq![TokenView::If] + inside_conditional(
            written(*cond),
            written(*then_),
            written(*else_),
            space,
        ),
    }
}

/// The tokens that follow the opening parenthesis of a parenthesized
/// expression, from the tokens of the expression inside.
pub open spec fn inside_group(inner: Seq<TokenView>, lspace: nat, rspace: nat) -> Seq<TokenView> {
    gap_tokens(lspace) + inner + gap_tokens(rspace) + seq![TokenView::Cparen]
}

/// The tokens that follow the `if` of a conditional, from the tokens of the
/// condition and of the two branches.
pub open spec fn inside_conditional(
    cond: Seq<TokenView>,
    first: Seq<TokenView>,
    second: Seq<TokenView>,
    space: Seq<nat>,
) -> Seq<TokenView> {
    gap_tokens(space[0]) + cond + gap_tokens(space[1]) + seq![TokenView::Then] + first + gap_tokens(
        space[2],
    ) + seq![TokenView::Else] + gap_tokens(space[3]) + second
}

/// Whether no run of spaces among the tokens is empty.
pub open spec fn no_empty_gaps(ts: Seq<TokenView>) -> bool {
    forall|i: int| 0 <= i < ts.len() && #[trigger] ts[i] is Space ==> ts[i]->Space_0 > 0
}

/// Whether a term can start with this token.
pub open spec fn starts_term(t: TokenView) -> bool {
    t is Number || t is String || t is True || t is False || t is Oparen || t is If
}

/// A parse succeeds only where a term starts.
pub proof fn lemma_parse_starts_with_term(ts: Seq<TokenView>, pos: nat, prec: nat)
    ensures
        parse_op_spec(ts, pos, prec).result is Ok ==> pos < ts.len() && starts_term(ts[pos as int]),
    decreases rank(prec),
{
    if parse_op_spec(ts, pos, prec).result is Ok {
        if prec < MAX_PREC {
            lemma_parse_starts_with_term(ts, pos, prec + 1);
            assert(parse_op_spec(ts, pos, prec + 1).result is Ok);
        } else {
            assert(parse_term_spec(ts, pos).result is Ok);
        }
    }
}

/// The tokens of a gap that the parser takes are the tokens that the gap is
/// written with.
pub proof fn lemma_gap_keeps_tokens(ts: Seq<TokenView>, pos: nat)
    requires
        no_empty_gaps(ts),
        pos <= ts.len(),
    ensures
        ts.subrange(pos as int, after_gap(ts, pos) as int) == gap_tokens(gap_at(ts, pos)),
{
    if pos < ts.len() && ts[pos as int] is Space {
        lemma_stretch_of_one(ts, pos);
    } else {
        assert(ts.subrange(pos as int, pos as int) =~= Seq::<TokenView>::empty());
    }
}

/// A stretch of tokens is its first part followed by the rest.
pub proof fn lemma_stretch_splits(ts: Seq<TokenView>, a: nat, b: nat, c: nat)
    requires
        a <= b <= c <= ts.len(),
    ensures
        ts.subrange(a as int, c as int) == ts.subrange(a as int, b as int) + ts.subrange(
            b as int,
            c as int,
        ),
{
    assert(ts.subrange(a as int, c as int) =~= ts.subrange(a as int, b as int) + ts.subrange(
        b as int,
        c as int,
    ));
}

/// The stretch of one token.
pub proof fn lemma_stretch_of_one(ts: Seq<TokenView>, a: nat)
    requires
        a < ts.len(),
    ensures
        ts.subrange(a as int, a as int + 1) == seq![ts[a as int]],
{
    assert(ts.subrange(a as int, a as int + 1) =~= seq![ts[a as int]]);
}

/// Where the parser takes an operator, the operator stands behind at most
/// one run of spaces.
proof fn lemma_operator_behind_one_gap(ts: Seq<TokenView>, pos: nat, prec: nat)
    requires
        pos <= ts.len(),
        skip_spaces(ts, pos) < ts.len(),
        is_operator(ts[skip_spaces(ts, pos) as int]),
        parse_op_spec(
            ts,
            after_gap(ts, after_token(ts, after_gap(ts, pos))),
            prec,
        ).result is Ok,
    ensures
        skip_spaces(ts, pos) == after_gap(ts, pos),
{
    let at = skip_spaces(ts, pos);
    let g1 = after_gap(ts, pos);
    let behind = after_token(ts, g1);
    let g2 = after_gap(ts, behind);
    lemma_parse_starts_with_term(ts, g2, prec);
    if at != g1 {
        assert(ts[pos as int] is Space);
        assert(at == skip_spaces(ts, pos + 1));
        assert(ts[pos as int + 1] is Space);
        assert(at == skip_spaces(ts, pos + 2));
        assert(behind == pos + 2);
        if ts[pos as int + 2] is Space {
            assert(at == skip_spaces(ts, pos + 3));
            assert(g2 == pos + 3);
            assert(at == pos + 3);
        } else {
            assert(at == pos + 2);
        }
    }
}

/// A successful parse of an expression took exactly the tokens that the
/// expression is written with.
pub proof fn lemma_parse_keeps_tokens(ts: Seq<TokenView>, pos: nat, prec: nat)
    requires
        no_empty_gaps(ts),
        parse_op_spec(ts, pos, prec).result is Ok,
    ensures
        pos < parse_op_spec(ts, pos, prec).end <= ts.len(),
        ts.subrange(pos as int, parse_op_spec(ts, pos, prec).end as int) == written(
            parse_op_spec(ts, pos, prec).result->Ok_0,
        ),
    decreases ts.len() - pos, rank(prec),
{
    let left = if prec < MAX_PREC {
        lemma_parse_keeps_tokens(ts, pos, prec + 1);
        parse_op_spec(ts, pos, prec + 1)
    } else {
        lemma_term_keeps_tokens(ts, pos);
        parse_term_spec(ts, pos)
    };
    let mid = left.end;
    let at = skip_spaces(ts, mid);
    if at < ts.len() && is_operator(ts[at as int]) && tier(ts[at as int]) == prec {
        let g1 = after_gap(ts, mid);
        let behind = after_token(ts, g1);
        let g2 = after_gap(ts, behind);
        let right = parse_op_spec(ts, g2, prec);
        lemma_parse_keeps_tokens(ts, g2, prec);
        lemma_operator_behind_one_gap(ts, mid, prec);
        lemma_gap_keeps_tokens(ts, mid);
        lemma_gap_keeps_tokens(ts, behind);
        lemma_stretch_of_one(ts, g1);
        lemma_stretch_splits(ts, pos, mid, g1);
        lemma_stretch_splits(ts, pos, g1, behind);
        lemma_stretch_splits(ts, pos, behind, g2);
        lemma_stretch_splits(ts, pos, g2, right.end);
    }
}

/// A successful parse of a term took exactly the tokens that the term is
/// written with.
pub proof fn lemma_term_keeps_tokens(ts: Seq<TokenView>, pos: nat)
    requires
        no_empty_gaps(ts),
        parse_term_spec(ts, pos).result is Ok,
    ensures
        pos < parse_term_spec(ts, pos).end <= ts.len(),
        ts.subrange(pos as int, parse_term_spec(ts, pos).end as int) == written(
            parse_term_spec(ts, pos).result->Ok_0,
        ),
    decreases ts.len() - pos, 0nat,
{
    let end = parse_term_spec(ts, pos).end;
    match ts[pos as int] {
        TokenView::Oparen => {
            lemma_group_keeps_tokens(ts, pos + 1);
            lemma_stretch_of_one(ts, pos);
            lemma_stretch_splits(ts, pos, pos + 1, end);
        },
        TokenView::If => {
            lemma_conditional_keeps_tokens(ts, pos + 1);
            lemma_stretch_of_one(ts, pos);
            lemma_stretch_splits(ts, pos, pos + 1, end);
        },
        _ => {
            lemma_stretch_of_one(ts, pos);
        },
    }
}

proof fn lemma_group_keeps_tokens(ts: Seq<TokenView>, pos: nat)
    requires
        no_empty_gaps(ts),
        pos <= ts.len(),
        parse_group_spec(ts, pos).result is Ok,
    ensures
        pos < parse_group_spec(ts, pos).end <= ts.len(),
        ts.subrange(pos as int, parse_group_spec(ts, pos).end as int) == inside_group(
            written(*parse_group_spec(ts, pos).result->Ok_0->Parenthesized_expr),
            parse_group_spec(ts, pos).result->Ok_0->Parenthesized_lspace,
            parse_group_spec(ts, pos).result->Ok_0->Parenthesized_rspace,
        ),
        parse_group_spec(ts, pos).result->Ok_0 is Parenthesized,
    decreases ts.len() - pos, rank_inside(),
{
    let g1 = after_gap(ts, pos);
    let inner = parse_op_spec(ts, g1, 0);
    lemma_parse_keeps_tokens(ts, g1, 0);
    let g2 = after_gap(ts, inner.end);
    let end = parse_group_spec(ts, pos).end;
    lemma_gap_keeps_tokens(ts, pos);
    lemma_gap_keeps_tokens(ts, inner.end);
    lemma_stretch_of_one(ts, g2);
    lemma_stretch_splits(ts, pos, g1, inner.end);
    lemma_stretch_splits(ts, pos, inner.end, g2);
    lemma_stretch_splits(ts, pos, g2, end);
}

#[verifier::rlimit(40)]
proof fn lemma_conditional_keeps_tokens(ts: Seq<TokenView>, pos: nat)
    requires
        no_empty_gaps(ts),
        pos <= ts.len(),
        parse_conditional_spec(ts, pos).result is Ok,
    ensures
        pos < parse_conditional_spec(ts, pos).end <= ts.len(),
        parse_conditional_spec(ts, pos).result->Ok_0 is If,
        ts.subrange(pos as int, parse_conditional_spec(ts, pos).end as int) == inside_conditional(
            written(*parse_conditional_spec(ts, pos).result->Ok_0->If_cond),
            written(*parse_conditional_spec(ts, pos).result->Ok_0->If_then_),
            written(*parse_conditional_spec(ts, pos).result->Ok_0->If_else_),
            parse_conditional_spec(ts, pos).result->Ok_0->If_space,
        ),
    decreases ts.len() - pos, rank_inside(),
{
    let g1 = after_gap(ts, pos);
    let cond = parse_op_spec(ts, g1, 0);
    lemma_parse_keeps_tokens(ts, g1, 0);
    let g2 = after_gap(ts, cond.end);
    let p = expect_spec(ts, g2, TokenView::Then)->Ok_0;
    let first = parse_op_spec(ts, p, 0);
    lemma_parse_keeps_tokens(ts, p, 0);
    let g3 = after_gap(ts, first.end);
    let q = expect_spec(ts, g3, TokenView::Else)->Ok_0;
    let g4 = after_gap(ts, q);
    let second = parse_op_spec(ts, g4, 0);
    lemma_parse_keeps_tokens(ts, g4, 0);
    lemma_gap_keeps_tokens(ts, pos);
    lemma_gap_keeps_tokens(ts, cond.end);
    lemma_gap_keeps_tokens(ts, first.end);
    lemma_gap_keeps_tokens(ts, q);
    lemma_stretch_of_one(ts, g2);
    lemma_stretch_of_one(ts, g3);
    lemma_stretch_splits(ts, pos, g1, cond.end);
    lemma_stretch_splits(ts, pos, cond.end, g2);
    lemma_stretch_splits(ts, pos, g2, p);
    lemma_stretch_splits(ts, pos, p, first.end);
    lemma_stretch_splits(ts, pos, first.end, g3);
    lemma_stretch_splits(ts, pos, g3, q);
    lemma_stretch_splits(ts, pos, q, g4);
    lemma_stretch_splits(ts, pos, g4, second.end);
}

/// What parsing makes of a sequence of tokens, written out again, is how
/// that sequence starts: the parser keeps every gap that it takes.
pub proof fn lemma_parse_is_how_the_tokens_start(ts: Seq<TokenView>)
    requires
        no_empty_gaps(ts),
        parse_spec(ts) is Ok,
    ensures
        ({
            let (l, e, r) = parse_spec(ts)->Ok_0;
            let all = gap_tokens(l) + written(e) + gap_tokens(r);
            all.len() <= ts.len() && ts.subrange(0, all.len() as int) == all
        }),
{
    let g1 = after_gap(ts, 0);
    let parsed = parse_op_spec(ts, g1, 0);
    lemma_parse_keeps_tokens(ts, g1, 0);
    lemma_gap_keeps_tokens(ts, 0);
    lemma_gap_keeps_tokens(ts, parsed.end);
    let g2 = after_gap(ts, parsed.end);
    lemma_stretch_splits(ts, 0, g1, parsed.end);
    lemma_stretch_splits(ts, 0, parsed.end, g2);
}

/// No run of spaces among the tokens of a text from `pos` on is empty.
pub proof fn lemma_tokens_have_no_empty_gaps(s: Seq<char>, pos: nat)
    ensures
        no_empty_gaps(tokens_from(s, pos)),
    decreases s.len() - pos,
{
    if pos < s.len() {
        lemma_token_advances(s, pos);
        lemma_run_ends(s, pos);
        let rest = tokens_from(s, token_at(s, pos).1);
        lemma_tokens_have_no_empty_gaps(s, token_at(s, pos).1);
        let all = tokens_from(s, pos);
        assert forall|i: int| 0 <= i < all.len() && #[trigger] all[i] is Space implies all[i]->Space_0
            > 0 by {
            if i > 0 {
                assert(all[i] == rest[i - 1]);
            }
        }
    }
}

/// No run of spaces among the tokens of a source text is empty, so that
/// parsing them keeps the tokens that it takes.
pub proof fn lemma_lexed_gaps_are_not_empty(code: Seq<char>)
    ensures
        no_empty_gaps(lex_spec(code)),
{
    lemma_tokens_have_no_empty_gaps(normalized(code), 0);
}

} // verus!
