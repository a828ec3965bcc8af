//! Evaluation of an expression together with the frames that show it
//! collapsing into its value.

use crate::lexer::{Token, TokenView};
use crate::parser::{Expr, ExprView};
use crate::text::{
    decimal, lemma_decimal_shape, lemma_width_ascii, lemma_width_concat, lemma_width_spaces,
    push_char, push_decimal, push_spaces, space_run, spaces, text_width, width,
};
use vstd::prelude::*;
use vstd::string::*;

verus! {

/// A computed value.
#[derive(Debug, PartialEq, Eq)]
pub enum Value {
    Number(u16),
    String(String),
    Bool(bool),
}

/// The mathematical value of a [`Value`].
pub enum ValueView {
    Number(u16),
    String(Seq<char>),
    Bool(bool),
}

impl View for Value {
    type V = ValueView;

    open spec fn view(&self) -> ValueView {
        match *self {
            Value::Number(n) => ValueView::Number(n),
            Value::String(s) => ValueView::String(s@),
            Value::Bool(b) => ValueView::Bool(b),
        }
    }
}

impl Clone for Value {
    fn clone(&self) -> (res: Value)
        ensures
            res == *self,
    {
        match self {
            Value::Number(n) => Value::Number(*n),
            Value::String(s) => Value::String(s.clone()),
            Value::Bool(b) => Value::Bool(*b),
        }
    }
}

/// Why an evaluation failed.
#[derive(Debug, Clone, Copy, PartialEq, Eq, Structural)]
pub enum EvalError {
    /// The operator is not defined on the operands' types.
    TypeMismatch,
    /// A number was divided by zero.
    DivisionByZero,
    /// The result of an arithmetic operation is not a 16-bit unsigned number.
    ArithmeticOverflow,
    /// The expression holds a conditional.
    UnsupportedConstruct,
}

/// The text `true`.
pub open spec fn true_text() -> Seq<char> {
    seq!['t', 'r', 'u', 'e']
}

/// The text `false`.
pub open spec fn false_text() -> Seq<char> {
    seq!['f', 'a', 'l', 's', 'e']
}

/// The canonical text of a value: a number in decimal, a string between
/// double quotes, a boolean as `true` or `false`.
pub open spec fn display(v: ValueView) -> Seq<char> {
    match v {
        ValueView::Number(n) => decimal(n as nat),
        ValueView::String(s) => seq!['"'] + s + seq!['"'],
        ValueView::Bool(b) => if b {
            true_text()
        } else {
            false_text()
        },
    }
}

impl Value {
    /// The canonical text of the value.
    pub fn to_string(&self) -> (s: String)
        ensures
            s@ == display(self@),
    {
        let mut out = String::new();
        match self {
            Value::Number(n) => {
                push_decimal(&mut out, *n);
                assert(out@ =~= decimal(*n as nat));
            },
            Value::String(s) => {
                push_char(&mut out, '"');
                out.append(s.as_str());
                push_char(&mut out, '"');
                assert(out@ =~= seq!['"'] + s@ + seq!['"']);
            },
            Value::Bool(b) => {
                proof {
                    reveal_strlit("true");
                    reveal_strlit("false");
                }
                if *b {
                    out.append("true");
                    assert(out@ =~= true_text());
                } else {
                    out.append("false");
                    assert(out@ =~= false_text());
                }
            },
        }
        out
    }
}

/// Whether two values are of the same kind.
pub open spec fn same_kind(a: ValueView, b: ValueView) -> bool {
    ||| a is Number && b is Number
    ||| a is String && b is String
    ||| a is Bool && b is Bool
}

/// What an operator makes of two values.
///
/// Arithmetic is on 16-bit unsigned numbers and fails where the result is
/// not one; `+` also joins two strings; `&` and `|` work on booleans; `=`
/// and `!` compare two values of the same kind; `<` and `>` compare
/// numbers. Everything else is a type mismatch.
pub open spec fn apply_operator(a: ValueView, op: TokenView, b: ValueView) -> Result<
    ValueView,
    EvalError,
> {
    match (a, op, b) {
        (ValueView::Number(x), TokenView::Plus, ValueView::Number(y)) => if x + y <= u16::MAX {
            Ok(ValueView::Number((x + y) as u16))
        } else {
            Err(EvalError::ArithmeticOverflow)
        },
        (ValueView::Number(x), TokenView::Minus, ValueView::Number(y)) => if y <= x {
            Ok(ValueView::Number((x - y) as u16))
        } else {
            Err(EvalError::ArithmeticOverflow)
        },
        (ValueView::Number(x), TokenView::Mult, ValueView::Number(y)) => if x * y <= u16::MAX {
            Ok(ValueView::Number((x * y) as u16))
        } else {
            Err(EvalError::ArithmeticOverflow)
        },
        (ValueView::Number(x), TokenView::Div, ValueView::Number(y)) => if y == 0 {
            Err(EvalError::DivisionByZero)
        } else {
            Ok(ValueView::Number((x as nat / y as nat) as u16))
        },
        (ValueView::String(x), TokenView::Plus, ValueView::String(y)) => Ok(
            ValueView::String(x + y),
        ),
        (ValueView::Bool(x), TokenView::Or, ValueView::Bool(y)) => Ok(ValueView::Bool(x || y)),
        (ValueView::Bool(x), TokenView::And, ValueView::Bool(y)) => Ok(ValueView::Bool(x && y)),
        (_, TokenView::Eq, _) => if same_kind(a, b) {
            Ok(ValueView::Bool(a == b))
        } else {
            Err(EvalError::TypeMismatch)
        },
        (_, TokenView::Neq, _) => if same_kind(a, b) {
            Ok(ValueView::Bool(a != b))
        } else {
            Err(EvalError::TypeMismatch)
        },
        (ValueView::Number(x), TokenView::Gt, ValueView::Number(y)) => Ok(ValueView::Bool(x > y)),
        (ValueView::Number(x), TokenView::Lt, ValueView::Number(y)) => Ok(ValueView::Bool(x < y)),
        _ => Err(EvalError::TypeMismatch),
    }
}

/// Whether two values are of the same kind and equal.
fn equal_values(a: &Value, b: &Value) -> (res: Option<bool>)
    ensures
        res is Some <==> same_kind(a@, b@),
        res is Some ==> res->0 == (a@ == b@),
{
    match (a, b) {
        (Value::Number(x), Value::Number(y)) => Some(*x == *y),
        (Value::String(x), Value::String(y)) => Some(x.eq(y)),
        (Value::Bool(x), Value::Bool(y)) => Some(*x == *y),
        _ => None,
    }
}

/// Applies `op` to `v1` and `v2`.
pub fn eval_op(v1: Value, v2: Value, op: &Token) -> (res: Result<Value, EvalError>)
    ensures
        match res {
            Ok(v) => apply_operator(v1@, op@, v2@) == Ok::<ValueView, EvalError>(v@),
            Err(e) => apply_operator(v1@, op@, v2@) == Err::<ValueView, EvalError>(e),
        },
{
    match op {
        Token::Eq => match equal_values(&v1, &v2) {
            Some(b) => Ok(Value::Bool(b)),
            None => Err(EvalError::TypeMismatch),
        },
        Token::Neq => match equal_values(&v1, &v2) {
            Some(b) => Ok(Value::Bool(!b)),
            None => Err(EvalError::TypeMismatch),
        },
        _ => match (v1, v2) {
            (Value::Number(x), Value::Number(y)) => match op {
                Token::Plus => match x.checked_add(y) {
                    Some(z) => Ok(Value::Number(z)),
                    None => Err(EvalError::ArithmeticOverflow),
                },
                Token::Minus => match x.checked_sub(y) {
                    Some(z) => Ok(Value::Number(z)),
                    None => Err(EvalError::ArithmeticOverflow),
                },
                Token::Mult => match x.checked_mul(y) {
                    Some(z) => Ok(Value::Number(z)),
                    None => Err(EvalError::ArithmeticOverflow),
                },
                Token::Div => if y == 0 {
                    Err(EvalError::DivisionByZero)
                } else {
                    Ok(Value::Number(x / y))
                },
                Token::Gt => Ok(Value::Bool(x > y)),
                Token::Lt => Ok(Value::Bool(x < y)),
                _ => Err(EvalError::TypeMismatch),
            },
            (Value::String(x), Value::String(y)) => match op {
                Token::Plus => Ok(Value::String(x.concat(y.as_str()))),
                _ => Err(EvalError::TypeMismatch),
            },
            (Value::Bool(x), Value::Bool(y)) => match op {
                Token::Or => Ok(Value::Bool(x || y)),
                Token::And => Ok(Value::Bool(x && y)),
                _ => Err(EvalError::TypeMismatch),
            },
            _ => Err(EvalError::TypeMismatch),
        },
    }
}

/// The frames of an animation, in order.
pub type Animation = Vec<String>;

/// What an evaluation yields: the value, the frames that lead to it, and the
/// value's text with the padding that keeps it centered under the frames.
pub struct AnimateResult {
    pub value: Value,
    pub anim: Animation,
    pub last: (usize, String, usize),
}

/// The mathematical value of an [`AnimateResult`].
pub struct AnimateResultView {
    pub value: ValueView,
    pub anim: Seq<Seq<char>>,
    pub last: (nat, Seq<char>, nat),
}

/// The texts of a sequence of strings.
pub open spec fn texts(v: Seq<String>) -> Seq<Seq<char>> {
    Seq::new(v.len(), |i: int| v[i]@)
}

impl View for AnimateResult {
    type V = AnimateResultView;

    open spec fn view(&self) -> AnimateResultView {
        AnimateResultView {
            value: self.value@,
            anim: texts(self.anim@),
            last: (self.last.0 as nat, self.last.1@, self.last.2 as nat),
        }
    }
}

/// `text` between `left` and `right` spaces.
pub open spec fn padded(left: nat, text: Seq<char>, right: nat) -> Seq<char> {
    spaces(left) + text + spaces(right)
}

/// The padding on the left that centers a text of width `len` in `w`
/// columns: half of what is missing, rounded down, and nothing where the
/// text is not narrower than `w`.
pub open spec fn left_pad(w: nat, len: nat) -> nat {
    if len < w {
        ((w - len) / 2) as nat
    } else {
        0
    }
}

/// The padding on the right that centers a text of width `len` in `w`
/// columns: what is missing and not on the left.
pub open spec fn right_pad(w: nat, len: nat) -> nat {
    if len < w {
        ((w - len) - (w - len) / 2) as nat
    } else {
        0
    }
}

/// A frame centered in `w` columns.
pub open spec fn center_frame(f: Seq<char>, w: nat) -> Seq<char> {
    padded(left_pad(w, width(f)), f, right_pad(w, width(f)))
}

/// The frames, each centered in the width of the first.
pub open spec fn centered(raw: Seq<Seq<char>>) -> Seq<Seq<char>> {
    Seq::new(raw.len(), |i: int| center_frame(raw[i], width(raw[0])))
}

/// The padding that centering gives the last frame.
pub open spec fn final_padding(raw: Seq<Seq<char>>) -> (nat, nat) {
    if raw.len() == 0 {
        (0, 0)
    } else {
        (left_pad(width(raw[0]), width(raw.last())), right_pad(width(raw[0]), width(raw.last())))
    }
}

/// Pads every frame that is narrower than the first to the width of the
/// first, half of the padding on each side and the odd column on the right,
/// and returns the padding of the last frame.
pub fn center(anim: &mut Animation) -> (pads: (usize, usize))
    ensures
        texts(final(anim)@) == centered(texts(old(anim)@)),
        (pads.0 as nat, pads.1 as nat) == final_padding(texts(old(anim)@)),
{
    if anim.len() == 0 {
        assert(texts(anim@) =~= centered(texts(anim@)));
        return (0, 0);
    }
    let len = text_width(&anim[0]);
    let mut left: usize = 0;
    let mut right: usize = 0;
    let mut i: usize = 0;
    while i < anim.len()
        invariant
            i <= anim.len(),
            anim.len() == old(anim).len(),
            len == width(old(anim)[0]@),
            forall|j: int| 0 <= j < i ==> #[trigger] anim[j]@ == center_frame(old(anim)[j]@, len as nat),
            forall|j: int| i <= j < anim.len() ==> #[trigger] anim[j] == old(anim)[j],
            i > 0 ==> left == left_pad(len as nat, width(old(anim)[i - 1]@)),
            i > 0 ==> right == right_pad(len as nat, width(old(anim)[i - 1]@)),
        decreases anim.len() - i,
    {
        let f_len = text_width(&anim[i]);
        if f_len < len {
            let diff = len - f_len;
            left = diff / 2;
            right = diff - left;
            let mut s = space_run(left);
            s.append(anim[i].as_str());
            push_spaces(&mut s, right);
            anim[i] = s;
        } else {
            left = 0;
            right = 0;
            assert(anim[i as int]@ =~= center_frame(anim[i as int]@, len as nat));
        }
        i += 1;
    }
    assert(texts(anim@) =~= centered(texts(old(anim)@)));
    (left, right)
}

/// The number of frames in which a gap closes: one more than the wider of
/// the two gaps, and ten at most.
pub open spec fn steps(lgap: nat, rgap: nat) -> nat {
    let m = if lgap < rgap {
        rgap
    } else {
        lgap
    };
    if m + 1 < 10 {
        m + 1
    } else {
        10
    }
}

/// The width of a gap of `gap` columns at step `i` of `n`: the gap times
/// `1 - (i / n)^2`, rounded down.
pub open spec fn eased(gap: nat, i: nat, n: nat) -> nat {
    ((gap * (n * n - i * i)) / ((n * n) as int)) as nat
}

/// An eased gap is no wider than the gap.
pub proof fn lemma_eased_bound(gap: nat, i: nat, n: nat)
    requires
        i < n,
    ensures
        eased(gap, i, n) <= gap,
        i == 0 ==> eased(gap, i, n) == gap,
{
    let d = (n * n) as int;
    let k = (n * n - i * i) as int;
    assert(0 < d) by (nonlinear_arith)
        requires
            d == n * n,
            n > 0,
    ;
    assert(0 <= i * i) by (nonlinear_arith);
    assert(i * i < n * n) by (nonlinear_arith)
        requires
            i < n,
    ;
    assert(gap * k <= gap * d) by (nonlinear_arith)
        requires
            0 <= k <= d,
            0 <= gap,
    ;
    assert(0 <= gap * k) by (nonlinear_arith)
        requires
            0 <= k,
            0 <= gap,
    ;
    assert((gap * k) / d <= gap) by (nonlinear_arith)
        requires
            0 <= gap * k <= gap * d,
            0 < d,
    ;
    assert(0 <= (gap * k) / d) by (nonlinear_arith)
        requires
            0 <= gap * k,
            0 < d,
    ;
    if i == 0 {
        assert(i * i == 0) by (nonlinear_arith)
            requires
                i == 0,
        ;
        assert((gap * d) / d == gap) by (nonlinear_arith)
            requires
                0 < d,
        ;
    }
}

fn steps_of(lgap: usize, rgap: usize) -> (n: usize)
    ensures
        n == steps(lgap as nat, rgap as nat),
        1 <= n <= 10,
{
    let m = if lgap < rgap {
        rgap
    } else {
        lgap
    };
    if m < 9 {
        m + 1
    } else {
        10
    }
}

fn eased_gap(gap: usize, i: usize, n: usize) -> (g: usize)
    requires
        i < n <= 10,
    ensures
        g == eased(gap as nat, i as nat, n as nat),
{
    proof {
        assert(0 < n * n <= 100 && 0 <= i * i < n * n) by (nonlinear_arith)
            requires
                0 <= i < n <= 10,
        ;
    }
    let d: usize = n * n;
    let k: usize = d - i * i;
    proof {
        lemma_eased_bound(gap as nat, i as nat, n as nat);
        assert(0 <= gap * k <= 0xffff_ffff_ffff_ffff * 100) by (nonlinear_arith)
            requires
                0 <= gap <= 0xffff_ffff_ffff_ffff,
                0 <= k <= 100,
        ;
    }
    let wide: u128 = (gap as u128) * (k as u128) / (d as u128);
    wide as usize
}

/// The character that stands for an operator in a frame.
pub open spec fn glyph(op: TokenView) -> char {
    match op {
        TokenView::Plus => '+',
        TokenView::Minus => '-',
        TokenView::Mult => '*',
        TokenView::Div => '/',
        TokenView::And => '&',
        TokenView::Or => '|',
        TokenView::Eq => '=',
        TokenView::Neq => '!',
        TokenView::Lt => '<',
        TokenView::Gt => '>',
        _ => ' ',
    }
}

/// The value's text with its padding: what an operand shows once its own
/// animation is over.
pub open spec fn settled(o: AnimateResultView) -> Seq<char> {
    padded(o.last.0, o.last.1, o.last.2)
}

/// Frame `i` of an operand, which stays on its settled text once its frames
/// have run out.
pub open spec fn frame_at(o: AnimateResultView, i: int) -> Seq<char> {
    if 0 <= i < o.anim.len() {
        o.anim[i]
    } else {
        settled(o)
    }
}

/// Two texts around an operator, with a gap on each side of it.
pub open spec fn joined(left: Seq<char>, lgap: nat, g: char, rgap: nat, right: Seq<char>) -> Seq<
    char,
> {
    left + spaces(lgap) + seq![g] + spaces(rgap) + right
}

/// The frames in which the operands animate side by side.
pub open spec fn merge_frames(
    o1: AnimateResultView,
    o2: AnimateResultView,
    lgap: nat,
    g: char,
    rgap: nat,
) -> Seq<Seq<char>> {
    let n = if o1.anim.len() < o2.anim.len() {
        o2.anim.len()
    } else {
        o1.anim.len()
    };
    Seq::new(n, |i: int| joined(frame_at(o1, i), lgap, g, rgap, frame_at(o2, i)))
}

/// The frames in which the gaps around the operator close. `lgap` and `rgap`
/// are the gaps with the operands' own padding folded in.
pub open spec fn collapse_frames(
    o1: AnimateResultView,
    o2: AnimateResultView,
    lgap: nat,
    g: char,
    rgap: nat,
) -> Seq<Seq<char>> {
    let n = steps(lgap, rgap);
    Seq::new(
        n,
        |i: int|
            padded(
                o1.last.0,
                joined(o1.last.1, eased(lgap, i as nat, n), g, eased(rgap, i as nat, n), o2.last.1),
                o2.last.2,
            ),
    )
}

/// The frames of a binary operation before centering: the merged frames,
/// the closing of the gaps, and the result with one column more on each
/// side than the outer padding of the operands.
pub open spec fn binary_raw(
    o1: AnimateResultView,
    o2: AnimateResultView,
    lgap: nat,
    g: char,
    rgap: nat,
    text: Seq<char>,
) -> Seq<Seq<char>> {
    merge_frames(o1, o2, lgap, g, rgap) + collapse_frames(
        o1,
        o2,
        lgap + o1.last.2,
        g,
        rgap + o2.last.0,
    ) + seq![padded(o1.last.0 + 1, text, o2.last.2 + 1)]
}

/// What a binary operation yields from what its operands yield and the value
/// that the operator gives.
pub open spec fn binary_outcome(
    o1: AnimateResultView,
    o2: AnimateResultView,
    op: TokenView,
    lgap: nat,
    rgap: nat,
    result: ValueView,
) -> AnimateResultView {
    let raw = binary_raw(o1, o2, lgap, glyph(op), rgap, display(result));
    let pads = final_padding(raw);
    AnimateResultView {
        value: result,
        anim: centered(raw),
        last: (pads.0 + o1.last.0 + 1, display(result), pads.1 + o2.last.2 + 1),
    }
}

/// A text between parentheses, with a gap inside each.
pub open spec fn wrapped(lgap: nat, f: Seq<char>, rgap: nat) -> Seq<char> {
    seq!['('] + spaces(lgap) + f + spaces(rgap) + seq![')']
}

/// The frames of a parenthesized expression before centering: the inner
/// frames between the parentheses, then the closing of the gaps, with the
/// inner padding folded in.
pub open spec fn group_raw(o: AnimateResultView, lgap: nat, rgap: nat) -> Seq<Seq<char>> {
    let n = steps(lgap + o.last.0, rgap + o.last.2);
    Seq::new(o.anim.len(), |i: int| wrapped(lgap, o.anim[i], rgap)) + Seq::new(
        n,
        |i: int|
            wrapped(
                eased(lgap + o.last.0, i as nat, n),
                o.last.1,
                eased(rgap + o.last.2, i as nat, n),
            ),
    )
}

/// What a parenthesized expression yields from what the inner one yields.
pub open spec fn group_outcome(o: AnimateResultView, lgap: nat, rgap: nat) -> AnimateResultView {
    let raw = group_raw(o, lgap, rgap);
    let pads = final_padding(raw);
    AnimateResultView { value: o.value, anim: centered(raw), last: (pads.0 + 1, o.last.1, pads.1 + 1) }
}

/// What a literal yields: no frames, and its text without padding.
pub open spec fn literal_outcome(v: ValueView) -> AnimateResultView {
    AnimateResultView { value: v, anim: Seq::empty(), last: (0, display(v), 0) }
}

/// The frames of an expression before centering; none for a literal, a
/// conditional, or an expression whose operands fail.
pub open spec fn raw_frames(e: ExprView) -> Seq<Seq<char>> {
    match e {
        ExprView::Bin { lhs, rhs, op, lspace, rspace } => match (evaluation(*lhs), evaluation(*rhs)) {
            (Ok(o1), Ok(o2)) => match apply_operator(o1.value, op, o2.value) {
                Ok(v) => binary_raw(o1, o2, lspace, glyph(op), rspace, display(v)),
                Err(_) => Seq::empty(),
            },
            _ => Seq::empty(),
        },
        ExprView::Parenthesized { expr, lspace, rspace } => match evaluation(*expr) {
            Ok(o) => group_raw(o, lspace, rspace),
            Err(_) => Seq::empty(),
        },
        _ => Seq::empty(),
    }
}

/// What the evaluation of an expression yields.
///
/// The operands of a binary operation are evaluated left first, and the
/// first failure is the failure of the whole. A conditional is not
/// evaluated.
pub open spec fn evaluation(e: ExprView) -> Result<AnimateResultView, EvalError>
    decreases e,
{
    match e {
        ExprView::Number(n) => Ok(literal_outcome(ValueView::Number(n))),
        ExprView::String(s) => Ok(literal_outcome(ValueView::String(s))),
        ExprView::Bool(b) => Ok(literal_outcome(ValueView::Bool(b))),
        ExprView::Bin { lhs, rhs, op, lspace, rspace } => match evaluation(*lhs) {
            Err(err) => Err(err),
            Ok(o1) => match evaluation(*rhs) {
                Err(err) => Err(err),
                Ok(o2) => match apply_operator(o1.value, op, o2.value) {
                    Err(err) => Err(err),
                    Ok(v) => Ok(binary_outcome(o1, o2, op, lspace, rspace, v)),
                },
            },
        },
        ExprView::Parenthesized { expr, lspace, rspace } => match evaluation(*expr) {
            Err(err) => Err(err),
            Ok(o) => Ok(group_outcome(o, lspace, rspace)),
        },
        ExprView::If { .. } => Err(EvalError::UnsupportedConstruct),
    }
}

/// A bound on the width of everything that the evaluation of an expression
/// lays out: the literals' texts, the gaps, and room for each operator,
/// parenthesis and result.
pub open spec fn extent(e: ExprView) -> nat
    decreases e,
{
    match e {
        ExprView::Number(n) => width(display(ValueView::Number(n))),
        ExprView::String(s) => width(display(ValueView::String(s))),
        ExprView::Bool(b) => width(display(ValueView::Bool(b))),
        ExprView::Bin { lhs, rhs, op, lspace, rspace } => extent(*lhs) + lspace + rspace + extent(
            *rhs,
        ) + 8,
        ExprView::Parenthesized { expr, lspace, rspace } => extent(*expr) + lspace + rspace + 2,
        ExprView::If { .. } => 0,
    }
}

/// Whether an outcome settles on the text of its value, and its frames and
/// its settled text are at most `b` wide.
pub open spec fn within(o: AnimateResultView, b: nat) -> bool {
    &&& o.last.1 == display(o.value)
    &&& o.last.0 + width(o.last.1) + o.last.2 <= b
    &&& forall|i: int| 0 <= i < o.anim.len() ==> width(#[trigger] o.anim[i]) <= b
}

/// The width of a padded text.
pub proof fn lemma_width_padded(left: nat, text: Seq<char>, right: nat)
    ensures
        width(padded(left, text, right)) == left + width(text) + right,
{
    lemma_width_spaces(left);
    lemma_width_spaces(right);
    lemma_width_concat(spaces(left), text);
    lemma_width_concat(spaces(left) + text, spaces(right));
}

/// The width of one ASCII character.
pub proof fn lemma_width_one(c: char)
    requires
        c <= '\u{7f}',
    ensures
        width(seq![c]) == 1,
{
    lemma_width_ascii(seq![c]);
}

/// An operator's character is one column wide.
pub proof fn lemma_width_glyph(op: TokenView)
    ensures
        width(seq![glyph(op)]) == 1,
{
    lemma_width_one(glyph(op));
}

/// The width of two texts around an operator.
pub proof fn lemma_width_joined(left: Seq<char>, lgap: nat, op: TokenView, rgap: nat, right: Seq<char>)
    ensures
        width(joined(left, lgap, glyph(op), rgap, right)) == width(left) + lgap + 1 + rgap + width(
            right,
        ),
{
    let g = seq![glyph(op)];
    lemma_width_glyph(op);
    lemma_width_spaces(lgap);
    lemma_width_spaces(rgap);
    lemma_width_concat(left, spaces(lgap));
    lemma_width_concat(left + spaces(lgap), g);
    lemma_width_concat(left + spaces(lgap) + g, spaces(rgap));
    lemma_width_concat(left + spaces(lgap) + g + spaces(rgap), right);
}

/// The width of a text between parentheses.
pub proof fn lemma_width_wrapped(lgap: nat, f: Seq<char>, rgap: nat)
    ensures
        width(wrapped(lgap, f, rgap)) == lgap + width(f) + rgap + 2,
{
    lemma_width_one('(');
    lemma_width_one(')');
    lemma_width_spaces(lgap);
    lemma_width_spaces(rgap);
    lemma_width_concat(seq!['('], spaces(lgap));
    lemma_width_concat(seq!['('] + spaces(lgap), f);
    lemma_width_concat(seq!['('] + spaces(lgap) + f, spaces(rgap));
    lemma_width_concat(seq!['('] + spaces(lgap) + f + spaces(rgap), seq![')']);
}

/// A centered frame is as wide as the wider of the frame and the columns it
/// is centered in.
pub proof fn lemma_width_centered(f: Seq<char>, w: nat)
    ensures
        width(center_frame(f, w)) == if width(f) < w {
            w
        } else {
            width(f)
        },
{
    lemma_width_padded(left_pad(w, width(f)), f, right_pad(w, width(f)));
}

/// The text of a value that an operator gives is at most five columns wider
/// than the texts of the operands together.
pub proof fn lemma_result_width(a: ValueView, op: TokenView, b: ValueView)
    requires
        apply_operator(a, op, b) is Ok,
    ensures
        width(display(apply_operator(a, op, b)->Ok_0)) <= width(display(a)) + width(display(b)) + 5,
{
    let v = apply_operator(a, op, b)->Ok_0;
    match v {
        ValueView::Number(n) => {
            lemma_decimal_shape(n as nat);
        },
        ValueView::Bool(t) => {
            lemma_width_ascii(true_text());
            lemma_width_ascii(false_text());
        },
        ValueView::String(s) => {
            let x = a->String_0;
            let y = b->String_0;
            let q = seq!['"'];
            lemma_width_one('"');
            lemma_width_concat(q, x);
            lemma_width_concat(q + x, q);
            lemma_width_concat(q, y);
            lemma_width_concat(q + y, q);
            lemma_width_concat(x, y);
            lemma_width_concat(q, x + y);
            lemma_width_concat(q + (x + y), q);
        },
    }
}

/// The bound that a binary operation keeps when its operands keep `b1` and
/// `b2`.
pub open spec fn binary_bound(b1: nat, b2: nat, lgap: nat, rgap: nat) -> nat {
    b1 + lgap + rgap + b2 + 8
}

proof fn lemma_frame_at_width(o: AnimateResultView, b: nat, i: int)
    requires
        within(o, b),
    ensures
        width(frame_at(o, i)) <= b,
{
    lemma_width_padded(o.last.0, o.last.1, o.last.2);
}

proof fn lemma_binary_raw_width(
    o1: AnimateResultView,
    o2: AnimateResultView,
    op: TokenView,
    lgap: nat,
    rgap: nat,
    b1: nat,
    b2: nat,
    i: int,
)
    requires
        within(o1, b1),
        within(o2, b2),
        apply_operator(o1.value, op, o2.value) is Ok,
        0 <= i < binary_raw(
            o1,
            o2,
            lgap,
            glyph(op),
            rgap,
            display(apply_operator(o1.value, op, o2.value)->Ok_0),
        ).len(),
    ensures
        width(
            binary_raw(
                o1,
                o2,
                lgap,
                glyph(op),
                rgap,
                display(apply_operator(o1.value, op, o2.value)->Ok_0),
            )[i],
        ) <= binary_bound(b1, b2, lgap, rgap),
{
    let v = apply_operator(o1.value, op, o2.value)->Ok_0;
    let g = glyph(op);
    let merge = merge_frames(o1, o2, lgap, g, rgap);
    let lg = lgap + o1.last.2;
    let rg = rgap + o2.last.0;
    let collapse = collapse_frames(o1, o2, lg, g, rg);
    let n = steps(lg, rg);
    let raw = binary_raw(o1, o2, lgap, g, rgap, display(v));
    if i < merge.len() {
        lemma_frame_at_width(o1, b1, i);
        lemma_frame_at_width(o2, b2, i);
        lemma_width_joined(frame_at(o1, i), lgap, op, rgap, frame_at(o2, i));
    } else if i < merge.len() + collapse.len() {
        let k = (i - merge.len()) as nat;
        lemma_eased_bound(lg, k, n);
        lemma_eased_bound(rg, k, n);
        let j = joined(o1.last.1, eased(lg, k, n), g, eased(rg, k, n), o2.last.1);
        lemma_width_joined(o1.last.1, eased(lg, k, n), op, eased(rg, k, n), o2.last.1);
        lemma_width_padded(o1.last.0, j, o2.last.2);
        assert(collapse[k as int] == padded(o1.last.0, j, o2.last.2));
    } else {
        lemma_result_width(o1.value, op, o2.value);
        lemma_width_padded(o1.last.0 + 1, display(v), o2.last.2 + 1);
    }
}

/// A binary operation keeps its bound.
pub proof fn lemma_binary_within(
    o1: AnimateResultView,
    o2: AnimateResultView,
    op: TokenView,
    lgap: nat,
    rgap: nat,
    b1: nat,
    b2: nat,
)
    requires
        within(o1, b1),
        within(o2, b2),
        apply_operator(o1.value, op, o2.value) is Ok,
    ensures
        within(
            binary_outcome(o1, o2, op, lgap, rgap, apply_operator(o1.value, op, o2.value)->Ok_0),
            binary_bound(b1, b2, lgap, rgap),
        ),
{
    let v = apply_operator(o1.value, op, o2.value)->Ok_0;
    let e = binary_bound(b1, b2, lgap, rgap);
    let raw = binary_raw(o1, o2, lgap, glyph(op), rgap, display(v));
    let out = binary_outcome(o1, o2, op, lgap, rgap, v);
    let w = width(raw[0]);
    lemma_binary_raw_width(o1, o2, op, lgap, rgap, b1, b2, 0);
    assert forall|i: int| 0 <= i < out.anim.len() implies width(#[trigger] out.anim[i]) <= e by {
        lemma_binary_raw_width(o1, o2, op, lgap, rgap, b1, b2, i);
        lemma_width_centered(raw[i], w);
    }
    let last = raw.len() - 1;
    lemma_binary_raw_width(o1, o2, op, lgap, rgap, b1, b2, last);
    lemma_width_centered(raw[last], w);
    lemma_width_padded(o1.last.0 + 1, display(v), o2.last.2 + 1);
    lemma_width_padded(left_pad(w, width(raw[last])), raw[last], right_pad(w, width(raw[last])));
    lemma_result_width(o1.value, op, o2.value);
}

/// The bound that a parenthesized expression keeps when the inner one keeps
/// `b`.
pub open spec fn group_bound(b: nat, lgap: nat, rgap: nat) -> nat {
    b + lgap + rgap + 2
}

proof fn lemma_group_raw_width(o: AnimateResultView, lgap: nat, rgap: nat, b: nat, i: int)
    requires
        within(o, b),
        0 <= i < group_raw(o, lgap, rgap).len(),
    ensures
        width(group_raw(o, lgap, rgap)[i]) <= group_bound(b, lgap, rgap),
        i >= o.anim.len() ==> width(group_raw(o, lgap, rgap)[i]) == eased(
            lgap + o.last.0,
            (i - o.anim.len()) as nat,
            steps(lgap + o.last.0, rgap + o.last.2),
        ) + width(o.last.1) + eased(
            rgap + o.last.2,
            (i - o.anim.len()) as nat,
            steps(lgap + o.last.0, rgap + o.last.2),
        ) + 2,
{
    let lg = lgap + o.last.0;
    let rg = rgap + o.last.2;
    let n = steps(lg, rg);
    if i < o.anim.len() {
        lemma_width_wrapped(lgap, o.anim[i], rgap);
    } else {
        let k = (i - o.anim.len()) as nat;
        lemma_eased_bound(lg, k, n);
        lemma_eased_bound(rg, k, n);
        lemma_width_wrapped(eased(lg, k, n), o.last.1, eased(rg, k, n));
    }
}

/// A parenthesized expression keeps its bound.
pub proof fn lemma_group_within(o: AnimateResultView, lgap: nat, rgap: nat, b: nat)
    requires
        within(o, b),
    ensures
        within(group_outcome(o, lgap, rgap), group_bound(b, lgap, rgap)),
{
    let e = group_bound(b, lgap, rgap);
    let raw = group_raw(o, lgap, rgap);
    let out = group_outcome(o, lgap, rgap);
    let w = width(raw[0]);
    lemma_group_raw_width(o, lgap, rgap, b, 0);
    assert forall|i: int| 0 <= i < out.anim.len() implies width(#[trigger] out.anim[i]) <= e by {
        lemma_group_raw_width(o, lgap, rgap, b, i);
        lemma_width_centered(raw[i], w);
    }
    let last = raw.len() - 1;
    lemma_group_raw_width(o, lgap, rgap, b, last);
    lemma_width_centered(raw[last], w);
    lemma_width_padded(left_pad(w, width(raw[last])), raw[last], right_pad(w, width(raw[last])));
}

/// Everything that the evaluation of an expression lays out is within the
/// expression's extent.
pub proof fn lemma_extent(e: ExprView)
    requires
        evaluation(e) is Ok,
    ensures
        within(evaluation(e)->Ok_0, extent(e)),
    decreases e,
{
    match e {
        ExprView::Bin { lhs, rhs, op, lspace, rspace } => {
            lemma_extent(*lhs);
            lemma_extent(*rhs);
            lemma_binary_within(
                evaluation(*lhs)->Ok_0,
                evaluation(*rhs)->Ok_0,
                op,
                lspace,
                rspace,
                extent(*lhs),
                extent(*rhs),
            );
        },
        ExprView::Parenthesized { expr, lspace, rspace } => {
            lemma_extent(*expr);
            lemma_group_within(evaluation(*expr)->Ok_0, lspace, rspace, extent(*expr));
        },
        _ => {},
    }
}

fn glyph_of(op: &Token) -> (c: char)
    ensures
        c == glyph(op@),
{
    match op {
        Token::Plus => '+',
        Token::Minus => '-',
        Token::Mult => '*',
        Token::Div => '/',
        Token::And => '&',
        Token::Or => '|',
        Token::Eq => '=',
        Token::Neq => '!',
        Token::Lt => '<',
        Token::Gt => '>',
        _ => ' ',
    }
}

fn pad(left: usize, text: &str, right: usize) -> (s: String)
    ensures
        s@ == padded(left as nat, text@, right as nat),
{
    let mut s = space_run(left);
    s.append(text);
    push_spaces(&mut s, right);
    s
}

fn join(left: &str, lgap: usize, g: char, rgap: usize, right: &str) -> (s: String)
    ensures
        s@ == joined(left@, lgap as nat, g, rgap as nat, right@),
{
    let mut s = String::new();
    s.append(left);
    push_spaces(&mut s, lgap);
    push_char(&mut s, g);
    push_spaces(&mut s, rgap);
    s.append(right);
    assert(s@ =~= joined(left@, lgap as nat, g, rgap as nat, right@));
    s
}

fn wrap(lgap: usize, f: &str, rgap: usize) -> (s: String)
    ensures
        s@ == wrapped(lgap as nat, f@, rgap as nat),
{
    let mut s = String::new();
    push_char(&mut s, '(');
    push_spaces(&mut s, lgap);
    s.append(f);
    push_spaces(&mut s, rgap);
    push_char(&mut s, ')');
    assert(s@ =~= wrapped(lgap as nat, f@, rgap as nat));
    s
}

/// Lays out a binary operation whose operands yielded `r1` and `r2` and
/// whose operator gave `result`.
#[verifier::rlimit(30)]
fn animate_binary(
    r1: AnimateResult,
    r2: AnimateResult,
    op: &Token,
    lspace: usize,
    rspace: usize,
    result: Value,
    Ghost(b1): Ghost<nat>,
    Ghost(b2): Ghost<nat>,
) -> (res: AnimateResult)
    requires
        within(r1@, b1),
        within(r2@, b2),
        binary_bound(b1, b2, lspace as nat, rspace as nat) <= usize::MAX,
        apply_operator(r1@.value, op@, r2@.value) == Ok::<ValueView, EvalError>(result@),
    ensures
        res@ == binary_outcome(r1@, r2@, op@, lspace as nat, rspace as nat, result@),
{
    let g = glyph_of(op);
    let text = result.to_string();
    let still1 = pad(r1.last.0, r1.last.1.as_str(), r1.last.2);
    let still2 = pad(r2.last.0, r2.last.1.as_str(), r2.last.2);
    let n1 = r1.anim.len();
    let n2 = r2.anim.len();
    let m = if n1 < n2 {
        n2
    } else {
        n1
    };
    let lg = lspace + r1.last.2;
    let rg = rspace + r2.last.0;
    let n = steps_of(lg, rg);
    let ghost raw = binary_raw(r1@, r2@, lspace as nat, g, rspace as nat, text@);
    let ghost merge = merge_frames(r1@, r2@, lspace as nat, g, rspace as nat);
    let ghost collapse = collapse_frames(r1@, r2@, lg as nat, g, rg as nat);
    let mut anim: Vec<String> = Vec::new();
    let mut i: usize = 0;
    while i < m
        invariant
            i <= m,
            anim.len() == i,
            n1 == r1.anim.len(),
            n2 == r2.anim.len(),
            m == merge.len(),
            merge == merge_frames(r1@, r2@, lspace as nat, g, rspace as nat),
            still1@ == settled(r1@),
            still2@ == settled(r2@),
            forall|j: int| 0 <= j < i ==> #[trigger] anim[j]@ == merge[j],
        decreases m - i,
    {
        let left = if i < n1 {
            r1.anim[i].as_str()
        } else {
            still1.as_str()
        };
        let right = if i < n2 {
            r2.anim[i].as_str()
        } else {
            still2.as_str()
        };
        assert(left@ == frame_at(r1@, i as int));
        assert(right@ == frame_at(r2@, i as int));
        anim.push(join(left, lspace, g, rspace, right));
        i += 1;
    }
    let mut k: usize = 0;
    while k < n
        invariant
            k <= n,
            n == collapse.len(),
            n == steps(lg as nat, rg as nat),
            1 <= n <= 10,
            collapse == collapse_frames(r1@, r2@, lg as nat, g, rg as nat),
            anim.len() == m + k,
            m == merge.len(),
            forall|j: int| 0 <= j < m ==> #[trigger] anim[j]@ == merge[j],
            forall|j: int| m <= j < m + k ==> #[trigger] anim[j]@ == collapse[j - m],
        decreases n - k,
    {
        let l = eased_gap(lg, k, n);
        let r = eased_gap(rg, k, n);
        let mid = join(r1.last.1.as_str(), l, g, r, r2.last.1.as_str());
        anim.push(pad(r1.last.0, mid.as_str(), r2.last.2));
        k += 1;
    }
    anim.push(pad(r1.last.0 + 1, text.as_str(), r2.last.2 + 1));
    assert(texts(anim@) =~= raw) by {
        assert(raw.len() == m + n + 1);
        assert forall|j: int| 0 <= j < m + n + 1 implies texts(anim@)[j] == raw[j] by {
            if j < m {
                assert(anim[j]@ == merge[j]);
            } else if j < m + n {
                assert(anim[j]@ == collapse[j - m]);
            }
        }
    }
    proof {
        lemma_binary_within(r1@, r2@, op@, lspace as nat, rspace as nat, b1, b2);
    }
    let pads = center(&mut anim);
    AnimateResult { value: result, anim, last: (pads.0 + r1.last.0 + 1, text, pads.1 + r2.last.2 + 1) }
}

/// Lays out a parenthesized expression whose inner expression yielded `r`.
fn animate_group(r: AnimateResult, lspace: usize, rspace: usize, Ghost(b): Ghost<nat>) -> (res:
    AnimateResult)
    requires
        within(r@, b),
        group_bound(b, lspace as nat, rspace as nat) <= usize::MAX,
    ensures
        res@ == group_outcome(r@, lspace as nat, rspace as nat),
{
    let AnimateResult { value, anim: inner, last } = r;
    let m = inner.len();
    let lg = lspace + last.0;
    let rg = rspace + last.2;
    let n = steps_of(lg, rg);
    let ghost raw = group_raw(r@, lspace as nat, rspace as nat);
    let mut anim: Vec<String> = Vec::new();
    let mut i: usize = 0;
    while i < m
        invariant
            i <= m,
            m == inner.len(),
            anim.len() == i,
            forall|j: int|
                0 <= j < i ==> #[trigger] anim[j]@ == wrapped(lspace as nat, inner[j]@, rspace as nat),
        decreases m - i,
    {
        anim.push(wrap(lspace, inner[i].as_str(), rspace));
        i += 1;
    }
    let mut k: usize = 0;
    while k < n
        invariant
            k <= n,
            n == steps(lg as nat, rg as nat),
            1 <= n <= 10,
            m == inner.len(),
            anim.len() == m + k,
            forall|j: int|
                0 <= j < m ==> #[trigger] anim[j]@ == wrapped(lspace as nat, inner[j]@, rspace as nat),
            forall|j: int|
                m <= j < m + k ==> #[trigger] anim[j]@ == wrapped(
                    eased(lg as nat, (j - m) as nat, n as nat),
                    last.1@,
                    eased(rg as nat, (j - m) as nat, n as nat),
                ),
        decreases n - k,
    {
        let l = eased_gap(lg, k, n);
        let r = eased_gap(rg, k, n);
        anim.push(wrap(l, last.1.as_str(), r));
        k += 1;
    }
    assert(texts(anim@) =~= raw) by {
        assert(raw.len() == m + n);
        assert forall|j: int| 0 <= j < m + n implies texts(anim@)[j] == raw[j] by {
            if j < m {
                assert(anim[j]@ == wrapped(lspace as nat, inner[j]@, rspace as nat));
            } else {
                assert(anim[j]@ == wrapped(
                    eased(lg as nat, (j - m) as nat, n as nat),
                    last.1@,
                    eased(rg as nat, (j - m) as nat, n as nat),
                ));
            }
        }
    }
    proof {
        lemma_group_within(r@, lspace as nat, rspace as nat, b);
    }
    let pads = center(&mut anim);
    AnimateResult { value, anim, last: (pads.0 + 1, last.1, pads.1 + 1) }
}

fn animate_literal(value: Value) -> (res: AnimateResult)
    ensures
        res@ == literal_outcome(value@),
{
    let text = value.to_string();
    let res = AnimateResult { value, anim: Vec::new(), last: (0, text, 0) };
    assert(res@.anim =~= Seq::<Seq<char>>::empty());
    res
}

/// Evaluates an expression and lays out the frames that show it collapsing
/// into its value.
///
/// The extent of the expression has to fit in `usize`: see [`extent_of`].
pub fn animate_eval(expr: Expr) -> (res: Result<AnimateResult, EvalError>)
    requires
        extent(expr@) <= usize::MAX,
    ensures
        match res {
            Ok(r) => evaluation(expr@) == Ok::<AnimateResultView, EvalError>(r@),
            Err(e) => evaluation(expr@) == Err::<AnimateResultView, EvalError>(e),
        },
    decreases expr,
{
    match expr {
        Expr::Number(n) => Ok(animate_literal(Value::Number(n))),
        Expr::String(s) => Ok(animate_literal(Value::String(s))),
        Expr::Bool(b) => Ok(animate_literal(Value::Bool(b))),
        Expr::Bin { lhs, rhs, op, lspace, rspace } => {
            let ghost e1 = lhs@;
            let ghost e2 = rhs@;
            let r1 = match animate_eval(*lhs) {
                Ok(r) => r,
                Err(e) => {
                    return Err(e);
                },
            };
            let r2 = match animate_eval(*rhs) {
                Ok(r) => r,
                Err(e) => {
                    return Err(e);
                },
            };
            let result = match eval_op(r1.value.clone(), r2.value.clone(), &op) {
                Ok(v) => v,
                Err(e) => {
                    return Err(e);
                },
            };
            proof {
                lemma_extent(e1);
                lemma_extent(e2);
            }
            Ok(
                animate_binary(
                    r1,
                    r2,
                    &op,
                    lspace,
                    rspace,
                    result,
                    Ghost(extent(e1)),
                    Ghost(extent(e2)),
                ),
            )
        },
        Expr::Parenthesized { expr: inner, lspace, rspace } => {
            let ghost e1 = inner@;
            let r = match animate_eval(*inner) {
                Ok(r) => r,
                Err(e) => {
                    return Err(e);
                },
            };
            proof {
                lemma_extent(e1);
            }
            Ok(animate_group(r, lspace, rspace, Ghost(extent(e1))))
        },
        Expr::If { .. } => Err(EvalError::UnsupportedConstruct),
    }
}

fn plus(acc: Option<usize>, x: usize) -> (res: Option<usize>)
    ensures
        match (acc, res) {
            (Some(a), Some(r)) => r == a + x,
            (Some(a), None) => a + x > usize::MAX,
            (None, _) => res is None,
        },
{
    match acc {
        Some(a) => a.checked_add(x),
        None => None,
    }
}

/// The extent of an expression, where it fits in `usize`.
pub fn extent_of(expr: &Expr) -> (res: Option<usize>)
    ensures
        match res {
            Some(n) => n == extent(expr@),
            None => extent(expr@) > usize::MAX,
        },
    decreases expr,
{
    match expr {
        Expr::Number(n) => Some(text_width(&Value::Number(*n).to_string())),
        Expr::String(s) => Some(text_width(&Value::String(s.clone()).to_string())),
        Expr::Bool(b) => Some(text_width(&Value::Bool(*b).to_string())),
        Expr::Bin { lhs, rhs, op, lspace, rspace } => {
            let a = extent_of(&**lhs);
            let b = match extent_of(&**rhs) {
                Some(b) => b,
                None => {
                    return None;
                },
            };
            plus(plus(plus(plus(a, *lspace), *rspace), b), 8)
        },
        Expr::Parenthesized { expr: inner, lspace, rspace } => {
            let a = extent_of(&**inner);
            plus(plus(plus(a, *lspace), *rspace), 2)
        },
        Expr::If { .. } => Some(0),
    }
}

} // verus!
