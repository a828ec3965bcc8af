//! Tokens and the tokenizer.

use crate::text::push_char;
use vstd::prelude::*;
use vstd::string::*;

verus! {

/// One lexical unit of the source text.
#[derive(Debug, PartialEq)]
pub enum Token {
    Number(u16),
    String(String),
    Plus,
    Minus,
    Mult,
    Div,
    And,
    Or,
    Gt,
    Lt,
    Eq,
    Neq,
    True,
    False,
    If,
    Then,
    Else,
    Oparen,
    Cparen,
    /// A run of spaces, with its width.
    Space(usize),
    Newline,
    /// A character that starts no token.
    Error,
}

/// The mathematical value of a [`Token`].
pub enum TokenView {
    Number(u16),
    String(Seq<char>),
    Plus,
    Minus,
    Mult,
    Div,
    And,
    Or,
    Gt,
    Lt,
    Eq,
    Neq,
    True,
    False,
    If,
    Then,
    Else,
    Oparen,
    Cparen,
    Space(nat),
    Newline,
    Error,
}

impl View for Token {
    type V = TokenView;

    open spec fn view(&self) -> TokenView {
        match *self {
            Token::Number(n) => TokenView::Number(n),
            Token::String(s) => TokenView::String(s@),
            Token::Plus => TokenView::Plus,
            Token::Minus => TokenView::Minus,
            Token::Mult => TokenView::Mult,
            Token::Div => TokenView::Div,
            Token::And => TokenView::And,
            Token::Or => TokenView::Or,
            Token::Gt => TokenView::Gt,
            Token::Lt => TokenView::Lt,
            Token::Eq => TokenView::Eq,
            Token::Neq => TokenView::Neq,
            Token::True => TokenView::True,
            Token::False => TokenView::False,
            Token::If => TokenView::If,
            Token::Then => TokenView::Then,
            Token::Else => TokenView::Else,
            Token::Oparen => TokenView::Oparen,
            Token::Cparen => TokenView::Cparen,
            Token::Space(w) => TokenView::Space(w as nat),
            Token::Newline => TokenView::Newline,
            Token::Error => TokenView::Error,
        }
    }
}

impl Clone for Token {
    fn clone(&self) -> (res: Token)
        ensures
            res == *self,
    {
        match self {
            Token::Number(n) => Token::Number(*n),
            Token::String(s) => Token::String(s.clone()),
            Token::Plus => Token::Plus,
            Token::Minus => Token::Minus,
            Token::Mult => Token::Mult,
            Token::Div => Token::Div,
            Token::And => Token::And,
            Token::Or => Token::Or,
            Token::Gt => Token::Gt,
            Token::Lt => Token::Lt,
            Token::Eq => Token::Eq,
            Token::Neq => Token::Neq,
            Token::True => Token::True,
            Token::False => Token::False,
            Token::If => Token::If,
            Token::Then => Token::Then,
            Token::Else => Token::Else,
            Token::Oparen => Token::Oparen,
            Token::Cparen => Token::Cparen,
            Token::Space(w) => Token::Space(*w),
            Token::Newline => Token::Newline,
            Token::Error => Token::Error,
        }
    }
}

/// The values of a sequence of tokens.
pub open spec fn token_views(tokens: Seq<Token>) -> Seq<TokenView> {
    Seq::new(tokens.len(), |i: int| tokens[i]@)
}

impl Token {
    /// Whether two tokens have the same value.
    pub fn same(&self, other: &Token) -> (res: bool)
        ensures
            res == (self@ == other@),
    {
        match (self, other) {
            (Token::Number(a), Token::Number(b)) => *a == *b,
            (Token::String(a), Token::String(b)) => a.eq(b),
            (Token::Plus, Token::Plus) => true,
            (Token::Minus, Token::Minus) => true,
            (Token::Mult, Token::Mult) => true,
            (Token::Div, Token::Div) => true,
            (Token::And, Token::And) => true,
            (Token::Or, Token::Or) => true,
            (Token::Gt, Token::Gt) => true,
            (Token::Lt, Token::Lt) => true,
            (Token::Eq, Token::Eq) => true,
            (Token::Neq, Token::Neq) => true,
            (Token::True, Token::True) => true,
            (Token::False, Token::False) => true,
            (Token::If, Token::If) => true,
            (Token::Then, Token::Then) => true,
            (Token::Else, Token::Else) => true,
            (Token::Oparen, Token::Oparen) => true,
            (Token::Cparen, Token::Cparen) => true,
            (Token::Space(a), Token::Space(b)) => *a == *b,
            (Token::Newline, Token::Newline) => true,
            (Token::Error, Token::Error) => true,
            _ => false,
        }
    }
}

/// What one character of the source becomes before the tokens are read: a
/// tab becomes four spaces, a carriage return nothing.
pub open spec fn expand(c: char) -> Seq<char> {
    if c == '\t' {
        seq![' ', ' ', ' ', ' ']
    } else if c == '\r' {
        Seq::empty()
    } else {
        seq![c]
    }
}

/// The source with every tab replaced by four spaces and every carriage
/// return removed.
pub open spec fn normalized(s: Seq<char>) -> Seq<char>
    decreases s.len(),
{
    if s.len() == 0 {
        Seq::empty()
    } else {
        normalized(s.drop_last()) + expand(s.last())
    }
}

/// Whether `c` is a decimal digit.
pub open spec fn is_digit(c: char) -> bool {
    '0' <= c <= '9'
}

/// Whether `c` is a letter, a digit or an underscore of ASCII.
pub open spec fn is_word(c: char) -> bool {
    'a' <= c <= 'z' || 'A' <= c <= 'Z' || '0' <= c <= '9' || c == '_'
}

/// The end of the longest run of digits that starts at `pos`.
pub open spec fn digits_end(s: Seq<char>, pos: nat) -> nat
    decreases s.len() - pos,
{
    if pos < s.len() && is_digit(s[pos as int]) {
        digits_end(s, pos + 1)
    } else {
        pos
    }
}

/// The end of the longest run of word characters that starts at `pos`.
pub open spec fn word_end(s: Seq<char>, pos: nat) -> nat
    decreases s.len() - pos,
{
    if pos < s.len() && is_word(s[pos as int]) {
        word_end(s, pos + 1)
    } else {
        pos
    }
}

/// The end of the longest run of spaces that starts at `pos`.
pub open spec fn spaces_end(s: Seq<char>, pos: nat) -> nat
    decreases s.len() - pos,
{
    if pos < s.len() && s[pos as int] == ' ' {
        spaces_end(s, pos + 1)
    } else {
        pos
    }
}

/// The position behind the quote that closes a string whose body starts at
/// `pos`. A backslash takes the character behind it into the body, unless
/// that is a newline; a body that the quote does not close gives `None`.
pub open spec fn string_end(s: Seq<char>, pos: nat, quote: char) -> Option<nat>
    decreases s.len() - pos,
{
    if pos >= s.len() {
        None
    } else if s[pos as int] == quote {
        Some(pos + 1)
    } else if s[pos as int] == '\\' {
        if pos + 1 < s.len() && s[pos as int + 1] != '\n' {
            string_end(s, pos + 2, quote)
        } else {
            None
        }
    } else {
        string_end(s, pos + 1, quote)
    }
}

/// The number that the digits from `from` up to `to` spell.
pub open spec fn number_value(s: Seq<char>, from: nat, to: nat) -> nat
    decreases to,
{
    if to <= from {
        0
    } else {
        number_value(s, from, (to - 1) as nat) * 10 + (s[to - 1] as u32 - '0' as u32) as nat
    }
}

/// Whether `word` stands in `s` at `pos`.
pub open spec fn stands_at(s: Seq<char>, pos: nat, word: Seq<char>) -> bool {
    pos + word.len() <= s.len() && s.subrange(pos as int, pos as int + word.len()) == word
}

/// The token for a character that is a token by itself.
pub open spec fn single(c: char) -> Option<TokenView> {
    if c == '+' {
        Some(TokenView::Plus)
    } else if c == '-' {
        Some(TokenView::Minus)
    } else if c == '*' {
        Some(TokenView::Mult)
    } else if c == '/' {
        Some(TokenView::Div)
    } else if c == '&' {
        Some(TokenView::And)
    } else if c == '|' {
        Some(TokenView::Or)
    } else if c == '>' {
        Some(TokenView::Gt)
    } else if c == '<' {
        Some(TokenView::Lt)
    } else if c == '=' {
        Some(TokenView::Eq)
    } else if c == '!' {
        Some(TokenView::Neq)
    } else if c == '(' {
        Some(TokenView::Oparen)
    } else if c == ')' {
        Some(TokenView::Cparen)
    } else if c == '\n' {
        Some(TokenView::Newline)
    } else {
        None
    }
}

/// The keyword that stands at `pos`, with its length.
pub open spec fn keyword_at(s: Seq<char>, pos: nat) -> Option<(TokenView, nat)> {
    if stands_at(s, pos, seq!['t', 'r', 'u', 'e']) {
        Some((TokenView::True, 4nat))
    } else if stands_at(s, pos, seq!['f', 'a', 'l', 's', 'e']) {
        Some((TokenView::False, 5nat))
    } else if stands_at(s, pos, seq!['i', 'f']) {
        Some((TokenView::If, 2nat))
    } else if stands_at(s, pos, seq!['t', 'h', 'e', 'n']) {
        Some((TokenView::Then, 4nat))
    } else if stands_at(s, pos, seq!['e', 'l', 's', 'e']) {
        Some((TokenView::Else, 4nat))
    } else {
        None
    }
}

/// The end of the string literal that starts at `pos`: word characters, if
/// any, then a body between double quotes; or a body between single quotes.
pub open spec fn literal_end(s: Seq<char>, pos: nat) -> Option<nat> {
    let w = word_end(s, pos);
    if w < s.len() && s[w as int] == '"' {
        string_end(s, w + 1, '"')
    } else if pos < s.len() && s[pos as int] == '\'' {
        string_end(s, pos + 1, '\'')
    } else {
        None
    }
}

/// The token that starts at `pos`, and where it ends: the longest of
///
/// - a string literal, whose text is what stands between its first and its
///   last character;
/// - a run of digits, which is a number where it spells one of 16 bits and an
///   error where it does not;
/// - a keyword; an operator, a parenthesis or a newline; a run of spaces.
///
/// A character that starts none of these is an error by itself.
pub open spec fn token_at(s: Seq<char>, pos: nat) -> (TokenView, nat)
    recommends
        pos < s.len(),
{
    let c = s[pos as int];
    if let Some(end) = literal_end(s, pos) {
        (TokenView::String(s.subrange(pos as int + 1, end as int - 1)), end)
    } else if is_digit(c) {
        let end = digits_end(s, pos);
        if number_value(s, pos, end) <= u16::MAX {
            (TokenView::Number(number_value(s, pos, end) as u16), end)
        } else {
            (TokenView::Error, end)
        }
    } else if let Some((t, n)) = keyword_at(s, pos) {
        (t, pos + n)
    } else if let Some(t) = single(c) {
        (t, pos + 1)
    } else if c == ' ' {
        (TokenView::Space((spaces_end(s, pos) - pos) as nat), spaces_end(s, pos))
    } else {
        (TokenView::Error, pos + 1)
    }
}

/// A run ends where it starts or behind, and within the text.
pub proof fn lemma_run_ends(s: Seq<char>, pos: nat)
    requires
        pos <= s.len(),
    ensures
        pos <= digits_end(s, pos) <= s.len(),
        pos <= word_end(s, pos) <= s.len(),
        pos <= spaces_end(s, pos) <= s.len(),
        pos < s.len() && is_digit(s[pos as int]) ==> pos < digits_end(s, pos),
        pos < s.len() && s[pos as int] == ' ' ==> pos < spaces_end(s, pos),
    decreases s.len() - pos,
{
    if pos < s.len() {
        lemma_run_ends(s, pos + 1);
    }
}

/// A string ends behind its body, and within the text.
pub proof fn lemma_string_end(s: Seq<char>, pos: nat, quote: char)
    ensures
        string_end(s, pos, quote) is Some ==> pos < string_end(s, pos, quote)->0 <= s.len(),
    decreases s.len() - pos,
{
    if pos < s.len() && s[pos as int] != quote {
        if s[pos as int] == '\\' {
            if pos + 1 < s.len() && s[pos as int + 1] != '\n' {
                lemma_string_end(s, pos + 2, quote);
            }
        } else {
            lemma_string_end(s, pos + 1, quote);
        }
    }
}

/// A token ends behind where it starts, and within the text.
pub proof fn lemma_token_advances(s: Seq<char>, pos: nat)
    requires
        pos < s.len(),
    ensures
        pos < token_at(s, pos).1 <= s.len(),
        literal_end(s, pos) is Some ==> pos + 2 <= literal_end(s, pos)->0,
{
    lemma_run_ends(s, pos);
    let w = word_end(s, pos);
    lemma_string_end(s, w + 1, '"');
    lemma_string_end(s, pos + 1, '\'');
}

/// The tokens of `s` from `pos` on.
pub open spec fn tokens_from(s: Seq<char>, pos: nat) -> Seq<TokenView>
    decreases s.len() - pos,
    via tokens_from_decreases
{
    if pos >= s.len() {
        Seq::empty()
    } else {
        seq![token_at(s, pos).0] + tokens_from(s, token_at(s, pos).1)
    }
}

#[via_fn]
proof fn tokens_from_decreases(s: Seq<char>, pos: nat) {
    if pos < s.len() {
        lemma_token_advances(s, pos);
    }
}

/// The tokens of a source text.
pub open spec fn lex_spec(code: Seq<char>) -> Seq<TokenView> {
    tokens_from(normalized(code), 0)
}

fn normalize(code: &str) -> (out: Vec<char>)
    ensures
        out@ == normalized(code@),
{
    let mut out: Vec<char> = Vec::new();
    for c in it: code.chars()
        invariant
            it.seq() == code@,
            out@ == normalized(it.seq().take(it.index() as int)),
    {
        proof {
            let upto = it.seq().take(it.index() + 1);
            assert(upto.drop_last() =~= it.seq().take(it.index() as int));
            assert(upto.last() == c);
        }
        let ghost before = out@;
        if c == '\t' {
            out.push(' ');
            out.push(' ');
            out.push(' ');
            out.push(' ');
        } else if c == '\r' {
        } else {
            out.push(c);
        }
        assert(out@ =~= before + expand(c));
    }
    assert(code@.take(code@.len() as int) =~= code@);
    out
}

fn digits_end_of(chars: &Vec<char>, pos: usize) -> (res: (Option<u16>, usize))
    requires
        pos <= chars.len(),
    ensures
        res.1 == digits_end(chars@, pos as nat),
        pos <= res.1 <= chars.len(),
        match res.0 {
            Some(n) => n == number_value(chars@, pos as nat, res.1 as nat),
            None => number_value(chars@, pos as nat, res.1 as nat) > u16::MAX,
        },
{
    let mut at = pos;
    let mut value: u32 = 0;
    let mut fits = true;
    while at < chars.len() && chars[at] >= '0' && chars[at] <= '9'
        invariant
            pos <= at <= chars.len(),
            digits_end(chars@, at as nat) == digits_end(chars@, pos as nat),
            fits ==> value == number_value(chars@, pos as nat, at as nat) && value <= u16::MAX,
            !fits ==> number_value(chars@, pos as nat, at as nat) > u16::MAX,
        decreases chars.len() - at,
    {
        let d = chars[at] as u32 - '0' as u32;
        if fits {
            value = value * 10 + d;
            if value > 65535 {
                fits = false;
            }
        }
        at += 1;
    }
    if fits {
        (Some(value as u16), at)
    } else {
        (None, at)
    }
}

fn word_end_of(chars: &Vec<char>, pos: usize) -> (end: usize)
    requires
        pos <= chars.len(),
    ensures
        end == word_end(chars@, pos as nat),
        pos <= end <= chars.len(),
{
    let mut at = pos;
    while at < chars.len() && (chars[at] >= 'a' && chars[at] <= 'z' || chars[at] >= 'A' && chars[at]
        <= 'Z' || chars[at] >= '0' && chars[at] <= '9' || chars[at] == '_')
        invariant
            pos <= at <= chars.len(),
            word_end(chars@, at as nat) == word_end(chars@, pos as nat),
        decreases chars.len() - at,
    {
        at += 1;
    }
    at
}

fn spaces_end_of(chars: &Vec<char>, pos: usize) -> (end: usize)
    requires
        pos <= chars.len(),
    ensures
        end == spaces_end(chars@, pos as nat),
        pos <= end <= chars.len(),
{
    let mut at = pos;
    while at < chars.len() && chars[at] == ' '
        invariant
            pos <= at <= chars.len(),
            spaces_end(chars@, at as nat) == spaces_end(chars@, pos as nat),
        decreases chars.len() - at,
    {
        at += 1;
    }
    at
}

fn string_end_of(chars: &Vec<char>, pos: usize, quote: char) -> (res: Option<usize>)
    requires
        pos <= chars.len(),
    ensures
        match res {
            Some(end) => string_end(chars@, pos as nat, quote) == Some(end as nat),
            None => string_end(chars@, pos as nat, quote) is None,
        },
{
    let mut at = pos;
    while at < chars.len()
        invariant
            pos <= at <= chars.len(),
            string_end(chars@, at as nat, quote) == string_end(chars@, pos as nat, quote),
        decreases chars.len() - at,
    {
        let c = chars[at];
        if c == quote {
            return Some(at + 1);
        } else if c == '\\' {
            if at + 1 < chars.len() && chars[at + 1] != '\n' {
                at += 2;
            } else {
                return None;
            }
        } else {
            at += 1;
        }
    }
    None
}

fn literal_end_of(chars: &Vec<char>, pos: usize) -> (res: Option<usize>)
    requires
        pos < chars.len(),
    ensures
        match res {
            Some(end) => literal_end(chars@, pos as nat) == Some(end as nat),
            None => literal_end(chars@, pos as nat) is None,
        },
{
    let w = word_end_of(chars, pos);
    if w < chars.len() && chars[w] == '"' {
        string_end_of(chars, w + 1, '"')
    } else if chars[pos] == '\'' {
        string_end_of(chars, pos + 1, '\'')
    } else {
        None
    }
}

fn stands(chars: &Vec<char>, pos: usize, word: &str) -> (res: bool)
    requires
        pos < chars.len(),
    ensures
        res == stands_at(chars@, pos as nat, word@),
{
    let n = word.unicode_len();
    if n > chars.len() - pos {
        return false;
    }
    let mut i: usize = 0;
    while i < n
        invariant
            i <= n,
            n == word@.len(),
            pos + n <= chars.len(),
            chars@.subrange(pos as int, pos + i) == word@.subrange(0, i as int),
        decreases n - i,
    {
        if chars[pos + i] != word.get_char(i) {
            proof {
                let whole = chars@.subrange(pos as int, pos + n);
                assert(whole[i as int] != word@[i as int]);
            }
            return false;
        }
        i += 1;
        assert(chars@.subrange(pos as int, pos + i) =~= word@.subrange(0, i as int));
    }
    assert(word@.subrange(0, n as int) =~= word@);
    true
}

fn keyword_of(chars: &Vec<char>, pos: usize) -> (res: Option<(Token, usize)>)
    requires
        pos < chars.len(),
    ensures
        match res {
            Some((t, n)) => keyword_at(chars@, pos as nat) == Some((t@, n as nat)),
            None => keyword_at(chars@, pos as nat) is None,
        },
{
    proof {
        reveal_strlit("true");
        reveal_strlit("false");
        reveal_strlit("if");
        reveal_strlit("then");
        reveal_strlit("else");
        assert("true"@ =~= seq!['t', 'r', 'u', 'e']);
        assert("false"@ =~= seq!['f', 'a', 'l', 's', 'e']);
        assert("if"@ =~= seq!['i', 'f']);
        assert("then"@ =~= seq!['t', 'h', 'e', 'n']);
        assert("else"@ =~= seq!['e', 'l', 's', 'e']);
    }
    if stands(chars, pos, "true") {
        Some((Token::True, 4))
    } else if stands(chars, pos, "false") {
        Some((Token::False, 5))
    } else if stands(chars, pos, "if") {
        Some((Token::If, 2))
    } else if stands(chars, pos, "then") {
        Some((Token::Then, 4))
    } else if stands(chars, pos, "else") {
        Some((Token::Else, 4))
    } else {
        None
    }
}

fn single_of(c: char) -> (res: Option<Token>)
    ensures
        match res {
            Some(t) => single(c) == Some(t@),
            None => single(c) is None,
        },
{
    if c == '+' {
        Some(Token::Plus)
    } else if c == '-' {
        Some(Token::Minus)
    } else if c == '*' {
        Some(Token::Mult)
    } else if c == '/' {
        Some(Token::Div)
    } else if c == '&' {
        Some(Token::And)
    } else if c == '|' {
        Some(Token::Or)
    } else if c == '>' {
        Some(Token::Gt)
    } else if c == '<' {
        Some(Token::Lt)
    } else if c == '=' {
        Some(Token::Eq)
    } else if c == '!' {
        Some(Token::Neq)
    } else if c == '(' {
        Some(Token::Oparen)
    } else if c == ')' {
        Some(Token::Cparen)
    } else if c == '\n' {
        Some(Token::Newline)
    } else {
        None
    }
}

fn collect(chars: &Vec<char>, from: usize, to: usize) -> (s: String)
    requires
        from <= to <= chars.len(),
    ensures
        s@ == chars@.subrange(from as int, to as int),
{
    let mut s = String::new();
    let mut i = from;
    while i < to
        invariant
            from <= i <= to <= chars.len(),
            s@ == chars@.subrange(from as int, i as int),
        decreases to - i,
    {
        push_char(&mut s, chars[i]);
        i += 1;
        assert(s@ =~= chars@.subrange(from as int, i as int));
    }
    s
}

fn scan(chars: &Vec<char>, pos: usize) -> (res: (Token, usize))
    requires
        pos < chars.len(),
    ensures
        res.0@ == token_at(chars@, pos as nat).0,
        res.1 == token_at(chars@, pos as nat).1,
        pos < res.1 <= chars.len(),
{
    proof {
        lemma_token_advances(chars@, pos as nat);
    }
    let c = chars[pos];
    if let Some(end) = literal_end_of(chars, pos) {
        return (Token::String(collect(chars, pos + 1, end - 1)), end);
    }
    if c >= '0' && c <= '9' {
        let (value, end) = digits_end_of(chars, pos);
        return match value {
            Some(n) => (Token::Number(n), end),
            None => (Token::Error, end),
        };
    }
    if let Some((t, n)) = keyword_of(chars, pos) {
        return (t, pos + n);
    }
    if let Some(t) = single_of(c) {
        return (t, pos + 1);
    }
    if c == ' ' {
        let end = spaces_end_of(chars, pos);
        return (Token::Space(end - pos), end);
    }
    (Token::Error, pos + 1)
}

/// Splits a source text into its tokens.
pub fn lex(code: &str) -> (tokens: Vec<Token>)
    ensures
        token_views(tokens@) == lex_spec(code@),
{
    let chars = normalize(code);
    let mut tokens: Vec<Token> = Vec::new();
    let mut pos: usize = 0;
    assert(token_views(tokens@) + tokens_from(chars@, 0) =~= tokens_from(chars@, 0));
    while pos < chars.len()
        invariant
            pos <= chars.len(),
            token_views(tokens@) + tokens_from(chars@, pos as nat) == tokens_from(chars@, 0),
        decreases chars.len() - pos,
    {
        let ghost before = token_views(tokens@);
        let (t, end) = scan(&chars, pos);
        tokens.push(t);
        assert(token_views(tokens@) =~= before + seq![t@]);
        assert(token_views(tokens@) + tokens_from(chars@, end as nat) =~= before + tokens_from(
            chars@,
            pos as nat,
        ));
        pos = end;
    }
    assert(token_views(tokens@) + tokens_from(chars@, pos as nat) =~= token_views(tokens@));
    tokens
}

} // verus!
