//! The lexer: turns characters into tokens, with a queue of lookahead results.
use vstd::prelude::*;
use std::collections::VecDeque;
use crate::common::BinaryOp;
use crate::error::{ErrorKind, SourceError};
use crate::input::{chars_of, loc_after, CharsReader};
use crate::source::{unknown_span, Location, Span};
use crate::text::{push_char, push_str};

verus! {

broadcast use CharsReader::lemma_wf_bounds;

/// The kinds of lexical error.
#[derive(Debug, PartialEq)]
pub enum LexerErrorKind {
    InvalidCharacter(char),
    InvalidInteger(String),
}

/// What a `LexerErrorKind` stands for.
pub enum LexerErrorModel {
    InvalidCharacter(char),
    InvalidInteger(Seq<char>),
}

impl View for LexerErrorKind {
    type V = LexerErrorModel;

    open spec fn view(&self) -> LexerErrorModel {
        match self {
            LexerErrorKind::InvalidCharacter(c) => LexerErrorModel::InvalidCharacter(*c),
            LexerErrorKind::InvalidInteger(t) => LexerErrorModel::InvalidInteger(t@),
        }
    }
}

/// The message text of a lexical error.
pub open spec fn lexer_error_text(e: LexerErrorModel) -> Seq<char> {
    match e {
        LexerErrorModel::InvalidInteger(t) => "Invalid integer: '"@ + t + "'"@,
        LexerErrorModel::InvalidCharacter(c) => "Invalid character: '"@ + seq![c] + "'"@,
    }
}

impl ErrorKind for LexerErrorKind {
    open spec fn text_of(kind: LexerErrorModel) -> Seq<char> {
        lexer_error_text(kind)
    }

    fn message(&self) -> (r: String) {
        let mut s = String::new();
        match self {
            LexerErrorKind::InvalidInteger(t) => {
                push_str(&mut s, "Invalid integer: '");
                push_str(&mut s, t.as_str());
            },
            LexerErrorKind::InvalidCharacter(c) => {
                push_str(&mut s, "Invalid character: '");
                push_char(&mut s, *c);
            },
        }
        push_str(&mut s, "'");
        s
    }

    fn duplicate(&self) -> (r: LexerErrorKind) {
        match self {
            LexerErrorKind::InvalidCharacter(c) => LexerErrorKind::InvalidCharacter(*c),
            LexerErrorKind::InvalidInteger(t) => LexerErrorKind::InvalidInteger(t.clone()),
        }
    }
}

pub type LexerError = SourceError<LexerErrorKind>;

/// The kinds of token.
#[derive(Debug, PartialEq)]
pub enum TokenKind {
    LiteralInt32(i32),
    Identifier(String),
    BinaryOperator(BinaryOp),
}

/// What a `TokenKind` stands for.
pub enum TokenKindModel {
    LiteralInt32(i32),
    Identifier(Seq<char>),
    BinaryOperator(BinaryOp),
}

impl View for TokenKind {
    type V = TokenKindModel;

    open spec fn view(&self) -> TokenKindModel {
        match self {
            TokenKind::LiteralInt32(n) => TokenKindModel::LiteralInt32(*n),
            TokenKind::Identifier(t) => TokenKindModel::Identifier(t@),
            TokenKind::BinaryOperator(op) => TokenKindModel::BinaryOperator(*op),
        }
    }
}

/// How a token kind is described in messages.
pub open spec fn token_kind_text(k: TokenKindModel) -> Seq<char> {
    match k {
        TokenKindModel::LiteralInt32(n) => "literal integer "@ + crate::text::signed_decimal(n as int),
        TokenKindModel::Identifier(t) => "identifier \""@ + t + "\""@,
        TokenKindModel::BinaryOperator(op) => "operator "@ + seq![operator_char(op)],
    }
}

/// The character that writes `op`.
pub open spec fn operator_char(op: BinaryOp) -> char {
    match op {
        BinaryOp::Add => '+',
        BinaryOp::Sub => '-',
        BinaryOp::Mul => '*',
        BinaryOp::Div => '/',
        BinaryOp::Mod => '%',
    }
}

impl TokenKind {
    pub fn duplicate(&self) -> (r: TokenKind)
        ensures
            r@ == self@,
    {
        match self {
            TokenKind::LiteralInt32(n) => TokenKind::LiteralInt32(*n),
            TokenKind::Identifier(t) => TokenKind::Identifier(t.clone()),
            TokenKind::BinaryOperator(op) => TokenKind::BinaryOperator(*op),
        }
    }

    /// Appends the description of this token kind to `s`.
    pub fn describe_into(&self, s: &mut String)
        ensures
            final(s)@ == old(s)@ + token_kind_text(self@),
    {
        let ghost s0 = s@;
        match self {
            TokenKind::LiteralInt32(n) => {
                push_str(s, "literal integer ");
                crate::text::push_signed_decimal(s, *n);
            },
            TokenKind::Identifier(t) => {
                push_str(s, "identifier \"");
                push_str(s, t.as_str());
                push_str(s, "\"");
            },
            TokenKind::BinaryOperator(op) => {
                push_str(s, "operator ");
                let c = match op {
                    BinaryOp::Add => '+',
                    BinaryOp::Sub => '-',
                    BinaryOp::Mul => '*',
                    BinaryOp::Div => '/',
                    BinaryOp::Mod => '%',
                };
                push_char(s, c);
            },
        }
        assert(s@ =~= s0 + token_kind_text(self@));
    }
}

/// A token and the span of text it was read from.
#[derive(Debug, PartialEq)]
pub struct Token {
    pub kind: TokenKind,
    pub span: Span,
}

/// What a `Token` stands for.
pub struct TokenModel {
    pub kind: TokenKindModel,
    pub span: Span,
}

impl View for Token {
    type V = TokenModel;

    open spec fn view(&self) -> TokenModel {
        TokenModel { kind: self.kind@, span: self.span }
    }
}

impl Token {
    pub fn new(kind: TokenKind, span: Span) -> (r: Token)
        ensures
            r@ == (TokenModel { kind: kind@, span }),
    {
        Token { kind, span }
    }

    pub fn duplicate(&self) -> (r: Token)
        ensures
            r@ == self@,
    {
        Token { kind: self.kind.duplicate(), span: self.span }
    }
}

/// The outcome of reading one token: a token, the end of the input, or an error.
#[derive(Debug, PartialEq)]
pub enum LexResult {
    Token(Token),
    EndOfInput(Location),
    Error(LexerError),
}

/// What a `LexResult` stands for.
pub enum LexResultModel {
    Token(TokenModel),
    EndOfInput(Location),
    Error((LexerErrorModel, Span)),
}

impl View for LexResult {
    type V = LexResultModel;

    open spec fn view(&self) -> LexResultModel {
        match self {
            LexResult::Token(t) => LexResultModel::Token(t@),
            LexResult::EndOfInput(l) => LexResultModel::EndOfInput(*l),
            LexResult::Error(e) => LexResultModel::Error(e@),
        }
    }
}

impl LexResult {
    pub fn duplicate(&self) -> (r: LexResult)
        ensures
            r@ == self@,
    {
        match self {
            LexResult::Token(t) => LexResult::Token(t.duplicate()),
            LexResult::EndOfInput(l) => LexResult::EndOfInput(*l),
            LexResult::Error(e) => LexResult::Error(LexerError::new_with_span(e.kind(), e.span())),
        }
    }
}

// ---------------------------------------------------------------------------
// The lexical grammar, as spec functions over the characters of a text.

pub open spec fn is_white_char(c: char) -> bool {
    c == ' ' || c == '\t' || c == '\n' || c == '\r'
}

pub open spec fn is_digit_char(c: char) -> bool {
    '0' <= c <= '9'
}

pub open spec fn is_letter_char(c: char) -> bool {
    ('a' <= c <= 'z') || ('A' <= c <= 'Z')
}

/// The operator that the single character `c` writes, if any.
pub open spec fn operator_of(c: char) -> Option<BinaryOp> {
    if c == '+' {
        Some(BinaryOp::Add)
    } else if c == '-' {
        Some(BinaryOp::Sub)
    } else if c == '*' {
        Some(BinaryOp::Mul)
    } else if c == '/' {
        Some(BinaryOp::Div)
    } else if c == '%' {
        Some(BinaryOp::Mod)
    } else {
        None
    }
}

/// Whether `c` may continue a run: digits only for a number, letters and digits for a word.
pub open spec fn continues_run(c: char, word: bool) -> bool {
    if word {
        is_letter_char(c) || is_digit_char(c)
    } else {
        is_digit_char(c)
    }
}

/// The first index at or after `pos` whose character is not white space.
pub open spec fn skip_white(s: Seq<char>, pos: int) -> int
    decreases s.len() - pos,
{
    if 0 <= pos < s.len() && is_white_char(s[pos]) {
        skip_white(s, pos + 1)
    } else {
        pos
    }
}

/// The first index at or after `pos` whose character does not continue a run.
pub open spec fn run_end(s: Seq<char>, pos: int, word: bool) -> int
    decreases s.len() - pos,
{
    if 0 <= pos < s.len() && continues_run(s[pos], word) {
        run_end(s, pos + 1, word)
    } else {
        pos
    }
}

/// The value of a decimal digit character.
pub open spec fn digit_value(c: char) -> int {
    (c as u32) as int - ('0' as u32) as int
}

/// The number that a run of decimal digits writes.
pub open spec fn digits_value(t: Seq<char>) -> int
    decreases t.len(),
{
    if t.len() == 0 {
        0
    } else {
        digits_value(t.drop_last()) * 10 + digit_value(t.last())
    }
}

/// The location reported for the end of input once `p` characters were consumed.
pub open spec fn end_loc(s: Seq<char>, p: int) -> Location {
    if p == 0 {
        Location { line: 1, col_offset: 0 }
    } else {
        loc_after(s, p)
    }
}

/// The result of reading one token of `s` from index `pos`, and the index after it.
pub open spec fn lex_at(s: Seq<char>, pos: int) -> (LexResultModel, int) {
    let p = skip_white(s, pos);
    if p >= s.len() {
        (LexResultModel::EndOfInput(end_loc(s, p)), p)
    } else {
        let c = s[p];
        let first = loc_after(s, p + 1);
        if operator_of(c) is Some {
            (
                LexResultModel::Token(
                    TokenModel {
                        kind: TokenKindModel::BinaryOperator(operator_of(c)->0),
                        span: Span { start: first, end: first },
                    },
                ),
                p + 1,
            )
        } else if is_digit_char(c) {
            let e = run_end(s, p + 1, false);
            let text = s.subrange(p, e);
            let span = Span { start: first, end: loc_after(s, e) };
            if digits_value(text) <= i32::MAX {
                (
                    LexResultModel::Token(
                        TokenModel { kind: TokenKindModel::LiteralInt32(digits_value(text) as i32), span },
                    ),
                    e,
                )
            } else {
                (LexResultModel::Error((LexerErrorModel::InvalidInteger(text), span)), e)
            }
        } else if is_letter_char(c) {
            let e = run_end(s, p + 1, true);
            (
                LexResultModel::Token(
                    TokenModel {
                        kind: TokenKindModel::Identifier(s.subrange(p, e)),
                        span: Span { start: first, end: loc_after(s, e) },
                    },
                ),
                e,
            )
        } else {
            (
                LexResultModel::Error(
                    (LexerErrorModel::InvalidCharacter(c), Span { start: first, end: first }),
                ),
                p + 1,
            )
        }
    }
}

/// The `n`-th result (from 0) of reading `s` token by token from index `pos`, and the index
/// after it. Once the end of input is reached, every further result is the end of input.
pub open spec fn lex_nth(s: Seq<char>, pos: int, n: nat) -> (LexResultModel, int)
    decreases n,
{
    if n == 0 {
        lex_at(s, pos)
    } else {
        lex_at(s, lex_nth(s, pos, (n - 1) as nat).1)
    }
}

// ---------------------------------------------------------------------------
// Lemmas on the lexical grammar.

pub proof fn lemma_skip_white(s: Seq<char>, pos: int)
    requires
        0 <= pos <= s.len(),
    ensures
        pos <= skip_white(s, pos) <= s.len(),
        skip_white(s, pos) < s.len() ==> !is_white_char(s[skip_white(s, pos)]),
        forall|q: int| pos <= q < skip_white(s, pos) ==> is_white_char(#[trigger] s[q]),
    decreases s.len() - pos,
{
    if pos < s.len() && is_white_char(s[pos]) {
        lemma_skip_white(s, pos + 1);
    }
}

/// Starting anywhere within a stretch of white space skips to the same place.
pub proof fn lemma_skip_white_within(s: Seq<char>, c: int, p: int)
    requires
        0 <= c <= p <= skip_white(s, c),
    ensures
        skip_white(s, p) == skip_white(s, c),
    decreases p - c,
{
    if c < p {
        lemma_skip_white_within(s, c + 1, p);
    }
}

pub proof fn lemma_run_end(s: Seq<char>, pos: int, word: bool)
    requires
        0 <= pos <= s.len(),
    ensures
        pos <= run_end(s, pos, word) <= s.len(),
        forall|q: int| pos <= q < run_end(s, pos, word) ==> continues_run(#[trigger] s[q], word),
    decreases s.len() - pos,
{
    if pos < s.len() && continues_run(s[pos], word) {
        lemma_run_end(s, pos + 1, word);
    }
}

/// Reading a token never moves backwards, stays within the text, and moves forward
/// unless it reaches the end of input.
pub proof fn lemma_lex_at_progress(s: Seq<char>, pos: int)
    requires
        0 <= pos <= s.len(),
    ensures
        pos <= lex_at(s, pos).1 <= s.len(),
        !(lex_at(s, pos).0 is EndOfInput) ==> pos < lex_at(s, pos).1,
        lex_at(s, pos).0 is EndOfInput <==> skip_white(s, pos) >= s.len(),
        lex_at(s, pos).0 is EndOfInput ==> lex_at(s, pos).1 == s.len(),
{
    lemma_skip_white(s, pos);
    let p = skip_white(s, pos);
    if p < s.len() {
        lemma_run_end(s, p + 1, false);
        lemma_run_end(s, p + 1, true);
    }
}

/// Reading from anywhere within the white space before a token gives the same result.
pub proof fn lemma_lex_at_within(s: Seq<char>, c: int, p: int)
    requires
        0 <= c <= p <= skip_white(s, c),
    ensures
        lex_at(s, p) == lex_at(s, c),
{
    lemma_skip_white_within(s, c, p);
}

/// The results after the first one are those of reading on from where the first ended.
pub proof fn lemma_lex_nth_shift(s: Seq<char>, pos: int, n: nat)
    ensures
        lex_nth(s, pos, n + 1) == lex_nth(s, lex_at(s, pos).1, n),
    decreases n,
{
    if n > 0 {
        lemma_lex_nth_shift(s, pos, (n - 1) as nat);
        assert(lex_nth(s, pos, n + 1) == lex_at(s, lex_nth(s, pos, n).1));
        assert(lex_nth(s, lex_at(s, pos).1, n) == lex_at(s, lex_nth(s, lex_at(s, pos).1, (n - 1) as nat).1));
    } else {
        assert(lex_nth(s, pos, 1) == lex_at(s, lex_nth(s, pos, 0).1));
    }
}

/// A run ends exactly where its first non-continuing character stands.
pub proof fn lemma_run_end_exact(s: Seq<char>, pos: int, e: int, word: bool)
    requires
        0 <= pos <= e <= s.len(),
        forall|q: int| pos <= q < e ==> continues_run(#[trigger] s[q], word),
        e == s.len() || !continues_run(s[e], word),
    ensures
        run_end(s, pos, word) == e,
    decreases e - pos,
{
    if pos < e {
        lemma_run_end_exact(s, pos + 1, e, word);
    }
}

/// Reading at the start of a run of digits `s[p..e]` gives the integer it writes.
pub proof fn lemma_number_at(s: Seq<char>, p: int, e: int)
    requires
        0 <= p < e <= s.len(),
        forall|q: int| p <= q < e ==> is_digit_char(#[trigger] s[q]),
        e == s.len() || !is_digit_char(s[e]),
        digits_value(s.subrange(p, e)) <= i32::MAX,
    ensures
        lex_at(s, p) == (
            LexResultModel::Token(TokenModel {
                kind: TokenKindModel::LiteralInt32(digits_value(s.subrange(p, e)) as i32),
                span: Span { start: loc_after(s, p + 1), end: loc_after(s, e) },
            }),
            e,
        ),
{
    assert(is_digit_char(s[p]));
    assert(skip_white(s, p) == p);
    lemma_run_end_exact(s, p + 1, e, false);
}

/// Reading at the start of a word `s[p..e]` gives an identifier.
pub proof fn lemma_word_at(s: Seq<char>, p: int, e: int)
    requires
        0 <= p < e <= s.len(),
        is_letter_char(s[p]),
        forall|q: int| p <= q < e ==> continues_run(#[trigger] s[q], true),
        e == s.len() || !continues_run(s[e], true),
    ensures
        lex_at(s, p) == (
            LexResultModel::Token(TokenModel {
                kind: TokenKindModel::Identifier(s.subrange(p, e)),
                span: Span { start: loc_after(s, p + 1), end: loc_after(s, e) },
            }),
            e,
        ),
{
    assert(skip_white(s, p) == p);
    lemma_run_end_exact(s, p + 1, e, true);
}

/// Reading at the end of the text gives the end of input.
pub proof fn lemma_lex_at_end(s: Seq<char>)
    ensures
        lex_at(s, s.len() as int).0 is EndOfInput,
        lex_at(s, s.len() as int).1 == s.len(),
{
}

/// A character that is no operator, digit, letter or white space is a lexical error, reported
/// at the character itself; the reading goes on after it.
pub proof fn lemma_invalid_character(s: Seq<char>, pos: int)
    requires
        0 <= pos <= s.len(),
        skip_white(s, pos) < s.len(),
        operator_of(s[skip_white(s, pos)]) is None,
        !is_digit_char(s[skip_white(s, pos)]),
        !is_letter_char(s[skip_white(s, pos)]),
    ensures
        !is_white_char(s[skip_white(s, pos)]),
        lex_at(s, pos) == (
            LexResultModel::Error((
                LexerErrorModel::InvalidCharacter(s[skip_white(s, pos)]),
                Span { start: loc_after(s, skip_white(s, pos) + 1), end: loc_after(s, skip_white(s, pos) + 1) },
            )),
            skip_white(s, pos) + 1,
        ),
{
    lemma_skip_white(s, pos);
}

/// A result with its locations blanked out: what it says, not where.
pub open spec fn unplaced(r: LexResultModel) -> LexResultModel {
    match r {
        LexResultModel::Token(t) => LexResultModel::Token(TokenModel { kind: t.kind, span: unknown_span() }),
        LexResultModel::EndOfInput(_) => LexResultModel::EndOfInput(Location { line: 0, col_offset: 0 }),
        LexResultModel::Error((e, _)) => LexResultModel::Error((e, unknown_span())),
    }
}

proof fn lemma_skip_white_shift(w: Seq<char>, s: Seq<char>, pos: int)
    requires
        0 <= pos <= s.len(),
    ensures
        skip_white(w + s, pos + w.len()) == skip_white(s, pos) + w.len(),
    decreases s.len() - pos,
{
    if pos < s.len() {
        assert((w + s)[pos + w.len()] == s[pos]);
        if is_white_char(s[pos]) {
            lemma_skip_white_shift(w, s, pos + 1);
        }
    }
}

proof fn lemma_run_end_shift(w: Seq<char>, s: Seq<char>, pos: int, word: bool)
    requires
        0 <= pos <= s.len(),
    ensures
        run_end(w + s, pos + w.len(), word) == run_end(s, pos, word) + w.len(),
    decreases s.len() - pos,
{
    if pos < s.len() {
        assert((w + s)[pos + w.len()] == s[pos]);
        if continues_run(s[pos], word) {
            lemma_run_end_shift(w, s, pos + 1, word);
        }
    }
}

/// Reading a token after a prefix `w` gives what reading the text alone gives, at a place
/// moved by the prefix's length.
pub proof fn lemma_lex_at_shift(w: Seq<char>, s: Seq<char>, pos: int)
    requires
        0 <= pos <= s.len(),
    ensures
        lex_at(w + s, pos + w.len()).1 == lex_at(s, pos).1 + w.len(),
        unplaced(lex_at(w + s, pos + w.len()).0) == unplaced(lex_at(s, pos).0),
{
    let s2 = w + s;
    let k = w.len() as int;
    lemma_skip_white_shift(w, s, pos);
    lemma_skip_white(s, pos);
    let p = skip_white(s, pos);
    if p < s.len() {
        assert(s2[p + k] == s[p]);
        lemma_run_end_shift(w, s, p + 1, false);
        lemma_run_end_shift(w, s, p + 1, true);
        lemma_run_end(s, p + 1, false);
        lemma_run_end(s, p + 1, true);
        let e0 = run_end(s, p + 1, false);
        let e1 = run_end(s, p + 1, true);
        assert(s2.subrange(p + k, e0 + k) =~= s.subrange(p, e0));
        assert(s2.subrange(p + k, e1 + k) =~= s.subrange(p, e1));
    }
}

/// White space before the text leaves the first token as it is.
pub proof fn lemma_lex_at_after_white(w: Seq<char>, s: Seq<char>)
    requires
        forall|i: int| 0 <= i < w.len() ==> is_white_char(#[trigger] w[i]),
    ensures
        lex_at(w + s, 0) == lex_at(w + s, w.len() as int),
{
    let s2 = w + s;
    assert forall|i: int| 0 <= i < w.len() implies is_white_char(#[trigger] s2[i]) by {
        assert(s2[i] == w[i]);
    }
    lemma_skip_white_over(s2, 0, w.len() as int);
    lemma_lex_at_within(s2, 0, w.len() as int);
}

proof fn lemma_skip_white_over(s: Seq<char>, a: int, b: int)
    requires
        0 <= a <= b <= s.len(),
        forall|i: int| a <= i < b ==> is_white_char(#[trigger] s[i]),
    ensures
        skip_white(s, a) == skip_white(s, b),
        b <= skip_white(s, a),
    decreases b - a,
{
    if a < b {
        lemma_skip_white_over(s, a + 1, b);
    } else {
        lemma_skip_white(s, b);
    }
}

/// A run of digits writes a number that is not negative.
pub proof fn lemma_digits_value_nonneg(t: Seq<char>)
    requires
        forall|i: int| 0 <= i < t.len() ==> is_digit_char(#[trigger] t[i]),
    ensures
        digits_value(t) >= 0,
    decreases t.len(),
{
    if t.len() > 0 {
        lemma_digits_value_nonneg(t.drop_last());
    }
}

/// A longer prefix of a run of digits writes a number at least as large.
proof fn lemma_digits_value_monotone(t: Seq<char>, j: int, k: int)
    requires
        0 <= j <= k <= t.len(),
        forall|i: int| 0 <= i < t.len() ==> is_digit_char(#[trigger] t[i]),
    ensures
        digits_value(t.subrange(0, j)) <= digits_value(t.subrange(0, k)),
    decreases k - j,
{
    if j < k {
        lemma_digits_value_monotone(t, j, k - 1);
        assert(t.subrange(0, k).drop_last() =~= t.subrange(0, k - 1));
        lemma_digits_value_nonneg(t.subrange(0, k - 1));
    }
}

// ---------------------------------------------------------------------------
// Character classes.

fn is_white(chr: char) -> (r: bool)
    ensures
        r == is_white_char(chr),
{
    chr == ' ' || chr == '\t' || chr == '\n' || chr == '\r'
}

fn is_digit(chr: char) -> (r: bool)
    ensures
        r == is_digit_char(chr),
{
    chr >= '0' && chr <= '9'
}

fn is_letter(chr: char) -> (r: bool)
    ensures
        r == is_letter_char(chr),
{
    (chr >= 'a' && chr <= 'z') || (chr >= 'A' && chr <= 'Z')
}

/// The number that a run of decimal digits writes, if it fits in an `i32`.
fn parse_i32(text: &str) -> (r: Option<i32>)
    requires
        forall|i: int| 0 <= i < text@.len() ==> is_digit_char(#[trigger] text@[i]),
    ensures
        r == if digits_value(text@) <= i32::MAX {
            Some(digits_value(text@) as i32)
        } else {
            None::<i32>
        },
{
    let cs = chars_of(text);
    let mut acc: i32 = 0;
    let mut i: usize = 0;
    proof {
        lemma_digits_value_nonneg(cs@);
        assert(cs@.subrange(0, 0) =~= Seq::<char>::empty());
    }
    while i < cs.len()
        invariant
            cs@ == text@,
            forall|j: int| 0 <= j < cs@.len() ==> is_digit_char(#[trigger] cs@[j]),
            i <= cs@.len(),
            acc >= 0,
            acc as int == digits_value(cs@.subrange(0, i as int)),
        decreases cs@.len() - i,
    {
        let c = cs[i];
        let d: i64 = (c as u32 - '0' as u32) as i64;
        let v: i64 = acc as i64 * 10 + d;
        proof {
            assert(cs@.subrange(0, i + 1).drop_last() =~= cs@.subrange(0, i as int));
            assert(cs@.subrange(0, i + 1).last() == c);
        }
        if v > i32::MAX as i64 {
            proof {
                lemma_digits_value_monotone(cs@, i + 1, cs@.len() as int);
                assert(cs@.subrange(0, cs@.len() as int) =~= cs@);
            }
            return None;
        }
        acc = v as i32;
        i = i + 1;
    }
    assert(cs@.subrange(0, cs@.len() as int) =~= cs@);
    Some(acc)
}

// ---------------------------------------------------------------------------
// The lexer.

/// Reads tokens from a text, keeping a queue of results read ahead.
pub struct Lexer {
    reader: CharsReader,
    lookahead: VecDeque<LexResult>,
    /// Where in the text the next result to hand out begins.
    cursor: Ghost<int>,
}

impl Lexer {
    /// The whole text being read.
    pub closed spec fn source(&self) -> Seq<char> {
        self.reader.source()
    }

    /// Where in the text the next result to hand out begins.
    pub closed spec fn cursor(&self) -> int {
        self.cursor@
    }

    /// The reader has seen the end of the text only once all of it was consumed.
    closed spec fn reader_ok(&self) -> bool {
        &&& self.reader.wf()
        &&& self.reader.at_eof() ==> self.reader.consumed() == self.reader.source().len()
    }

    pub closed spec fn wf(&self) -> bool {
        let s = self.reader.source();
        let k = self.lookahead@.len();
        &&& self.reader_ok()
        &&& 0 <= self.cursor@ <= s.len()
        &&& k <= u32::MAX
        &&& forall|i: int| 0 <= i < k ==> #[trigger] self.lookahead@[i]@ == lex_nth(s, self.cursor@, i as nat).0
        &&& k > 0 ==> self.reader.consumed() == lex_nth(s, self.cursor@, (k - 1) as nat).1
        &&& k == 0 ==> self.cursor@ <= self.reader.consumed() <= skip_white(s, self.cursor@)
    }

    /// The cursor never leaves the text.
    pub broadcast proof fn lemma_wf_cursor(l: &Lexer)
        requires
            #[trigger] l.wf(),
        ensures
            0 <= l.cursor() <= l.source().len() <= u32::MAX,
    {
    }

    pub fn new(chars: &str) -> (r: Lexer)
        requires
            chars@.len() <= u32::MAX,
        ensures
            r.wf(),
            r.source() == chars@,
            r.cursor() == 0,
    {
        let r = Lexer { reader: CharsReader::new(chars), lookahead: VecDeque::new(), cursor: Ghost(0) };
        proof {
            lemma_skip_white(chars@, 0);
        }
        r
    }

    /// Whether a token or an error, rather than the end of input, comes next.
    pub fn has_more(&mut self) -> (r: bool)
        requires
            old(self).wf(),
        ensures
            final(self).wf(),
            final(self).source() == old(self).source(),
            final(self).cursor() == old(self).cursor(),
            r == !(lex_at(old(self).source(), old(self).cursor()).0 is EndOfInput),
    {
        if self.lookahead.len() > 0 {
            proof {
                assert(self.lookahead@[0]@ == lex_nth(self.reader.source(), self.cursor@, 0).0);
            }
            match &self.lookahead[0] {
                LexResult::EndOfInput(_) => false,
                _ => true,
            }
        } else {
            self.eat_white();
            proof {
                let s = self.reader.source();
                lemma_skip_white_within(s, self.cursor@, old(self).reader.consumed());
                lemma_skip_white(s, self.cursor@);
                lemma_lex_at_progress(s, self.cursor@);
            }
            self.reader.has_more()
        }
    }

    /// Hands out the next result.
    pub fn next(&mut self) -> (r: LexResult)
        requires
            old(self).wf(),
        ensures
            final(self).wf(),
            final(self).source() == old(self).source(),
            r@ == lex_at(old(self).source(), old(self).cursor()).0,
            final(self).cursor() == lex_at(old(self).source(), old(self).cursor()).1,
    {
        self.prime(1);
        let ghost s = self.reader.source();
        let ghost c = self.cursor@;
        let ghost q = self.lookahead@;
        let r = match self.lookahead.pop_front() {
            Some(r) => r,
            None => LexResult::EndOfInput(Location::unknown()),
        };
        self.cursor = Ghost(lex_at(s, c).1);
        proof {
            lemma_lex_at_progress(s, c);
            let c2 = lex_at(s, c).1;
            assert forall|i: int| 0 <= i < self.lookahead@.len() implies
                #[trigger] self.lookahead@[i]@ == lex_nth(s, c2, i as nat).0 by {
                assert(self.lookahead@[i] == q[i + 1]);
                lemma_lex_nth_shift(s, c, i as nat);
            }
            if self.lookahead@.len() > 0 {
                lemma_lex_nth_shift(s, c, (self.lookahead@.len() - 1) as nat);
            } else {
                lemma_skip_white(s, c2);
            }
        }
        r
    }

    /// The next result, without handing it out.
    pub fn peek(&mut self) -> (r: LexResult)
        requires
            old(self).wf(),
        ensures
            final(self).wf(),
            final(self).source() == old(self).source(),
            final(self).cursor() == old(self).cursor(),
            r@ == lex_at(old(self).source(), old(self).cursor()).0,
    {
        self.peek_n(0)
    }

    /// The result `n` places after the next one, without handing anything out.
    pub fn peek_n(&mut self, n: u32) -> (r: LexResult)
        requires
            old(self).wf(),
            n < u32::MAX,
        ensures
            final(self).wf(),
            final(self).source() == old(self).source(),
            final(self).cursor() == old(self).cursor(),
            r@ == lex_nth(old(self).source(), old(self).cursor(), n as nat).0,
    {
        self.prime(n + 1);
        self.lookahead[n as usize].duplicate()
    }

    /// Reads results into the queue until it holds at least `num_tokens`.
    fn prime(&mut self, num_tokens: u32)
        requires
            old(self).wf(),
        ensures
            final(self).wf(),
            final(self).source() == old(self).source(),
            final(self).cursor() == old(self).cursor(),
            final(self).lookahead@.len() >= num_tokens,
    {
        while self.lookahead.len() < num_tokens as usize
            invariant
                self.wf(),
                self.reader.source() == old(self).reader.source(),
                self.cursor@ == old(self).cursor@,
            decreases num_tokens - self.lookahead@.len(),
        {
            let ghost s = self.reader.source();
            let ghost k = self.lookahead@.len();
            let ghost p0 = self.reader.consumed();
            let ghost q = self.lookahead@;
            let token = self.read_next_token();
            self.lookahead.push_back(token);
            proof {
                if k > 0 {
                    assert(lex_nth(s, self.cursor@, k as nat) == lex_at(s, p0));
                } else {
                    lemma_lex_at_within(s, self.cursor@, p0);
                }
                assert forall|i: int| 0 <= i < self.lookahead@.len() implies
                    #[trigger] self.lookahead@[i]@ == lex_nth(s, self.cursor@, i as nat).0 by {
                    if i < k {
                        assert(self.lookahead@[i] == q[i]);
                    }
                }
            }
        }
    }

    /// Reads one result from where the reader stands.
    fn read_next_token(&mut self) -> (r: LexResult)
        requires
            old(self).reader_ok(),
        ensures
            final(self).reader_ok(),
            final(self).reader.source() == old(self).reader.source(),
            final(self).lookahead == old(self).lookahead,
            final(self).cursor == old(self).cursor,
            r@ == lex_at(old(self).reader.source(), old(self).reader.consumed()).0,
            final(self).reader.consumed() == lex_at(old(self).reader.source(), old(self).reader.consumed()).1,
    {
        let ghost s = self.reader.source();
        let ghost pos = self.reader.consumed();
        self.eat_white();
        let ghost p = self.reader.consumed();
        proof {
            lemma_skip_white(s, pos);
            if p < s.len() {
                lemma_run_end(s, p + 1, false);
                lemma_run_end(s, p + 1, true);
            }
        }
        if !self.reader.has_more() {
            if self.reader.consumed_any() {
                LexResult::EndOfInput(self.reader.loc())
            } else {
                LexResult::EndOfInput(Location::new(1, 0))
            }
        } else if let Some(token) = self.read_single_char_token() {
            LexResult::Token(token)
        } else if let Some(result) = self.read_literal_number() {
            match result {
                Ok(token) => LexResult::Token(token),
                Err(e) => LexResult::Error(e),
            }
        } else if let Some(token) = self.read_identifier() {
            LexResult::Token(token)
        } else {
            let c = match self.reader.next() {
                Some(c) => c,
                None => ' ',
            };
            let loc = self.reader.loc();
            LexResult::Error(LexerError::new_with_location(LexerErrorKind::InvalidCharacter(c), loc))
        }
    }

    /// Consumes white space.
    fn eat_white(&mut self)
        requires
            old(self).reader_ok(),
        ensures
            final(self).reader_ok(),
            final(self).reader.source() == old(self).reader.source(),
            final(self).lookahead == old(self).lookahead,
            final(self).cursor == old(self).cursor,
            final(self).reader.consumed() == skip_white(old(self).reader.source(), old(self).reader.consumed()),
            final(self).reader.at_eof() == (final(self).reader.consumed() == final(self).reader.source().len()),
    {
        let ghost s = self.reader.source();
        let ghost pos = self.reader.consumed();
        proof {
            lemma_skip_white(s, pos);
        }
        loop
            invariant
                self.reader_ok(),
                self.reader.source() == s,
                self.lookahead == old(self).lookahead,
                self.cursor == old(self).cursor,
                pos <= self.reader.consumed() <= skip_white(s, pos),
                skip_white(s, self.reader.consumed()) == skip_white(s, pos),
            ensures
                self.reader.consumed() == skip_white(s, pos),
                self.reader.at_eof() == (self.reader.consumed() == s.len()),
            decreases s.len() - self.reader.consumed(),
        {
            proof {
                lemma_skip_white(s, self.reader.consumed());
            }
            match self.reader.peek() {
                Some(c) => {
                    if !is_white(c) {
                        break;
                    }
                    self.reader.next();
                },
                None => {
                    break;
                },
            }
        }
    }

    /// Reads an operator, if one comes next.
    fn read_single_char_token(&mut self) -> (r: Option<Token>)
        requires
            old(self).reader_ok(),
            old(self).reader.consumed() < old(self).reader.source().len(),
        ensures
            final(self).reader_ok(),
            final(self).reader.source() == old(self).reader.source(),
            final(self).lookahead == old(self).lookahead,
            final(self).cursor == old(self).cursor,
            ({
                let s = old(self).reader.source();
                let p = old(self).reader.consumed();
                match operator_of(s[p]) {
                    Some(op) => {
                        &&& r matches Some(t) && t@ == (TokenModel {
                            kind: TokenKindModel::BinaryOperator(op),
                            span: Span { start: loc_after(s, p + 1), end: loc_after(s, p + 1) },
                        })
                        &&& final(self).reader.consumed() == p + 1
                    },
                    None => {
                        &&& r is None
                        &&& final(self).reader.consumed() == p
                    },
                }
            }),
    {
        let kind = match self.reader.peek() {
            Some('+') => Some(TokenKind::BinaryOperator(BinaryOp::Add)),
            Some('-') => Some(TokenKind::BinaryOperator(BinaryOp::Sub)),
            Some('*') => Some(TokenKind::BinaryOperator(BinaryOp::Mul)),
            Some('/') => Some(TokenKind::BinaryOperator(BinaryOp::Div)),
            Some('%') => Some(TokenKind::BinaryOperator(BinaryOp::Mod)),
            _ => None,
        };
        match kind {
            Some(kind) => {
                self.reader.next();
                let loc = self.reader.loc();
                Some(Token::new(kind, Span::new(loc, loc)))
            },
            None => None,
        }
    }

    /// Reads an integer literal, if a digit comes next.
    fn read_literal_number(&mut self) -> (r: Option<Result<Token, LexerError>>)
        requires
            old(self).reader_ok(),
            old(self).reader.consumed() < old(self).reader.source().len(),
        ensures
            final(self).reader_ok(),
            final(self).reader.source() == old(self).reader.source(),
            final(self).lookahead == old(self).lookahead,
            final(self).cursor == old(self).cursor,
            ({
                let s = old(self).reader.source();
                let p = old(self).reader.consumed();
                let e = run_end(s, p + 1, false);
                let text = s.subrange(p, e);
                let span = Span { start: loc_after(s, p + 1), end: loc_after(s, e) };
                if is_digit_char(s[p]) {
                    &&& final(self).reader.consumed() == e
                    &&& if digits_value(text) <= i32::MAX {
                        r matches Some(Ok(t)) && t@ == (TokenModel {
                            kind: TokenKindModel::LiteralInt32(digits_value(text) as i32),
                            span,
                        })
                    } else {
                        r matches Some(Err(err)) && err@ == (LexerErrorModel::InvalidInteger(text), span)
                    }
                } else {
                    &&& r is None
                    &&& final(self).reader.consumed() == p
                }
            }),
    {
        let ghost s = self.reader.source();
        let ghost p = self.reader.consumed();
        match self.read_token(false) {
            Some((text, span)) => {
                proof {
                    lemma_run_end(s, p + 1, false);
                    assert forall|i: int| 0 <= i < text@.len() implies is_digit_char(#[trigger] text@[i]) by {
                        assert(text@[i] == s[p + i]);
                        if i > 0 {
                            assert(continues_run(s[p + i], false));
                        }
                    }
                }
                match parse_i32(text.as_str()) {
                    Some(i) => Some(Ok(Token::new(TokenKind::LiteralInt32(i), span))),
                    None => Some(Err(LexerError::new_with_span(LexerErrorKind::InvalidInteger(text), span))),
                }
            },
            None => None,
        }
    }

    /// Reads an identifier, if a letter comes next.
    fn read_identifier(&mut self) -> (r: Option<Token>)
        requires
            old(self).reader_ok(),
            old(self).reader.consumed() < old(self).reader.source().len(),
        ensures
            final(self).reader_ok(),
            final(self).reader.source() == old(self).reader.source(),
            final(self).lookahead == old(self).lookahead,
            final(self).cursor == old(self).cursor,
            ({
                let s = old(self).reader.source();
                let p = old(self).reader.consumed();
                let e = run_end(s, p + 1, true);
                if is_letter_char(s[p]) {
                    &&& final(self).reader.consumed() == e
                    &&& r matches Some(t) && t@ == (TokenModel {
                        kind: TokenKindModel::Identifier(s.subrange(p, e)),
                        span: Span { start: loc_after(s, p + 1), end: loc_after(s, e) },
                    })
                } else {
                    &&& r is None
                    &&& final(self).reader.consumed() == p
                }
            }),
    {
        match self.read_token(true) {
            Some((text, span)) => Some(Token::new(TokenKind::Identifier(text), span)),
            None => None,
        }
    }

    /// Reads a run of characters that starts with a digit (or, for a word, a letter) and
    /// goes on with digits (or, for a word, letters and digits), with its span.
    fn read_token(&mut self, word: bool) -> (r: Option<(String, Span)>)
        requires
            old(self).reader_ok(),
            old(self).reader.consumed() < old(self).reader.source().len(),
        ensures
            final(self).reader_ok(),
            final(self).reader.source() == old(self).reader.source(),
            final(self).lookahead == old(self).lookahead,
            final(self).cursor == old(self).cursor,
            ({
                let s = old(self).reader.source();
                let p = old(self).reader.consumed();
                let e = run_end(s, p + 1, word);
                let starts = if word { is_letter_char(s[p]) } else { is_digit_char(s[p]) };
                if starts {
                    &&& final(self).reader.consumed() == e
                    &&& r matches Some((text, span)) && text@ == s.subrange(p, e) && span == (Span {
                        start: loc_after(s, p + 1),
                        end: loc_after(s, e),
                    })
                } else {
                    &&& r is None
                    &&& final(self).reader.consumed() == p
                }
            }),
    {
        let ghost s = self.reader.source();
        let ghost p = self.reader.consumed();
        match self.reader.peek() {
            None => None,
            Some(c) => {
                let starts = if word { is_letter(c) } else { is_digit(c) };
                if !starts {
                    None
                } else {
                    let mut buf = String::new();
                    push_char(&mut buf, c);
                    self.reader.next();
                    let start = self.reader.loc();
                    let ghost e = run_end(s, p + 1, word);
                    proof {
                        lemma_run_end(s, p + 1, word);
                        assert(buf@ =~= s.subrange(p, p + 1));
                    }
                    loop
                        invariant
                            self.reader_ok(),
                            self.reader.source() == s,
                            self.lookahead == old(self).lookahead,
                            self.cursor == old(self).cursor,
                            0 <= p,
                            p + 1 <= self.reader.consumed() <= e <= s.len(),
                            run_end(s, self.reader.consumed(), word) == e,
                            buf@ == s.subrange(p, self.reader.consumed()),
                            start == loc_after(s, p + 1),
                        ensures
                            self.reader.consumed() == e,
                        decreases s.len() - self.reader.consumed(),
                    {
                        let ghost q = self.reader.consumed();
                        match self.reader.peek() {
                            Some(c) => {
                                let cont = if word { is_letter(c) || is_digit(c) } else { is_digit(c) };
                                if !cont {
                                    break;
                                }
                                proof {
                                    lemma_run_end(s, q + 1, word);
                                }
                                push_char(&mut buf, c);
                                self.reader.next();
                                assert(buf@ =~= s.subrange(p, q + 1));
                            },
                            None => {
                                break;
                            },
                        }
                    }
                    let end = self.reader.loc();
                    Some((buf, Span::new(start, end)))
                }
            },
        }
    }
}

} // verus!
