//! The parser: precedence climbing over the lexer's results.
use vstd::prelude::*;
use crate::ast::{int_literals, span_of, spans_joined, strip, Expr, ExprModel};
use crate::common::BinaryOp;
use crate::error::{ErrorKind, SourceError};
use crate::lexer::{
    lemma_lex_at_after_white, lemma_lex_at_progress, lemma_lex_at_shift, lex_at, is_white_char, lexer_error_text, token_kind_text, LexResult, LexResultModel,
    Lexer, LexerError, LexerErrorKind, LexerErrorModel, TokenKind, TokenKindModel,
};
use crate::source::{unknown_span, Span};
use crate::text::push_str;
use crate::value::{Value, ValueModel};

verus! {

broadcast use Lexer::lemma_wf_cursor;

/// The binding power of a token: 10 for `+` and `-`, 20 for `*` and `/`, and 0 for every
/// other token (so `%` does not continue an expression).
pub open spec fn precedence_of(k: TokenKindModel) -> u32 {
    match k {
        TokenKindModel::BinaryOperator(BinaryOp::Add) => 10,
        TokenKindModel::BinaryOperator(BinaryOp::Sub) => 10,
        TokenKindModel::BinaryOperator(BinaryOp::Mul) => 20,
        TokenKindModel::BinaryOperator(BinaryOp::Div) => 20,
        _ => 0,
    }
}

fn get_precedence(token_kind: &TokenKind) -> (r: u32)
    ensures
        r == precedence_of(token_kind@),
{
    match token_kind {
        TokenKind::BinaryOperator(BinaryOp::Add) | TokenKind::BinaryOperator(BinaryOp::Sub) => 10,
        TokenKind::BinaryOperator(BinaryOp::Mul) | TokenKind::BinaryOperator(BinaryOp::Div) => 20,
        _ => 0,
    }
}

/// The kinds of parse error.
#[derive(Debug, PartialEq)]
pub enum ParseErrorKind {
    LexerError(LexerErrorKind),
    ExpectedBinaryOperator(TokenKind),
    InvalidPrefixExpressionTerm(TokenKind),
    UnexpectedEndOfInput,
}

/// What a `ParseErrorKind` stands for.
pub enum ParseErrorModel {
    LexerError(LexerErrorModel),
    ExpectedBinaryOperator(TokenKindModel),
    InvalidPrefixExpressionTerm(TokenKindModel),
    UnexpectedEndOfInput,
}

impl View for ParseErrorKind {
    type V = ParseErrorModel;

    open spec fn view(&self) -> ParseErrorModel {
        match self {
            ParseErrorKind::LexerError(k) => ParseErrorModel::LexerError(k@),
            ParseErrorKind::ExpectedBinaryOperator(t) => ParseErrorModel::ExpectedBinaryOperator(t@),
            ParseErrorKind::InvalidPrefixExpressionTerm(t) => ParseErrorModel::InvalidPrefixExpressionTerm(t@),
            ParseErrorKind::UnexpectedEndOfInput => ParseErrorModel::UnexpectedEndOfInput,
        }
    }
}

/// The message text of a parse error.
pub open spec fn parse_error_text(e: ParseErrorModel) -> Seq<char> {
    match e {
        ParseErrorModel::LexerError(k) => lexer_error_text(k),
        ParseErrorModel::ExpectedBinaryOperator(t) => "Expected binary operator but found: "@ + token_kind_text(t),
        ParseErrorModel::InvalidPrefixExpressionTerm(t) => "Invalid prefix expression term: "@ + token_kind_text(t),
        ParseErrorModel::UnexpectedEndOfInput => "Unexpected end of input"@,
    }
}

impl ErrorKind for ParseErrorKind {
    open spec fn text_of(kind: ParseErrorModel) -> Seq<char> {
        parse_error_text(kind)
    }

    fn message(&self) -> (r: String) {
        match self {
            ParseErrorKind::LexerError(k) => k.message(),
            ParseErrorKind::ExpectedBinaryOperator(t) => {
                let mut s = String::new();
                push_str(&mut s, "Expected binary operator but found: ");
                t.describe_into(&mut s);
                s
            },
            ParseErrorKind::InvalidPrefixExpressionTerm(t) => {
                let mut s = String::new();
                push_str(&mut s, "Invalid prefix expression term: ");
                t.describe_into(&mut s);
                s
            },
            ParseErrorKind::UnexpectedEndOfInput => {
                let mut s = String::new();
                push_str(&mut s, "Unexpected end of input");
                s
            },
        }
    }

    fn duplicate(&self) -> (r: ParseErrorKind) {
        match self {
            ParseErrorKind::LexerError(k) => ParseErrorKind::LexerError(k.duplicate()),
            ParseErrorKind::ExpectedBinaryOperator(t) => ParseErrorKind::ExpectedBinaryOperator(t.duplicate()),
            ParseErrorKind::InvalidPrefixExpressionTerm(t) => ParseErrorKind::InvalidPrefixExpressionTerm(t.duplicate()),
            ParseErrorKind::UnexpectedEndOfInput => ParseErrorKind::UnexpectedEndOfInput,
        }
    }
}

pub type ParseError = SourceError<ParseErrorKind>;

pub type ParseResult = Result<Expr, ParseError>;

/// What a parse outcome stands for.
pub type ParseOutcome = Result<ExprModel, (ParseErrorModel, Span)>;

pub open spec fn parse_result_model(r: ParseResult) -> ParseOutcome {
    match r {
        Ok(e) => Ok(e@),
        Err(e) => Err(e@),
    }
}

// ---------------------------------------------------------------------------
// The grammar, as spec functions over the characters of a text. Each gives the outcome and
// the index where the next unread token begins.

/// A term that starts an expression: an integer literal or a variable name.
pub open spec fn parse_prefix_at(s: Seq<char>, pos: int) -> (ParseOutcome, int) {
    let (r, p) = lex_at(s, pos);
    match r {
        LexResultModel::Error((k, sp)) => (Err((ParseErrorModel::LexerError(k), sp)), p),
        LexResultModel::EndOfInput(l) => (Err((ParseErrorModel::UnexpectedEndOfInput, Span { start: l, end: l })), p),
        LexResultModel::Token(t) => match t.kind {
            TokenKindModel::LiteralInt32(v) => (Ok(ExprModel::Literal { value: ValueModel::Int32(v), span: t.span }), p),
            TokenKindModel::Identifier(n) => (Ok(ExprModel::VariableRef { name: n, span: t.span }), p),
            TokenKindModel::BinaryOperator(_) => (Err((ParseErrorModel::InvalidPrefixExpressionTerm(t.kind), t.span)), p),
        },
    }
}

/// An expression whose operators all bind tighter than `prec`.
pub open spec fn parse_expr_at(s: Seq<char>, prec: u32, pos: int) -> (ParseOutcome, int)
    decreases s.len() - pos, 0nat,
{
    let (r, p) = parse_prefix_at(s, pos);
    match r {
        Err(e) => (Err(e), p),
        Ok(left) => if pos < p <= s.len() {
            parse_loop_at(s, prec, left, p)
        } else {
            (Ok(left), p)
        },
    }
}

/// Extends `left` with operators that bind tighter than `prec`, as long as they come.
pub open spec fn parse_loop_at(s: Seq<char>, prec: u32, left: ExprModel, pos: int) -> (ParseOutcome, int)
    decreases s.len() - pos, 2nat,
{
    match lex_at(s, pos).0 {
        LexResultModel::Token(t) => if precedence_of(t.kind) > prec {
            let (r, q) = parse_infix_at(s, left, precedence_of(t.kind), pos);
            match r {
                Err(e) => (Err(e), q),
                Ok(e2) => if pos < q <= s.len() {
                    parse_loop_at(s, prec, e2, q)
                } else {
                    (Ok(e2), q)
                },
            }
        } else {
            (Ok(left), pos)
        },
        _ => (Ok(left), pos),
    }
}

/// An operator and its right operand, joined to `left`; the operand's operators bind
/// tighter than `prec`.
pub open spec fn parse_infix_at(s: Seq<char>, left: ExprModel, prec: u32, pos: int) -> (ParseOutcome, int)
    decreases s.len() - pos, 1nat,
{
    let (r, p) = lex_at(s, pos);
    match r {
        LexResultModel::Error((k, sp)) => (Err((ParseErrorModel::LexerError(k), sp)), p),
        LexResultModel::EndOfInput(l) => (Err((ParseErrorModel::UnexpectedEndOfInput, Span { start: l, end: l })), p),
        LexResultModel::Token(t) => match t.kind {
            TokenKindModel::BinaryOperator(op) => if pos < p <= s.len() {
                let (rr, q) = parse_expr_at(s, prec, p);
                match rr {
                    Err(e) => (Err(e), q),
                    Ok(right) => (
                        Ok(ExprModel::Binary {
                            op,
                            left: Box::new(left),
                            right: Box::new(right),
                            span: Span { start: span_of(left).start, end: span_of(right).end },
                        }),
                        q,
                    ),
                }
            } else {
                (Err((ParseErrorModel::UnexpectedEndOfInput, t.span)), p)
            },
            _ => (Err((ParseErrorModel::ExpectedBinaryOperator(t.kind), t.span)), p),
        },
    }
}

/// The outcome of parsing a whole text as one expression (tokens after it are left unread).
pub open spec fn parse_model(s: Seq<char>) -> ParseOutcome {
    parse_expr_at(s, 0, 0).0
}

// ---------------------------------------------------------------------------
// Lemmas: parsing never moves backwards, stays within the text, and consumes at least one
// token when it succeeds; what it builds has integer literals and joined spans.

/// What every tree the parser builds satisfies.
pub open spec fn parsed_shape(e: ExprModel) -> bool {
    int_literals(e) && spans_joined(e)
}

pub proof fn lemma_prefix_progress(s: Seq<char>, pos: int)
    requires
        0 <= pos <= s.len(),
    ensures
        pos <= parse_prefix_at(s, pos).1 <= s.len(),
        parse_prefix_at(s, pos).0 is Ok ==> pos < parse_prefix_at(s, pos).1,
        parse_prefix_at(s, pos).0 matches Ok(e) ==> parsed_shape(e),
{
    lemma_lex_at_progress(s, pos);
}

pub proof fn lemma_expr_progress(s: Seq<char>, prec: u32, pos: int)
    requires
        0 <= pos <= s.len(),
    ensures
        pos <= parse_expr_at(s, prec, pos).1 <= s.len(),
        parse_expr_at(s, prec, pos).0 is Ok ==> pos < parse_expr_at(s, prec, pos).1,
        parse_expr_at(s, prec, pos).0 matches Ok(e) ==> parsed_shape(e),
    decreases s.len() - pos, 0nat,
{
    lemma_prefix_progress(s, pos);
    let (r, p) = parse_prefix_at(s, pos);
    if let Ok(left) = r {
        lemma_loop_progress(s, prec, left, p);
    }
}

pub proof fn lemma_loop_progress(s: Seq<char>, prec: u32, left: ExprModel, pos: int)
    requires
        0 <= pos <= s.len(),
        parsed_shape(left),
    ensures
        pos <= parse_loop_at(s, prec, left, pos).1 <= s.len(),
        parse_loop_at(s, prec, left, pos).0 matches Ok(e) ==> parsed_shape(e),
    decreases s.len() - pos, 2nat,
{
    if let LexResultModel::Token(t) = lex_at(s, pos).0 {
        if precedence_of(t.kind) > prec {
            lemma_infix_progress(s, left, precedence_of(t.kind), pos);
            let (r, q) = parse_infix_at(s, left, precedence_of(t.kind), pos);
            if let Ok(e2) = r {
                lemma_loop_progress(s, prec, e2, q);
            }
        }
    }
}

pub proof fn lemma_infix_progress(s: Seq<char>, left: ExprModel, prec: u32, pos: int)
    requires
        0 <= pos <= s.len(),
        parsed_shape(left),
    ensures
        pos <= parse_infix_at(s, left, prec, pos).1 <= s.len(),
        parse_infix_at(s, left, prec, pos).0 is Ok ==> pos < parse_infix_at(s, left, prec, pos).1,
        parse_infix_at(s, left, prec, pos).0 matches Ok(e) ==> parsed_shape(e),
    decreases s.len() - pos, 1nat,
{
    lemma_lex_at_progress(s, pos);
    let (r, p) = lex_at(s, pos);
    if let LexResultModel::Token(t) = r {
        if let TokenKindModel::BinaryOperator(op) = t.kind {
            lemma_expr_progress(s, prec, p);
        }
    }
}

/// At the end of the text the loop adds nothing.
pub proof fn lemma_loop_at_end(s: Seq<char>, prec: u32, left: ExprModel)
    ensures
        parse_loop_at(s, prec, left, s.len() as int) == (Ok::<ExprModel, (ParseErrorModel, Span)>(left), s.len() as int),
{
    crate::lexer::lemma_lex_at_end(s);
}

/// Every operation that parsing builds spans from the start of its left operand to the end
/// of its right operand.
pub proof fn lemma_parse_spans_joined(s: Seq<char>)
    ensures
        parse_model(s) matches Ok(e) ==> spans_joined(e),
{
    lemma_expr_progress(s, 0, 0);
}

// ---------------------------------------------------------------------------
// Where a text stands does not change what it parses to.

/// An outcome with its spans blanked out: the tree's shape and values, or the error's kind.
pub open spec fn unplaced_outcome(o: ParseOutcome) -> ParseOutcome {
    match o {
        Ok(e) => Ok(strip(e)),
        Err((k, _)) => Err((k, unknown_span())),
    }
}

proof fn lemma_prefix_shift(w: Seq<char>, s: Seq<char>, pos: int)
    requires
        0 <= pos <= s.len(),
    ensures
        parse_prefix_at(w + s, pos + w.len()).1 == parse_prefix_at(s, pos).1 + w.len(),
        unplaced_outcome(parse_prefix_at(w + s, pos + w.len()).0) == unplaced_outcome(parse_prefix_at(s, pos).0),
{
    lemma_lex_at_shift(w, s, pos);
}

proof fn lemma_expr_shift(w: Seq<char>, s: Seq<char>, prec: u32, pos: int)
    requires
        0 <= pos <= s.len(),
    ensures
        parse_expr_at(w + s, prec, pos + w.len()).1 == parse_expr_at(s, prec, pos).1 + w.len(),
        unplaced_outcome(parse_expr_at(w + s, prec, pos + w.len()).0) == unplaced_outcome(parse_expr_at(s, prec, pos).0),
    decreases s.len() - pos, 0nat,
{
    let k = w.len() as int;
    lemma_prefix_shift(w, s, pos);
    lemma_prefix_progress(s, pos);
    let (r1, p1) = parse_prefix_at(s, pos);
    let (r2, p2) = parse_prefix_at(w + s, pos + k);
    if let Ok(left1) = r1 {
        let left2 = r2->Ok_0;
        lemma_loop_shift(w, s, prec, left1, left2, p1);
    }
}

proof fn lemma_loop_shift(w: Seq<char>, s: Seq<char>, prec: u32, left1: ExprModel, left2: ExprModel, pos: int)
    requires
        0 <= pos <= s.len(),
        strip(left1) == strip(left2),
    ensures
        parse_loop_at(w + s, prec, left2, pos + w.len()).1 == parse_loop_at(s, prec, left1, pos).1 + w.len(),
        unplaced_outcome(parse_loop_at(w + s, prec, left2, pos + w.len()).0) == unplaced_outcome(parse_loop_at(s, prec, left1, pos).0),
    decreases s.len() - pos, 2nat,
{
    let k = w.len() as int;
    lemma_lex_at_shift(w, s, pos);
    if let LexResultModel::Token(t) = lex_at(s, pos).0 {
        if precedence_of(t.kind) > prec {
            let pr = precedence_of(t.kind);
            lemma_infix_shift(w, s, left1, left2, pr, pos);
            lemma_infix_progress_any(s, left1, pr, pos);
            let (r1, q1) = parse_infix_at(s, left1, pr, pos);
            let (r2, q2) = parse_infix_at(w + s, left2, pr, pos + k);
            if let Ok(e1) = r1 {
                lemma_loop_shift(w, s, prec, e1, r2->Ok_0, q1);
            }
        }
    }
}

proof fn lemma_infix_shift(w: Seq<char>, s: Seq<char>, left1: ExprModel, left2: ExprModel, prec: u32, pos: int)
    requires
        0 <= pos <= s.len(),
        strip(left1) == strip(left2),
    ensures
        parse_infix_at(w + s, left2, prec, pos + w.len()).1 == parse_infix_at(s, left1, prec, pos).1 + w.len(),
        unplaced_outcome(parse_infix_at(w + s, left2, prec, pos + w.len()).0) == unplaced_outcome(parse_infix_at(s, left1, prec, pos).0),
    decreases s.len() - pos, 1nat,
{
    lemma_lex_at_shift(w, s, pos);
    lemma_lex_at_progress(s, pos);
    let (r, p) = lex_at(s, pos);
    if let LexResultModel::Token(t) = r {
        if let TokenKindModel::BinaryOperator(op) = t.kind {
            lemma_expr_shift(w, s, prec, p);
        }
    }
}

/// Like `lemma_infix_progress`, for any left operand.
proof fn lemma_infix_progress_any(s: Seq<char>, left: ExprModel, prec: u32, pos: int)
    requires
        0 <= pos <= s.len(),
    ensures
        pos <= parse_infix_at(s, left, prec, pos).1 <= s.len(),
        parse_infix_at(s, left, prec, pos).0 is Ok ==> pos < parse_infix_at(s, left, prec, pos).1,
{
    lemma_lex_at_progress(s, pos);
    let (r, p) = lex_at(s, pos);
    if let LexResultModel::Token(t) = r {
        if let TokenKindModel::BinaryOperator(op) = t.kind {
            lemma_expr_progress(s, prec, p);
        }
    }
}

/// White space before a text moves every span but changes nothing else: the tree parsed
/// (or the kind of error met) is the same wherever the text stands.
pub proof fn lemma_parse_ignores_offset(w: Seq<char>, s: Seq<char>)
    requires
        forall|i: int| 0 <= i < w.len() ==> is_white_char(#[trigger] w[i]),
    ensures
        unplaced_outcome(parse_model(w + s)) == unplaced_outcome(parse_model(s)),
{
    let k = w.len() as int;
    lemma_lex_at_after_white(w, s);
    lemma_expr_shift(w, s, 0, 0);
    assert(parse_prefix_at(w + s, 0) == parse_prefix_at(w + s, k));
    lemma_prefix_progress(w + s, k);
    assert(parse_expr_at(w + s, 0, 0) == parse_expr_at(w + s, 0, k));
}

fn lex_to_parse_error(lex_err: LexerError) -> (r: ParseError)
    ensures
        r@ == (ParseErrorModel::LexerError(lex_err@.0), lex_err@.1),
{
    let (kind, span) = lex_err.into_parts();
    ParseError::new_with_span(ParseErrorKind::LexerError(kind), span)
}

/// Parses one expression from the tokens of a lexer.
pub struct Parser {
    lexer: Lexer,
}

impl Parser {
    /// The whole text being parsed.
    pub closed spec fn source(&self) -> Seq<char> {
        self.lexer.source()
    }

    /// Where in the text the next unread token begins.
    pub closed spec fn cursor(&self) -> int {
        self.lexer.cursor()
    }

    pub closed spec fn wf(&self) -> bool {
        self.lexer.wf()
    }

    pub fn new(lexer: Lexer) -> (r: Parser)
        requires
            lexer.wf(),
        ensures
            r.wf(),
            r.source() == lexer.source(),
            r.cursor() == lexer.cursor(),
    {
        Parser { lexer }
    }

    /// Parses one expression; tokens after it are left unread.
    pub fn parse(&mut self) -> (r: ParseResult)
        requires
            old(self).wf(),
        ensures
            final(self).wf(),
            final(self).source() == old(self).source(),
            parse_result_model(r) == parse_expr_at(old(self).source(), 0, old(self).cursor()).0,
            final(self).cursor() == parse_expr_at(old(self).source(), 0, old(self).cursor()).1,
    {
        self.parse_expr(0)
    }

    fn parse_expr(&mut self, precedence: u32) -> (r: ParseResult)
        requires
            old(self).wf(),
        ensures
            final(self).wf(),
            final(self).source() == old(self).source(),
            parse_result_model(r) == parse_expr_at(old(self).source(), precedence, old(self).cursor()).0,
            final(self).cursor() == parse_expr_at(old(self).source(), precedence, old(self).cursor()).1,
        decreases old(self).lexer.source().len() - old(self).lexer.cursor(), 0nat,
    {
        let ghost s = self.lexer.source();
        let ghost c0 = self.lexer.cursor();
        proof {
            lemma_prefix_progress(s, c0);
        }
        let prefix_result = self.parse_prefix();
        match prefix_result {
            Err(e) => Err(e),
            Ok(mut expr) => {
                let ghost target = parse_expr_at(s, precedence, c0);
                loop
                    invariant
                        self.wf(),
                        self.lexer.source() == s,
                        s == old(self).lexer.source(),
                        c0 == old(self).lexer.cursor(),
                        target == parse_expr_at(s, precedence, c0),
                        c0 < self.lexer.cursor() <= s.len(),
                        parsed_shape(expr@),
                        parse_loop_at(s, precedence, expr@, self.lexer.cursor()) == target,
                    ensures
                        self.wf(),
                        self.lexer.source() == s,
                        target == (Ok::<ExprModel, (ParseErrorModel, Span)>(expr@), self.lexer.cursor()),
                    decreases s.len() - self.lexer.cursor(),
                {
                    let ghost c = self.lexer.cursor();
                    match self.lexer.peek() {
                        LexResult::Token(next_token) => {
                            let next_precedence = get_precedence(&next_token.kind);
                            if precedence >= next_precedence {
                                break;
                            }
                            proof {
                                lemma_infix_progress(s, expr@, next_precedence, c);
                            }
                            expr = match self.parse_infix(expr, next_precedence) {
                                Err(e) => {
                                    return Err(e);
                                },
                                Ok(expr) => expr,
                            };
                        },
                        _ => {
                            break;
                        },
                    }
                }
                Ok(expr)
            },
        }
    }

    fn parse_prefix(&mut self) -> (r: ParseResult)
        requires
            old(self).wf(),
        ensures
            final(self).wf(),
            final(self).source() == old(self).source(),
            parse_result_model(r) == parse_prefix_at(old(self).source(), old(self).cursor()).0,
            final(self).cursor() == parse_prefix_at(old(self).source(), old(self).cursor()).1,
    {
        match self.lexer.next() {
            LexResult::Error(lex_err) => Err(lex_to_parse_error(lex_err)),
            LexResult::EndOfInput(last_location) => Err(
                ParseError::new_with_location(ParseErrorKind::UnexpectedEndOfInput, last_location),
            ),
            LexResult::Token(token) => match token.kind {
                TokenKind::LiteralInt32(value) => Ok(Expr::new_literal_with_span(Value::Int32(value), token.span)),
                TokenKind::Identifier(text) => Ok(Expr::new_variable_ref_with_span(text, token.span)),
                kind => Err(ParseError::new_with_span(ParseErrorKind::InvalidPrefixExpressionTerm(kind), token.span)),
            },
        }
    }

    fn parse_infix(&mut self, left: Expr, precedence: u32) -> (r: ParseResult)
        requires
            old(self).wf(),
        ensures
            final(self).wf(),
            final(self).source() == old(self).source(),
            parse_result_model(r) == parse_infix_at(old(self).source(), left@, precedence, old(self).cursor()).0,
            final(self).cursor() == parse_infix_at(old(self).source(), left@, precedence, old(self).cursor()).1,
        decreases old(self).lexer.source().len() - old(self).lexer.cursor(), 1nat,
    {
        let ghost s = self.lexer.source();
        let ghost c0 = self.lexer.cursor();
        proof {
            lemma_lex_at_progress(s, c0);
        }
        match self.lexer.next() {
            LexResult::Error(lex_err) => Err(lex_to_parse_error(lex_err)),
            LexResult::EndOfInput(last_location) => Err(
                ParseError::new_with_location(ParseErrorKind::UnexpectedEndOfInput, last_location),
            ),
            LexResult::Token(token) => {
                let binary_op = match token.kind {
                    TokenKind::BinaryOperator(op) => op,
                    kind => {
                        return Err(ParseError::new_with_span(ParseErrorKind::ExpectedBinaryOperator(kind), token.span));
                    },
                };
                let parse_result = self.parse_expr(precedence);
                match parse_result {
                    Err(e) => Err(e),
                    Ok(right) => {
                        let span = Span::new(left.span.start, right.span.end);
                        proof {
                            assert(span_of(left@).start == left.span.start);
                            assert(span_of(right@).end == right.span.end);
                        }
                        Ok(Expr::new_binary_with_span(binary_op, left, right, span))
                    },
                }
            },
        }
    }
}

} // verus!
