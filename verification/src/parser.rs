//! The expression parser: recursive descent over the token sequence with a
//! fixed precedence table, from loosest to tightest binding: equality,
//! comparison, additive, multiplicative, unary, primary. Binary levels are
//! left-associative; the first ungrammatical construct aborts the parse
//! with a located error.
//!
//! Each grammar rule is specified against a functional model `spec_<rule>`
//! over the token models; the executable methods are proved to return
//! exactly what the model says.

use vstd::prelude::*;
use crate::ast::{Expr, SpecExpr, expr_view};
use crate::text::{spec_parse_error, parse_error};
use crate::token::{Token, TokenType, SpecToken};

verus! {

// ---------------------------------------------------------------------------
// The functional model of parsing.
// ---------------------------------------------------------------------------

/// The outcome of parsing one grammar rule: an expression and the cursor
/// position after it, or a rendered error message.
pub enum ParseStep {
    Done { expr: SpecExpr, next: int },
    Fail { msg: Seq<char> },
}

/// The line reported for a failure detected at cursor `i`.
pub open spec fn line_at(t: Seq<SpecToken>, i: int) -> nat {
    if 0 <= i < t.len() {
        t[i].line
    } else {
        0
    }
}

/// A failure at cursor `i`, rendered as `Error at <line>: <message>`.
pub open spec fn fail_at(t: Seq<SpecToken>, i: int, msg: Seq<char>) -> ParseStep {
    ParseStep::Fail { msg: spec_parse_error(line_at(t, i), msg) }
}

/// An expression is an equality.
pub open spec fn spec_expression(t: Seq<SpecToken>, i: int) -> ParseStep
    decreases t.len() - i, 11int,
{
    spec_equality(t, i)
}

/// Equality: a comparison, then any number of `==` / `!=` comparisons,
/// folded to the left.
pub open spec fn spec_equality(t: Seq<SpecToken>, i: int) -> ParseStep
    decreases t.len() - i, 10int,
{
    match spec_comparison(t, i) {
        ParseStep::Done { expr, next } => {
            if i <= next <= t.len() {
                spec_equality_rest(t, expr, next)
            } else {
                ParseStep::Done { expr, next }
            }
        }
        ParseStep::Fail { msg } => ParseStep::Fail { msg },
    }
}

/// Folds further `==` / `!=` comparisons onto `left`.
pub open spec fn spec_equality_rest(t: Seq<SpecToken>, left: SpecExpr, i: int) -> ParseStep
    decreases t.len() - i, 9int,
{
    if 0 <= i < t.len() && (t[i].kind == TokenType::EqualEqual || t[i].kind
        == TokenType::BangEqual) {
        match spec_comparison(t, i + 1) {
            ParseStep::Done { expr: right, next } => {
                let folded = SpecExpr::Binary {
                    left: Box::new(left),
                    operator: t[i],
                    right: Box::new(right),
                };
                if i < next <= t.len() {
                    spec_equality_rest(t, folded, next)
                } else {
                    ParseStep::Done { expr: folded, next }
                }
            }
            ParseStep::Fail { msg } => ParseStep::Fail { msg },
        }
    } else {
        ParseStep::Done { expr: left, next: i }
    }
}

/// Comparison: a term, then any number of `>` `>=` `<` `<=` terms, folded
/// to the left.
pub open spec fn spec_comparison(t: Seq<SpecToken>, i: int) -> ParseStep
    decreases t.len() - i, 8int,
{
    match spec_term(t, i) {
        ParseStep::Done { expr, next } => {
            if i <= next <= t.len() {
                spec_comparison_rest(t, expr, next)
            } else {
                ParseStep::Done { expr, next }
            }
        }
        ParseStep::Fail { msg } => ParseStep::Fail { msg },
    }
}

/// Whether `k` is one of the comparison operators.
pub open spec fn is_comparison_op(k: TokenType) -> bool {
    k == TokenType::Greater || k == TokenType::GreaterEqual || k == TokenType::Less || k
        == TokenType::LessEqual
}

/// Folds further comparison operators onto `left`.
pub open spec fn spec_comparison_rest(t: Seq<SpecToken>, left: SpecExpr, i: int) -> ParseStep
    decreases t.len() - i, 7int,
{
    if 0 <= i < t.len() && is_comparison_op(t[i].kind) {
        match spec_term(t, i + 1) {
            ParseStep::Done { expr: right, next } => {
                let folded = SpecExpr::Binary {
                    left: Box::new(left),
                    operator: t[i],
                    right: Box::new(right),
                };
                if i < next <= t.len() {
                    spec_comparison_rest(t, folded, next)
                } else {
                    ParseStep::Done { expr: folded, next }
                }
            }
            ParseStep::Fail { msg } => ParseStep::Fail { msg },
        }
    } else {
        ParseStep::Done { expr: left, next: i }
    }
}

/// Term: a factor, then any number of `+` / `-` factors, folded to the
/// left.
pub open spec fn spec_term(t: Seq<SpecToken>, i: int) -> ParseStep
    decreases t.len() - i, 6int,
{
    match spec_factor(t, i) {
        ParseStep::Done { expr, next } => {
            if i <= next <= t.len() {
                spec_term_rest(t, expr, next)
            } else {
                ParseStep::Done { expr, next }
            }
        }
        ParseStep::Fail { msg } => ParseStep::Fail { msg },
    }
}

/// Folds further `+` / `-` factors onto `left`.
pub open spec fn spec_term_rest(t: Seq<SpecToken>, left: SpecExpr, i: int) -> ParseStep
    decreases t.len() - i, 5int,
{
    if 0 <= i < t.len() && (t[i].kind == TokenType::Plus || t[i].kind == TokenType::Minus) {
        match spec_factor(t, i + 1) {
            ParseStep::Done { expr: right, next } => {
                let folded = SpecExpr::Binary {
                    left: Box::new(left),
                    operator: t[i],
                    right: Box::new(right),
                };
                if i < next <= t.len() {
                    spec_term_rest(t, folded, next)
                } else {
                    ParseStep::Done { expr: folded, next }
                }
            }
            ParseStep::Fail { msg } => ParseStep::Fail { msg },
        }
    } else {
        ParseStep::Done { expr: left, next: i }
    }
}

/// Factor: a unary, then any number of `*` / `/` unaries, folded to the
/// left.
pub open spec fn spec_factor(t: Seq<SpecToken>, i: int) -> ParseStep
    decreases t.len() - i, 4int,
{
    match spec_unary(t, i) {
        ParseStep::Done { expr, next } => {
            if i <= next <= t.len() {
                spec_factor_rest(t, expr, next)
            } else {
                ParseStep::Done { expr, next }
            }
        }
        ParseStep::Fail { msg } => ParseStep::Fail { msg },
    }
}

/// Folds further `*` / `/` unaries onto `left`.
pub open spec fn spec_factor_rest(t: Seq<SpecToken>, left: SpecExpr, i: int) -> ParseStep
    decreases t.len() - i, 3int,
{
    if 0 <= i < t.len() && (t[i].kind == TokenType::Star || t[i].kind == TokenType::Slash) {
        match spec_unary(t, i + 1) {
            ParseStep::Done { expr: right, next } => {
                let folded = SpecExpr::Binary {
                    left: Box::new(left),
                    operator: t[i],
                    right: Box::new(right),
                };
                if i < next <= t.len() {
                    spec_factor_rest(t, folded, next)
                } else {
                    ParseStep::Done { expr: folded, next }
                }
            }
            ParseStep::Fail { msg } => ParseStep::Fail { msg },
        }
    } else {
        ParseStep::Done { expr: left, next: i }
    }
}

/// Unary: `!` or `-` applied to another unary, right-associative through
/// recursion; otherwise a primary.
pub open spec fn spec_unary(t: Seq<SpecToken>, i: int) -> ParseStep
    decreases t.len() - i, 2int,
{
    if 0 <= i < t.len() && (t[i].kind == TokenType::Bang || t[i].kind == TokenType::Minus) {
        match spec_unary(t, i + 1) {
            ParseStep::Done { expr: right, next } => ParseStep::Done {
                expr: SpecExpr::Unary { operator: t[i], right: Box::new(right) },
                next,
            },
            ParseStep::Fail { msg } => ParseStep::Fail { msg },
        }
    } else {
        spec_primary(t, i)
    }
}

/// Primary: a number or string literal carrying its lexeme, the fixed
/// texts for `true` / `false` / `nil`, or a parenthesized expression that
/// must be closed; anything else is `Expect expression.`.
pub open spec fn spec_primary(t: Seq<SpecToken>, i: int) -> ParseStep
    decreases t.len() - i, 1int,
{
    if 0 <= i < t.len() && (t[i].kind == TokenType::Number || t[i].kind == TokenType::Str) {
        ParseStep::Done { expr: SpecExpr::Literal { value: t[i].lexeme }, next: i + 1 }
    } else if 0 <= i < t.len() && t[i].kind == TokenType::True {
        ParseStep::Done { expr: SpecExpr::Literal { value: "true"@ }, next: i + 1 }
    } else if 0 <= i < t.len() && t[i].kind == TokenType::False {
        ParseStep::Done { expr: SpecExpr::Literal { value: "false"@ }, next: i + 1 }
    } else if 0 <= i < t.len() && t[i].kind == TokenType::Nil {
        ParseStep::Done { expr: SpecExpr::Literal { value: "nil"@ }, next: i + 1 }
    } else if 0 <= i < t.len() && t[i].kind == TokenType::LParen {
        match spec_expression(t, i + 1) {
            ParseStep::Done { expr, next } => {
                if 0 <= next < t.len() && t[next].kind == TokenType::RParen {
                    ParseStep::Done {
                        expr: SpecExpr::Grouping { expression: Box::new(expr) },
                        next: next + 1,
                    }
                } else {
                    fail_at(t, next, "Expect ')' after expression."@)
                }
            }
            ParseStep::Fail { msg } => ParseStep::Fail { msg },
        }
    } else {
        fail_at(t, i, "Expect expression."@)
    }
}

/// The model of a whole parse: one expression from the start of the token
/// sequence.
pub open spec fn spec_parse(t: Seq<SpecToken>) -> ParseStep {
    spec_expression(t, 0)
}

/// How an executable result and final cursor relate to a model outcome.
pub open spec fn parse_outcome(sp: ParseStep, r: Result<Expr, String>, pos: int) -> bool {
    match sp {
        ParseStep::Done { expr, next } => {
            match r {
                Ok(e) => expr_view(e) == expr && pos == next,
                Err(_) => false,
            }
        }
        ParseStep::Fail { msg } => {
            match r {
                Ok(_) => false,
                Err(m) => m@ == msg,
            }
        }
    }
}

// ---------------------------------------------------------------------------
// Bridging facts between operator lists and the model's conditions.
// ---------------------------------------------------------------------------

proof fn lemma_contains1(ks: Seq<TokenType>, a: TokenType, k: TokenType)
    requires
        ks.len() == 1,
        ks[0] == a,
    ensures
        ks.contains(k) <==> k == a,
{
    if k == a {
        assert(ks[0] == k);
    }
}

proof fn lemma_contains2(ks: Seq<TokenType>, a: TokenType, b: TokenType, k: TokenType)
    requires
        ks.len() == 2,
        ks[0] == a,
        ks[1] == b,
    ensures
        ks.contains(k) <==> (k == a || k == b),
{
    if k == a {
        assert(ks[0] == k);
    }
    if k == b {
        assert(ks[1] == k);
    }
}

proof fn lemma_contains4(ks: Seq<TokenType>, a: TokenType, b: TokenType, c: TokenType,
    d: TokenType, k: TokenType)
    requires
        ks.len() == 4,
        ks[0] == a,
        ks[1] == b,
        ks[2] == c,
        ks[3] == d,
    ensures
        ks.contains(k) <==> (k == a || k == b || k == c || k == d),
{
    if k == a {
        assert(ks[0] == k);
    }
    if k == b {
        assert(ks[1] == k);
    }
    if k == c {
        assert(ks[2] == k);
    }
    if k == d {
        assert(ks[3] == k);
    }
}

// ---------------------------------------------------------------------------
// The parser.
// ---------------------------------------------------------------------------

/// The expression parser: the token sequence, read only, and a single
/// cursor index into it.
pub struct Parser {
    tokens: Vec<Token>,
    current: usize,
}

impl Parser {
    /// The models of the tokens being parsed.
    pub closed spec fn toks(self) -> Seq<SpecToken> {
        self.tokens.deep_view()
    }

    /// The cursor position.
    pub closed spec fn pos(self) -> int {
        self.current as int
    }

    /// The parser's internal consistency: the sequence is non-empty, ends
    /// with the end-of-input marker, and the cursor never passes it.
    pub closed spec fn wf(self) -> bool {
        &&& self.tokens@.len() >= 1
        &&& self.current < self.tokens@.len()
        &&& self.toks()[self.toks().len() - 1].kind == TokenType::Eof
    }

    /// A parser over a token sequence; the sequence must carry the scanner's
    /// invariant, a final end-of-input token.
    pub fn new(tokens: Vec<Token>) -> (p: Parser)
        requires
            tokens.deep_view().len() >= 1,
            tokens.deep_view()[tokens.deep_view().len() - 1].kind == TokenType::Eof,
        ensures
            p.wf(),
            p.toks() == tokens.deep_view(),
            p.pos() == 0,
    {
        Parser { tokens, current: 0 }
    }

    fn is_at_end(&self) -> (r: bool)
        requires
            self.wf(),
        ensures
            r == (self.toks()[self.pos()].kind == TokenType::Eof),
    {
        self.peek().token_type == TokenType::Eof
    }

    fn peek(&self) -> (r: &Token)
        requires
            self.wf(),
        ensures
            r@ == self.toks()[self.pos()],
    {
        &self.tokens[self.current]
    }

    fn previous(&self) -> (r: &Token)
        requires
            self.wf(),
            self.current >= 1,
        ensures
            r@ == self.toks()[self.pos() - 1],
    {
        &self.tokens[self.current - 1]
    }

    fn advance(&mut self)
        requires
            old(self).wf(),
        ensures
            final(self).wf(),
            final(self).tokens == old(self).tokens,
            final(self).pos() == (if old(self).toks()[old(self).pos()].kind == TokenType::Eof {
                old(self).pos()
            } else {
                old(self).pos() + 1
            }),
    {
        if !self.is_at_end() {
            let n = self.tokens.len();
            proof {
                assert(self.current < n);
            }
            self.current = self.current + 1;
        }
    }

    fn check(&self, token_type: TokenType) -> (r: bool)
        requires
            self.wf(),
        ensures
            r == (self.toks()[self.pos()].kind != TokenType::Eof && self.toks()[self.pos()].kind
                == token_type),
    {
        if self.is_at_end() {
            false
        } else {
            self.peek().token_type == token_type
        }
    }

    fn match_token(&mut self, kinds: &Vec<TokenType>) -> (r: bool)
        requires
            old(self).wf(),
        ensures
            final(self).wf(),
            final(self).tokens == old(self).tokens,
            r == (old(self).toks()[old(self).pos()].kind != TokenType::Eof
                && kinds@.contains(old(self).toks()[old(self).pos()].kind)),
            final(self).pos() == old(self).pos() + (if r { 1int } else { 0int }),
    {
        let ghost k = self.toks()[self.pos()].kind;
        let mut i: usize = 0;
        while i < kinds.len()
            invariant
                self.wf(),
                self.tokens == old(self).tokens,
                self.pos() == old(self).pos(),
                k == self.toks()[self.pos()].kind,
                i <= kinds@.len(),
                forall|j: int| 0 <= j < i ==> #[trigger] kinds@[j] != k || k == TokenType::Eof,
            decreases kinds@.len() - i,
        {
            if self.check(kinds[i]) {
                self.advance();
                proof {
                    assert(kinds@[i as int] == k);
                }
                return true;
            }
            i = i + 1;
        }
        proof {
            if k != TokenType::Eof && kinds@.contains(k) {
                let j = choose|j: int| 0 <= j < kinds@.len() && kinds@[j] == k;
                assert(kinds@[j] != k || k == TokenType::Eof);
            }
        }
        false
    }

    fn error(&self, message: &str) -> (r: String)
        requires
            self.wf(),
        ensures
            r@ == spec_parse_error(line_at(self.toks(), self.pos()), message@),
    {
        let line = self.peek().line;
        parse_error(line, message)
    }

    fn consume(&mut self, token_type: TokenType, message: &str) -> (r: Result<(), String>)
        requires
            old(self).wf(),
        ensures
            final(self).wf(),
            final(self).tokens == old(self).tokens,
            ({
                let k = old(self).toks()[old(self).pos()].kind;
                if k != TokenType::Eof && k == token_type {
                    r is Ok && final(self).pos() == old(self).pos() + 1
                } else {
                    r is Err && (match r {
                        Err(m) => m@ == spec_parse_error(
                            line_at(old(self).toks(), old(self).pos()),
                            message@,
                        ),
                        Ok(_) => false,
                    }) && final(self).pos() == old(self).pos()
                }
            }),
    {
        if self.check(token_type) {
            self.advance();
            Ok(())
        } else {
            Err(self.error(message))
        }
    }

    /// Parses one expression starting at the cursor; the first error aborts
    /// the parse and is returned rendered, as the model says.
    pub fn parse(&mut self) -> (r: Result<Expr, String>)
        requires
            old(self).wf(),
        ensures
            final(self).wf(),
            final(self).toks() == old(self).toks(),
            old(self).pos() <= final(self).pos(),
            parse_outcome(spec_expression(old(self).toks(), old(self).pos()), r,
                final(self).pos()),
    {
        self.expression()
    }

    pub fn expression(&mut self) -> (r: Result<Expr, String>)
        requires
            old(self).wf(),
        ensures
            final(self).wf(),
            final(self).toks() == old(self).toks(),
            old(self).pos() <= final(self).pos(),
            parse_outcome(spec_expression(old(self).toks(), old(self).pos()), r,
                final(self).pos()),
        decreases self.toks().len() - self.pos(), 11int,
    {
        self.equality()
    }

    #[verifier::rlimit(50)]
    pub fn equality(&mut self) -> (r: Result<Expr, String>)
        requires
            old(self).wf(),
        ensures
            final(self).wf(),
            final(self).toks() == old(self).toks(),
            old(self).pos() <= final(self).pos(),
            parse_outcome(spec_equality(old(self).toks(), old(self).pos()), r,
                final(self).pos()),
        decreases self.toks().len() - self.pos(), 10int,
    {
        let ghost t = old(self).toks();
        let ghost i0 = old(self).pos();
        let mut kinds: Vec<TokenType> = Vec::new();
        kinds.push(TokenType::EqualEqual);
        kinds.push(TokenType::BangEqual);
        let mut expr = self.comparison()?;
        loop
            invariant
                self.wf(),
                t == old(self).toks(),
                i0 == old(self).pos(),
                self.toks() == t,
                i0 <= self.pos(),
                kinds@.len() == 2,
                kinds@[0] == TokenType::EqualEqual,
                kinds@[1] == TokenType::BangEqual,
                spec_equality(t, i0) == spec_equality_rest(t, expr_view(expr), self.pos()),
            ensures
                self.wf(),
                self.toks() == t,
                i0 <= self.pos(),
                spec_equality(t, i0) == (ParseStep::Done {
                    expr: expr_view(expr),
                    next: self.pos(),
                }),
            decreases t.len() - self.pos(),
        {
            let ghost pos_a = self.pos();
            if !self.match_token(&kinds) {
                proof {
                    lemma_contains2(kinds@, TokenType::EqualEqual, TokenType::BangEqual,
                        t[pos_a].kind);
                }
                break;
            }
            proof {
                lemma_contains2(kinds@, TokenType::EqualEqual, TokenType::BangEqual,
                    t[pos_a].kind);
            }
            let operator = self.previous().clone();
            let right = self.comparison()?;
            expr = Expr::Binary { left: Box::new(expr), operator, right: Box::new(right) };
        }
        Ok(expr)
    }

    #[verifier::rlimit(50)]
    pub fn comparison(&mut self) -> (r: Result<Expr, String>)
        requires
            old(self).wf(),
        ensures
            final(self).wf(),
            final(self).toks() == old(self).toks(),
            old(self).pos() <= final(self).pos(),
            parse_outcome(spec_comparison(old(self).toks(), old(self).pos()), r,
                final(self).pos()),
        decreases self.toks().len() - self.pos(), 8int,
    {
        let ghost t = old(self).toks();
        let ghost i0 = old(self).pos();
        let mut kinds: Vec<TokenType> = Vec::new();
        kinds.push(TokenType::Greater);
        kinds.push(TokenType::GreaterEqual);
        kinds.push(TokenType::Less);
        kinds.push(TokenType::LessEqual);
        let mut expr = self.term()?;
        loop
            invariant
                self.wf(),
                t == old(self).toks(),
                i0 == old(self).pos(),
                self.toks() == t,
                i0 <= self.pos(),
                kinds@.len() == 4,
                kinds@[0] == TokenType::Greater,
                kinds@[1] == TokenType::GreaterEqual,
                kinds@[2] == TokenType::Less,
                kinds@[3] == TokenType::LessEqual,
                spec_comparison(t, i0) == spec_comparison_rest(t, expr_view(expr), self.pos()),
            ensures
                self.wf(),
                self.toks() == t,
                i0 <= self.pos(),
                spec_comparison(t, i0) == (ParseStep::Done {
                    expr: expr_view(expr),
                    next: self.pos(),
                }),
            decreases t.len() - self.pos(),
        {
            let ghost pos_a = self.pos();
            if !self.match_token(&kinds) {
                proof {
                    lemma_contains4(kinds@, TokenType::Greater, TokenType::GreaterEqual,
                        TokenType::Less, TokenType::LessEqual, t[pos_a].kind);
                }
                break;
            }
            proof {
                lemma_contains4(kinds@, TokenType::Greater, TokenType::GreaterEqual,
                    TokenType::Less, TokenType::LessEqual, t[pos_a].kind);
            }
            let operator = self.previous().clone();
            let right = self.term()?;
            expr = Expr::Binary { left: Box::new(expr), operator, right: Box::new(right) };
        }
        Ok(expr)
    }

    #[verifier::rlimit(50)]
    pub fn term(&mut self) -> (r: Result<Expr, String>)
        requires
            old(self).wf(),
        ensures
            final(self).wf(),
            final(self).toks() == old(self).toks(),
            old(self).pos() <= final(self).pos(),
            parse_outcome(spec_term(old(self).toks(), old(self).pos()), r, final(self).pos()),
        decreases self.toks().len() - self.pos(), 6int,
    {
        let ghost t = old(self).toks();
        let ghost i0 = old(self).pos();
        let mut kinds: Vec<TokenType> = Vec::new();
        kinds.push(TokenType::Plus);
        kinds.push(TokenType::Minus);
        let mut expr = self.factor()?;
        loop
            invariant
                self.wf(),
                t == old(self).toks(),
                i0 == old(self).pos(),
                self.toks() == t,
                i0 <= self.pos(),
                kinds@.len() == 2,
                kinds@[0] == TokenType::Plus,
                kinds@[1] == TokenType::Minus,
                spec_term(t, i0) == spec_term_rest(t, expr_view(expr), self.pos()),
            ensures
                self.wf(),
                self.toks() == t,
                i0 <= self.pos(),
                spec_term(t, i0) == (ParseStep::Done {
                    expr: expr_view(expr),
                    next: self.pos(),
                }),
            decreases t.len() - self.pos(),
        {
            let ghost pos_a = self.pos();
            if !self.match_token(&kinds) {
                proof {
                    lemma_contains2(kinds@, TokenType::Plus, TokenType::Minus, t[pos_a].kind);
                }
                break;
            }
            proof {
                lemma_contains2(kinds@, TokenType::Plus, TokenType::Minus, t[pos_a].kind);
            }
            let operator = self.previous().clone();
            let right = self.factor()?;
            expr = Expr::Binary { left: Box::new(expr), operator, right: Box::new(right) };
        }
        Ok(expr)
    }

    #[verifier::rlimit(50)]
    pub fn factor(&mut self) -> (r: Result<Expr, String>)
        requires
            old(self).wf(),
        ensures
            final(self).wf(),
            final(self).toks() == old(self).toks(),
            old(self).pos() <= final(self).pos(),
            parse_outcome(spec_factor(old(self).toks(), old(self).pos()), r, final(self).pos()),
        decreases self.toks().len() - self.pos(), 4int,
    {
        let ghost t = old(self).toks();
        let ghost i0 = old(self).pos();
        let mut kinds: Vec<TokenType> = Vec::new();
        kinds.push(TokenType::Star);
        kinds.push(TokenType::Slash);
        let mut expr = self.unary()?;
        loop
            invariant
                self.wf(),
                t == old(self).toks(),
                i0 == old(self).pos(),
                self.toks() == t,
                i0 <= self.pos(),
                kinds@.len() == 2,
                kinds@[0] == TokenType::Star,
                kinds@[1] == TokenType::Slash,
                spec_factor(t, i0) == spec_factor_rest(t, expr_view(expr), self.pos()),
            ensures
                self.wf(),
                self.toks() == t,
                i0 <= self.pos(),
                spec_factor(t, i0) == (ParseStep::Done {
                    expr: expr_view(expr),
                    next: self.pos(),
                }),
            decreases t.len() - self.pos(),
        {
            let ghost pos_a = self.pos();
            if !self.match_token(&kinds) {
                proof {
                    lemma_contains2(kinds@, TokenType::Star, TokenType::Slash, t[pos_a].kind);
                }
                break;
            }
            proof {
                lemma_contains2(kinds@, TokenType::Star, TokenType::Slash, t[pos_a].kind);
            }
            let operator = self.previous().clone();
            let right = self.unary()?;
            expr = Expr::Binary { left: Box::new(expr), operator, right: Box::new(right) };
        }
        Ok(expr)
    }

    pub fn unary(&mut self) -> (r: Result<Expr, String>)
        requires
            old(self).wf(),
        ensures
            final(self).wf(),
            final(self).toks() == old(self).toks(),
            old(self).pos() <= final(self).pos(),
            parse_outcome(spec_unary(old(self).toks(), old(self).pos()), r, final(self).pos()),
        decreases self.toks().len() - self.pos(), 2int,
    {
        let ghost t = old(self).toks();
        let ghost i0 = old(self).pos();
        let mut kinds: Vec<TokenType> = Vec::new();
        kinds.push(TokenType::Bang);
        kinds.push(TokenType::Minus);
        if self.match_token(&kinds) {
            proof {
                lemma_contains2(kinds@, TokenType::Bang, TokenType::Minus, t[i0].kind);
            }
            let operator = self.previous().clone();
            let right = self.unary()?;
            return Ok(Expr::Unary { operator, right: Box::new(right) });
        }
        proof {
            lemma_contains2(kinds@, TokenType::Bang, TokenType::Minus, t[i0].kind);
        }
        self.primary()
    }

    pub fn primary(&mut self) -> (r: Result<Expr, String>)
        requires
            old(self).wf(),
        ensures
            final(self).wf(),
            final(self).toks() == old(self).toks(),
            old(self).pos() <= final(self).pos(),
            parse_outcome(spec_primary(old(self).toks(), old(self).pos()), r, final(self).pos()),
        decreases self.toks().len() - self.pos(), 1int,
    {
        let ghost t = old(self).toks();
        let ghost i0 = old(self).pos();
        let mut literal_kinds: Vec<TokenType> = Vec::new();
        literal_kinds.push(TokenType::Number);
        literal_kinds.push(TokenType::Str);
        if self.match_token(&literal_kinds) {
            proof {
                lemma_contains2(literal_kinds@, TokenType::Number, TokenType::Str, t[i0].kind);
            }
            let value = self.previous().lexeme.clone();
            return Ok(Expr::Literal { value });
        }
        proof {
            lemma_contains2(literal_kinds@, TokenType::Number, TokenType::Str, t[i0].kind);
        }
        if self.check(TokenType::True) {
            self.advance();
            return Ok(Expr::Literal { value: "true".to_owned() });
        }
        if self.check(TokenType::False) {
            self.advance();
            return Ok(Expr::Literal { value: "false".to_owned() });
        }
        if self.check(TokenType::Nil) {
            self.advance();
            return Ok(Expr::Literal { value: "nil".to_owned() });
        }
        if self.check(TokenType::LParen) {
            self.advance();
            let expr = self.expression()?;
            match self.consume(TokenType::RParen, "Expect ')' after expression.") {
                Ok(_) => {}
                Err(m) => {
                    return Err(m);
                }
            }
            return Ok(Expr::Grouping { expression: Box::new(expr) });
        }
        Err(self.error("Expect expression."))
    }
}

} // verus!
