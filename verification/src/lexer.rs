//! The lexical scanner: a single pass over the source text that produces a
//! token sequence terminated by an end-of-input marker, together with a list
//! of lexical error records.
//!
//! The scanner is specified against a functional model: `scan_step` gives the
//! effect of classifying one input element at a cursor position, and
//! `scan_from` folds steps over the rest of the text. `spec_scan` is the
//! model of a whole scan, end-of-input token included.

use vstd::prelude::*;
use vstd::string::StrSliceExecFns;
use vstd::string::StringExecFns;
use crate::text::{
    is_digit_char, is_alpha_char, is_alnum_char, is_digit, is_alpha, is_alpha_numeric,
    spec_line_error, line_error, push_char,
};
use crate::token::{Token, TokenType, TokenLiteral, SpecToken, SpecLiteral, spec_keyword,
    keyword_token_type};

verus! {

// ---------------------------------------------------------------------------
// The functional model of scanning.
// ---------------------------------------------------------------------------

/// Whitespace that is discarded between tokens (the newline also advances
/// the line counter).
pub open spec fn is_space_char(c: char) -> bool {
    c == ' ' || c == '\r' || c == '\t' || c == '\n'
}

/// The end of a maximal run of digits starting at `i`.
pub open spec fn digits_end(s: Seq<char>, i: int) -> int
    decreases s.len() - i,
{
    if i < s.len() && is_digit_char(s[i]) {
        digits_end(s, i + 1)
    } else {
        i
    }
}

/// The end of a maximal run of identifier characters starting at `i`.
pub open spec fn ident_end(s: Seq<char>, i: int) -> int
    decreases s.len() - i,
{
    if i < s.len() && is_alnum_char(s[i]) {
        ident_end(s, i + 1)
    } else {
        i
    }
}

/// The cursor position where a single-line comment ends: the next newline,
/// which is not consumed, or the end of input.
pub open spec fn line_comment_end(s: Seq<char>, i: int) -> int
    decreases s.len() - i,
{
    if i < s.len() && s[i] != '\n' {
        line_comment_end(s, i + 1)
    } else {
        i
    }
}

/// The position of the closing quote of a string body starting at `i`, or
/// the end of input if there is none.
pub open spec fn string_body_end(s: Seq<char>, i: int) -> int
    decreases s.len() - i,
{
    if i < s.len() && s[i] != '"' {
        string_body_end(s, i + 1)
    } else {
        i
    }
}

/// The cursor position after a multi-line comment body starting at `i`:
/// just past the closing `*/`, or the end of input if it never closes.
pub open spec fn block_comment_end(s: Seq<char>, i: int) -> int
    decreases s.len() - i,
{
    if i < s.len() {
        if s[i] == '*' && i + 1 < s.len() && s[i + 1] == '/' {
            i + 2
        } else {
            block_comment_end(s, i + 1)
        }
    } else {
        i
    }
}

/// Whether a multi-line comment body starting at `i` reaches a closing `*/`.
pub open spec fn block_comment_terminated(s: Seq<char>, i: int) -> bool
    decreases s.len() - i,
{
    if i < s.len() {
        if s[i] == '*' && i + 1 < s.len() && s[i + 1] == '/' {
            true
        } else {
            block_comment_terminated(s, i + 1)
        }
    } else {
        false
    }
}

/// The number of newline characters in `s[i..j]`.
pub open spec fn newlines_in(s: Seq<char>, i: int, j: int) -> int
    decreases j - i,
{
    if i < j {
        (if s[i] == '\n' { 1int } else { 0int }) + newlines_in(s, i + 1, j)
    } else {
        0
    }
}

/// The effect of one scanning step: the cursor and line counter after it,
/// and the token or error record it contributes, if any.
pub struct ScanStep {
    pub end: int,
    pub line: int,
    pub token: Option<SpecToken>,
    pub error: Option<Seq<char>>,
}

/// A step that emits a token spanning `s[i..end]`.
pub open spec fn token_step(s: Seq<char>, i: int, line: int, end: int, kind: TokenType,
    literal: SpecLiteral) -> ScanStep {
    ScanStep {
        end,
        line,
        token: Some(SpecToken { kind, lexeme: s.subrange(i, end), line: line as nat, literal }),
        error: None,
    }
}

/// A step for a character that may combine with a following `=`.
pub open spec fn two_char_step(s: Seq<char>, i: int, line: int, single: TokenType,
    combined: TokenType) -> ScanStep {
    if i + 1 < s.len() && s[i + 1] == '=' {
        token_step(s, i, line, i + 2, combined, SpecLiteral::Absent)
    } else {
        token_step(s, i, line, i + 1, single, SpecLiteral::Absent)
    }
}

/// The step taken when the cursor stands on `/`: a single-line comment, a
/// multi-line comment, or the division operator.
pub open spec fn slash_step(s: Seq<char>, i: int, line: int) -> ScanStep {
    if i + 1 < s.len() && s[i + 1] == '/' {
        ScanStep { end: line_comment_end(s, i + 2), line, token: None, error: None }
    } else if i + 1 < s.len() && s[i + 1] == '*' {
        let e = block_comment_end(s, i + 2);
        let l2 = line + newlines_in(s, i + 2, e);
        ScanStep {
            end: e,
            line: l2,
            token: None,
            error: if block_comment_terminated(s, i + 2) {
                None
            } else {
                Some(spec_line_error(l2 as nat, "Unterminated multi-line comment."@))
            },
        }
    } else {
        token_step(s, i, line, i + 1, TokenType::Slash, SpecLiteral::Absent)
    }
}

/// The step taken when the cursor stands on the opening quote of a string.
pub open spec fn string_step(s: Seq<char>, i: int, line: int) -> ScanStep {
    let e = string_body_end(s, i + 1);
    let l2 = line + newlines_in(s, i + 1, e);
    if e < s.len() {
        ScanStep {
            end: e + 1,
            line: l2,
            token: Some(SpecToken {
                kind: TokenType::Str,
                lexeme: s.subrange(i, e + 1),
                line: line as nat,
                literal: SpecLiteral::StringText(s.subrange(i + 1, e)),
            }),
            error: None,
        }
    } else {
        ScanStep {
            end: e,
            line: l2,
            token: None,
            error: Some(spec_line_error(l2 as nat, "Unterminated string."@)),
        }
    }
}

/// The step taken when the cursor stands on a digit: a maximal run of
/// digits, optionally a fraction, whose `.` is only consumed when a digit
/// follows it.
pub open spec fn number_step(s: Seq<char>, i: int, line: int) -> ScanStep {
    let e1 = digits_end(s, i + 1);
    let e = if e1 < s.len() && s[e1] == '.' && e1 + 1 < s.len() && is_digit_char(s[e1 + 1]) {
        digits_end(s, e1 + 1)
    } else {
        e1
    };
    token_step(s, i, line, e, TokenType::Number, SpecLiteral::NumberText(s.subrange(i, e)))
}

/// The step taken when the cursor stands on a letter or underscore: a
/// maximal identifier run, looked up in the keyword table.
pub open spec fn ident_step(s: Seq<char>, i: int, line: int) -> ScanStep {
    let e = ident_end(s, i + 1);
    token_step(s, i, line, e, spec_keyword(s.subrange(i, e)), SpecLiteral::Absent)
}

/// One scanning step at cursor `i` (with `0 <= i < s.len()`) and line
/// counter `line`: classifies `s[i]` and gives the step's whole effect.
pub open spec fn scan_step(s: Seq<char>, i: int, line: int) -> ScanStep {
    let c = s[i];
    if c == '(' {
        token_step(s, i, line, i + 1, TokenType::LParen, SpecLiteral::Absent)
    } else if c == ')' {
        token_step(s, i, line, i + 1, TokenType::RParen, SpecLiteral::Absent)
    } else if c == '{' {
        token_step(s, i, line, i + 1, TokenType::LBrace, SpecLiteral::Absent)
    } else if c == '}' {
        token_step(s, i, line, i + 1, TokenType::RBrace, SpecLiteral::Absent)
    } else if c == ',' {
        token_step(s, i, line, i + 1, TokenType::Comma, SpecLiteral::Absent)
    } else if c == '.' {
        token_step(s, i, line, i + 1, TokenType::Dot, SpecLiteral::Absent)
    } else if c == '-' {
        token_step(s, i, line, i + 1, TokenType::Minus, SpecLiteral::Absent)
    } else if c == '+' {
        token_step(s, i, line, i + 1, TokenType::Plus, SpecLiteral::Absent)
    } else if c == ';' {
        token_step(s, i, line, i + 1, TokenType::SemiColon, SpecLiteral::Absent)
    } else if c == '*' {
        token_step(s, i, line, i + 1, TokenType::Star, SpecLiteral::Absent)
    } else if c == '!' {
        two_char_step(s, i, line, TokenType::Bang, TokenType::BangEqual)
    } else if c == '=' {
        two_char_step(s, i, line, TokenType::Equal, TokenType::EqualEqual)
    } else if c == '<' {
        two_char_step(s, i, line, TokenType::Less, TokenType::LessEqual)
    } else if c == '>' {
        two_char_step(s, i, line, TokenType::Greater, TokenType::GreaterEqual)
    } else if c == '/' {
        slash_step(s, i, line)
    } else if c == ' ' || c == '\r' || c == '\t' {
        ScanStep { end: i + 1, line, token: None, error: None }
    } else if c == '\n' {
        ScanStep { end: i + 1, line: line + 1, token: None, error: None }
    } else if c == '"' {
        string_step(s, i, line)
    } else if is_digit_char(c) {
        number_step(s, i, line)
    } else if is_alpha_char(c) {
        ident_step(s, i, line)
    } else {
        ScanStep {
            end: i + 1,
            line,
            token: None,
            error: Some(spec_line_error(line as nat, "Unexpected character: "@.push(c))),
        }
    }
}

/// The source span one step consumed, and what it contributed.
pub struct ScanItem {
    pub start: int,
    pub end: int,
    pub token: Option<SpecToken>,
    pub error: Option<Seq<char>>,
}

/// A whole scan from a cursor position: the consumed spans, the tokens and
/// error records in order, and the final line counter.
pub struct ScanTrace {
    pub items: Seq<ScanItem>,
    pub tokens: Seq<SpecToken>,
    pub errors: Seq<Seq<char>>,
    pub end_line: int,
}

/// A singleton or empty sequence from an optional value.
pub open spec fn opt_seq<A>(o: Option<A>) -> Seq<A> {
    match o {
        Some(a) => seq![a],
        None => seq![],
    }
}

/// Folds scanning steps over `s[i..]`. The cursor advance is clamped so the
/// recursion is visibly bounded; `lemma_scan_step_bounds` shows the clamp
/// never takes effect.
pub open spec fn scan_from(s: Seq<char>, i: int, line: int) -> ScanTrace
    decreases s.len() - i,
{
    if 0 <= i < s.len() {
        let st = scan_step(s, i, line);
        let e = if i < st.end <= s.len() { st.end } else { i + 1 };
        let rest = scan_from(s, e, st.line);
        ScanTrace {
            items: seq![ScanItem { start: i, end: e, token: st.token, error: st.error }]
                + rest.items,
            tokens: opt_seq(st.token) + rest.tokens,
            errors: opt_seq(st.error) + rest.errors,
            end_line: rest.end_line,
        }
    } else {
        ScanTrace { items: seq![], tokens: seq![], errors: seq![], end_line: line }
    }
}

/// The end-of-input token: empty lexeme, no literal, the final line number.
pub open spec fn eof_token(line: int) -> SpecToken {
    SpecToken {
        kind: TokenType::Eof,
        lexeme: seq![],
        line: line as nat,
        literal: SpecLiteral::Absent,
    }
}

/// The model of a whole scan of `s`: the trace of `s` from line 1, with the
/// end-of-input token appended.
pub open spec fn spec_scan(s: Seq<char>) -> ScanTrace {
    let t = scan_from(s, 0, 1);
    ScanTrace {
        items: t.items,
        tokens: t.tokens.push(eof_token(t.end_line)),
        errors: t.errors,
        end_line: t.end_line,
    }
}

// ---------------------------------------------------------------------------
// Properties of the helper scans.
// ---------------------------------------------------------------------------

/// What a maximal digit run looks like.
pub proof fn lemma_digits_end(s: Seq<char>, i: int)
    requires
        0 <= i <= s.len(),
    ensures
        i <= digits_end(s, i) <= s.len(),
        forall|k: int| i <= k < digits_end(s, i) ==> is_digit_char(#[trigger] s[k]),
        digits_end(s, i) == s.len() || !is_digit_char(s[digits_end(s, i)]),
    decreases s.len() - i,
{
    if i < s.len() && is_digit_char(s[i]) {
        lemma_digits_end(s, i + 1);
    }
}

/// A run known to consist of digits and to stop at `e` is the maximal run.
pub proof fn lemma_digits_end_exact(s: Seq<char>, i: int, e: int)
    requires
        0 <= i <= e <= s.len(),
        forall|k: int| i <= k < e ==> is_digit_char(#[trigger] s[k]),
        e == s.len() || !is_digit_char(s[e]),
    ensures
        digits_end(s, i) == e,
    decreases e - i,
{
    if i < e {
        lemma_digits_end_exact(s, i + 1, e);
    }
}

/// What a maximal identifier run looks like.
pub proof fn lemma_ident_end(s: Seq<char>, i: int)
    requires
        0 <= i <= s.len(),
    ensures
        i <= ident_end(s, i) <= s.len(),
        forall|k: int| i <= k < ident_end(s, i) ==> is_alnum_char(#[trigger] s[k]),
        ident_end(s, i) == s.len() || !is_alnum_char(s[ident_end(s, i)]),
    decreases s.len() - i,
{
    if i < s.len() && is_alnum_char(s[i]) {
        lemma_ident_end(s, i + 1);
    }
}

/// A run known to consist of identifier characters and to stop at `e` is
/// the maximal run.
pub proof fn lemma_ident_end_exact(s: Seq<char>, i: int, e: int)
    requires
        0 <= i <= e <= s.len(),
        forall|k: int| i <= k < e ==> is_alnum_char(#[trigger] s[k]),
        e == s.len() || !is_alnum_char(s[e]),
    ensures
        ident_end(s, i) == e,
    decreases e - i,
{
    if i < e {
        lemma_ident_end_exact(s, i + 1, e);
    }
}

/// A single-line comment runs to the next newline or the end of input.
pub proof fn lemma_line_comment_end(s: Seq<char>, i: int)
    requires
        0 <= i <= s.len(),
    ensures
        i <= line_comment_end(s, i) <= s.len(),
        forall|k: int| i <= k < line_comment_end(s, i) ==> #[trigger] s[k] != '\n',
        line_comment_end(s, i) == s.len() || s[line_comment_end(s, i)] == '\n',
    decreases s.len() - i,
{
    if i < s.len() && s[i] != '\n' {
        lemma_line_comment_end(s, i + 1);
    }
}

/// A string body runs to the next quote or the end of input.
pub proof fn lemma_string_body_end(s: Seq<char>, i: int)
    requires
        0 <= i <= s.len(),
    ensures
        i <= string_body_end(s, i) <= s.len(),
        forall|k: int| i <= k < string_body_end(s, i) ==> #[trigger] s[k] != '"',
        string_body_end(s, i) == s.len() || s[string_body_end(s, i)] == '"',
    decreases s.len() - i,
{
    if i < s.len() && s[i] != '"' {
        lemma_string_body_end(s, i + 1);
    }
}

/// A body known to be free of quotes up to a quote at `e` stops there.
pub proof fn lemma_string_body_end_exact(s: Seq<char>, i: int, e: int)
    requires
        0 <= i <= e <= s.len(),
        forall|k: int| i <= k < e ==> #[trigger] s[k] != '"',
        e == s.len() || s[e] == '"',
    ensures
        string_body_end(s, i) == e,
    decreases e - i,
{
    if i < e {
        lemma_string_body_end_exact(s, i + 1, e);
    }
}

/// Bounds for the end of a multi-line comment body.
pub proof fn lemma_block_comment_end(s: Seq<char>, i: int)
    requires
        0 <= i <= s.len(),
    ensures
        i <= block_comment_end(s, i) <= s.len(),
        !block_comment_terminated(s, i) ==> block_comment_end(s, i) == s.len(),
    decreases s.len() - i,
{
    if i < s.len() {
        if !(s[i] == '*' && i + 1 < s.len() && s[i + 1] == '/') {
            lemma_block_comment_end(s, i + 1);
        }
    }
}

/// Newline counts are non-negative and grow one position at a time.
pub proof fn lemma_newlines_snoc(s: Seq<char>, i: int, j: int)
    requires
        i <= j,
    ensures
        newlines_in(s, i, j + 1) == newlines_in(s, i, j) + (if s[j] == '\n' { 1int } else { 0int }),
    decreases j - i,
{
    if i < j {
        lemma_newlines_snoc(s, i + 1, j);
    } else {
        reveal_with_fuel(newlines_in, 2);
    }
}

/// Every scanning step consumes at least one character and stays within the
/// source, so the clamp in `scan_from` never changes the cursor.
pub proof fn lemma_scan_step_bounds(s: Seq<char>, i: int, line: int)
    requires
        0 <= i < s.len(),
    ensures
        i < scan_step(s, i, line).end <= s.len(),
    decreases s.len() - i,
{
    let c = s[i];
    if c == '/' {
        if i + 1 < s.len() && s[i + 1] == '/' {
            lemma_line_comment_end(s, i + 2);
        } else if i + 1 < s.len() && s[i + 1] == '*' {
            lemma_block_comment_end(s, i + 2);
        }
    } else if c == '"' {
        lemma_string_body_end(s, i + 1);
    } else if is_digit_char(c) {
        lemma_digits_end(s, i + 1);
        let e1 = digits_end(s, i + 1);
        if e1 < s.len() && s[e1] == '.' && e1 + 1 < s.len() && is_digit_char(s[e1 + 1]) {
            lemma_digits_end(s, e1 + 1);
        }
    } else if is_alpha_char(c) {
        lemma_ident_end(s, i + 1);
    }
}

// ---------------------------------------------------------------------------
// Laws of the scan.
// ---------------------------------------------------------------------------

/// The text of a sequence of consumed spans, in order.
pub open spec fn items_text(s: Seq<char>, items: Seq<ScanItem>) -> Seq<char>
    decreases items.len(),
{
    if items.len() == 0 {
        seq![]
    } else {
        s.subrange(items[0].start, items[0].end) + items_text(s, items.drop_first())
    }
}

/// A span the scanner may discard without reporting: one whitespace
/// character, or a comment (it opens with `//` or `/*`).
pub open spec fn skip_span(s: Seq<char>, it: ScanItem) -> bool {
    ||| (it.end == it.start + 1 && is_space_char(s[it.start]))
    ||| (it.start + 2 <= it.end && s[it.start] == '/' && (s[it.start + 1] == '/' || s[it.start
        + 1] == '*'))
}

/// What holds of every consumed span: it is non-empty and lies within the
/// source; a span that produced a token is exactly that token's lexeme; any
/// other span is whitespace, a comment, or had an error reported for it.
pub open spec fn item_ok(s: Seq<char>, it: ScanItem) -> bool {
    &&& 0 <= it.start < it.end <= s.len()
    &&& (match it.token {
        Some(t) => t.lexeme == s.subrange(it.start, it.end),
        None => it.error is Some || skip_span(s, it),
    })
}

proof fn lemma_step_item_ok(s: Seq<char>, i: int, line: int)
    requires
        0 <= i < s.len(),
    ensures
        ({
            let st = scan_step(s, i, line);
            let it = ScanItem { start: i, end: st.end, token: st.token, error: st.error };
            item_ok(s, it)
        }),
{
    lemma_scan_step_bounds(s, i, line);
    let c = s[i];
    if c == '/' {
        if i + 1 < s.len() && s[i + 1] == '/' {
            lemma_line_comment_end(s, i + 2);
        } else if i + 1 < s.len() && s[i + 1] == '*' {
            lemma_block_comment_end(s, i + 2);
        }
    }
}

proof fn lemma_scan_from_spans(s: Seq<char>, i: int, line: int)
    requires
        0 <= i <= s.len(),
    ensures
        items_text(s, scan_from(s, i, line).items) == s.subrange(i, s.len() as int),
        forall|k: int| 0 <= k < scan_from(s, i, line).items.len() ==> item_ok(
            s,
            #[trigger] scan_from(s, i, line).items[k],
        ),
    decreases s.len() - i,
{
    let tr = scan_from(s, i, line);
    if i < s.len() {
        let st = scan_step(s, i, line);
        lemma_scan_step_bounds(s, i, line);
        lemma_step_item_ok(s, i, line);
        let e = st.end;
        let rest = scan_from(s, e, st.line);
        lemma_scan_from_spans(s, e, st.line);
        let it0 = ScanItem { start: i, end: e, token: st.token, error: st.error };
        assert(tr.items == seq![it0] + rest.items);
        assert(tr.items.drop_first() =~= rest.items);
        assert(items_text(s, tr.items) == s.subrange(i, e) + items_text(s, rest.items));
        assert(s.subrange(i, e) + s.subrange(e, s.len() as int) =~= s.subrange(
            i,
            s.len() as int,
        ));
        assert forall|k: int| 0 <= k < tr.items.len() implies item_ok(
            s,
            #[trigger] tr.items[k],
        ) by {
            if k == 0 {
                assert(tr.items[0] == it0);
            } else {
                assert(tr.items[k] == rest.items[k - 1]);
            }
        }
    } else {
        assert(s.subrange(i, s.len() as int) =~= Seq::<char>::empty());
    }
}

/// The lexer loses nothing but whitespace and comments: the spans its steps
/// consume tile the whole source, a span that produced a token reads back
/// as exactly that token's lexeme, and every remaining span is a whitespace
/// character, a comment, or a span for which an error was reported. So the
/// token lexemes, concatenated in order with the discarded spans put back
/// between them, reconstruct the source.
pub proof fn lemma_scan_reconstruction(s: Seq<char>)
    ensures
        items_text(s, spec_scan(s).items) == s,
        forall|k: int| 0 <= k < spec_scan(s).items.len() ==> item_ok(
            s,
            #[trigger] spec_scan(s).items[k],
        ),
{
    lemma_scan_from_spans(s, 0, 1);
    assert(s.subrange(0, s.len() as int) =~= s);
}

/// A token re-lexes to itself: scanning its lexeme alone yields a first
/// token of the same kind with the same literal.
pub open spec fn relexes(t: SpecToken) -> bool {
    let tk = spec_scan(t.lexeme).tokens;
    &&& tk.len() >= 1
    &&& tk[0].kind == t.kind
    &&& tk[0].literal == t.literal
}

/// A lexeme whose first scanning step consumes all of it and emits a token
/// scans to exactly that token.
proof fn lemma_single_token_scan(lex: Seq<char>, t0: SpecToken)
    requires
        lex.len() >= 1,
        scan_step(lex, 0, 1).token == Some(t0),
        scan_step(lex, 0, 1).end == lex.len(),
    ensures
        spec_scan(lex).tokens.len() >= 1,
        spec_scan(lex).tokens[0] == t0,
{
    lemma_scan_step_bounds(lex, 0, 1);
    let st = scan_step(lex, 0, 1);
    let rest = scan_from(lex, lex.len() as int, st.line);
    assert(rest.tokens =~= Seq::<SpecToken>::empty());
    assert(scan_from(lex, 0, 1).tokens == opt_seq(st.token) + rest.tokens);
    assert((seq![t0] + rest.tokens)[0] == t0);
}

proof fn lemma_step_token_relexes(s: Seq<char>, i: int, line: int)
    requires
        0 <= i < s.len(),
    ensures
        ({
            match scan_step(s, i, line).token {
                Some(t) => relexes(t),
                None => true,
            }
        }),
{
    lemma_scan_step_bounds(s, i, line);
    let st = scan_step(s, i, line);
    let c = s[i];
    if st.token is Some {
        let t = st.token->0;
        let lex = t.lexeme;
        let n = st.end - i;
        assert(lex == s.subrange(i, st.end)) by {
            lemma_step_item_ok(s, i, line);
        }
        assert(lex.len() == n);
        assert(lex[0] == c);
        if c == '"' {
            // A string token: the body has no quote and the last character
            // is the closing quote, so the lexeme re-scans as one string.
            let e = string_body_end(s, i + 1);
            lemma_string_body_end(s, i + 1);
            assert(e < s.len() && s[e] == '"');
            assert(n == e + 1 - i);
            assert(lex[n - 1] == '"');
            assert forall|k: int| 1 <= k < n - 1 implies #[trigger] lex[k] != '"' by {
                assert(lex[k] == s[i + k]);
            }
            lemma_string_body_end_exact(lex, 1, n - 1);
            let st2 = scan_step(lex, 0, 1);
            assert(st2 == string_step(lex, 0, 1));
            assert(st2.end == n);
            let t2 = st2.token->0;
            assert(t2.kind == TokenType::Str);
            assert(t2.literal == SpecLiteral::StringText(lex.subrange(1, n - 1)));
            assert(lex.subrange(1, n - 1) =~= s.subrange(i + 1, e));
            lemma_single_token_scan(lex, t2);
        } else if is_digit_char(c) {
            // A number token: digits, optionally a fraction; the maximal
            // runs fall at the same relative places in the lexeme.
            let e1 = digits_end(s, i + 1);
            lemma_digits_end(s, i + 1);
            if e1 < s.len() && s[e1] == '.' && e1 + 1 < s.len() && is_digit_char(s[e1 + 1]) {
                let e = digits_end(s, e1 + 1);
                lemma_digits_end(s, e1 + 1);
                assert(st.end == e);
                assert forall|k: int| 1 <= k < e1 - i implies is_digit_char(
                    #[trigger] lex[k],
                ) by {
                    assert(lex[k] == s[i + k]);
                }
                assert(lex[e1 - i] == '.');
                lemma_digits_end_exact(lex, 1, e1 - i);
                assert forall|k: int| e1 - i + 1 <= k < n implies is_digit_char(
                    #[trigger] lex[k],
                ) by {
                    assert(lex[k] == s[i + k]);
                }
                lemma_digits_end_exact(lex, e1 - i + 1, n);
                let st2 = scan_step(lex, 0, 1);
                assert(st2 == number_step(lex, 0, 1));
                assert(st2.end == n);
                let t2 = st2.token->0;
                assert(t2.kind == TokenType::Number);
                assert(lex.subrange(0, n) =~= lex);
                assert(t2.literal == SpecLiteral::NumberText(lex));
                assert(t.literal == SpecLiteral::NumberText(lex));
                lemma_single_token_scan(lex, t2);
            } else {
                assert(st.end == e1);
                assert(e1 - i == n);
                assert forall|k: int| 1 <= k < n implies is_digit_char(#[trigger] lex[k]) by {
                    assert(lex[k] == s[i + k]);
                }
                lemma_digits_end_exact(lex, 1, n);
                let st2 = scan_step(lex, 0, 1);
                assert(st2 == number_step(lex, 0, 1));
                assert(st2.end == n);
                let t2 = st2.token->0;
                assert(t2.kind == TokenType::Number);
                assert(lex.subrange(0, n) =~= lex);
                assert(t2.literal == SpecLiteral::NumberText(lex));
                assert(t.literal == SpecLiteral::NumberText(lex));
                lemma_single_token_scan(lex, t2);
            }
        } else if is_alpha_char(c) {
            // An identifier or keyword: the whole lexeme is one maximal
            // identifier run, and the keyword table sees the same text.
            let e = ident_end(s, i + 1);
            lemma_ident_end(s, i + 1);
            assert forall|k: int| 1 <= k < n implies is_alnum_char(#[trigger] lex[k]) by {
                assert(lex[k] == s[i + k]);
            }
            lemma_ident_end_exact(lex, 1, n);
            let st2 = scan_step(lex, 0, 1);
            assert(st2 == ident_step(lex, 0, 1));
            assert(st2.end == n);
            let t2 = st2.token->0;
            assert(lex.subrange(0, n) =~= lex);
            assert(t2.kind == spec_keyword(lex));
            assert(t.kind == spec_keyword(lex));
            lemma_single_token_scan(lex, t2);
        } else {
            // Punctuation and operators: one or two fixed characters that
            // re-scan by the same branch.
            if n == 2 {
                assert(lex[1] == s[i + 1]);
            }
            let st2 = scan_step(lex, 0, 1);
            assert(st2.end == n && st2.token is Some);
            let t2 = st2.token->0;
            assert(t2.kind == t.kind && t2.literal == t.literal);
            lemma_single_token_scan(lex, t2);
        }
    }
}

proof fn lemma_scan_from_relexes(s: Seq<char>, i: int, line: int)
    requires
        0 <= i <= s.len(),
    ensures
        forall|k: int| 0 <= k < scan_from(s, i, line).tokens.len() ==> relexes(
            #[trigger] scan_from(s, i, line).tokens[k],
        ),
    decreases s.len() - i,
{
    if i < s.len() {
        let st = scan_step(s, i, line);
        lemma_scan_step_bounds(s, i, line);
        lemma_step_token_relexes(s, i, line);
        let rest = scan_from(s, st.end, st.line);
        lemma_scan_from_relexes(s, st.end, st.line);
        let tr = scan_from(s, i, line);
        assert(tr.tokens == opt_seq(st.token) + rest.tokens);
        assert forall|k: int| 0 <= k < tr.tokens.len() implies relexes(
            #[trigger] tr.tokens[k],
        ) by {
            match st.token {
                Some(t) => {
                    if k == 0 {
                        assert(tr.tokens[0] == t);
                    } else {
                        assert(tr.tokens[k] == rest.tokens[k - 1]);
                    }
                }
                None => {
                    assert(tr.tokens[k] == rest.tokens[k]);
                }
            }
        }
    }
}

/// Re-lexing is idempotent: every token a scan produces, the end-of-input
/// marker included, re-lexes from its own lexeme to a first token of the
/// same kind with the same literal.
pub proof fn lemma_relex_token(s: Seq<char>, k: int)
    requires
        0 <= k < spec_scan(s).tokens.len(),
    ensures
        relexes(spec_scan(s).tokens[k]),
{
    let tr = scan_from(s, 0, 1);
    lemma_scan_from_relexes(s, 0, 1);
    if k < tr.tokens.len() {
        assert(spec_scan(s).tokens[k] == tr.tokens[k]);
    } else {
        // The end-of-input token: its lexeme is empty, and scanning the
        // empty text yields exactly the end-of-input token again.
        let t = spec_scan(s).tokens[k];
        assert(t == eof_token(tr.end_line));
        assert(t.lexeme =~= Seq::<char>::empty());
        let empty_scan = scan_from(t.lexeme, 0, 1);
        assert(empty_scan.tokens =~= Seq::<SpecToken>::empty());
        assert(spec_scan(t.lexeme).tokens[0] == eof_token(empty_scan.end_line));
    }
}

// ---------------------------------------------------------------------------
// The scanner.
// ---------------------------------------------------------------------------

/// The character under a cursor, or NUL at the end of input; the model of
/// one-character lookahead.
pub open spec fn peek_char(s: Seq<char>, i: int) -> char {
    if 0 <= i < s.len() {
        s[i]
    } else {
        '\0'
    }
}

/// The lexical scanner: a cursor pair over the source (the start of the
/// token being scanned and the reading position), a 1-based line counter,
/// and the accumulated tokens and error records.
pub struct Scanner {
    source: String,
    tokens: Vec<Token>,
    start: usize,
    current: usize,
    line: usize,
    errors: Vec<String>,
}

impl Scanner {
    /// The source text being scanned.
    pub closed spec fn src(self) -> Seq<char> {
        self.source@
    }

    /// The error records accumulated so far.
    pub closed spec fn errs(self) -> Seq<Seq<char>> {
        self.errors.deep_view()
    }

    /// The scanner's internal consistency: the cursor pair stays within the
    /// source and the line counter never outruns the cursor.
    pub closed spec fn wf(self) -> bool {
        &&& self.start <= self.current <= self.source@.len()
        &&& self.source@.len() < usize::MAX
        &&& 1 <= self.line
        &&& self.line <= self.current + 1
    }

    /// A scanner as `new` returns it: at the start of the source, on line 1,
    /// with nothing accumulated.
    pub closed spec fn ready(self) -> bool {
        &&& self.wf()
        &&& self.current == 0
        &&& self.start == 0
        &&& self.line == 1
        &&& self.tokens@.len() == 0
        &&& self.errors@.len() == 0
    }

    /// A fresh scanner over the given source. The length bound is what the
    /// line counter needs to stay within machine integers.
    pub fn new(source: String) -> (r: Scanner)
        requires
            source@.len() < usize::MAX,
        ensures
            r.ready(),
            r.src() == source@,
    {
        Scanner {
            source,
            tokens: Vec::new(),
            start: 0,
            current: 0,
            line: 1,
            errors: Vec::new(),
        }
    }

    fn is_at_end(&self) -> (r: bool)
        ensures
            r == (self.current >= self.source@.len()),
    {
        self.current >= self.source.as_str().unicode_len()
    }

    fn advance(&mut self) -> (c: char)
        requires
            old(self).wf(),
            old(self).current < old(self).source@.len(),
        ensures
            final(self).wf(),
            c == old(self).source@[old(self).current as int],
            final(self).current == old(self).current + 1,
            final(self).source == old(self).source,
            final(self).tokens == old(self).tokens,
            final(self).errors == old(self).errors,
            final(self).start == old(self).start,
            final(self).line == old(self).line,
    {
        let c = self.source.as_str().get_char(self.current);
        self.current = self.current + 1;
        c
    }

    fn peek(&self) -> (c: char)
        requires
            self.current <= self.source@.len(),
        ensures
            c == peek_char(self.source@, self.current as int),
    {
        if self.is_at_end() {
            '\0'
        } else {
            self.source.as_str().get_char(self.current)
        }
    }

    fn peek_next(&self) -> (c: char)
        requires
            self.current <= self.source@.len(),
            self.source@.len() < usize::MAX,
        ensures
            c == peek_char(self.source@, self.current + 1),
    {
        if self.current + 1 >= self.source.as_str().unicode_len() {
            '\0'
        } else {
            self.source.as_str().get_char(self.current + 1)
        }
    }

    fn match_char(&mut self, expected: char) -> (r: bool)
        requires
            old(self).wf(),
        ensures
            final(self).wf(),
            r == (old(self).current < old(self).source@.len()
                && old(self).source@[old(self).current as int] == expected),
            final(self).current == old(self).current + (if r { 1int } else { 0int }),
            final(self).source == old(self).source,
            final(self).tokens == old(self).tokens,
            final(self).errors == old(self).errors,
            final(self).start == old(self).start,
            final(self).line == old(self).line,
    {
        if self.is_at_end() {
            false
        } else if self.source.as_str().get_char(self.current) != expected {
            false
        } else {
            self.current = self.current + 1;
            true
        }
    }

    fn add_token_with_value(&mut self, token_type: TokenType, literal: TokenLiteral)
        requires
            old(self).wf(),
        ensures
            final(self).wf(),
            final(self).tokens.deep_view() == old(self).tokens.deep_view().push(
                SpecToken {
                    kind: token_type,
                    lexeme: old(self).source@.subrange(
                        old(self).start as int,
                        old(self).current as int,
                    ),
                    line: old(self).line as nat,
                    literal: literal@,
                },
            ),
            final(self).source == old(self).source,
            final(self).errors == old(self).errors,
            final(self).start == old(self).start,
            final(self).current == old(self).current,
            final(self).line == old(self).line,
    {
        let ghost expected = SpecToken {
            kind: token_type,
            lexeme: self.source@.subrange(self.start as int, self.current as int),
            line: self.line as nat,
            literal: literal@,
        };
        let text = self.source.as_str().substring_char(self.start, self.current).to_owned();
        let line = self.line;
        self.tokens.push(Token::new(token_type, text, line, literal));
        proof {
            assert(self.tokens.deep_view() =~= old(self).tokens.deep_view().push(expected));
        }
    }

    fn add_token(&mut self, token_type: TokenType)
        requires
            old(self).wf(),
        ensures
            final(self).wf(),
            final(self).tokens.deep_view() == old(self).tokens.deep_view().push(
                SpecToken {
                    kind: token_type,
                    lexeme: old(self).source@.subrange(
                        old(self).start as int,
                        old(self).current as int,
                    ),
                    line: old(self).line as nat,
                    literal: SpecLiteral::Absent,
                },
            ),
            final(self).source == old(self).source,
            final(self).errors == old(self).errors,
            final(self).start == old(self).start,
            final(self).current == old(self).current,
            final(self).line == old(self).line,
    {
        self.add_token_with_value(token_type, TokenLiteral::Absent);
    }

    fn error(&mut self, message: &str)
        requires
            old(self).wf(),
        ensures
            final(self).wf(),
            final(self).errors.deep_view() == old(self).errors.deep_view().push(
                spec_line_error(old(self).line as nat, message@),
            ),
            final(self).source == old(self).source,
            final(self).tokens == old(self).tokens,
            final(self).start == old(self).start,
            final(self).current == old(self).current,
            final(self).line == old(self).line,
    {
        let line = self.line;
        let record = line_error(line, message);
        self.errors.push(record);
        proof {
            assert(self.errors.deep_view() =~= old(self).errors.deep_view().push(
                spec_line_error(old(self).line as nat, message@),
            ));
        }
    }

    fn single_line_comment(&mut self)
        requires
            old(self).wf(),
        ensures
            final(self).wf(),
            final(self).current == line_comment_end(
                old(self).source@,
                old(self).current as int,
            ),
            final(self).source == old(self).source,
            final(self).tokens == old(self).tokens,
            final(self).errors == old(self).errors,
            final(self).start == old(self).start,
            final(self).line == old(self).line,
    {
        let ghost pre = *self;
        while self.peek() != '\n' && !self.is_at_end()
            invariant
                self.wf(),
                self.source == pre.source,
                self.tokens == pre.tokens,
                self.errors == pre.errors,
                self.start == pre.start,
                self.line == pre.line,
                pre.current <= self.current,
                line_comment_end(pre.source@, pre.current as int) == line_comment_end(
                    self.source@,
                    self.current as int,
                ),
            decreases self.source@.len() - self.current,
        {
            self.advance();
        }
    }

    fn multi_line_comment(&mut self)
        requires
            old(self).wf(),
        ensures
            final(self).wf(),
            ({
                let s = old(self).source@;
                let c0 = old(self).current as int;
                let e = block_comment_end(s, c0);
                &&& final(self).current == e
                &&& final(self).line == old(self).line + newlines_in(s, c0, e)
                &&& final(self).errors.deep_view() == (if block_comment_terminated(s, c0) {
                    old(self).errors.deep_view()
                } else {
                    old(self).errors.deep_view().push(
                        spec_line_error((old(self).line + newlines_in(s, c0, e)) as nat,
                            "Unterminated multi-line comment."@),
                    )
                })
            }),
            final(self).source == old(self).source,
            final(self).tokens == old(self).tokens,
            final(self).start == old(self).start,
    {
        let ghost pre = *self;
        let ghost s = pre.source@;
        let ghost c0 = pre.current as int;
        let mut terminated = false;
        loop
            invariant_except_break
                block_comment_end(s, c0) == block_comment_end(s, self.current as int),
                block_comment_terminated(s, c0) == block_comment_terminated(
                    s,
                    self.current as int,
                ),
                self.line == pre.line + newlines_in(s, c0, self.current as int),
                !terminated,
            invariant
                self.wf(),
                self.source == pre.source,
                self.tokens == pre.tokens,
                self.errors == pre.errors,
                self.start == pre.start,
                pre.wf(),
                s == pre.source@,
                c0 == pre.current as int,
                pre.current <= self.current,
            ensures
                self.wf(),
                self.source == pre.source,
                self.tokens == pre.tokens,
                self.errors == pre.errors,
                self.start == pre.start,
                self.current == block_comment_end(s, c0),
                terminated == block_comment_terminated(s, c0),
                self.line == pre.line + newlines_in(s, c0, block_comment_end(s, c0)),
            decreases self.source@.len() - self.current,
        {
            if self.is_at_end() {
                proof {
                    assert(self.current as int >= s.len());
                    assert(!block_comment_terminated(s, self.current as int));
                    assert(block_comment_end(s, self.current as int) == self.current as int);
                }
                break;
            }
            let ghost cur = self.current as int;
            if self.peek() == '*' && self.peek_next() == '/' {
                proof {
                    assert(s[cur] == '*' && cur + 1 < s.len() && s[cur + 1] == '/');
                    assert(block_comment_terminated(s, cur));
                    assert(block_comment_end(s, cur) == cur + 2);
                    lemma_newlines_snoc(s, c0, cur);
                    lemma_newlines_snoc(s, c0, cur + 1);
                }
                self.advance();
                self.advance();
                terminated = true;
                break;
            }
            proof {
                lemma_newlines_snoc(s, c0, cur);
            }
            let c = self.advance();
            if c == '\n' {
                self.line = self.line + 1;
            }
        }
        if !terminated {
            self.error("Unterminated multi-line comment.");
        }
    }

    fn string(&mut self)
        requires
            old(self).wf(),
            old(self).start + 1 == old(self).current,
        ensures
            final(self).wf(),
            ({
                let st = string_step(old(self).source@, old(self).start as int,
                    old(self).line as int);
                &&& final(self).current == st.end
                &&& final(self).line == st.line
                &&& final(self).tokens.deep_view() == (match st.token {
                    Some(t) => old(self).tokens.deep_view().push(t),
                    None => old(self).tokens.deep_view(),
                })
                &&& final(self).errors.deep_view() == (match st.error {
                    Some(m) => old(self).errors.deep_view().push(m),
                    None => old(self).errors.deep_view(),
                })
            }),
            final(self).source == old(self).source,
            final(self).start == old(self).start,
    {
        let ghost pre = *self;
        let ghost s = pre.source@;
        let ghost c0 = pre.current as int;
        let line0 = self.line;
        loop
            invariant
                self.wf(),
                self.source == pre.source,
                self.tokens == pre.tokens,
                self.errors == pre.errors,
                self.start == pre.start,
                pre.wf(),
                s == pre.source@,
                c0 == pre.current as int,
                pre.current <= self.current,
                string_body_end(s, c0) == string_body_end(s, self.current as int),
                self.line == pre.line + newlines_in(s, c0, self.current as int),
            ensures
                self.wf(),
                self.source == pre.source,
                self.tokens == pre.tokens,
                self.errors == pre.errors,
                self.start == pre.start,
                self.current == string_body_end(s, c0),
                self.line == pre.line + newlines_in(s, c0, string_body_end(s, c0)),
            decreases self.source@.len() - self.current,
        {
            if self.is_at_end() {
                break;
            }
            if self.peek() == '"' {
                break;
            }
            let ghost cur = self.current as int;
            proof {
                lemma_newlines_snoc(s, c0, cur);
            }
            let c = self.advance();
            if c == '\n' {
                self.line = self.line + 1;
            }
        }
        if self.is_at_end() {
            self.error("Unterminated string.");
            return;
        }
        self.advance();
        let ghost expected = SpecToken {
            kind: TokenType::Str,
            lexeme: s.subrange(pre.start as int, self.current as int),
            line: line0 as nat,
            literal: SpecLiteral::StringText(s.subrange(pre.start + 1, self.current - 1)),
        };
        let value = self.source.as_str().substring_char(self.start + 1, self.current - 1)
            .to_owned();
        let text = self.source.as_str().substring_char(self.start, self.current).to_owned();
        self.tokens.push(Token::new(TokenType::Str, text, line0,
            TokenLiteral::StringText(value)));
        proof {
            assert(self.tokens.deep_view() =~= pre.tokens.deep_view().push(expected));
        }
    }

    fn number(&mut self)
        requires
            old(self).wf(),
            old(self).start + 1 == old(self).current,
        ensures
            final(self).wf(),
            ({
                let st = number_step(old(self).source@, old(self).start as int,
                    old(self).line as int);
                &&& final(self).current == st.end
                &&& final(self).tokens.deep_view() == (match st.token {
                    Some(t) => old(self).tokens.deep_view().push(t),
                    None => old(self).tokens.deep_view(),
                })
            }),
            final(self).source == old(self).source,
            final(self).errors == old(self).errors,
            final(self).start == old(self).start,
            final(self).line == old(self).line,
    {
        self.run_of_digits();
        if self.peek() == '.' && is_digit(self.peek_next()) {
            self.advance();
            self.run_of_digits();
        }
        let value = self.source.as_str().substring_char(self.start, self.current).to_owned();
        self.add_token_with_value(TokenType::Number, TokenLiteral::NumberText(value));
    }

    /// Consumes the maximal run of digits at the cursor.
    fn run_of_digits(&mut self)
        requires
            old(self).wf(),
        ensures
            final(self).wf(),
            final(self).current == digits_end(old(self).source@, old(self).current as int),
            final(self).source == old(self).source,
            final(self).tokens == old(self).tokens,
            final(self).errors == old(self).errors,
            final(self).start == old(self).start,
            final(self).line == old(self).line,
    {
        let ghost pre = *self;
        while self.peek() as u32 >= 48 && self.peek() as u32 <= 57
            invariant
                self.wf(),
                self.source == pre.source,
                self.tokens == pre.tokens,
                self.errors == pre.errors,
                self.start == pre.start,
                self.line == pre.line,
                pre.current <= self.current,
                digits_end(pre.source@, pre.current as int) == digits_end(
                    self.source@,
                    self.current as int,
                ),
            decreases self.source@.len() - self.current,
        {
            self.advance();
        }
    }

    fn identifier(&mut self)
        requires
            old(self).wf(),
            old(self).start + 1 == old(self).current,
        ensures
            final(self).wf(),
            ({
                let st = ident_step(old(self).source@, old(self).start as int,
                    old(self).line as int);
                &&& final(self).current == st.end
                &&& final(self).tokens.deep_view() == (match st.token {
                    Some(t) => old(self).tokens.deep_view().push(t),
                    None => old(self).tokens.deep_view(),
                })
            }),
            final(self).source == old(self).source,
            final(self).errors == old(self).errors,
            final(self).start == old(self).start,
            final(self).line == old(self).line,
    {
        let ghost pre = *self;
        loop
            invariant
                self.wf(),
                self.source == pre.source,
                self.tokens == pre.tokens,
                self.errors == pre.errors,
                self.start == pre.start,
                self.line == pre.line,
                pre.wf(),
                pre.current <= self.current,
                ident_end(pre.source@, pre.current as int) == ident_end(
                    self.source@,
                    self.current as int,
                ),
            ensures
                self.wf(),
                self.source == pre.source,
                self.tokens == pre.tokens,
                self.errors == pre.errors,
                self.start == pre.start,
                self.line == pre.line,
                self.current == ident_end(pre.source@, pre.current as int),
            decreases self.source@.len() - self.current,
        {
            let c = self.peek();
            if !is_alpha_numeric(c) {
                break;
            }
            self.advance();
        }
        let text = self.source.as_str().substring_char(self.start, self.current);
        let token_type = keyword_token_type(text);
        self.add_token(token_type);
    }

    /// Scans a single input element at the cursor; its whole effect is the
    /// step `scan_step` gives for the same position.
    fn scan_token(&mut self)
        requires
            old(self).wf(),
            old(self).start == old(self).current,
            old(self).current < old(self).source@.len(),
        ensures
            final(self).wf(),
            ({
                let st = scan_step(old(self).source@, old(self).current as int,
                    old(self).line as int);
                &&& final(self).current == st.end
                &&& final(self).line == st.line
                &&& final(self).tokens.deep_view() == (match st.token {
                    Some(t) => old(self).tokens.deep_view().push(t),
                    None => old(self).tokens.deep_view(),
                })
                &&& final(self).errors.deep_view() == (match st.error {
                    Some(m) => old(self).errors.deep_view().push(m),
                    None => old(self).errors.deep_view(),
                })
            }),
            final(self).source == old(self).source,
            final(self).start == old(self).start,
    {
        let c = self.advance();
        match c {
            '(' => self.add_token(TokenType::LParen),
            ')' => self.add_token(TokenType::RParen),
            '{' => self.add_token(TokenType::LBrace),
            '}' => self.add_token(TokenType::RBrace),
            ',' => self.add_token(TokenType::Comma),
            '.' => self.add_token(TokenType::Dot),
            '-' => self.add_token(TokenType::Minus),
            '+' => self.add_token(TokenType::Plus),
            ';' => self.add_token(TokenType::SemiColon),
            '*' => self.add_token(TokenType::Star),
            '!' => {
                if self.match_char('=') {
                    self.add_token(TokenType::BangEqual);
                } else {
                    self.add_token(TokenType::Bang);
                }
            }
            '=' => {
                if self.match_char('=') {
                    self.add_token(TokenType::EqualEqual);
                } else {
                    self.add_token(TokenType::Equal);
                }
            }
            '<' => {
                if self.match_char('=') {
                    self.add_token(TokenType::LessEqual);
                } else {
                    self.add_token(TokenType::Less);
                }
            }
            '>' => {
                if self.match_char('=') {
                    self.add_token(TokenType::GreaterEqual);
                } else {
                    self.add_token(TokenType::Greater);
                }
            }
            '/' => {
                if self.match_char('/') {
                    self.single_line_comment();
                } else if self.match_char('*') {
                    self.multi_line_comment();
                } else {
                    self.add_token(TokenType::Slash);
                }
            }
            ' ' | '\r' | '\t' => {}
            '\n' => {
                self.line = self.line + 1;
            }
            '"' => self.string(),
            _ => {
                if is_digit(c) {
                    self.number();
                } else if is_alpha(c) {
                    self.identifier();
                } else {
                    let mut message = String::new();
                    message.append("Unexpected character: ");
                    push_char(&mut message, c);
                    proof {
                        assert(message@ =~= "Unexpected character: "@.push(c));
                    }
                    self.error(message.as_str());
                }
            }
        }
    }

    /// Scans the whole source: the returned token sequence is the model's
    /// token sequence, ends with the end-of-input marker, and the error
    /// records accumulate as the model says.
    pub fn scan_tokens(&mut self) -> (r: Vec<Token>)
        requires
            old(self).ready(),
        ensures
            final(self).src() == old(self).src(),
            r.deep_view() == spec_scan(old(self).src()).tokens,
            final(self).errs() == spec_scan(old(self).src()).errors,
            r.deep_view().len() >= 1,
            r.deep_view()[r.deep_view().len() - 1].kind == TokenType::Eof,
    {
        let ghost pre = *self;
        let ghost s = pre.source@;
        let ghost full = scan_from(s, 0, 1);
        proof {
            assert(self.tokens.deep_view() =~= Seq::<SpecToken>::empty());
            assert(self.errors.deep_view() =~= Seq::<Seq<char>>::empty());
            assert(Seq::<SpecToken>::empty() + full.tokens =~= full.tokens);
            assert(Seq::<Seq<char>>::empty() + full.errors =~= full.errors);
        }
        while !self.is_at_end()
            invariant
                self.wf(),
                self.source == pre.source,
                s == pre.source@,
                full == scan_from(s, 0, 1),
                self.tokens.deep_view() + scan_from(s, self.current as int,
                    self.line as int).tokens == full.tokens,
                self.errors.deep_view() + scan_from(s, self.current as int,
                    self.line as int).errors == full.errors,
                scan_from(s, self.current as int, self.line as int).end_line == full.end_line,
            decreases self.source@.len() - self.current,
        {
            let ghost cur = self.current as int;
            let ghost line = self.line as int;
            let ghost toks0 = self.tokens.deep_view();
            let ghost errs0 = self.errors.deep_view();
            proof {
                lemma_scan_step_bounds(s, cur, line);
            }
            self.start = self.current;
            self.scan_token();
            proof {
                let st = scan_step(s, cur, line);
                let rest = scan_from(s, st.end, st.line);
                assert(scan_from(s, cur, line).tokens == opt_seq(st.token) + rest.tokens);
                assert(scan_from(s, cur, line).errors == opt_seq(st.error) + rest.errors);
                match st.token {
                    Some(t) => {
                        assert(toks0.push(t) + rest.tokens =~= toks0 + (seq![t] + rest.tokens));
                    }
                    None => {
                        assert(toks0 + rest.tokens =~= toks0 + (opt_seq(st.token)
                            + rest.tokens));
                    }
                }
                match st.error {
                    Some(m) => {
                        assert(errs0.push(m) + rest.errors =~= errs0 + (seq![m] + rest.errors));
                    }
                    None => {
                        assert(errs0 + rest.errors =~= errs0 + (opt_seq(st.error)
                            + rest.errors));
                    }
                }
            }
        }
        proof {
            assert(self.current == s.len());
            assert(scan_from(s, self.current as int, self.line as int).tokens
                =~= Seq::<SpecToken>::empty());
            assert(self.tokens.deep_view() + Seq::<SpecToken>::empty()
                =~= self.tokens.deep_view());
            assert(self.errors.deep_view() + Seq::<Seq<char>>::empty()
                =~= self.errors.deep_view());
            assert(self.tokens.deep_view() == full.tokens);
            assert(self.errors.deep_view() == full.errors);
            assert(self.line as int == full.end_line);
        }
        let line = self.line;
        let empty_lexeme = String::new();
        proof {
            assert(empty_lexeme@ =~= Seq::<char>::empty());
        }
        self.tokens.push(Token::new(TokenType::Eof, empty_lexeme, line, TokenLiteral::Absent));
        proof {
            assert(self.tokens.deep_view() =~= full.tokens.push(eof_token(full.end_line)));
            assert(self.tokens.deep_view() == spec_scan(s).tokens);
        }
        let ghost all = self.tokens.deep_view();
        let ghost errs_final = self.errors.deep_view();
        let mut out: Vec<Token> = Vec::new();
        let mut i: usize = 0;
        while i < self.tokens.len()
            invariant
                i <= self.tokens@.len(),
                self.tokens.deep_view() == all,
                self.errors.deep_view() == errs_final,
                self.source == pre.source,
                out@ =~= self.tokens@.subrange(0, i as int),
            decreases self.tokens@.len() - i,
        {
            let t = self.tokens[i].clone();
            proof {
                assert(t == self.tokens@[i as int]);
            }
            out.push(t);
            proof {
                assert(out@ =~= self.tokens@.subrange(0, i + 1));
            }
            i = i + 1;
        }
        proof {
            assert(out@ =~= self.tokens@);
            assert(out.deep_view() =~= self.tokens.deep_view());
        }
        out
    }

    /// The error records accumulated by scanning, each `Line <n>: <message>`.
    pub fn errors(&self) -> (r: &Vec<String>)
        ensures
            r.deep_view() == self.errs(),
    {
        &self.errors
    }

    /// Looks identifier text up in the keyword table; reserved words shadow
    /// the identifier category.
    pub fn keywords(&self, text: &str) -> (k: TokenType)
        ensures
            k == spec_keyword(text@),
    {
        keyword_token_type(text)
    }
}

} // verus!
