//! Tokens: the closed set of token kinds, the literal payload attached to
//! string and number tokens, the token record itself, and the keyword table.

use vstd::prelude::*;
use crate::text::str_eq;

verus! {

/// The closed set of token kinds produced by the scanner.
#[derive(Debug, Clone, Copy, PartialEq, Eq, Hash, Structural)]
pub enum TokenType {
    // Single-character tokens.
    LParen,
    RParen,
    LBrace,
    RBrace,
    Comma,
    Dot,
    Minus,
    Plus,
    SemiColon,
    Slash,
    Star,
    // One or two character tokens.
    Bang,
    BangEqual,
    Equal,
    EqualEqual,
    Greater,
    GreaterEqual,
    Less,
    LessEqual,
    // Literals.
    Identifier,
    Str,
    Number,
    // Keywords.
    And,
    Class,
    Contract,
    Else,
    False,
    Func,
    For,
    If,
    Nil,
    Or,
    Print,
    Return,
    Super,
    SelfKw,
    True,
    Let,
    Const,
    While,
    // End-of-input marker.
    Eof,
}

impl View for TokenType {
    type V = TokenType;

    open spec fn view(&self) -> TokenType {
        *self
    }
}

impl DeepView for TokenType {
    type V = TokenType;

    open spec fn deep_view(&self) -> TokenType {
        *self
    }
}

/// The decoded literal attached to a token: absent for most kinds, the
/// matched text for number tokens, and the text between the quotes for
/// string tokens.
#[derive(Debug, PartialEq, Eq)]
pub enum TokenLiteral {
    Absent,
    NumberText(String),
    StringText(String),
}

/// The mathematical model of a literal payload.
pub enum SpecLiteral {
    Absent,
    NumberText(Seq<char>),
    StringText(Seq<char>),
}

impl View for TokenLiteral {
    type V = SpecLiteral;

    open spec fn view(&self) -> SpecLiteral {
        match self {
            TokenLiteral::Absent => SpecLiteral::Absent,
            TokenLiteral::NumberText(s) => SpecLiteral::NumberText(s@),
            TokenLiteral::StringText(s) => SpecLiteral::StringText(s@),
        }
    }
}

impl DeepView for TokenLiteral {
    type V = SpecLiteral;

    open spec fn deep_view(&self) -> SpecLiteral {
        self.view()
    }
}

impl Clone for TokenLiteral {
    fn clone(&self) -> (r: Self)
        ensures
            r == *self,
    {
        match self {
            TokenLiteral::Absent => TokenLiteral::Absent,
            TokenLiteral::NumberText(s) => TokenLiteral::NumberText(s.clone()),
            TokenLiteral::StringText(s) => TokenLiteral::StringText(s.clone()),
        }
    }
}

/// The mathematical model of a token.
pub struct SpecToken {
    pub kind: TokenType,
    pub lexeme: Seq<char>,
    pub line: nat,
    pub literal: SpecLiteral,
}

/// A classified, positioned fragment of source text: its kind, the exact
/// source substring it was built from, the 1-based line on which it started,
/// and the decoded literal for string and number tokens.
#[derive(Debug, PartialEq, Eq)]
pub struct Token {
    pub token_type: TokenType,
    pub lexeme: String,
    pub line: usize,
    pub literal: TokenLiteral,
}

impl View for Token {
    type V = SpecToken;

    open spec fn view(&self) -> SpecToken {
        SpecToken {
            kind: self.token_type,
            lexeme: self.lexeme@,
            line: self.line as nat,
            literal: self.literal@,
        }
    }
}

impl DeepView for Token {
    type V = SpecToken;

    open spec fn deep_view(&self) -> SpecToken {
        self.view()
    }
}

impl Clone for Token {
    fn clone(&self) -> (r: Self)
        ensures
            r == *self,
    {
        Token {
            token_type: self.token_type,
            lexeme: self.lexeme.clone(),
            line: self.line,
            literal: self.literal.clone(),
        }
    }
}

impl Token {
    pub fn new(token_type: TokenType, lexeme: String, line: usize, literal: TokenLiteral) -> (t:
        Token)
        ensures
            t@ == (SpecToken {
                kind: token_type,
                lexeme: lexeme@,
                line: line as nat,
                literal: literal@,
            }),
    {
        Token { token_type, lexeme, line, literal }
    }
}

/// The keyword table: the exact reserved words of the language, each with
/// the token kind it is scanned as. Adding a keyword is one more entry here.
pub open spec fn spec_keyword_pairs() -> Seq<(Seq<char>, TokenType)> {
    seq![
        ("and"@, TokenType::And),
        ("class"@, TokenType::Class),
        ("contract"@, TokenType::Contract),
        ("else"@, TokenType::Else),
        ("false"@, TokenType::False),
        ("func"@, TokenType::Func),
        ("for"@, TokenType::For),
        ("if"@, TokenType::If),
        ("nil"@, TokenType::Nil),
        ("or"@, TokenType::Or),
        ("print"@, TokenType::Print),
        ("return"@, TokenType::Return),
        ("super"@, TokenType::Super),
        ("self"@, TokenType::SelfKw),
        ("true"@, TokenType::True),
        ("let"@, TokenType::Let),
        ("const"@, TokenType::Const),
        ("while"@, TokenType::While),
    ]
}

/// First-match lookup in a sequence of keyword entries; an identifier when
/// no entry matches.
pub open spec fn spec_lookup(pairs: Seq<(Seq<char>, TokenType)>, text: Seq<char>) -> TokenType
    decreases pairs.len(),
{
    if pairs.len() == 0 {
        TokenType::Identifier
    } else if pairs[0].0 == text {
        pairs[0].1
    } else {
        spec_lookup(pairs.drop_first(), text)
    }
}

/// The kind an identifier with the given text is scanned as: the keyword
/// table is consulted with an exact, case-sensitive match.
pub open spec fn spec_keyword(text: Seq<char>) -> TokenType {
    spec_lookup(spec_keyword_pairs(), text)
}

fn keyword_table() -> (t: Vec<(&'static str, TokenType)>)
    ensures
        t.deep_view() =~= spec_keyword_pairs(),
{
    let mut t: Vec<(&'static str, TokenType)> = Vec::new();
    t.push(("and", TokenType::And));
    t.push(("class", TokenType::Class));
    t.push(("contract", TokenType::Contract));
    t.push(("else", TokenType::Else));
    t.push(("false", TokenType::False));
    t.push(("func", TokenType::Func));
    t.push(("for", TokenType::For));
    t.push(("if", TokenType::If));
    t.push(("nil", TokenType::Nil));
    t.push(("or", TokenType::Or));
    t.push(("print", TokenType::Print));
    t.push(("return", TokenType::Return));
    t.push(("super", TokenType::Super));
    t.push(("self", TokenType::SelfKw));
    t.push(("true", TokenType::True));
    t.push(("let", TokenType::Let));
    t.push(("const", TokenType::Const));
    t.push(("while", TokenType::While));
    t
}

proof fn lemma_lookup_skip(pairs: Seq<(Seq<char>, TokenType)>, text: Seq<char>, i: int)
    requires
        0 <= i <= pairs.len(),
        forall|j: int| 0 <= j < i ==> (#[trigger] pairs[j]).0 != text,
    ensures
        spec_lookup(pairs, text) == spec_lookup(pairs.skip(i), text),
    decreases i,
{
    if i > 0 {
        assert(pairs[0].0 != text);
        lemma_lookup_skip(pairs.drop_first(), text, i - 1);
        assert(pairs.drop_first().skip(i - 1) =~= pairs.skip(i));
    } else {
        assert(pairs.skip(0) =~= pairs);
    }
}

/// Looks the text of an identifier up in the keyword table.
pub fn keyword_token_type(text: &str) -> (k: TokenType)
    ensures
        k == spec_keyword(text@),
{
    let table = keyword_table();
    let ghost pairs = spec_keyword_pairs();
    let mut i: usize = 0;
    while i < table.len()
        invariant
            pairs == spec_keyword_pairs(),
            table.deep_view() =~= pairs,
            i <= table@.len(),
            forall|j: int| 0 <= j < i ==> (#[trigger] pairs[j]).0 != text@,
        decreases table@.len() - i,
    {
        let entry = table[i];
        if str_eq(text, entry.0) {
            proof {
                lemma_lookup_skip(pairs, text@, i as int);
                assert(pairs.skip(i as int)[0] == pairs[i as int]);
                assert(spec_lookup(pairs, text@) == entry.1);
            }
            return entry.1;
        }
        proof {
            assert(pairs[i as int].0 == entry.0@);
        }
        i += 1;
    }
    proof {
        lemma_lookup_skip(pairs, text@, pairs.len() as int);
        assert(pairs.skip(pairs.len() as int) =~= Seq::<(Seq<char>, TokenType)>::empty());
    }
    TokenType::Identifier
}

} // verus!
