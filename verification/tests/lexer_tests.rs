use minilang::lexer::Scanner;
use minilang::token::{Token, TokenLiteral, TokenType};

fn scan(source: &str) -> Vec<Token> {
    let mut scanner = Scanner::new(source.to_string());
    scanner.scan_tokens()
}

fn scan_with_errors(source: &str) -> (Vec<Token>, Vec<String>) {
    let mut scanner = Scanner::new(source.to_string());
    let tokens = scanner.scan_tokens();
    let errors = scanner.errors().clone();
    (tokens, errors)
}

fn kinds(tokens: &[Token]) -> Vec<TokenType> {
    tokens.iter().map(|t| t.token_type).collect()
}

#[test]
fn empty_source_yields_only_eof() {
    let tokens = scan("");
    assert_eq!(tokens.len(), 1);
    assert_eq!(tokens[0].token_type, TokenType::Eof);
    assert_eq!(tokens[0].lexeme, "");
    assert_eq!(tokens[0].line, 1);
    assert_eq!(tokens[0].literal, TokenLiteral::Absent);
}

#[test]
fn last_token_is_always_eof() {
    for source in ["", "1 + 2", "\"open", "$#!", "// only a comment", "/* open"] {
        let tokens = scan(source);
        assert!(!tokens.is_empty());
        assert_eq!(tokens.last().unwrap().token_type, TokenType::Eof);
    }
}

#[test]
fn scan_number_token() {
    let tokens = scan("123");
    assert_eq!(tokens.len(), 2);
    assert_eq!(tokens[0].token_type, TokenType::Number);
    assert_eq!(tokens[0].lexeme, "123");
    assert_eq!(tokens[0].literal, TokenLiteral::NumberText("123".to_string()));
    assert_eq!(tokens[0].line, 1);
    assert_eq!(tokens[1].token_type, TokenType::Eof);
}

#[test]
fn number_with_fraction() {
    let tokens = scan("12.5");
    assert_eq!(tokens.len(), 2);
    assert_eq!(tokens[0].token_type, TokenType::Number);
    assert_eq!(tokens[0].lexeme, "12.5");
    assert_eq!(tokens[0].literal, TokenLiteral::NumberText("12.5".to_string()));
}

#[test]
fn trailing_dot_is_not_swallowed() {
    let tokens = scan("12.");
    assert_eq!(kinds(&tokens), vec![TokenType::Number, TokenType::Dot, TokenType::Eof]);
    assert_eq!(tokens[0].lexeme, "12");

    let tokens = scan("12.x");
    assert_eq!(
        kinds(&tokens),
        vec![TokenType::Number, TokenType::Dot, TokenType::Identifier, TokenType::Eof]
    );
}

#[test]
fn string_with_embedded_newline() {
    let (tokens, errors) = scan_with_errors("\"ab\ncd\"");
    assert!(errors.is_empty());
    assert_eq!(tokens.len(), 2);
    assert_eq!(tokens[0].token_type, TokenType::Str);
    assert_eq!(tokens[0].lexeme, "\"ab\ncd\"");
    assert_eq!(tokens[0].literal, TokenLiteral::StringText("ab\ncd".to_string()));
    assert_eq!(tokens[0].line, 1);
    // each embedded newline advances the line counter exactly once
    assert_eq!(tokens[1].token_type, TokenType::Eof);
    assert_eq!(tokens[1].line, 2);
}

#[test]
fn string_literal_is_text_between_quotes() {
    let tokens = scan("\"hello\"");
    assert_eq!(tokens[0].token_type, TokenType::Str);
    assert_eq!(tokens[0].lexeme, "\"hello\"");
    assert_eq!(tokens[0].literal, TokenLiteral::StringText("hello".to_string()));
}

#[test]
fn unterminated_string_reports_and_emits_no_token() {
    let (tokens, errors) = scan_with_errors("\"abc");
    assert_eq!(tokens.len(), 1);
    assert_eq!(tokens[0].token_type, TokenType::Eof);
    assert_eq!(errors, vec!["Line 1: Unterminated string.".to_string()]);
}

#[test]
fn single_line_comment_is_discarded() {
    let tokens = scan("// comment\n+");
    assert_eq!(tokens.len(), 2);
    assert_eq!(tokens[0].token_type, TokenType::Plus);
    assert_eq!(tokens[0].line, 2);
    assert_eq!(tokens[1].token_type, TokenType::Eof);
}

#[test]
fn multi_line_comment_tracks_lines() {
    let (tokens, errors) = scan_with_errors("/* a\nb */+");
    assert!(errors.is_empty());
    assert_eq!(tokens.len(), 2);
    assert_eq!(tokens[0].token_type, TokenType::Plus);
    assert_eq!(tokens[0].line, 2);
}

#[test]
fn unterminated_multi_line_comment_is_reported() {
    let (tokens, errors) = scan_with_errors("/* x\ny");
    assert_eq!(tokens.len(), 1);
    assert_eq!(tokens[0].token_type, TokenType::Eof);
    assert_eq!(errors, vec!["Line 2: Unterminated multi-line comment.".to_string()]);
}

#[test]
fn slash_alone_is_division() {
    let tokens = scan("1 / 2");
    assert_eq!(
        kinds(&tokens),
        vec![TokenType::Number, TokenType::Slash, TokenType::Number, TokenType::Eof]
    );
}

#[test]
fn punctuation_tokens() {
    let tokens = scan("(){},.-+;*");
    assert_eq!(
        kinds(&tokens),
        vec![
            TokenType::LParen,
            TokenType::RParen,
            TokenType::LBrace,
            TokenType::RBrace,
            TokenType::Comma,
            TokenType::Dot,
            TokenType::Minus,
            TokenType::Plus,
            TokenType::SemiColon,
            TokenType::Star,
            TokenType::Eof,
        ]
    );
}

#[test]
fn one_and_two_character_operators() {
    let tokens = scan("! != = == < <= > >=");
    assert_eq!(
        kinds(&tokens),
        vec![
            TokenType::Bang,
            TokenType::BangEqual,
            TokenType::Equal,
            TokenType::EqualEqual,
            TokenType::Less,
            TokenType::LessEqual,
            TokenType::Greater,
            TokenType::GreaterEqual,
            TokenType::Eof,
        ]
    );
}

#[test]
fn keyword_table_is_exact_match() {
    let tokens = scan("classify");
    assert_eq!(tokens.len(), 2);
    assert_eq!(tokens[0].token_type, TokenType::Identifier);
    assert_eq!(tokens[0].lexeme, "classify");
    assert_eq!(tokens[1].token_type, TokenType::Eof);
}

#[test]
fn all_keywords_are_recognized() {
    let source = "and class contract else false func for if nil or print return super self \
                  true let const while";
    let tokens = scan(source);
    assert_eq!(
        kinds(&tokens),
        vec![
            TokenType::And,
            TokenType::Class,
            TokenType::Contract,
            TokenType::Else,
            TokenType::False,
            TokenType::Func,
            TokenType::For,
            TokenType::If,
            TokenType::Nil,
            TokenType::Or,
            TokenType::Print,
            TokenType::Return,
            TokenType::Super,
            TokenType::SelfKw,
            TokenType::True,
            TokenType::Let,
            TokenType::Const,
            TokenType::While,
            TokenType::Eof,
        ]
    );
}

#[test]
fn keywords_lookup_is_case_sensitive() {
    let scanner = Scanner::new(String::new());
    assert_eq!(scanner.keywords("while"), TokenType::While);
    assert_eq!(scanner.keywords("While"), TokenType::Identifier);
    assert_eq!(scanner.keywords("whilex"), TokenType::Identifier);
    assert_eq!(scanner.keywords("or"), TokenType::Or);
    assert_eq!(scanner.keywords("orange"), TokenType::Identifier);
}

#[test]
fn short_identifiers_near_keywords() {
    let tokens = scan("o or orchid");
    assert_eq!(
        kinds(&tokens),
        vec![TokenType::Identifier, TokenType::Or, TokenType::Identifier, TokenType::Eof]
    );
    assert_eq!(tokens[0].lexeme, "o");
    assert_eq!(tokens[2].lexeme, "orchid");
}

#[test]
fn identifiers_with_underscores_and_digits() {
    let tokens = scan("_x y2 a_b");
    assert_eq!(
        kinds(&tokens),
        vec![TokenType::Identifier, TokenType::Identifier, TokenType::Identifier, TokenType::Eof]
    );
    assert_eq!(tokens[0].lexeme, "_x");
    assert_eq!(tokens[1].lexeme, "y2");
    assert_eq!(tokens[2].lexeme, "a_b");
}

#[test]
fn unexpected_character_is_reported_and_scanning_continues() {
    let (tokens, errors) = scan_with_errors("$+");
    assert_eq!(kinds(&tokens), vec![TokenType::Plus, TokenType::Eof]);
    assert_eq!(errors, vec!["Line 1: Unexpected character: $".to_string()]);
}

#[test]
fn lexemes_reconstruct_source_without_whitespace() {
    let tokens = scan("1 + 2");
    let joined: String = tokens.iter().map(|t| t.lexeme.as_str()).collect();
    assert_eq!(joined, "1+2");
}

#[test]
fn relexing_a_lexeme_reproduces_kind_and_literal() {
    let tokens = scan("let x = 12.5 + \"ab\"; // c");
    for token in &tokens {
        let again = scan(&token.lexeme);
        assert!(!again.is_empty());
        assert_eq!(again[0].token_type, token.token_type);
        assert_eq!(again[0].literal, token.literal);
    }
}

#[test]
fn line_numbers_follow_newlines() {
    let tokens = scan("a\nb\n\nc");
    assert_eq!(tokens[0].line, 1);
    assert_eq!(tokens[1].line, 2);
    assert_eq!(tokens[2].line, 4);
    assert_eq!(tokens[3].line, 4);
}
