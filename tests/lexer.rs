use playbook_lang_core::lexer::{Lexer, TokenKind};
use playbook_lang_core::num::Num;

fn kinds(input: &str) -> Vec<TokenKind> {
    let mut lexer = Lexer::new(input);
    lexer.tokenize().into_iter().map(|t| t.kind).collect()
}

#[test]
fn test_keywords_and_symbols() {
    let input = "players = { } -> :";
    let mut lexer = Lexer::new(input);
    let tokens = lexer.tokenize();
    let kinds: Vec<TokenKind> = tokens.into_iter().map(|t| t.kind).collect();
    assert_eq!(
        kinds,
        vec![
            TokenKind::Players,
            TokenKind::Equals,
            TokenKind::LBrace,
            TokenKind::RBrace,
            TokenKind::Arrow,
            TokenKind::Colon,
            TokenKind::EOF
        ]
    );
}

#[test]
fn test_identifiers_and_numbers() {
    let input = "p1 (10, -20.5)";
    let mut lexer = Lexer::new(input);
    let tokens = lexer.tokenize();
    let kinds: Vec<TokenKind> = tokens.into_iter().map(|t| t.kind).collect();
    assert_eq!(
        kinds,
        vec![
            TokenKind::Identifier("p1".to_string()),
            TokenKind::LParenthesis,
            TokenKind::Number(Num::from_int(10)),
            TokenKind::Comma,
            TokenKind::Number(Num::from_micros(-20_500_000)),
            TokenKind::RParenthesis,
            TokenKind::EOF
        ]
    );
}

#[test]
fn test_comments() {
    let input = "players // this is a comment\nstate";
    let mut lexer = Lexer::new(input);
    let tokens = lexer.tokenize();
    let kinds: Vec<TokenKind> = tokens.into_iter().map(|t| t.kind).collect();
    assert_eq!(
        kinds,
        vec![
            TokenKind::Players,
            TokenKind::Comment("this is a comment".to_string()),
            TokenKind::State,
            TokenKind::EOF
        ]
    );
}

#[test]
fn test_span() {
    let input = "players";
    let mut lexer = Lexer::new(input);
    let tokens = lexer.tokenize();
    assert_eq!(tokens[0].span.line, 1);
    assert_eq!(tokens[0].span.column, 1);

    let input = "\n  players";
    let mut lexer = Lexer::new(input);
    let tokens = lexer.tokenize();
    assert_eq!(tokens[0].span.line, 2);
    assert_eq!(tokens[0].span.column, 3);
}

#[test]
fn spans_cover_everything_but_whitespace() {
    let input = "players = {p1,p2}\n\taction={ move = { p2 -> (1.5, -3) } } ? - /";
    let mut lexer = Lexer::new(input);
    let tokens = lexer.tokenize();
    let joined: String = tokens.iter().map(|t| &input[t.span.start..t.span.end]).collect();
    let content: String = input.chars().filter(|c| !c.is_whitespace()).collect();
    assert_eq!(joined, content);
    for pair in tokens.windows(2) {
        assert!(pair[0].span.end <= pair[1].span.start);
    }
}

#[test]
fn keywords_are_recognised_and_others_are_identifiers() {
    assert_eq!(
        kinds("baller position action move screen pass before after middle Players"),
        vec![
            TokenKind::Baller,
            TokenKind::Position,
            TokenKind::Action,
            TokenKind::Move,
            TokenKind::Screen,
            TokenKind::Pass,
            TokenKind::Before,
            TokenKind::After,
            TokenKind::Middle,
            TokenKind::Identifier("Players".to_string()),
            TokenKind::EOF
        ]
    );
}

#[test]
fn stray_characters_become_identifiers() {
    assert_eq!(
        kinds("- / # a-b"),
        vec![
            TokenKind::Identifier("-".to_string()),
            TokenKind::Identifier("/".to_string()),
            TokenKind::Identifier("#".to_string()),
            TokenKind::Identifier("a".to_string()),
            TokenKind::Identifier("-".to_string()),
            TokenKind::Identifier("b".to_string()),
            TokenKind::EOF
        ]
    );
}

#[test]
fn number_literals() {
    assert_eq!(kinds("0.25")[0], TokenKind::Number(Num::from_micros(250_000)));
    assert_eq!(kinds("7.")[0], TokenKind::Number(Num::from_int(7)));
    assert_eq!(kinds("-3")[0], TokenKind::Number(Num::from_int(-3)));
    assert_eq!(kinds("1.1234567")[0], TokenKind::Number(Num::from_micros(1_123_456)));
    // malformed captures read as zero
    assert_eq!(kinds("1.2.3")[0], TokenKind::Number(Num::zero()));
    assert_eq!(kinds("10-5")[0], TokenKind::Number(Num::zero()));
    // out of range reads as zero
    assert_eq!(kinds("1000000000000")[0], TokenKind::Number(Num::zero()));
    assert_eq!(kinds("999999999999")[0], TokenKind::Number(Num::from_micros(999_999_999_999_000_000)));
}

#[test]
fn unicode_letters_and_byte_offsets() {
    let mut lexer = Lexer::new("é1 players");
    let tokens = lexer.tokenize();
    assert_eq!(tokens[0].kind, TokenKind::Identifier("é1".to_string()));
    assert_eq!(tokens[0].span.start, 0);
    assert_eq!(tokens[0].span.end, 3);
    assert_eq!(tokens[1].span.start, 4);
    assert_eq!(tokens[1].span.column, 4);
    assert_eq!(tokens[2].kind, TokenKind::EOF);
    assert_eq!(tokens[2].span.start, 11);
}

#[test]
fn empty_input_gives_only_end_of_input() {
    let mut lexer = Lexer::new("  \n ");
    let tokens = lexer.tokenize();
    assert_eq!(tokens.len(), 1);
    assert_eq!(tokens[0].kind, TokenKind::EOF);
    assert_eq!(tokens[0].span.line, 2);
    assert_eq!(tokens[0].span.column, 2);
}

#[test]
fn comment_text_is_trimmed_and_ends_at_newline() {
    assert_eq!(
        kinds("//   note \t\n}"),
        vec![TokenKind::Comment("note".to_string()), TokenKind::RBrace, TokenKind::EOF]
    );
}

#[test]
fn next_token_reads_one_at_a_time() {
    let mut lexer = Lexer::new("a = b");
    assert_eq!(lexer.next_token().kind, TokenKind::Identifier("a".to_string()));
    assert_eq!(lexer.next_token().kind, TokenKind::Equals);
    assert_eq!(lexer.next_token().kind, TokenKind::Identifier("b".to_string()));
    assert_eq!(lexer.next_token().kind, TokenKind::EOF);
    assert_eq!(lexer.next_token().kind, TokenKind::EOF);
}
