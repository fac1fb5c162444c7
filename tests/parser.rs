use playbook_lang_core::ast::{Point, Timing};
use playbook_lang_core::lexer::{Lexer, TokenKind};
use playbook_lang_core::parser::{levenshtein, ParseError, Parser};
use playbook_lang_core::suggest::get_suggestion;

fn parse_text(input: &str) -> Result<playbook_lang_core::ast::Playbook, ParseError> {
    let mut lexer = Lexer::new(input);
    let tokens = lexer.tokenize();
    let mut parser = Parser::new(tokens);
    parser.parse()
}

fn error_of(input: &str) -> (TokenKind, usize, usize, String) {
    match parse_text(input) {
        Err(ParseError::UnexpectedToken(token, msg)) => {
            (token.kind, token.span.line, token.span.column, msg)
        }
        other => panic!("expected an unexpected-token error, got {:?}", other),
    }
}

#[test]
fn test_parse_players() {
    let input = "players = { p1, p2 }";
    let mut lexer = Lexer::new(input);
    let tokens = lexer.tokenize();
    let mut parser = Parser::new(tokens);
    let playbook = parser.parse().unwrap();
    assert_eq!(playbook.players, vec!["p1", "p2"]);
}

#[test]
fn test_parse_full_example() {
    let input = r#"
        players = { p1, p2 }
        state = {
            baller = p1,
            position = {
                p1 = (0, 0)
                p2 = (10, 20)
            },
        }
        action = {
            move = {
                p2 -> (30, 40)
            },
            pass = {
                p1 -> p2:after
            },
        }
        "#;
    let mut lexer = Lexer::new(input);
    let tokens = lexer.tokenize();
    let mut parser = Parser::new(tokens);
    let playbook = parser.parse().unwrap();

    assert_eq!(playbook.players.len(), 2);
    assert_eq!(playbook.state.baller, Some("p1".to_string()));
    assert_eq!(playbook.state.positions.get("p1"), Some(&Point::from_ints(0, 0)));
    assert_eq!(playbook.state.positions.get("p2"), Some(&Point::from_ints(10, 20)));

    assert_eq!(playbook.action.moves.len(), 1);
    assert_eq!(playbook.action.moves[0].player, "p2");
    assert_eq!(playbook.action.moves[0].target, Point::from_ints(30, 40));

    assert_eq!(playbook.action.passes.len(), 1);
    assert_eq!(playbook.action.passes[0].from, "p1");
    assert_eq!(playbook.action.passes[0].to, "p2");
    match playbook.action.passes[0].timing {
        Timing::After => {}
        _ => panic!("Expected After timing"),
    }
}

#[test]
fn test_levenshtein() {
    assert_eq!(levenshtein("kitten", "sitting"), 3);
    assert_eq!(levenshtein("action", "aciton"), 2);
    assert_eq!(levenshtein("pass", "pas"), 1);
}

#[test]
fn levenshtein_edges() {
    assert_eq!(levenshtein("", "screen"), 6);
    assert_eq!(levenshtein("screen", ""), 6);
    assert_eq!(levenshtein("", ""), 0);
    assert_eq!(levenshtein("position", "position"), 0);
    assert_eq!(levenshtein("héllo", "hello"), 1);
}

#[test]
fn suggestion_picks_the_first_nearest() {
    assert_eq!(get_suggestion("aciton", &["players", "state", "action"]), Some("action".to_string()));
    assert_eq!(get_suggestion("pas", &["move", "screen", "pass"]), Some("pass".to_string()));
    assert_eq!(get_suggestion("zzzzzz", &["move", "screen", "pass"]), None);
    // "mo" is two edits from "move" and three from the others
    assert_eq!(get_suggestion("mo", &["move", "screen", "pass"]), Some("move".to_string()));
    // equally near: the first wins
    assert_eq!(get_suggestion("ab", &["a", "b"]), Some("a".to_string()));
}

#[test]
fn players_only_gives_empty_state_and_action() {
    let playbook = parse_text("players = { p1, p2 }").unwrap();
    assert_eq!(playbook.players, vec!["p1", "p2"]);
    assert_eq!(playbook.state.baller, None);
    assert_eq!(playbook.state.positions.get("p1"), None);
    assert!(playbook.action.moves.is_empty());
    assert!(playbook.action.screens.is_empty());
    assert!(playbook.action.passes.is_empty());
}

#[test]
fn section_typo_is_suggested() {
    let (kind, line, column, msg) = error_of("aciton = { }");
    assert_eq!(kind, TokenKind::Identifier("aciton".to_string()));
    assert_eq!((line, column), (1, 1));
    assert_eq!(msg, "Expected section start. Did you mean 'action'?");
}

#[test]
fn far_off_section_has_plain_message() {
    let (_, _, _, msg) = error_of("xyzzy = { }");
    assert_eq!(msg, "Expected section start (players, state, action)");
    let (kind, _, _, msg) = error_of("= { }");
    assert_eq!(kind, TokenKind::Equals);
    assert_eq!(msg, "Expected section start (players, state, action)");
}

#[test]
fn unterminated_block_reports_end_of_input() {
    let (kind, _, column, msg) = error_of("players = { ");
    assert_eq!(kind, TokenKind::EOF);
    assert_eq!(column, 13);
    assert_eq!(msg, "Expected RBrace");
}

#[test]
fn state_and_action_typos_are_suggested() {
    let (_, _, _, msg) = error_of("state = { positon = { } }");
    assert_eq!(msg, "Expected state property. Did you mean 'position'?");
    let (_, _, _, msg) = error_of("action = { mvoe = { } }");
    assert_eq!(msg, "Expected action property. Did you mean 'move'?");
    let (_, _, _, msg) = error_of("action = { 7 }");
    assert_eq!(msg, "Expected action property (move, screen, pass)");
}

#[test]
fn middle_timing_is_for_screens_only() {
    let playbook = parse_text("action = { screen = { p1 -> p2 : middle } }").unwrap();
    assert_eq!(playbook.action.screens[0].timing, Timing::Middle);
    let (kind, _, _, msg) = error_of("action = { pass = { p1 -> p2 : middle } }");
    assert_eq!(kind, TokenKind::Middle);
    assert_eq!(msg, "Expected timing (before, after)");
    let (_, _, _, msg) = error_of("action = { screen = { p1 -> p2 : p3 } }");
    assert_eq!(msg, "Expected timing (before, after, middle)");
}

#[test]
fn timing_defaults_to_unspecified() {
    let playbook = parse_text("action = { pass = { p1 -> p2, p2 -> p1 : before } }").unwrap();
    assert_eq!(playbook.action.passes[0].timing, Timing::Unspecified);
    assert_eq!(playbook.action.passes[1].timing, Timing::Before);
}

#[test]
fn coordinate_errors_name_the_missing_part() {
    let (_, _, _, msg) = error_of("state = { position = { p1 = (a, 2) } }");
    assert_eq!(msg, "Expected Number for X");
    let (_, _, _, msg) = error_of("state = { position = { p1 = (1 2) } }");
    assert_eq!(msg, "Expected Comma");
    let (_, _, _, msg) = error_of("state = { position = { p1 = (1, ) } }");
    assert_eq!(msg, "Expected Number for Y");
    let (_, _, _, msg) = error_of("state = { position = { p1 = (1, 2, 3) } }");
    assert_eq!(msg, "Expected RParenthesis");
}

#[test]
fn later_sections_replace_state_and_add_players() {
    let playbook = parse_text(
        "players = { a } state = { baller = a } players = { b c } state = { position = { b = (1, 1) } }",
    )
    .unwrap();
    assert_eq!(playbook.players, vec!["a", "b", "c"]);
    assert_eq!(playbook.state.baller, None);
    assert_eq!(playbook.state.positions.get("b"), Some(&Point::from_ints(1, 1)));
}

#[test]
fn repeated_position_keeps_the_last() {
    let playbook = parse_text("state = { position = { p1 = (1, 1), p1 = (2, 2) } }").unwrap();
    assert_eq!(playbook.state.positions.get("p1"), Some(&Point::from_ints(2, 2)));
}

#[test]
fn comment_inside_a_block_is_an_error() {
    let (kind, line, _, msg) = error_of("players = {\n // who\n p1 }");
    assert_eq!(kind, TokenKind::Comment("who".to_string()));
    assert_eq!(line, 2);
    assert_eq!(msg, "Expected Identifier");
}
