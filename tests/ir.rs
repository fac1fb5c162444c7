use playbook_lang_core::ast::{
    Action, MoveAction, PassAction, Playbook, Point, PositionMap, ScreenAction, State, Timing,
};
use playbook_lang_core::ir::{IRGenerator, Interaction};
use playbook_lang_core::lexer::Lexer;
use playbook_lang_core::parser::Parser;

#[test]
fn test_ir_generation() {
    let mut positions = PositionMap::new();
    positions.insert("p1".to_string(), Point::from_ints(0, 0));
    positions.insert("p2".to_string(), Point::from_ints(10, 10));

    let playbook = Playbook {
        players: vec!["p1".to_string(), "p2".to_string()],
        state: State {
            baller: Some("p1".to_string()),
            positions,
        },
        action: Action {
            moves: vec![MoveAction {
                player: "p2".to_string(),
                target: Point::from_ints(20, 20),
            }],
            passes: vec![PassAction {
                from: "p1".to_string(),
                to: "p2".to_string(),
                timing: Timing::After,
            }],
            ..Default::default()
        },
    };

    let scene = IRGenerator::generate(playbook);

    assert_eq!(scene.entities.len(), 2);
    let p2_entity = scene.entities.iter().find(|e| e.id == "p2").unwrap();
    assert_eq!(p2_entity.start_pos, Point::from_ints(10, 10));
    assert_eq!(p2_entity.end_pos, Point::from_ints(20, 20));

    // Pass should go to p2's end_pos because timing is After
    if let Interaction::Pass(pass) = &scene.interactions[1] {
        assert_eq!(pass.to, Point::from_ints(20, 20));
    } else {
        panic!("Expected Pass interaction");
    }
}

fn scene_of(input: &str) -> playbook_lang_core::ir::Scene {
    let mut lexer = Lexer::new(input);
    let mut parser = Parser::new(lexer.tokenize());
    IRGenerator::generate(parser.parse().unwrap())
}

#[test]
fn end_to_end_pass_goes_to_the_receivers_end() {
    let scene = scene_of(
        "players = { p1, p2 }
         state = { baller = p1, position = { p1 = (0, 0), p2 = (10, 10) } }
         action = { move = { p2 -> (20, 20) }, pass = { p1 -> p2 : after } }",
    );
    match &scene.interactions[1] {
        Interaction::Pass(p) => {
            assert_eq!(p.to, Point::from_ints(20, 20));
            assert_ne!(p.to, Point::from_ints(10, 10));
            assert_eq!(p.from, Point::from_ints(0, 0));
        }
        other => panic!("expected a pass, got {:?}", other),
    }
}

#[test]
fn entities_follow_player_order() {
    let scene = scene_of("players = { c, a, b, a }");
    let ids: Vec<&str> = scene.entities.iter().map(|e| e.id.as_str()).collect();
    assert_eq!(ids, vec!["c", "a", "b", "a"]);
}

#[test]
fn unmoved_player_ends_where_it_starts() {
    let scene = scene_of(
        "players = { p1, p2, p3 }
         state = { position = { p1 = (1, 2), p2 = (3, 4) } }
         action = { move = { p2 -> (5, 6), p2 -> (7, 8) } }",
    );
    assert_eq!(scene.entities[0].start_pos, Point::from_ints(1, 2));
    assert_eq!(scene.entities[0].end_pos, Point::from_ints(1, 2));
    assert_eq!(scene.entities[1].end_pos, Point::from_ints(7, 8));
    assert_eq!(scene.entities[2].start_pos, Point::origin());
    assert_eq!(scene.entities[2].end_pos, Point::origin());
}

#[test]
fn pass_before_goes_to_the_receivers_start() {
    let scene = scene_of(
        "players = { p1, p2 }
         state = { position = { p1 = (0, 0), p2 = (10, 10) } }
         action = { move = { p2 -> (20, 20), p1 -> (5, 5) }, pass = { p1 -> p2 : before, p1 -> p2 } }",
    );
    match (&scene.interactions[2], &scene.interactions[3]) {
        (Interaction::Pass(a), Interaction::Pass(b)) => {
            assert_eq!(a.from, Point::from_ints(5, 5));
            assert_eq!(a.to, Point::from_ints(10, 10));
            assert_eq!(b.to, Point::from_ints(20, 20));
        }
        other => panic!("expected passes, got {:?}", other),
    }
}

#[test]
fn interactions_are_grouped_moves_passes_screens() {
    let scene = scene_of(
        "players = { p1, p2 }
         action = { screen = { p1 -> p2 : before }, pass = { p2 -> p1 }, move = { p1 -> (1, 1) }, screen = { p2 -> p1 : middle } }",
    );
    assert_eq!(scene.interactions.len(), 4);
    assert!(matches!(scene.interactions[0], Interaction::Move(_)));
    assert!(matches!(scene.interactions[1], Interaction::Pass(_)));
    match &scene.interactions[3] {
        Interaction::Screen(s) => {
            assert_eq!(s.screener_id, "p2");
            // middle reads as after: p1's end
            assert_eq!(s.to, Point::from_ints(1, 1));
        }
        other => panic!("expected a screen, got {:?}", other),
    }
    match &scene.interactions[2] {
        Interaction::Screen(s) => assert_eq!(s.to, Point::origin()),
        other => panic!("expected a screen, got {:?}", other),
    }
}

#[test]
fn labels_drop_every_p_and_baller_is_marked() {
    let mut positions = PositionMap::new();
    positions.insert("pp1p".to_string(), Point::from_ints(1, 1));
    let playbook = Playbook {
        players: vec!["pp1p".to_string(), "ace".to_string()],
        state: State { baller: Some("ace".to_string()), positions },
        action: Action {
            screens: vec![ScreenAction {
                player: "ghost".to_string(),
                target: "pp1p".to_string(),
                timing: Timing::Unspecified,
            }],
            ..Default::default()
        },
    };
    let scene = IRGenerator::generate(playbook);
    assert_eq!(scene.entities[0].label, "1");
    assert_eq!(scene.entities[1].label, "ace");
    assert!(!scene.entities[0].is_baller);
    assert!(scene.entities[1].is_baller);
    match &scene.interactions[0] {
        Interaction::Screen(s) => {
            assert_eq!(s.from, Point::origin());
            assert_eq!(s.to, Point::from_ints(1, 1));
        }
        other => panic!("expected a screen, got {:?}", other),
    }
}
