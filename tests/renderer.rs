use playbook_lang_core::ast::Point;
use playbook_lang_core::ir::{Entity, Interaction, MoveLine, PassLine, Scene, ScreenLine};
use playbook_lang_core::num::Num;
use playbook_lang_core::Renderer;

#[test]
fn test_full_pipeline() {
    let renderer = Renderer::new();
    let input = r#"            players = { p1, p2 }
            state = { baller = p1, position = { p1 = (0, 0), p2 = (50, 50) } }
            action = { move = { p2 -> (0, 50) } }
        "#;
    let output = renderer.render(input).expect("Failed to render");
    assert!(output.contains("<svg"));
    assert!(output.contains("circle"));
    assert!(output.contains(">1<"));
    assert!(output.contains(">2<"));
}

#[test]
fn test_error_reporting() {
    let renderer = Renderer::new();
    let input = "players = { "; // Missing closing brace
    let output = renderer.render(input).unwrap_err();
    assert!(output.contains("Error"));
    assert!(output.contains("Expected RBrace"));
}

#[test]
fn test_typo_suggestion() {
    let renderer = Renderer::new();
    let input = "aciton = { }"; // typo: action
    let output = renderer.render(input).unwrap_err();
    assert!(output.contains("Did you mean 'action'?"));
}

#[test]
fn error_message_layout() {
    let renderer = Renderer::default();
    assert_eq!(
        renderer.render("players = { ").unwrap_err(),
        "Error at line 1, column 13: Expected RBrace (found EOF)"
    );
    assert_eq!(
        renderer.render("\n  aciton = { }").unwrap_err(),
        "Error at line 2, column 3: Expected section start. Did you mean 'action'? (found Identifier(\"aciton\"))"
    );
    assert_eq!(
        renderer.render("players = { 4 }").unwrap_err(),
        "Error at line 1, column 13: Expected Identifier (found Number(4.0))"
    );
}

#[test]
fn rendering_is_deterministic() {
    let renderer = Renderer::new();
    let input = "players = { p1, p2 } state = { baller = p1, position = { p1 = (0, 0), p2 = (10, 10) } }
                 action = { move = { p2 -> (20, 20) }, pass = { p1 -> p2 }, screen = { p1 -> p2 } }";
    let a = renderer.render(input).unwrap();
    let b = Renderer::new().render(input).unwrap();
    assert_eq!(a, b);
}

#[test]
fn empty_scene_is_court_and_arrowhead() {
    let svg = Renderer::new().render_scene(&Scene { entities: vec![], interactions: vec![] });
    assert!(svg.starts_with("<svg width=\"500\" height=\"500\" viewBox=\"-105 -105 210 210\""));
    assert!(svg.contains("<circle cx=\"0\" cy=\"-84\" r=\"5\" stroke=\"red\""));
    assert!(svg.ends_with("</marker></defs></svg>"));
    assert_eq!(svg.matches("<marker").count(), 1);
    assert_eq!(Renderer::new().render("").unwrap(), svg);
}

#[test]
fn move_and_pass_lines() {
    let scene = Scene {
        entities: vec![],
        interactions: vec![
            Interaction::Move(MoveLine {
                player_id: "p1".to_string(),
                from: Point::from_ints(0, 0),
                to: Point::new(Num::from_micros(250_000), Num::from_int(-3)),
            }),
            Interaction::Pass(PassLine { from: Point::from_ints(1, 2), to: Point::from_ints(3, 4) }),
        ],
    };
    let svg = Renderer::new().render_scene(&scene);
    assert!(svg.contains("<line x1=\"0\" y1=\"0\" x2=\"0.25\" y2=\"-3\" stroke=\"black\" stroke-width=\"2\" marker-end=\"url(#arrowhead)\" />"));
    assert!(svg.contains("<line x1=\"1\" y1=\"2\" x2=\"3\" y2=\"4\" stroke=\"black\" stroke-width=\"2\" stroke-dasharray=\"4\" marker-end=\"url(#arrowhead)\" />"));
    let move_at = svg.find("x2=\"0.25\"").unwrap();
    let pass_at = svg.find("stroke-dasharray").unwrap();
    assert!(move_at < pass_at);
}

#[test]
fn screen_draws_stem_and_bar() {
    let scene = Scene {
        entities: vec![],
        interactions: vec![Interaction::Screen(ScreenLine {
            screener_id: "p1".to_string(),
            from: Point::from_ints(0, 0),
            to: Point::from_ints(0, 20),
        })],
    };
    let svg = Renderer::new().render_scene(&scene);
    assert!(svg.contains("<line x1=\"0\" y1=\"0\" x2=\"0\" y2=\"15\" stroke=\"black\" stroke-width=\"2\" />"));
    assert!(svg.contains("<line x1=\"7.5\" y1=\"15\" x2=\"-7.5\" y2=\"15\" stroke=\"black\" stroke-width=\"2\" />"));
}

#[test]
fn diagonal_screen_rounds_toward_zero() {
    let scene = Scene {
        entities: vec![],
        interactions: vec![Interaction::Screen(ScreenLine {
            screener_id: "p1".to_string(),
            from: Point::from_ints(0, 0),
            to: Point::from_ints(30, 40),
        })],
    };
    let svg = Renderer::new().render_scene(&scene);
    // length 50: contact point 5 back is (27, 36); the bar runs 7.5 across
    assert!(svg.contains("x2=\"27\" y2=\"36\""));
    assert!(svg.contains("<line x1=\"33\" y1=\"31.5\" x2=\"21\" y2=\"40.5\""));
}

#[test]
fn screen_onto_itself_points_down() {
    let scene = Scene {
        entities: vec![],
        interactions: vec![Interaction::Screen(ScreenLine {
            screener_id: "p1".to_string(),
            from: Point::from_ints(10, 10),
            to: Point::from_ints(10, 10),
        })],
    };
    let svg = Renderer::new().render_scene(&scene);
    assert!(svg.contains("<line x1=\"10\" y1=\"10\" x2=\"10\" y2=\"5\""));
    assert!(svg.contains("<line x1=\"17.5\" y1=\"5\" x2=\"2.5\" y2=\"5\""));
}

#[test]
fn players_draw_after_lines_with_ball_marker() {
    let scene = Scene {
        entities: vec![Entity {
            id: "p7".to_string(),
            label: "7".to_string(),
            start_pos: Point::from_ints(-1, 0),
            end_pos: Point::from_ints(2, 3),
            is_baller: true,
        }],
        interactions: vec![Interaction::Pass(PassLine { from: Point::origin(), to: Point::origin() })],
    };
    let svg = Renderer::new().render_scene(&scene);
    let faded = svg.find("<circle cx=\"-1\" cy=\"0\" r=\"8\"").unwrap();
    let solid = svg.find("<circle cx=\"2\" cy=\"3\" r=\"10\"").unwrap();
    let label = svg.find(">7</text>").unwrap();
    let ball = svg.find("r=\"4\" fill=\"orange\"").unwrap();
    let line = svg.find("stroke-dasharray").unwrap();
    assert!(line < faded && faded < solid && solid < label && label < ball);
}

#[test]
fn negative_fractions_and_default_renderer() {
    let svg = Renderer::default()
        .render("players = { p9 } state = { position = { p9 = (-0.5, 2.125) } }")
        .unwrap();
    assert!(svg.contains("<circle cx=\"-0.5\" cy=\"2.125\" r=\"10\""));
    assert!(svg.contains(">9</text>"));
    assert!(svg.starts_with("<svg width=\"500\" height=\"500\""));
}

#[test]
fn found_tokens_are_shown_as_debug_prints_them() {
    let renderer = Renderer::new();
    assert_eq!(
        renderer.render("\"").unwrap_err(),
        "Error at line 1, column 1: Expected section start (players, state, action) (found Identifier(\"\\\"\"))"
    );
    assert_eq!(
        renderer.render("// say \"hi\" \\ there").unwrap_err(),
        "Error at line 1, column 1: Expected section start (players, state, action) (found Comment(\"say \\\"hi\\\" \\\\ there\"))"
    );
    let found = |input: &str| {
        let msg = renderer.render(input).unwrap_err();
        let at = msg.find("(found ").unwrap();
        msg[at + 7..msg.len() - 1].to_string()
    };
    assert_eq!(found("players = { 0.5 }"), "Number(0.5)");
    assert_eq!(found("players = { -12 }"), "Number(-12.0)");
    assert_eq!(found("players = { 0 }"), "Number(0.0)");
    assert_eq!(found("players = { 0.00005 }"), "Number(5e-5)");
    assert_eq!(found("players = { -0.000012 }"), "Number(-1.2e-5)");
    assert_eq!(found("players = { 0.000003 }"), "Number(3e-6)");
    assert_eq!(found("players = { 0.0001 }"), "Number(0.0001)");
    for (text, value) in [("0.5", 0.5f64), ("-12", -12.0), ("0.00005", 0.00005), ("-0.000012", -0.000012), ("0.000003", 0.000003), ("0.0001", 0.0001), ("123.456", 123.456)] {
        assert_eq!(found(&format!("players = {{ {} }}", text)), format!("Number({:?})", value));
    }
    assert_eq!(found("players = { x, = }"), "Equals");
}
