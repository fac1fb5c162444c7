//! Draws a scene as SVG markup: the court, then the action lines, then the players.
use vstd::prelude::*;
use crate::ast::{Point, coords};
use crate::ir::{Scene, Entity, Interaction, MoveLine, PassLine, ScreenLine};
use crate::num::{num_text, num_debug_text, push_micros, push_num, push_num_debug, LIMIT};
use crate::text::{nat_text, push_nat};
use crate::lexer::{Lexer, Token, TokenKind, tokens_of, lemma_tokens_determined, same_kind};
use crate::parser::{
    Parser, ParseError, section_list, empty_playbook, token_of, kind_name, kind_name_text,
    lemma_alike_sections,
};
use crate::ir::{
    IRGenerator, scene_of, overlay, start_of, end_of, entity_of, move_line_of, pass_line_of,
    screen_line_of,
};
use crate::ast::{Playbook, MoveAction, moves_view, names};

verus! {

/// How far back from its target a screen's bar stands: five units, in millionths.
pub const SHIFT: i64 = 5_000_000;

/// Half the length of a screen's bar: seven and a half units, in millionths.
pub const HALF_BAR: i64 = 7_500_000;

/// A screen shorter than this (a thousandth of a unit) points straight down.
pub const MIN_LENGTH: i64 = 1_000;

pub const SVG_TAIL: &'static str = "\" viewBox=\"-105 -105 210 210\" xmlns=\"http://www.w3.org/2000/svg\">";

/// The court, drawn the same way under every scene: background, boundary, key,
/// free-throw circle, three-point line, half center circle, backboard and hoop.
pub const COURT: &'static str = "<rect x=\"-105\" y=\"-105\" width=\"210\" height=\"210\" fill=\"white\" /><rect x=\"-100\" y=\"-90\" width=\"200\" height=\"180\" fill=\"white\" stroke=\"black\" stroke-width=\"2\" /><rect x=\"-20\" y=\"-90\" width=\"40\" height=\"65\" fill=\"none\" stroke=\"black\" stroke-width=\"1\" /><circle cx=\"0\" cy=\"-25\" r=\"20\" fill=\"none\" stroke=\"black\" stroke-width=\"1\" /><path d=\"M -80 -90 L -80 -35 A 80 80 0 0 0 80 -35 L 80 -90\" fill=\"none\" stroke=\"black\" stroke-width=\"1\" /><path d=\"M -20 90 A 20 20 0 0 1 20 90\" fill=\"none\" stroke=\"black\" stroke-width=\"1\" /><line x1=\"-12\" y1=\"-88\" x2=\"12\" y2=\"-88\" stroke=\"black\" stroke-width=\"1\" /><circle cx=\"0\" cy=\"-84\" r=\"5\" stroke=\"red\" stroke-width=\"1\" fill=\"none\" />";

/// The arrowhead that arrow lines refer to, and the end of the document.
pub const DEFS: &'static str = "<defs><marker id=\"arrowhead\" markerWidth=\"10\" markerHeight=\"7\" refX=\"10\" refY=\"3.5\" orient=\"auto\"><polygon points=\"0 0, 10 3.5, 0 7\" fill=\"black\" /></marker></defs></svg>";

pub const MOVE_TAIL: &'static str = " stroke=\"black\" stroke-width=\"2\" marker-end=\"url(#arrowhead)\" />";

pub const PASS_TAIL: &'static str = " stroke=\"black\" stroke-width=\"2\" stroke-dasharray=\"4\" marker-end=\"url(#arrowhead)\" />";

pub const PLAIN_TAIL: &'static str = " stroke=\"black\" stroke-width=\"2\" />";

pub const FADED_TAIL: &'static str = " r=\"8\" fill=\"white\" stroke=\"gray\" stroke-width=\"1\" opacity=\"0.3\" />";

pub const SOLID_TAIL: &'static str = " r=\"10\" fill=\"white\" stroke=\"black\" stroke-width=\"2\" />";

pub const TEXT_TAIL: &'static str = " font-size=\"12\" text-anchor=\"middle\" dominant-baseline=\"central\" font-family=\"Arial\">";

pub const BALL_TAIL: &'static str = " r=\"4\" fill=\"orange\" stroke=\"black\" stroke-width=\"1\" transform=\"translate(10, -10)\" />";

/// Whether `r` is the integer square root of `n`: the largest `r` with `r * r <= n`.
pub open spec fn is_root(n: nat, r: nat) -> bool {
    r * r <= n < (r + 1) * (r + 1)
}

/// The integer square root of `n`.
pub open spec fn root(n: nat) -> nat {
    choose|r: nat| #[trigger] is_root(n, r)
}

/// `k * a / len`, rounded toward zero.
pub open spec fn scaled(a: int, k: int, len: int) -> int {
    if a >= 0 {
        (k * a) / len
    } else {
        -((k * -a) / len)
    }
}

/// The screen's contact point and the two ends of its bar, for a screen from
/// `from` aimed at `to`: the contact point stands `SHIFT` back from `to` along
/// the direction of the screen (straight down for a screen too short to have
/// one), and the bar, `2 * HALF_BAR` long, is centred on it across that direction.
pub open spec fn screen_points(from: (int, int), to: (int, int)) -> (int, int, int, int, int, int) {
    let dx = to.0 - from.0;
    let dy = to.1 - from.1;
    let len = root((dx * dx + dy * dy) as nat) as int;
    if len > MIN_LENGTH {
        let cx = to.0 - scaled(dx, SHIFT as int, len);
        let cy = to.1 - scaled(dy, SHIFT as int, len);
        (
            cx,
            cy,
            cx + scaled(dy, HALF_BAR as int, len),
            cy - scaled(dx, HALF_BAR as int, len),
            cx - scaled(dy, HALF_BAR as int, len),
            cy + scaled(dx, HALF_BAR as int, len),
        )
    } else {
        let cx = to.0;
        let cy = to.1 - SHIFT;
        (cx, cy, cx + HALF_BAR, cy, cx - HALF_BAR, cy)
    }
}

pub open spec fn line_markup(x1: int, y1: int, x2: int, y2: int, tail: Seq<char>) -> Seq<char> {
    "<line x1=\""@ + num_text(x1) + "\" y1=\""@ + num_text(y1) + "\" x2=\""@ + num_text(x2)
        + "\" y2=\""@ + num_text(y2) + "\""@ + tail
}

pub open spec fn circle_markup(p: Point, tail: Seq<char>) -> Seq<char> {
    "<circle cx=\""@ + num_text(p.x@) + "\" cy=\""@ + num_text(p.y@) + "\""@ + tail
}

pub open spec fn court_markup(width: nat, height: nat) -> Seq<char> {
    "<svg width=\""@ + nat_text(width) + "\" height=\""@ + nat_text(height) + SVG_TAIL@ + COURT@
}

pub open spec fn interaction_markup(i: Interaction) -> Seq<char> {
    match i {
        Interaction::Move(l) => line_markup(l.from.x@, l.from.y@, l.to.x@, l.to.y@, MOVE_TAIL@),
        Interaction::Pass(l) => line_markup(l.from.x@, l.from.y@, l.to.x@, l.to.y@, PASS_TAIL@),
        Interaction::Screen(l) => {
            let g = screen_points(coords(l.from), coords(l.to));
            line_markup(l.from.x@, l.from.y@, g.0, g.1, PLAIN_TAIL@) + line_markup(
                g.2,
                g.3,
                g.4,
                g.5,
                PLAIN_TAIL@,
            )
        },
    }
}

/// A player: a faded circle where it starts, a solid one with its label where
/// it ends, and a ball beside that one if it has the ball.
pub open spec fn entity_markup(e: Entity) -> Seq<char> {
    circle_markup(e.start_pos, FADED_TAIL@) + circle_markup(e.end_pos, SOLID_TAIL@) + "<text x=\""@
        + num_text(e.end_pos.x@) + "\" y=\""@ + num_text(e.end_pos.y@) + "\""@ + TEXT_TAIL@
        + e.label@ + "</text>"@ + if e.is_baller {
        circle_markup(e.end_pos, BALL_TAIL@)
    } else {
        Seq::empty()
    }
}

pub open spec fn interactions_markup(s: Seq<Interaction>) -> Seq<char>
    decreases s.len(),
{
    if s.len() == 0 {
        Seq::empty()
    } else {
        interactions_markup(s.drop_last()) + interaction_markup(s.last())
    }
}

pub open spec fn entities_markup(s: Seq<Entity>) -> Seq<char>
    decreases s.len(),
{
    if s.len() == 0 {
        Seq::empty()
    } else {
        entities_markup(s.drop_last()) + entity_markup(s.last())
    }
}

/// The whole document: the court, every interaction in order, every player in
/// order, and the shared arrowhead.
pub open spec fn scene_markup(width: nat, height: nat, scene: Scene) -> Seq<char> {
    court_markup(width, height) + interactions_markup(scene.interactions@) + entities_markup(
        scene.entities@,
    ) + DEFS@
}

proof fn lemma_root(n: nat, r: nat)
    requires
        r * r <= n < (r + 1) * (r + 1),
    ensures
        root(n) == r,
{
    assert(is_root(n, r));
    let c = root(n);
    assert(c * c <= n < (c + 1) * (c + 1));
    if c < r {
        assert((c + 1) * (c + 1) <= r * r) by (nonlinear_arith)
            requires
                c < r,
        ;
    } else if c > r {
        assert((r + 1) * (r + 1) <= c * c) by (nonlinear_arith)
            requires
                r < c,
        ;
    }
}

/// The integer square root of `n`.
fn isqrt(n: u128) -> (r: u128)
    requires
        n < 0x4000_0000_0000_0000_0000_0000_0000_0000,
    ensures
        r == root(n as nat),
        r * r <= n < (r + 1) * (r + 1),
{
    let mut lo: u128 = 0;
    let mut hi: u128 = 0x1_0000_0000_0000_0000;
    assert(n < hi * hi) by (nonlinear_arith)
        requires
            n < 0x4000_0000_0000_0000_0000_0000_0000_0000,
            hi == 0x1_0000_0000_0000_0000u128,
    ;
    while hi - lo > 1
        invariant
            lo < hi <= 0x1_0000_0000_0000_0000,
            lo * lo <= n < hi * hi,
        decreases hi - lo,
    {
        let mid = lo + (hi - lo) / 2;
        assert(mid * mid < 0x1_0000_0000_0000_0000_0000_0000_0000_0000) by (nonlinear_arith)
            requires
                mid < 0x1_0000_0000_0000_0000u128,
        ;
        if mid * mid <= n {
            lo = mid;
        } else {
            hi = mid;
        }
    }
    proof {
        lemma_root(n as nat, lo as nat);
    }
    lo
}

/// `k * a / len` rounded toward zero, for `|a| <= len`.
fn scale(a: i128, k: i128, len: u128) -> (r: i128)
    requires
        0 < len,
        0 <= k <= 10_000_000,
        -(len as int) <= a <= len,
        len < 0x1_0000_0000_0000_0000,
    ensures
        r == scaled(a as int, k as int, len as int),
        -k <= r <= k,
{
    let m: u128 = if a >= 0 {
        a as u128
    } else {
        (-a) as u128
    };
    assert(k as u128 * m <= 10_000_000 * 0x1_0000_0000_0000_0000) by (nonlinear_arith)
        requires
            m <= len,
            len < 0x1_0000_0000_0000_0000,
            0 <= k <= 10_000_000,
    ;
    let q = (k as u128 * m) / len;
    proof {
        let (ki, mi, li) = (k as int, m as int, len as int);
        assert(ki * mi <= ki * li) by (nonlinear_arith)
            requires
                mi <= li,
                0 <= ki,
        ;
        vstd::arithmetic::div_mod::lemma_div_is_ordered(ki * mi, ki * li, li);
        vstd::arithmetic::div_mod::lemma_div_by_multiple(ki, li);
    }
    if a >= 0 {
        q as i128
    } else {
        -(q as i128)
    }
}

/// The points of a screen from `from` aimed at `to`, as `screen_points` gives them.
fn screen_geometry(from: Point, to: Point) -> (r: (i64, i64, i64, i64, i64, i64))
    ensures
        (r.0 as int, r.1 as int, r.2 as int, r.3 as int, r.4 as int, r.5 as int)
            == screen_points(coords(from), coords(to)),
        r.0 > i64::MIN && r.1 > i64::MIN && r.2 > i64::MIN,
        r.3 > i64::MIN && r.4 > i64::MIN && r.5 > i64::MIN,
{
    let fx = from.x.micros() as i128;
    let fy = from.y.micros() as i128;
    let tx = to.x.micros() as i128;
    let ty = to.y.micros() as i128;
    let dx = tx - fx;
    let dy = ty - fy;
    let ax: u128 = if dx >= 0 {
        dx as u128
    } else {
        (-dx) as u128
    };
    let ay: u128 = if dy >= 0 {
        dy as u128
    } else {
        (-dy) as u128
    };
    assert(ax * ax + ay * ay < 0x4000_0000_0000_0000_0000_0000_0000_0000) by (nonlinear_arith)
        requires
            ax < 2 * LIMIT,
            ay < 2 * LIMIT,
    ;
    let n = ax * ax + ay * ay;
    let len = isqrt(n);
    proof {
        assert(ax * ax == dx * dx && ay * ay == dy * dy) by (nonlinear_arith)
            requires
                ax == dx || ax == -dx,
                ay == dy || ay == -dy,
        ;
        assert(ax <= len && ay <= len) by (nonlinear_arith)
            requires
                n == ax * ax + ay * ay,
                n < (len + 1) * (len + 1),
                len >= 0,
        ;
        assert(len < 0x1_0000_0000_0000_0000) by (nonlinear_arith)
            requires
                len * len <= n,
                n < 0x4000_0000_0000_0000_0000_0000_0000_0000,
        ;
    }
    if len > MIN_LENGTH as u128 {
        let cx = tx - scale(dx, SHIFT as i128, len);
        let cy = ty - scale(dy, SHIFT as i128, len);
        let ex = scale(dy, HALF_BAR as i128, len);
        let ey = scale(dx, HALF_BAR as i128, len);
        (
            cx as i64,
            cy as i64,
            (cx + ex) as i64,
            (cy - ey) as i64,
            (cx - ex) as i64,
            (cy + ey) as i64,
        )
    } else {
        let cx = tx;
        let cy = ty - SHIFT as i128;
        (
            cx as i64,
            cy as i64,
            (cx + HALF_BAR as i128) as i64,
            cy as i64,
            (cx - HALF_BAR as i128) as i64,
            cy as i64,
        )
    }
}

fn push_line(s: &mut String, x1: i64, y1: i64, x2: i64, y2: i64, tail: &str)
    requires
        x1 > i64::MIN && y1 > i64::MIN && x2 > i64::MIN && y2 > i64::MIN,
    ensures
        final(s)@ == old(s)@ + line_markup(x1 as int, y1 as int, x2 as int, y2 as int, tail@),
{
    s.append("<line x1=\"");
    push_micros(s, x1);
    s.append("\" y1=\"");
    push_micros(s, y1);
    s.append("\" x2=\"");
    push_micros(s, x2);
    s.append("\" y2=\"");
    push_micros(s, y2);
    s.append("\"");
    s.append(tail);
    assert(s@ =~= old(s)@ + line_markup(x1 as int, y1 as int, x2 as int, y2 as int, tail@));
}

fn push_circle(s: &mut String, p: Point, tail: &str)
    ensures
        final(s)@ == old(s)@ + circle_markup(p, tail@),
{
    s.append("<circle cx=\"");
    push_num(s, p.x);
    s.append("\" cy=\"");
    push_num(s, p.y);
    s.append("\"");
    s.append(tail);
    assert(s@ =~= old(s)@ + circle_markup(p, tail@));
}

/// Draws SVG diagrams of fixed size.
pub struct Renderer {
    width: u32,
    height: u32,
}

impl Default for Renderer {
    fn default() -> (r: Renderer)
        ensures
            r.width_spec() == 500 && r.height_spec() == 500,
    {
        Renderer::new()
    }
}

impl Renderer {
    pub closed spec fn width_spec(&self) -> nat {
        self.width as nat
    }

    pub closed spec fn height_spec(&self) -> nat {
        self.height as nat
    }

    /// A renderer for a 500 by 500 canvas.
    pub fn new() -> (r: Renderer)
        ensures
            r.width_spec() == 500 && r.height_spec() == 500,
    {
        Renderer { width: 500, height: 500 }
    }

    /// The markup of a scene.
    pub fn render_scene(&self, scene: &Scene) -> (r: String)
        ensures
            r@ == scene_markup(self.width_spec(), self.height_spec(), *scene),
    {
        let mut svg = self.render_court();
        let mut k: usize = 0;
        while k < scene.interactions.len()
            invariant
                k <= scene.interactions@.len(),
                svg@ == court_markup(self.width_spec(), self.height_spec()) + interactions_markup(
                    scene.interactions@.take(k as int),
                ),
            decreases scene.interactions@.len() - k,
        {
            let ghost before = svg@;
            match &scene.interactions[k] {
                Interaction::Move(m) => self.render_move(&mut svg, m),
                Interaction::Pass(p) => self.render_pass(&mut svg, p),
                Interaction::Screen(l) => self.render_screen(&mut svg, l),
            }
            proof {
                let t = scene.interactions@.take(k + 1);
                assert(t.drop_last() =~= scene.interactions@.take(k as int));
                assert(svg@ =~= court_markup(self.width_spec(), self.height_spec())
                    + interactions_markup(t));
            }
            k = k + 1;
        }
        assert(scene.interactions@.take(k as int) =~= scene.interactions@);
        let ghost head = svg@;
        let mut k: usize = 0;
        while k < scene.entities.len()
            invariant
                k <= scene.entities@.len(),
                svg@ == head + entities_markup(scene.entities@.take(k as int)),
            decreases scene.entities@.len() - k,
        {
            self.render_player(&mut svg, &scene.entities[k]);
            proof {
                let t = scene.entities@.take(k + 1);
                assert(t.drop_last() =~= scene.entities@.take(k as int));
                assert(svg@ =~= head + entities_markup(t));
            }
            k = k + 1;
        }
        assert(scene.entities@.take(k as int) =~= scene.entities@);
        svg.append(DEFS);
        assert(svg@ =~= scene_markup(self.width_spec(), self.height_spec(), *scene));
        svg
    }

    fn render_court(&self) -> (r: String)
        ensures
            r@ == court_markup(self.width_spec(), self.height_spec()),
    {
        let mut court = String::new();
        court.append("<svg width=\"");
        push_nat(&mut court, self.width as u64);
        court.append("\" height=\"");
        push_nat(&mut court, self.height as u64);
        court.append(SVG_TAIL);
        court.append(COURT);
        assert(court@ =~= court_markup(self.width_spec(), self.height_spec()));
        court
    }

    fn render_move(&self, svg: &mut String, m: &MoveLine)
        ensures
            final(svg)@ == old(svg)@ + interaction_markup(Interaction::Move(*m)),
    {
        push_line(svg, m.from.x.micros(), m.from.y.micros(), m.to.x.micros(), m.to.y.micros(), MOVE_TAIL);
    }

    fn render_pass(&self, svg: &mut String, p: &PassLine)
        ensures
            final(svg)@ == old(svg)@ + interaction_markup(Interaction::Pass(*p)),
    {
        push_line(svg, p.from.x.micros(), p.from.y.micros(), p.to.x.micros(), p.to.y.micros(), PASS_TAIL);
    }

    fn render_screen(&self, svg: &mut String, s: &ScreenLine)
        ensures
            final(svg)@ == old(svg)@ + interaction_markup(Interaction::Screen(*s)),
    {
        let g = screen_geometry(s.from, s.to);
        push_line(svg, s.from.x.micros(), s.from.y.micros(), g.0, g.1, PLAIN_TAIL);
        push_line(svg, g.2, g.3, g.4, g.5, PLAIN_TAIL);
        assert(svg@ =~= old(svg)@ + interaction_markup(Interaction::Screen(*s)));
    }

    fn render_player(&self, svg: &mut String, entity: &Entity)
        ensures
            final(svg)@ == old(svg)@ + entity_markup(*entity),
    {
        push_circle(svg, entity.start_pos, FADED_TAIL);
        push_circle(svg, entity.end_pos, SOLID_TAIL);
        svg.append("<text x=\"");
        push_num(svg, entity.end_pos.x);
        svg.append("\" y=\"");
        push_num(svg, entity.end_pos.y);
        svg.append("\"");
        svg.append(TEXT_TAIL);
        svg.append(entity.label.as_str());
        svg.append("</text>");
        if entity.is_baller {
            push_circle(svg, entity.end_pos, BALL_TAIL);
        }
        assert(svg@ =~= old(svg)@ + entity_markup(*entity));
    }

    /// Compiles source text to markup: lexes, parses, lowers and draws it; a
    /// parse failure gives its message instead.
    pub fn render(&self, input: &str) -> (r: Result<String, String>)
        ensures
            render_result(r, input@, self.width_spec(), self.height_spec()),
    {
        if !fits(input) {
            let mut msg = String::new();
            msg.append(TOO_LONG);
            return Err(msg);
        }
        let mut lexer = Lexer::new(input);
        let tokens = lexer.tokenize();
        let ghost toks = tokens@;
        let mut parser = Parser::new(tokens);
        match parser.parse() {
            Ok(playbook) => {
                let scene = IRGenerator::generate(playbook);
                let out = self.render_scene(&scene);
                assert(tokens_of(input@, toks));
                Ok(out)
            },
            Err(e) => {
                let msg = error_message(e);
                assert(tokens_of(input@, toks));
                Err(msg)
            },
        }
    }
}

/// What `Debug` prints for a string: the text between double quotes, with
/// quotes, backslashes and control characters escaped.
pub uninterp spec fn debug_str(s: Seq<char>) -> Seq<char>;

/// Relies on `<str as Debug>::fmt` through `format!("{:?}")`; the result depends
/// on the text alone.
#[verifier::external_body]
fn debug_text(s: &str) -> (r: String)
    ensures
        r@ == debug_str(s@),
{
    format!("{:?}", s)
}

/// How an error message shows the token found, as `Debug` prints the kind.
pub open spec fn found_text(k: TokenKind) -> Seq<char> {
    match k {
        TokenKind::Identifier(s) => "Identifier("@ + debug_str(s@) + ")"@,
        TokenKind::Number(n) => "Number("@ + num_debug_text(n@) + ")"@,
        TokenKind::Comment(s) => "Comment("@ + debug_str(s@) + ")"@,
        _ => kind_name(k),
    }
}

/// The message for a parse failure at token `tok`: its line and column, what
/// was expected, and what was found.
pub open spec fn error_text(tok: Token, msg: Seq<char>) -> Seq<char> {
    "Error at line "@ + nat_text(tok.span.line as nat) + ", column "@ + nat_text(
        tok.span.column as nat,
    ) + ": "@ + msg + " (found "@ + found_text(tok.kind) + ")"@
}

/// Whether `r` is what rendering gives for the playbook model `v` or the failure
/// in it, on the tokens `toks`.
pub open spec fn rendered(r: Result<String, String>, toks: Seq<Token>, width: nat, height: nat) -> bool {
    match section_list(toks, 0, empty_playbook()) {
        Ok(v) => r matches Ok(m) && exists|pb: Playbook, scene: Scene|
            pb@ == v && scene_of(scene, pb) && m@ == scene_markup(width, height, scene),
        Err(f) => r matches Err(m) && m@ == error_text(token_of(toks, f.0), f.1),
    }
}

fn push_found(s: &mut String, k: &TokenKind)
    ensures
        final(s)@ == old(s)@ + found_text(*k),
{
    match k {
        TokenKind::Identifier(t) => {
            s.append("Identifier(");
            let d = debug_text(t.as_str());
            s.append(d.as_str());
            s.append(")");
        },
        TokenKind::Number(n) => {
            s.append("Number(");
            push_num_debug(s, *n);
            s.append(")");
        },
        TokenKind::Comment(t) => {
            s.append("Comment(");
            let d = debug_text(t.as_str());
            s.append(d.as_str());
            s.append(")");
        },
        _ => {
            s.append(kind_name_text(k));
        },
    }
    assert(s@ =~= old(s)@ + found_text(*k));
}

/// The message for a parse error.
fn error_message(e: ParseError) -> (r: String)
    ensures
        match e {
            ParseError::UnexpectedToken(tok, msg) => r@ == error_text(tok, msg@),
            ParseError::UnexpectedEOF => r@ == "Error: Unexpected End of File"@,
            ParseError::InvalidSyntax(msg) => r@ == "Error: "@ + msg@,
        },
{
    match e {
        ParseError::UnexpectedToken(token, msg) => {
            let mut s = String::new();
            s.append("Error at line ");
            push_nat(&mut s, token.span.line as u64);
            s.append(", column ");
            push_nat(&mut s, token.span.column as u64);
            s.append(": ");
            s.append(msg.as_str());
            s.append(" (found ");
            push_found(&mut s, &token.kind);
            s.append(")");
            assert(s@ =~= error_text(token, msg@));
            s
        },
        ParseError::UnexpectedEOF => {
            let mut s = String::new();
            s.append("Error: Unexpected End of File");
            assert(s@ =~= "Error: Unexpected End of File"@);
            s
        },
        ParseError::InvalidSyntax(msg) => {
            let mut s = String::new();
            s.append("Error: ");
            s.append(msg.as_str());
            assert(s@ =~= "Error: "@ + msg@);
            s
        },
    }
}


proof fn lemma_overlay_alike(m: Map<Seq<char>, Point>, a: Seq<MoveAction>, b: Seq<MoveAction>)
    requires
        moves_view(a) == moves_view(b),
    ensures
        overlay(m, a) == overlay(m, b),
    decreases a.len(),
{
    assert(moves_view(a).len() == a.len() && moves_view(b).len() == b.len());
    if a.len() > 0 {
        let n = a.len() - 1;
        assert(moves_view(a)[n] == moves_view(b)[n]);
        assert(moves_view(a.drop_last()) =~= moves_view(a).drop_last());
        assert(moves_view(b.drop_last()) =~= moves_view(b).drop_last());
        lemma_overlay_alike(m, a.drop_last(), b.drop_last());
    }
}

proof fn lemma_entities_alike(a: Seq<Entity>, b: Seq<Entity>)
    requires
        a.len() == b.len(),
        forall|k: int| 0 <= k < a.len() ==> entity_markup(#[trigger] a[k]) == entity_markup(b[k]),
    ensures
        entities_markup(a) == entities_markup(b),
    decreases a.len(),
{
    if a.len() > 0 {
        assert(entity_markup(a[a.len() - 1]) == entity_markup(b[b.len() - 1]));
        lemma_entities_alike(a.drop_last(), b.drop_last());
    }
}

proof fn lemma_interactions_alike(a: Seq<Interaction>, b: Seq<Interaction>)
    requires
        a.len() == b.len(),
        forall|k: int|
            0 <= k < a.len() ==> interaction_markup(#[trigger] a[k]) == interaction_markup(b[k]),
    ensures
        interactions_markup(a) == interactions_markup(b),
    decreases a.len(),
{
    if a.len() > 0 {
        assert(interaction_markup(a[a.len() - 1]) == interaction_markup(b[b.len() - 1]));
        lemma_interactions_alike(a.drop_last(), b.drop_last());
    }
}

/// Playbooks with the same content lower to scenes that draw the same.
pub proof fn lemma_scene_markup_determined(
    pb1: Playbook,
    pb2: Playbook,
    s1: Scene,
    s2: Scene,
    width: nat,
    height: nat,
)
    requires
        pb1@ == pb2@,
        scene_of(s1, pb1),
        scene_of(s2, pb2),
    ensures
        scene_markup(width, height, s1) == scene_markup(width, height, s2),
{
    lemma_overlay_alike(pb1.state.positions@, pb1.action.moves@, pb2.action.moves@);
    assert(pb1.state.positions@ == pb2.state.positions@);
    assert forall|id: Seq<char>|
        start_of(pb1, id) == start_of(pb2, id) && end_of(pb1, id) == end_of(pb2, id) by {
    }
    let e1 = s1.entities@;
    let e2 = s2.entities@;
    assert(names(pb1.players@).len() == pb1.players@.len());
    assert(names(pb2.players@).len() == pb2.players@.len());
    assert forall|k: int| 0 <= k < e1.len() implies entity_markup(#[trigger] e1[k]) == entity_markup(
        e2[k],
    ) by {
        assert(names(pb1.players@)[k] == names(pb2.players@)[k]);
        assert(names(pb1.players@)[k] == pb1.players@[k]@);
        assert(names(pb2.players@)[k] == pb2.players@[k]@);
        let id = pb1.players@[k]@;
        assert(entity_of(e1[k], pb1, id));
        assert(entity_of(e2[k], pb2, id));
    }
    lemma_entities_alike(e1, e2);
    let i1 = s1.interactions@;
    let i2 = s2.interactions@;
    let nm = pb1.action.moves@.len();
    let np = pb1.action.passes@.len();
    assert(pb1@.moves.len() == nm && pb2@.moves.len() == pb2.action.moves@.len());
    assert(pb1@.passes.len() == np && pb2@.passes.len() == pb2.action.passes@.len());
    assert(pb1@.screens.len() == pb1.action.screens@.len());
    assert(pb2@.screens.len() == pb2.action.screens@.len());
    assert forall|j: int| 0 <= j < i1.len() implies interaction_markup(#[trigger] i1[j])
        == interaction_markup(i2[j]) by {
        if j < nm {
            assert(pb1@.moves[j] == pb2@.moves[j]);
            assert(move_line_of(i1[j], pb1, pb1.action.moves@[j]));
            assert(move_line_of(i2[j], pb2, pb2.action.moves@[j]));
        } else if j < nm + np {
            let k = j - nm;
            assert(pb1@.passes[k] == pb2@.passes[k]);
            assert(pass_line_of(i1[nm + k], pb1, pb1.action.passes@[k]));
            assert(pass_line_of(i2[nm + k], pb2, pb2.action.passes@[k]));
        } else {
            let k = j - nm - np;
            assert(pb1@.screens[k] == pb2@.screens[k]);
            assert(screen_line_of(i1[nm + np + k], pb1, pb1.action.screens@[k]));
            assert(screen_line_of(i2[nm + np + k], pb2, pb2.action.screens@[k]));
        }
    }
    lemma_interactions_alike(i1, i2);
}

/// The text of a rendering result, whether markup or message.
pub open spec fn result_text(r: Result<String, String>) -> Result<Seq<char>, Seq<char>> {
    match r {
        Ok(m) => Ok(m@),
        Err(m) => Err(m@),
    }
}

/// The message for a text too long for byte offsets to be counted; no text
/// that fits in memory is that long.
pub const TOO_LONG: &'static str = "Error: input too long";

/// The longest text, in characters, that the lexer takes, plus one.
pub const LONGEST: usize = usize::MAX / 4;

/// Whether the text is shorter than `LONGEST` characters.
fn fits(input: &str) -> (r: bool)
    ensures
        r == (input@.len() < LONGEST),
{
    let mut n: usize = 0;
    for c in it: input.chars()
        invariant
            n == it.index(),
            it.seq() == input@,
            n < LONGEST,
    {
        if n + 1 >= LONGEST {
            return false;
        }
        n = n + 1;
    }
    true
}

/// What `render` gives for the text `source`: the rendering of its tokens, or,
/// for a text of `LONGEST` characters or more, `TOO_LONG`.
pub open spec fn render_result(r: Result<String, String>, source: Seq<char>, width: nat, height: nat) -> bool {
    if source.len() < LONGEST {
        exists|toks: Seq<Token>| tokens_of(source, toks) && rendered(r, toks, width, height)
    } else {
        r matches Err(m) && m@ == TOO_LONG@
    }
}

/// Rendering depends on the source text alone: any two results that `render`
/// may give for the same text, on the same canvas, are the same text.
pub proof fn lemma_render_deterministic(
    source: Seq<char>,
    r1: Result<String, String>,
    r2: Result<String, String>,
    width: nat,
    height: nat,
)
    requires
        render_result(r1, source, width, height),
        render_result(r2, source, width, height),
    ensures
        result_text(r1) == result_text(r2),
{
    if source.len() < LONGEST {
        let t1 = choose|toks: Seq<Token>| tokens_of(source, toks) && rendered(r1, toks, width, height);
        let t2 = choose|toks: Seq<Token>| tokens_of(source, toks) && rendered(r2, toks, width, height);
        lemma_tokens_same_render(source, t1, t2, r1, r2, width, height);
    }
}

proof fn lemma_tokens_same_render(
    source: Seq<char>,
    t1: Seq<Token>,
    t2: Seq<Token>,
    r1: Result<String, String>,
    r2: Result<String, String>,
    width: nat,
    height: nat,
)
    requires
        tokens_of(source, t1),
        rendered(r1, t1, width, height),
        tokens_of(source, t2),
        rendered(r2, t2, width, height),
    ensures
        result_text(r1) == result_text(r2),
{
    lemma_tokens_determined(source, t1, t2);
    lemma_alike_sections(t1, t2, 0, empty_playbook());
    match section_list(t1, 0, empty_playbook()) {
        Ok(v) => {
            let (pb1, sc1) = choose|pb: Playbook, scene: Scene|
                pb@ == v && scene_of(scene, pb) && r1->Ok_0@ == scene_markup(width, height, scene);
            let (pb2, sc2) = choose|pb: Playbook, scene: Scene|
                pb@ == v && scene_of(scene, pb) && r2->Ok_0@ == scene_markup(width, height, scene);
            lemma_scene_markup_determined(pb1, pb2, sc1, sc2, width, height);
        },
        Err(f) => {
            let p = f.0;
            if 0 <= p < t1.len() {
                assert(same_kind(t1[p].kind, t2[p].kind) && t1[p].span == t2[p].span);
            }
        },
    }
}

} // verus!
