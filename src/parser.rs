//! Recursive-descent parser from tokens to a playbook. It stops at the first
//! token that does not fit the grammar, and reports that token.
use vstd::prelude::*;
use crate::ast::{
    Playbook, PlaybookView, State, Action, MoveAction, ScreenAction, PassAction, Timing, Point,
    PositionMap, names, moves_view, screens_view, passes_view,
};
use crate::lexer::{Token, TokenKind, Span, alike, same_kind};
use crate::num::Num;
use crate::suggest::{get_suggestion, suggestion, texts};
use crate::chars::text_of;
pub use crate::suggest::levenshtein;

verus! {

/// Why parsing stopped. The parser reports every grammar violation as
/// `UnexpectedToken`, with the token found and what was expected instead; the
/// other two variants are for callers that report problems of their own.
#[derive(Debug)]
pub enum ParseError {
    UnexpectedToken(Token, String),
    UnexpectedEOF,
    InvalidSyntax(String),
}

/// A failure in the model: the index of the offending token and the message.
pub type Failure = (int, Seq<char>);

/// The token at `p`; past the end, an end-of-input token with an empty span.
pub open spec fn token_of(t: Seq<Token>, p: int) -> Token {
    if 0 <= p < t.len() {
        t[p]
    } else {
        Token { kind: TokenKind::EOF, span: Span { start: 0, end: 0, line: 0, column: 0 } }
    }
}

pub open spec fn kind_of(t: Seq<Token>, p: int) -> TokenKind {
    token_of(t, p).kind
}

/// The position after consuming the token at `p`; the end is never passed.
pub open spec fn next_pos(t: Seq<Token>, p: int) -> int {
    if 0 <= p < t.len() {
        p + 1
    } else {
        p
    }
}

/// Which kind a token is, whatever it carries.
pub open spec fn tag(k: TokenKind) -> nat {
    match k {
        TokenKind::Players => 0,
        TokenKind::State => 1,
        TokenKind::Baller => 2,
        TokenKind::Position => 3,
        TokenKind::Action => 4,
        TokenKind::Move => 5,
        TokenKind::Screen => 6,
        TokenKind::Pass => 7,
        TokenKind::Before => 8,
        TokenKind::After => 9,
        TokenKind::Middle => 10,
        TokenKind::Identifier(_) => 11,
        TokenKind::Number(_) => 12,
        TokenKind::Equals => 13,
        TokenKind::LBrace => 14,
        TokenKind::RBrace => 15,
        TokenKind::LParenthesis => 16,
        TokenKind::RParenthesis => 17,
        TokenKind::Comma => 18,
        TokenKind::Arrow => 19,
        TokenKind::Colon => 20,
        TokenKind::Comment(_) => 21,
        TokenKind::EOF => 22,
    }
}

pub open spec fn is_at(t: Seq<Token>, p: int, k: TokenKind) -> bool {
    tag(kind_of(t, p)) == tag(k)
}

/// The name of a kind that carries nothing.
pub open spec fn kind_name(k: TokenKind) -> Seq<char> {
    match k {
        TokenKind::Players => "Players"@,
        TokenKind::State => "State"@,
        TokenKind::Baller => "Baller"@,
        TokenKind::Position => "Position"@,
        TokenKind::Action => "Action"@,
        TokenKind::Move => "Move"@,
        TokenKind::Screen => "Screen"@,
        TokenKind::Pass => "Pass"@,
        TokenKind::Before => "Before"@,
        TokenKind::After => "After"@,
        TokenKind::Middle => "Middle"@,
        TokenKind::Identifier(_) => "Identifier"@,
        TokenKind::Number(_) => "Number"@,
        TokenKind::Equals => "Equals"@,
        TokenKind::LBrace => "LBrace"@,
        TokenKind::RBrace => "RBrace"@,
        TokenKind::LParenthesis => "LParenthesis"@,
        TokenKind::RParenthesis => "RParenthesis"@,
        TokenKind::Comma => "Comma"@,
        TokenKind::Arrow => "Arrow"@,
        TokenKind::Colon => "Colon"@,
        TokenKind::Comment(_) => "Comment"@,
        TokenKind::EOF => "EOF"@,
    }
}

/// Consumes a token of kind `k`.
pub open spec fn expect(t: Seq<Token>, p: int, k: TokenKind) -> Result<int, Failure> {
    if is_at(t, p, k) {
        Ok(next_pos(t, p))
    } else {
        Err((p, "Expected "@ + kind_name(k)))
    }
}

/// Consumes an identifier.
pub open spec fn identifier(t: Seq<Token>, p: int) -> Result<(Seq<char>, int), Failure> {
    match kind_of(t, p) {
        TokenKind::Identifier(s) => Ok((s@, next_pos(t, p))),
        _ => Err((p, "Expected Identifier"@)),
    }
}

/// Consumes a number.
pub open spec fn number(t: Seq<Token>, p: int, msg: Seq<char>) -> Result<(Num, int), Failure> {
    match kind_of(t, p) {
        TokenKind::Number(n) => Ok((n, next_pos(t, p))),
        _ => Err((p, msg)),
    }
}

/// Consumes a comma if one is next.
pub open spec fn skip_comma(t: Seq<Token>, p: int) -> int {
    if is_at(t, p, TokenKind::Comma) {
        next_pos(t, p)
    } else {
        p
    }
}

/// `( x , y )`
pub open spec fn coordinate(t: Seq<Token>, p: int) -> Result<(Point, int), Failure> {
    match expect(t, p, TokenKind::LParenthesis) {
        Err(e) => Err(e),
        Ok(p1) => match number(t, p1, "Expected Number for X"@) {
            Err(e) => Err(e),
            Ok((x, p2)) => match expect(t, p2, TokenKind::Comma) {
                Err(e) => Err(e),
                Ok(p3) => match number(t, p3, "Expected Number for Y"@) {
                    Err(e) => Err(e),
                    Ok((y, p4)) => match expect(t, p4, TokenKind::RParenthesis) {
                        Err(e) => Err(e),
                        Ok(p5) => Ok((Point { x, y }, p5)),
                    },
                },
            },
        },
    }
}

/// The message for a token that should have been one of `words`: with the
/// nearest of them when the token is an identifier close to one.
pub open spec fn hint(k: TokenKind, words: Seq<Seq<char>>, lead: Seq<char>, plain: Seq<char>) -> Seq<char> {
    match k {
        TokenKind::Identifier(s) => match suggestion(s@, words) {
            Some(w) => lead + " Did you mean '"@ + w + "'?"@,
            None => plain,
        },
        _ => plain,
    }
}

/// Whether a step from `p` to `q` made progress within the tokens. Every entry
/// of a block consumes at least one token, so this holds wherever the grammar
/// below asks it; it is there to make the recursion's termination evident.
pub open spec fn advanced(t: Seq<Token>, p: int, q: int) -> bool {
    p < q <= t.len()
}

/// The identifiers of a `players` block, up to its `}`, added to `acc`.
pub open spec fn player_list(t: Seq<Token>, p: int, acc: Seq<Seq<char>>) -> Result<(Seq<Seq<char>>, int), Failure>
    decreases t.len() - p,
{
    if is_at(t, p, TokenKind::RBrace) || is_at(t, p, TokenKind::EOF) {
        Ok((acc, p))
    } else {
        match identifier(t, p) {
            Err(e) => Err(e),
            Ok((name, p1)) => {
                let q = skip_comma(t, p1);
                if advanced(t, p, q) {
                    player_list(t, q, acc.push(name))
                } else {
                    Err((p, Seq::empty()))
                }
            },
        }
    }
}

/// The entries `name = (x, y)` of a `position` block, up to its `}`, set in `m`.
pub open spec fn position_list(t: Seq<Token>, p: int, m: Map<Seq<char>, Point>) -> Result<(Map<Seq<char>, Point>, int), Failure>
    decreases t.len() - p,
{
    if is_at(t, p, TokenKind::RBrace) {
        Ok((m, p))
    } else {
        match identifier(t, p) {
            Err(e) => Err(e),
            Ok((name, p1)) => match expect(t, p1, TokenKind::Equals) {
                Err(e) => Err(e),
                Ok(p2) => match coordinate(t, p2) {
                    Err(e) => Err(e),
                    Ok((at, p3)) => {
                        let q = skip_comma(t, p3);
                        if advanced(t, p, q) {
                            position_list(t, q, m.insert(name, at))
                        } else {
                            Err((p, Seq::empty()))
                        }
                    },
                },
            },
        }
    }
}

pub type StateView = (Option<Seq<char>>, Map<Seq<char>, Point>);

pub open spec fn state_words() -> Seq<Seq<char>> {
    seq!["baller"@, "position"@]
}

/// The properties of a `state` block, up to its `}`, applied to `st`.
pub open spec fn state_list(t: Seq<Token>, p: int, st: StateView) -> Result<(StateView, int), Failure>
    decreases t.len() - p,
{
    if is_at(t, p, TokenKind::RBrace) || is_at(t, p, TokenKind::EOF) {
        Ok((st, p))
    } else if is_at(t, p, TokenKind::Baller) {
        match expect(t, next_pos(t, p), TokenKind::Equals) {
            Err(e) => Err(e),
            Ok(p1) => match identifier(t, p1) {
                Err(e) => Err(e),
                Ok((b, p2)) => {
                    let q = skip_comma(t, p2);
                    if advanced(t, p, q) {
                        state_list(t, q, (Some(b), st.1))
                    } else {
                        Err((p, Seq::empty()))
                    }
                },
            },
        }
    } else if is_at(t, p, TokenKind::Position) {
        match expect(t, next_pos(t, p), TokenKind::Equals) {
            Err(e) => Err(e),
            Ok(p1) => match expect(t, p1, TokenKind::LBrace) {
                Err(e) => Err(e),
                Ok(p2) => match position_list(t, p2, st.1) {
                    Err(e) => Err(e),
                    Ok((m, p3)) => match expect(t, p3, TokenKind::RBrace) {
                        Err(e) => Err(e),
                        Ok(p4) => {
                            let q = skip_comma(t, p4);
                            if advanced(t, p, q) {
                                state_list(t, q, (st.0, m))
                            } else {
                                Err((p, Seq::empty()))
                            }
                        },
                    },
                },
            },
        }
    } else {
        Err(
            (
                p,
                hint(
                    kind_of(t, p),
                    state_words(),
                    "Expected state property."@,
                    "Expected state property (baller, position)"@,
                ),
            ),
        )
    }
}

/// The entries `name -> (x, y)` of a `move` block, up to its `}`, added to `acc`.
pub open spec fn move_list(t: Seq<Token>, p: int, acc: Seq<(Seq<char>, Point)>) -> Result<(Seq<(Seq<char>, Point)>, int), Failure>
    decreases t.len() - p,
{
    if is_at(t, p, TokenKind::RBrace) {
        Ok((acc, p))
    } else {
        match identifier(t, p) {
            Err(e) => Err(e),
            Ok((name, p1)) => match expect(t, p1, TokenKind::Arrow) {
                Err(e) => Err(e),
                Ok(p2) => match coordinate(t, p2) {
                    Err(e) => Err(e),
                    Ok((target, p3)) => {
                        let q = skip_comma(t, p3);
                        if advanced(t, p, q) {
                            move_list(t, q, acc.push((name, target)))
                        } else {
                            Err((p, Seq::empty()))
                        }
                    },
                },
            },
        }
    }
}

/// An optional `: timing`; `middle` only where `middle_allowed`.
pub open spec fn timing(t: Seq<Token>, p: int, middle_allowed: bool) -> Result<(Timing, int), Failure> {
    if is_at(t, p, TokenKind::Colon) {
        let p1 = next_pos(t, p);
        if is_at(t, p1, TokenKind::Before) {
            Ok((Timing::Before, next_pos(t, p1)))
        } else if is_at(t, p1, TokenKind::After) {
            Ok((Timing::After, next_pos(t, p1)))
        } else if middle_allowed && is_at(t, p1, TokenKind::Middle) {
            Ok((Timing::Middle, next_pos(t, p1)))
        } else if middle_allowed {
            Err((p1, "Expected timing (before, after, middle)"@))
        } else {
            Err((p1, "Expected timing (before, after)"@))
        }
    } else {
        Ok((Timing::Unspecified, p))
    }
}

/// The entries `a -> b [: timing]` of a `screen` or `pass` block, up to its
/// `}`, added to `acc`.
pub open spec fn link_list(t: Seq<Token>, p: int, middle_allowed: bool, acc: Seq<(Seq<char>, Seq<char>, Timing)>) -> Result<(Seq<(Seq<char>, Seq<char>, Timing)>, int), Failure>
    decreases t.len() - p,
{
    if is_at(t, p, TokenKind::RBrace) {
        Ok((acc, p))
    } else {
        match identifier(t, p) {
            Err(e) => Err(e),
            Ok((a, p1)) => match expect(t, p1, TokenKind::Arrow) {
                Err(e) => Err(e),
                Ok(p2) => match identifier(t, p2) {
                    Err(e) => Err(e),
                    Ok((b, p3)) => match timing(t, p3, middle_allowed) {
                        Err(e) => Err(e),
                        Ok((tm, p4)) => {
                            let q = skip_comma(t, p4);
                            if advanced(t, p, q) {
                                link_list(t, q, middle_allowed, acc.push((a, b, tm)))
                            } else {
                                Err((p, Seq::empty()))
                            }
                        },
                    },
                },
            },
        }
    }
}

/// The actions of a play, as plain values.
pub struct ActionView {
    pub moves: Seq<(Seq<char>, Point)>,
    pub screens: Seq<(Seq<char>, Seq<char>, Timing)>,
    pub passes: Seq<(Seq<char>, Seq<char>, Timing)>,
}

pub open spec fn action_words() -> Seq<Seq<char>> {
    seq!["move"@, "screen"@, "pass"@]
}

/// The `= {` after the name at `p` of a section or property.
pub open spec fn block_open(t: Seq<Token>, p: int) -> Result<int, Failure> {
    match expect(t, next_pos(t, p), TokenKind::Equals) {
        Err(e) => Err(e),
        Ok(p1) => expect(t, p1, TokenKind::LBrace),
    }
}

/// The `}` that closes a property's block, and any comma after it.
pub open spec fn block_close(t: Seq<Token>, p: int) -> Result<int, Failure> {
    match expect(t, p, TokenKind::RBrace) {
        Err(e) => Err(e),
        Ok(p1) => Ok(skip_comma(t, p1)),
    }
}

/// The entries of the block of the action property at `p`, whose `{` ends
/// before `p1`, added to `a`.
pub open spec fn property_block(t: Seq<Token>, p: int, p1: int, a: ActionView) -> Result<(ActionView, int), Failure> {
    if is_at(t, p, TokenKind::Move) {
        match move_list(t, p1, a.moves) {
            Err(e) => Err(e),
            Ok((ms, p2)) => Ok((ActionView { moves: ms, ..a }, p2)),
        }
    } else if is_at(t, p, TokenKind::Screen) {
        match link_list(t, p1, true, a.screens) {
            Err(e) => Err(e),
            Ok((ss, p2)) => Ok((ActionView { screens: ss, ..a }, p2)),
        }
    } else {
        match link_list(t, p1, false, a.passes) {
            Err(e) => Err(e),
            Ok((ps, p2)) => Ok((ActionView { passes: ps, ..a }, p2)),
        }
    }
}

/// The properties of an `action` block, up to its `}`, applied to `a`.
pub open spec fn action_list(t: Seq<Token>, p: int, a: ActionView) -> Result<(ActionView, int), Failure>
    decreases t.len() - p,
{
    if is_at(t, p, TokenKind::RBrace) || is_at(t, p, TokenKind::EOF) {
        Ok((a, p))
    } else if is_at(t, p, TokenKind::Move) || is_at(t, p, TokenKind::Screen) || is_at(
        t,
        p,
        TokenKind::Pass,
    ) {
        match block_open(t, p) {
            Err(e) => Err(e),
            Ok(p1) => {
                let inner = property_block(t, p, p1, a);
                match inner {
                    Err(e) => Err(e),
                    Ok((a2, p2)) => match block_close(t, p2) {
                        Err(e) => Err(e),
                        Ok(q) => if advanced(t, p, q) {
                            action_list(t, q, a2)
                        } else {
                            Err((p, Seq::empty()))
                        },
                    },
                }
            },
        }
    } else {
        Err(
            (
                p,
                hint(
                    kind_of(t, p),
                    action_words(),
                    "Expected action property."@,
                    "Expected action property (move, screen, pass)"@,
                ),
            ),
        )
    }
}

pub open spec fn section_words() -> Seq<Seq<char>> {
    seq!["players"@, "state"@, "action"@]
}

pub open spec fn empty_action() -> ActionView {
    ActionView { moves: Seq::empty(), screens: Seq::empty(), passes: Seq::empty() }
}

/// The contents of the block of the section at `p`, whose `{` ends before
/// `p1`, applied to `pb`.
pub open spec fn section_block(t: Seq<Token>, p: int, p1: int, pb: PlaybookView) -> Result<(PlaybookView, int), Failure> {
    if is_at(t, p, TokenKind::Players) {
        match player_list(t, p1, pb.players) {
            Err(e) => Err(e),
            Ok((ns, p2)) => Ok((PlaybookView { players: ns, ..pb }, p2)),
        }
    } else if is_at(t, p, TokenKind::State) {
        match state_list(t, p1, (None, Map::empty())) {
            Err(e) => Err(e),
            Ok((st, p2)) => Ok((PlaybookView { baller: st.0, positions: st.1, ..pb }, p2)),
        }
    } else {
        match action_list(t, p1, empty_action()) {
            Err(e) => Err(e),
            Ok((a, p2)) => Ok(
                (PlaybookView { moves: a.moves, screens: a.screens, passes: a.passes, ..pb }, p2),
            ),
        }
    }
}

/// The sections from `p` to the end, applied to `pb`. Players accumulate over
/// `players` sections; each `state` or `action` section replaces the last.
pub open spec fn section_list(t: Seq<Token>, p: int, pb: PlaybookView) -> Result<PlaybookView, Failure>
    decreases t.len() - p,
{
    if is_at(t, p, TokenKind::EOF) {
        Ok(pb)
    } else if is_at(t, p, TokenKind::Players) || is_at(t, p, TokenKind::State) || is_at(
        t,
        p,
        TokenKind::Action,
    ) {
        match block_open(t, p) {
            Err(e) => Err(e),
            Ok(p1) => {
                let inner = section_block(t, p, p1, pb);
                match inner {
                    Err(e) => Err(e),
                    Ok((pb2, p2)) => match expect(t, p2, TokenKind::RBrace) {
                        Err(e) => Err(e),
                        Ok(q) => if advanced(t, p, q) {
                            section_list(t, q, pb2)
                        } else {
                            Err((p, Seq::empty()))
                        },
                    },
                }
            },
        }
    } else {
        Err(
            (
                p,
                hint(
                    kind_of(t, p),
                    section_words(),
                    "Expected section start."@,
                    "Expected section start (players, state, action)"@,
                ),
            ),
        )
    }
}

pub open spec fn empty_playbook() -> PlaybookView {
    PlaybookView {
        players: Seq::empty(),
        baller: None,
        positions: Map::empty(),
        moves: Seq::empty(),
        screens: Seq::empty(),
        passes: Seq::empty(),
    }
}

proof fn lemma_alike_kinds(t1: Seq<Token>, t2: Seq<Token>)
    requires
        alike(t1, t2),
    ensures
        forall|p: int| same_kind(#[trigger] kind_of(t1, p), kind_of(t2, p)),
        forall|p: int| #[trigger] next_pos(t1, p) == next_pos(t2, p),
{
    assert forall|p: int| same_kind(#[trigger] kind_of(t1, p), kind_of(t2, p)) by {
        if 0 <= p < t1.len() {
            assert(same_kind(t1[p].kind, t2[p].kind));
        }
    }
}

proof fn lemma_alike_coordinate(t1: Seq<Token>, t2: Seq<Token>, p: int)
    requires
        alike(t1, t2),
    ensures
        coordinate(t1, p) == coordinate(t2, p),
        timing(t1, p, true) == timing(t2, p, true),
        timing(t1, p, false) == timing(t2, p, false),
{
    lemma_alike_kinds(t1, t2);
}

proof fn lemma_alike_players(t1: Seq<Token>, t2: Seq<Token>, p: int, acc: Seq<Seq<char>>)
    requires
        alike(t1, t2),
    ensures
        player_list(t1, p, acc) == player_list(t2, p, acc),
    decreases t1.len() - p,
{
    lemma_alike_kinds(t1, t2);
    if !(is_at(t1, p, TokenKind::RBrace) || is_at(t1, p, TokenKind::EOF)) {
        if let Ok((name, p1)) = identifier(t1, p) {
            let q = skip_comma(t1, p1);
            if advanced(t1, p, q) {
                lemma_alike_players(t1, t2, q, acc.push(name));
            }
        }
    }
}

proof fn lemma_alike_positions(t1: Seq<Token>, t2: Seq<Token>, p: int, m: Map<Seq<char>, Point>)
    requires
        alike(t1, t2),
    ensures
        position_list(t1, p, m) == position_list(t2, p, m),
    decreases t1.len() - p,
{
    lemma_alike_kinds(t1, t2);
    if !is_at(t1, p, TokenKind::RBrace) {
        if let Ok((name, p1)) = identifier(t1, p) {
            if let Ok(p2) = expect(t1, p1, TokenKind::Equals) {
                lemma_alike_coordinate(t1, t2, p2);
                if let Ok((at, p3)) = coordinate(t1, p2) {
                    let q = skip_comma(t1, p3);
                    if advanced(t1, p, q) {
                        lemma_alike_positions(t1, t2, q, m.insert(name, at));
                    }
                }
            }
        }
    }
}

proof fn lemma_alike_state(t1: Seq<Token>, t2: Seq<Token>, p: int, st: StateView)
    requires
        alike(t1, t2),
    ensures
        state_list(t1, p, st) == state_list(t2, p, st),
    decreases t1.len() - p,
{
    lemma_alike_kinds(t1, t2);
    if is_at(t1, p, TokenKind::RBrace) || is_at(t1, p, TokenKind::EOF) {
    } else if is_at(t1, p, TokenKind::Baller) {
        if let Ok(p1) = expect(t1, next_pos(t1, p), TokenKind::Equals) {
            if let Ok((b, p2)) = identifier(t1, p1) {
                let q = skip_comma(t1, p2);
                if advanced(t1, p, q) {
                    lemma_alike_state(t1, t2, q, (Some(b), st.1));
                }
            }
        }
    } else if is_at(t1, p, TokenKind::Position) {
        if let Ok(p1) = expect(t1, next_pos(t1, p), TokenKind::Equals) {
            if let Ok(p2) = expect(t1, p1, TokenKind::LBrace) {
                lemma_alike_positions(t1, t2, p2, st.1);
                if let Ok((m, p3)) = position_list(t1, p2, st.1) {
                    if let Ok(p4) = expect(t1, p3, TokenKind::RBrace) {
                        let q = skip_comma(t1, p4);
                        if advanced(t1, p, q) {
                            lemma_alike_state(t1, t2, q, (st.0, m));
                        }
                    }
                }
            }
        }
    }
}

proof fn lemma_alike_moves(t1: Seq<Token>, t2: Seq<Token>, p: int, acc: Seq<(Seq<char>, Point)>)
    requires
        alike(t1, t2),
    ensures
        move_list(t1, p, acc) == move_list(t2, p, acc),
    decreases t1.len() - p,
{
    lemma_alike_kinds(t1, t2);
    if !is_at(t1, p, TokenKind::RBrace) {
        if let Ok((name, p1)) = identifier(t1, p) {
            if let Ok(p2) = expect(t1, p1, TokenKind::Arrow) {
                lemma_alike_coordinate(t1, t2, p2);
                if let Ok((target, p3)) = coordinate(t1, p2) {
                    let q = skip_comma(t1, p3);
                    if advanced(t1, p, q) {
                        lemma_alike_moves(t1, t2, q, acc.push((name, target)));
                    }
                }
            }
        }
    }
}

proof fn lemma_alike_links(
    t1: Seq<Token>,
    t2: Seq<Token>,
    p: int,
    middle_allowed: bool,
    acc: Seq<(Seq<char>, Seq<char>, Timing)>,
)
    requires
        alike(t1, t2),
    ensures
        link_list(t1, p, middle_allowed, acc) == link_list(t2, p, middle_allowed, acc),
    decreases t1.len() - p,
{
    lemma_alike_kinds(t1, t2);
    if !is_at(t1, p, TokenKind::RBrace) {
        if let Ok((a, p1)) = identifier(t1, p) {
            if let Ok(p2) = expect(t1, p1, TokenKind::Arrow) {
                if let Ok((b, p3)) = identifier(t1, p2) {
                    lemma_alike_coordinate(t1, t2, p3);
                    if let Ok((tm, p4)) = timing(t1, p3, middle_allowed) {
                        let q = skip_comma(t1, p4);
                        if advanced(t1, p, q) {
                            lemma_alike_links(t1, t2, q, middle_allowed, acc.push((a, b, tm)));
                        }
                    }
                }
            }
        }
    }
}

proof fn lemma_alike_actions(t1: Seq<Token>, t2: Seq<Token>, p: int, a: ActionView)
    requires
        alike(t1, t2),
    ensures
        action_list(t1, p, a) == action_list(t2, p, a),
    decreases t1.len() - p,
{
    lemma_alike_kinds(t1, t2);
    if is_at(t1, p, TokenKind::RBrace) || is_at(t1, p, TokenKind::EOF) {
    } else if is_at(t1, p, TokenKind::Move) || is_at(t1, p, TokenKind::Screen) || is_at(
        t1,
        p,
        TokenKind::Pass,
    ) {
        if let Ok(p1) = block_open(t1, p) {
            lemma_alike_moves(t1, t2, p1, a.moves);
            lemma_alike_links(t1, t2, p1, true, a.screens);
            lemma_alike_links(t1, t2, p1, false, a.passes);
            let inner = property_block(t1, p, p1, a);
            assert(inner == property_block(t2, p, p1, a));
            if let Ok((a2, p2)) = inner {
                if let Ok(q) = block_close(t1, p2) {
                    if advanced(t1, p, q) {
                        lemma_alike_actions(t1, t2, q, a2);
                    }
                }
            }
        }
    }
}

/// Tokens that agree in every kind, text, number and span parse alike.
pub proof fn lemma_alike_sections(t1: Seq<Token>, t2: Seq<Token>, p: int, pb: PlaybookView)
    requires
        alike(t1, t2),
    ensures
        section_list(t1, p, pb) == section_list(t2, p, pb),
    decreases t1.len() - p,
{
    lemma_alike_kinds(t1, t2);
    if is_at(t1, p, TokenKind::EOF) {
    } else if is_at(t1, p, TokenKind::Players) || is_at(t1, p, TokenKind::State) || is_at(
        t1,
        p,
        TokenKind::Action,
    ) {
        if let Ok(p1) = block_open(t1, p) {
            lemma_alike_players(t1, t2, p1, pb.players);
            lemma_alike_state(t1, t2, p1, (None, Map::empty()));
            lemma_alike_actions(t1, t2, p1, empty_action());
            let inner = section_block(t1, p, p1, pb);
            assert(inner == section_block(t2, p, p1, pb));
            if let Ok((pb2, p2)) = inner {
                if let Ok(q) = expect(t1, p2, TokenKind::RBrace) {
                    if advanced(t1, p, q) {
                        lemma_alike_sections(t1, t2, q, pb2);
                    }
                }
            }
        }
    }
}

/// Whether `e` reports the failure `f` on the tokens `t`.
pub open spec fn reports(e: ParseError, t: Seq<Token>, f: Failure) -> bool {
    match e {
        ParseError::UnexpectedToken(tok, msg) => tok == token_of(t, f.0) && msg@ == f.1,
        _ => false,
    }
}


/// The tag of a kind, as `tag` gives it.
fn kind_tag(k: &TokenKind) -> (r: u8)
    ensures
        r as nat == tag(*k),
{
    match k {
        TokenKind::Players => 0,
        TokenKind::State => 1,
        TokenKind::Baller => 2,
        TokenKind::Position => 3,
        TokenKind::Action => 4,
        TokenKind::Move => 5,
        TokenKind::Screen => 6,
        TokenKind::Pass => 7,
        TokenKind::Before => 8,
        TokenKind::After => 9,
        TokenKind::Middle => 10,
        TokenKind::Identifier(_) => 11,
        TokenKind::Number(_) => 12,
        TokenKind::Equals => 13,
        TokenKind::LBrace => 14,
        TokenKind::RBrace => 15,
        TokenKind::LParenthesis => 16,
        TokenKind::RParenthesis => 17,
        TokenKind::Comma => 18,
        TokenKind::Arrow => 19,
        TokenKind::Colon => 20,
        TokenKind::Comment(_) => 21,
        TokenKind::EOF => 22,
    }
}

/// The name of a kind, as `kind_name` gives it.
pub fn kind_name_text(k: &TokenKind) -> (r: &'static str)
    ensures
        r@ == kind_name(*k),
{
    match k {
        TokenKind::Players => "Players",
        TokenKind::State => "State",
        TokenKind::Baller => "Baller",
        TokenKind::Position => "Position",
        TokenKind::Action => "Action",
        TokenKind::Move => "Move",
        TokenKind::Screen => "Screen",
        TokenKind::Pass => "Pass",
        TokenKind::Before => "Before",
        TokenKind::After => "After",
        TokenKind::Middle => "Middle",
        TokenKind::Identifier(_) => "Identifier",
        TokenKind::Number(_) => "Number",
        TokenKind::Equals => "Equals",
        TokenKind::LBrace => "LBrace",
        TokenKind::RBrace => "RBrace",
        TokenKind::LParenthesis => "LParenthesis",
        TokenKind::RParenthesis => "RParenthesis",
        TokenKind::Comma => "Comma",
        TokenKind::Arrow => "Arrow",
        TokenKind::Colon => "Colon",
        TokenKind::Comment(_) => "Comment",
        TokenKind::EOF => "EOF",
    }
}

fn string_from(s: &str) -> (r: String)
    ensures
        r@ == s@,
{
    let mut r = String::new();
    r.append(s);
    r
}

/// The message for an unexpected token, as `hint` gives it.
fn hint_message(k: &TokenKind, words: &[&str], lead: &str, plain: &str) -> (r: String)
    ensures
        r@ == hint(*k, texts(words@), lead@, plain@),
{
    match k {
        TokenKind::Identifier(s) => match get_suggestion(s.as_str(), words) {
            Some(w) => {
                let mut msg = string_from(lead);
                msg.append(" Did you mean '");
                msg.append(w.as_str());
                msg.append("'?");
                assert(msg@ =~= lead@ + " Did you mean '"@ + w@ + "'?"@);
                msg
            },
            None => string_from(plain),
        },
        _ => string_from(plain),
    }
}

/// Whether `r` is the outcome that the model `f` gives, on the tokens `t`,
/// with the value seen through `view_ok`.
pub open spec fn outcome<T, V>(
    r: Result<T, ParseError>,
    f: Result<(V, int), Failure>,
    t: Seq<Token>,
    q: int,
    view_ok: spec_fn(T) -> V,
) -> bool {
    match f {
        Ok((v, p)) => r matches Ok(x) && view_ok(x) == v && q == p,
        Err(e) => r matches Err(x) && reports(x, t, e),
    }
}

/// Whether `r` is the outcome of a step that yields only a position.
pub open spec fn step_outcome(r: Result<(), ParseError>, f: Result<int, Failure>, t: Seq<Token>, q: int) -> bool {
    match f {
        Ok(p) => r is Ok && q == p,
        Err(e) => r matches Err(x) && reports(x, t, e),
    }
}

/// Reads a playbook from a sequence of tokens, one token of lookahead at a time.
pub struct Parser {
    tokens: Vec<Token>,
    pos: usize,
}

impl Parser {
    pub closed spec fn tokens(&self) -> Seq<Token> {
        self.tokens@
    }

    /// Index of the next token.
    pub closed spec fn pos(&self) -> int {
        self.pos as int
    }

    pub closed spec fn wf(&self) -> bool {
        self.pos <= self.tokens@.len()
    }

    pub fn new(tokens: Vec<Token>) -> (r: Parser)
        ensures
            r.wf(),
            r.tokens() == tokens@,
            r.pos() == 0,
    {
        Parser { tokens, pos: 0 }
    }

    fn peek(&self) -> (r: Token)
        requires
            self.wf(),
        ensures
            r == token_of(self.tokens(), self.pos()),
    {
        if self.pos < self.tokens.len() {
            self.tokens[self.pos].duplicate()
        } else {
            Token { kind: TokenKind::EOF, span: Span { start: 0, end: 0, line: 0, column: 0 } }
        }
    }

    /// Whether the next token is of kind `k`.
    fn at(&self, k: &TokenKind) -> (r: bool)
        requires
            self.wf(),
        ensures
            r == is_at(self.tokens(), self.pos(), *k),
    {
        if self.pos < self.tokens.len() {
            kind_tag(&self.tokens[self.pos].kind) == kind_tag(k)
        } else {
            kind_tag(k) == 22
        }
    }

    fn advance(&mut self) -> (r: Token)
        requires
            old(self).wf(),
        ensures
            final(self).wf(),
            final(self).tokens() == old(self).tokens(),
            final(self).pos() == next_pos(old(self).tokens(), old(self).pos()),
            r == token_of(old(self).tokens(), old(self).pos()),
    {
        let token = self.peek();
        if self.pos < self.tokens.len() {
            self.pos = self.pos + 1;
        }
        token
    }

    fn expect(&mut self, expected_kind: TokenKind) -> (r: Result<(), ParseError>)
        requires
            old(self).wf(),
        ensures
            final(self).wf(),
            final(self).tokens() == old(self).tokens(),
            old(self).pos() <= final(self).pos(),
            step_outcome(r, expect(old(self).tokens(), old(self).pos(), expected_kind), old(self).tokens(), final(self).pos()),
    {
        if self.at(&expected_kind) {
            self.advance();
            Ok(())
        } else {
            let mut msg = string_from("Expected ");
            msg.append(kind_name_text(&expected_kind));
            Err(ParseError::UnexpectedToken(self.peek(), msg))
        }
    }

    fn expect_identifier(&mut self) -> (r: Result<String, ParseError>)
        requires
            old(self).wf(),
        ensures
            final(self).wf(),
            final(self).tokens() == old(self).tokens(),
            old(self).pos() <= final(self).pos(),
            outcome(r, identifier(old(self).tokens(), old(self).pos()), old(self).tokens(), final(self).pos(), |s: String| s@),
    {
        let token = self.advance();
        match token.kind {
            TokenKind::Identifier(s) => Ok(s),
            _ => Err(ParseError::UnexpectedToken(token, string_from("Expected Identifier"))),
        }
    }

    fn expect_number(&mut self, msg: &str) -> (r: Result<Num, ParseError>)
        requires
            old(self).wf(),
        ensures
            final(self).wf(),
            final(self).tokens() == old(self).tokens(),
            old(self).pos() <= final(self).pos(),
            outcome(r, number(old(self).tokens(), old(self).pos(), msg@), old(self).tokens(), final(self).pos(), |n: Num| n),
    {
        let token = self.advance();
        match token.kind {
            TokenKind::Number(n) => Ok(n),
            _ => Err(ParseError::UnexpectedToken(token, string_from(msg))),
        }
    }

    fn consume_if(&mut self, expected_kind: TokenKind) -> (r: bool)
        requires
            old(self).wf(),
        ensures
            final(self).wf(),
            final(self).tokens() == old(self).tokens(),
            final(self).pos() == if is_at(old(self).tokens(), old(self).pos(), expected_kind) {
                next_pos(old(self).tokens(), old(self).pos())
            } else {
                old(self).pos()
            },
            r == is_at(old(self).tokens(), old(self).pos(), expected_kind),
    {
        if self.at(&expected_kind) {
            self.advance();
            true
        } else {
            false
        }
    }

    fn parse_coordinate(&mut self) -> (r: Result<Point, ParseError>)
        requires
            old(self).wf(),
        ensures
            final(self).wf(),
            final(self).tokens() == old(self).tokens(),
            old(self).pos() <= final(self).pos(),
            outcome(r, coordinate(old(self).tokens(), old(self).pos()), old(self).tokens(), final(self).pos(), |p: Point| p),
    {
        match self.expect(TokenKind::LParenthesis) {
            Ok(()) => {},
            Err(e) => return Err(e),
        }
        let x = match self.expect_number("Expected Number for X") {
            Ok(n) => n,
            Err(e) => return Err(e),
        };
        match self.expect(TokenKind::Comma) {
            Ok(()) => {},
            Err(e) => return Err(e),
        }
        let y = match self.expect_number("Expected Number for Y") {
            Ok(n) => n,
            Err(e) => return Err(e),
        };
        match self.expect(TokenKind::RParenthesis) {
            Ok(()) => {},
            Err(e) => return Err(e),
        }
        Ok(Point { x, y })
    }

    /// The identifiers of a `players` block, added to `players`.
    fn parse_players(&mut self, players: Vec<String>) -> (r: Result<Vec<String>, ParseError>)
        requires
            old(self).wf(),
        ensures
            final(self).wf(),
            final(self).tokens() == old(self).tokens(),
            old(self).pos() <= final(self).pos(),
            outcome(r, player_list(old(self).tokens(), old(self).pos(), names(players@)), old(self).tokens(), final(self).pos(), |v: Vec<String>| names(v@)),
    {
        let ghost init = names(players@);
        let mut list = players;
        let ghost t = self.tokens@;
        let ghost goal = player_list(t, old(self).pos(), init);
        while !self.at(&TokenKind::RBrace) && !self.at(&TokenKind::EOF)
            invariant
                self.wf(),
                self.tokens() == t,
                t == old(self).tokens(),
                old(self).pos() <= self.pos(),
                player_list(t, self.pos(), names(list@)) == goal,
                init == names(players@),
                goal == player_list(t, old(self).pos(), init),
            decreases t.len() - self.pos(),
        {
            let name = match self.expect_identifier() {
                Ok(s) => s,
                Err(e) => return Err(e),
            };
            let ghost v = list@;
            list.push(name);
            assert(names(list@) =~= names(v).push(name@));
            self.consume_if(TokenKind::Comma);
        }
        Ok(list)
    }

    /// The entries of a `position` block, set in `positions`.
    fn parse_positions(&mut self, positions: PositionMap) -> (r: Result<PositionMap, ParseError>)
        requires
            old(self).wf(),
        ensures
            final(self).wf(),
            final(self).tokens() == old(self).tokens(),
            old(self).pos() <= final(self).pos(),
            outcome(r, position_list(old(self).tokens(), old(self).pos(), positions@), old(self).tokens(), final(self).pos(), |m: PositionMap| m@),
    {
        let ghost init = positions@;
        let mut map = positions;
        let ghost t = self.tokens@;
        let ghost goal = position_list(t, old(self).pos(), init);
        while !self.at(&TokenKind::RBrace)
            invariant
                self.wf(),
                self.tokens() == t,
                t == old(self).tokens(),
                old(self).pos() <= self.pos(),
                position_list(t, self.pos(), map@) == goal,
                init == positions@,
                goal == position_list(t, old(self).pos(), init),
            decreases t.len() - self.pos(),
        {
            let player = match self.expect_identifier() {
                Ok(s) => s,
                Err(e) => return Err(e),
            };
            match self.expect(TokenKind::Equals) {
                Ok(()) => {},
                Err(e) => return Err(e),
            }
            let coord = match self.parse_coordinate() {
                Ok(c) => c,
                Err(e) => return Err(e),
            };
            map.insert(player, coord);
            self.consume_if(TokenKind::Comma);
        }
        Ok(map)
    }

    /// The properties of a `state` block.
    fn parse_state_block(&mut self) -> (r: Result<State, ParseError>)
        requires
            old(self).wf(),
        ensures
            final(self).wf(),
            final(self).tokens() == old(self).tokens(),
            old(self).pos() <= final(self).pos(),
            outcome(r, state_list(old(self).tokens(), old(self).pos(), (None, Map::empty())), old(self).tokens(), final(self).pos(), |st: State| (text_of(st.baller), st.positions@)),
    {
        let mut baller: Option<String> = None;
        let mut positions = PositionMap::new();
        let ghost t = self.tokens@;
        let ghost goal = state_list(t, old(self).pos(), (None, Map::empty()));
        while !self.at(&TokenKind::RBrace) && !self.at(&TokenKind::EOF)
            invariant
                self.wf(),
                self.tokens() == t,
                t == old(self).tokens(),
                old(self).pos() <= self.pos(),
                state_list(t, self.pos(), (text_of(baller), positions@)) == goal,
                goal == state_list(t, old(self).pos(), (None, Map::empty())),
            decreases t.len() - self.pos(),
        {
            if self.at(&TokenKind::Baller) {
                self.advance();
                match self.expect(TokenKind::Equals) {
                    Ok(()) => {},
                    Err(e) => return Err(e),
                }
                let b = match self.expect_identifier() {
                    Ok(s) => s,
                    Err(e) => return Err(e),
                };
                baller = Some(b);
                self.consume_if(TokenKind::Comma);
            } else if self.at(&TokenKind::Position) {
                self.advance();
                match self.expect(TokenKind::Equals) {
                    Ok(()) => {},
                    Err(e) => return Err(e),
                }
                match self.expect(TokenKind::LBrace) {
                    Ok(()) => {},
                    Err(e) => return Err(e),
                }
                positions = match self.parse_positions(positions) {
                    Ok(m) => m,
                    Err(e) => return Err(e),
                };
                match self.expect(TokenKind::RBrace) {
                    Ok(()) => {},
                    Err(e) => return Err(e),
                }
                self.consume_if(TokenKind::Comma);
            } else {
                let token = self.peek();
                let mut words: Vec<&str> = Vec::new();
                words.push("baller");
                words.push("position");
                assert(texts(words@) =~= state_words());
                let msg = hint_message(
                    &token.kind,
                    words.as_slice(),
                    "Expected state property.",
                    "Expected state property (baller, position)",
                );
                return Err(ParseError::UnexpectedToken(token, msg));
            }
        }
        Ok(State { baller, positions })
    }

    /// The entries of a `move` block, added to `moves`.
    fn parse_moves(&mut self, moves: Vec<MoveAction>) -> (r: Result<Vec<MoveAction>, ParseError>)
        requires
            old(self).wf(),
        ensures
            final(self).wf(),
            final(self).tokens() == old(self).tokens(),
            old(self).pos() <= final(self).pos(),
            outcome(r, move_list(old(self).tokens(), old(self).pos(), moves_view(moves@)), old(self).tokens(), final(self).pos(), |v: Vec<MoveAction>| moves_view(v@)),
    {
        let ghost init = moves_view(moves@);
        let mut list = moves;
        let ghost t = self.tokens@;
        let ghost goal = move_list(t, old(self).pos(), init);
        while !self.at(&TokenKind::RBrace)
            invariant
                self.wf(),
                self.tokens() == t,
                t == old(self).tokens(),
                old(self).pos() <= self.pos(),
                move_list(t, self.pos(), moves_view(list@)) == goal,
                init == moves_view(moves@),
                goal == move_list(t, old(self).pos(), init),
            decreases t.len() - self.pos(),
        {
            let player = match self.expect_identifier() {
                Ok(s) => s,
                Err(e) => return Err(e),
            };
            match self.expect(TokenKind::Arrow) {
                Ok(()) => {},
                Err(e) => return Err(e),
            }
            let target = match self.parse_coordinate() {
                Ok(c) => c,
                Err(e) => return Err(e),
            };
            let ghost v = list@;
            let m = MoveAction { player, target };
            list.push(m);
            assert(moves_view(list@) =~= moves_view(v).push((m.player@, m.target)));
            self.consume_if(TokenKind::Comma);
        }
        Ok(list)
    }

    /// An optional `: timing`.
    fn parse_timing(&mut self, middle_allowed: bool) -> (r: Result<Timing, ParseError>)
        requires
            old(self).wf(),
        ensures
            final(self).wf(),
            final(self).tokens() == old(self).tokens(),
            old(self).pos() <= final(self).pos(),
            outcome(r, timing(old(self).tokens(), old(self).pos(), middle_allowed), old(self).tokens(), final(self).pos(), |tm: Timing| tm),
    {
        if !self.at(&TokenKind::Colon) {
            return Ok(Timing::Unspecified);
        }
        self.advance();
        if self.at(&TokenKind::Before) {
            self.advance();
            Ok(Timing::Before)
        } else if self.at(&TokenKind::After) {
            self.advance();
            Ok(Timing::After)
        } else if middle_allowed && self.at(&TokenKind::Middle) {
            self.advance();
            Ok(Timing::Middle)
        } else if middle_allowed {
            Err(ParseError::UnexpectedToken(self.peek(), string_from("Expected timing (before, after, middle)")))
        } else {
            Err(ParseError::UnexpectedToken(self.peek(), string_from("Expected timing (before, after)")))
        }
    }

    /// The entries of a `screen` block, added to `screens`.
    fn parse_screens(&mut self, screens: Vec<ScreenAction>) -> (r: Result<Vec<ScreenAction>, ParseError>)
        requires
            old(self).wf(),
        ensures
            final(self).wf(),
            final(self).tokens() == old(self).tokens(),
            old(self).pos() <= final(self).pos(),
            outcome(r, link_list(old(self).tokens(), old(self).pos(), true, screens_view(screens@)), old(self).tokens(), final(self).pos(), |v: Vec<ScreenAction>| screens_view(v@)),
    {
        let ghost init = screens_view(screens@);
        let mut list = screens;
        let ghost t = self.tokens@;
        let ghost goal = link_list(t, old(self).pos(), true, init);
        while !self.at(&TokenKind::RBrace)
            invariant
                self.wf(),
                self.tokens() == t,
                t == old(self).tokens(),
                old(self).pos() <= self.pos(),
                link_list(t, self.pos(), true, screens_view(list@)) == goal,
                init == screens_view(screens@),
                goal == link_list(t, old(self).pos(), true, init),
            decreases t.len() - self.pos(),
        {
            let player = match self.expect_identifier() {
                Ok(s) => s,
                Err(e) => return Err(e),
            };
            match self.expect(TokenKind::Arrow) {
                Ok(()) => {},
                Err(e) => return Err(e),
            }
            let target = match self.expect_identifier() {
                Ok(s) => s,
                Err(e) => return Err(e),
            };
            let timing = match self.parse_timing(true) {
                Ok(tm) => tm,
                Err(e) => return Err(e),
            };
            let ghost v = list@;
            let a = ScreenAction { player, target, timing };
            list.push(a);
            assert(screens_view(list@) =~= screens_view(v).push((a.player@, a.target@, a.timing)));
            self.consume_if(TokenKind::Comma);
        }
        Ok(list)
    }

    /// The entries of a `pass` block, added to `passes`.
    fn parse_passes(&mut self, passes: Vec<PassAction>) -> (r: Result<Vec<PassAction>, ParseError>)
        requires
            old(self).wf(),
        ensures
            final(self).wf(),
            final(self).tokens() == old(self).tokens(),
            old(self).pos() <= final(self).pos(),
            outcome(r, link_list(old(self).tokens(), old(self).pos(), false, passes_view(passes@)), old(self).tokens(), final(self).pos(), |v: Vec<PassAction>| passes_view(v@)),
    {
        let ghost init = passes_view(passes@);
        let mut list = passes;
        let ghost t = self.tokens@;
        let ghost goal = link_list(t, old(self).pos(), false, init);
        while !self.at(&TokenKind::RBrace)
            invariant
                self.wf(),
                self.tokens() == t,
                t == old(self).tokens(),
                old(self).pos() <= self.pos(),
                link_list(t, self.pos(), false, passes_view(list@)) == goal,
                init == passes_view(passes@),
                goal == link_list(t, old(self).pos(), false, init),
            decreases t.len() - self.pos(),
        {
            let from = match self.expect_identifier() {
                Ok(s) => s,
                Err(e) => return Err(e),
            };
            match self.expect(TokenKind::Arrow) {
                Ok(()) => {},
                Err(e) => return Err(e),
            }
            let to = match self.expect_identifier() {
                Ok(s) => s,
                Err(e) => return Err(e),
            };
            let timing = match self.parse_timing(false) {
                Ok(tm) => tm,
                Err(e) => return Err(e),
            };
            let ghost v = list@;
            let a = PassAction { from, to, timing };
            list.push(a);
            assert(passes_view(list@) =~= passes_view(v).push((a.from@, a.to@, a.timing)));
            self.consume_if(TokenKind::Comma);
        }
        Ok(list)
    }

    /// The properties of an `action` block.
    fn parse_action_block(&mut self) -> (r: Result<Action, ParseError>)
        requires
            old(self).wf(),
        ensures
            final(self).wf(),
            final(self).tokens() == old(self).tokens(),
            old(self).pos() <= final(self).pos(),
            outcome(r, action_list(old(self).tokens(), old(self).pos(), empty_action()), old(self).tokens(), final(self).pos(), |a: Action| ActionView { moves: moves_view(a.moves@), screens: screens_view(a.screens@), passes: passes_view(a.passes@) }),
    {
        let mut moves: Vec<MoveAction> = Vec::new();
        let mut screens: Vec<ScreenAction> = Vec::new();
        let mut passes: Vec<PassAction> = Vec::new();
        let ghost t = self.tokens@;
        let ghost goal = action_list(t, old(self).pos(), empty_action());
        proof {
            assert(moves_view(moves@) =~= Seq::empty());
            assert(screens_view(screens@) =~= Seq::empty());
            assert(passes_view(passes@) =~= Seq::empty());
        }
        while !self.at(&TokenKind::RBrace) && !self.at(&TokenKind::EOF)
            invariant
                self.wf(),
                self.tokens() == t,
                t == old(self).tokens(),
                old(self).pos() <= self.pos(),
                action_list(
                    t,
                    self.pos(),
                    ActionView {
                        moves: moves_view(moves@),
                        screens: screens_view(screens@),
                        passes: passes_view(passes@),
                    },
                ) == goal,
                goal == action_list(t, old(self).pos(), empty_action()),
            decreases t.len() - self.pos(),
        {
            let is_move = self.at(&TokenKind::Move);
            let is_screen = self.at(&TokenKind::Screen);
            let is_pass = self.at(&TokenKind::Pass);
            if !is_move && !is_screen && !is_pass {
                let token = self.peek();
                let mut words: Vec<&str> = Vec::new();
                words.push("move");
                words.push("screen");
                words.push("pass");
                assert(texts(words@) =~= action_words());
                let msg = hint_message(
                    &token.kind,
                    words.as_slice(),
                    "Expected action property.",
                    "Expected action property (move, screen, pass)",
                );
                return Err(ParseError::UnexpectedToken(token, msg));
            }
            self.advance();
            match self.expect(TokenKind::Equals) {
                Ok(()) => {},
                Err(e) => return Err(e),
            }
            match self.expect(TokenKind::LBrace) {
                Ok(()) => {},
                Err(e) => return Err(e),
            }
            if is_move {
                moves = match self.parse_moves(moves) {
                    Ok(v) => v,
                    Err(e) => return Err(e),
                };
            } else if is_screen {
                screens = match self.parse_screens(screens) {
                    Ok(v) => v,
                    Err(e) => return Err(e),
                };
            } else {
                passes = match self.parse_passes(passes) {
                    Ok(v) => v,
                    Err(e) => return Err(e),
                };
            }
            match self.expect(TokenKind::RBrace) {
                Ok(()) => {},
                Err(e) => return Err(e),
            }
            self.consume_if(TokenKind::Comma);
        }
        Ok(Action { moves, screens, passes })
    }

    /// Parses the whole playbook from the next token to the end of input.
    pub fn parse(&mut self) -> (r: Result<Playbook, ParseError>)
        requires
            old(self).wf(),
        ensures
            final(self).wf(),
            final(self).tokens() == old(self).tokens(),
            match section_list(old(self).tokens(), old(self).pos(), empty_playbook()) {
                Ok(v) => r matches Ok(pb) && pb@ == v,
                Err(f) => r matches Err(e) && reports(e, old(self).tokens(), f),
            },
    {
        let mut players: Vec<String> = Vec::new();
        let mut state = State::new();
        let mut action = Action::new();
        let ghost t = self.tokens@;
        let ghost goal = section_list(t, old(self).pos(), empty_playbook());
        proof {
            let pb0 = Playbook { players, state, action };
            assert(pb0@ =~= empty_playbook()) by {
                assert(names(players@) =~= Seq::empty());
                assert(moves_view(action.moves@) =~= Seq::empty());
                assert(screens_view(action.screens@) =~= Seq::empty());
                assert(passes_view(action.passes@) =~= Seq::empty());
            }
        }
        while !self.at(&TokenKind::EOF)
            invariant
                self.wf(),
                self.tokens() == t,
                t == old(self).tokens(),
                section_list(t, self.pos(), Playbook { players, state, action }@) == goal,
                goal == section_list(t, old(self).pos(), empty_playbook()),
            decreases t.len() - self.pos(),
        {
            let is_players = self.at(&TokenKind::Players);
            let is_state = self.at(&TokenKind::State);
            let is_action = self.at(&TokenKind::Action);
            if !is_players && !is_state && !is_action {
                let token = self.peek();
                let mut words: Vec<&str> = Vec::new();
                words.push("players");
                words.push("state");
                words.push("action");
                assert(texts(words@) =~= section_words());
                let msg = hint_message(
                    &token.kind,
                    words.as_slice(),
                    "Expected section start.",
                    "Expected section start (players, state, action)",
                );
                return Err(ParseError::UnexpectedToken(token, msg));
            }
            self.advance();
            match self.expect(TokenKind::Equals) {
                Ok(()) => {},
                Err(e) => return Err(e),
            }
            match self.expect(TokenKind::LBrace) {
                Ok(()) => {},
                Err(e) => return Err(e),
            }
            if is_players {
                players = match self.parse_players(players) {
                    Ok(v) => v,
                    Err(e) => return Err(e),
                };
            } else if is_state {
                state = match self.parse_state_block() {
                    Ok(v) => v,
                    Err(e) => return Err(e),
                };
            } else {
                action = match self.parse_action_block() {
                    Ok(v) => v,
                    Err(e) => return Err(e),
                };
            }
            match self.expect(TokenKind::RBrace) {
                Ok(()) => {},
                Err(e) => return Err(e),
            }
        }
        Ok(Playbook { players, state, action })
    }

}

} // verus!
