//! The scene: each player's resolved start and end, and every action as a line
//! between resolved points.
use vstd::prelude::*;
use crate::ast::{Playbook, Point, PositionMap, MoveAction, PassAction, ScreenAction, Timing, coords};
use crate::text::push_char;

verus! {

/// What the renderer draws: the players, and the lines between resolved points.
#[derive(Clone, Debug, PartialEq)]
pub struct Scene {
    pub entities: Vec<Entity>,
    pub interactions: Vec<Interaction>,
}

/// A player with its label, where it starts and ends, and whether it has the ball.
#[derive(Clone, Debug, PartialEq)]
pub struct Entity {
    pub id: String,
    pub label: String,
    pub start_pos: Point,
    pub end_pos: Point,
    pub is_baller: bool,
}

/// One action, as a line between resolved points.
#[derive(Clone, Debug, PartialEq)]
pub enum Interaction {
    Move(MoveLine),
    Pass(PassLine),
    Screen(ScreenLine),
}

#[derive(Clone, Debug, PartialEq)]
pub struct MoveLine {
    pub player_id: String,
    pub from: Point,
    pub to: Point,
}

#[derive(Clone, Debug, PartialEq)]
pub struct PassLine {
    pub from: Point,
    pub to: Point,
}

#[derive(Clone, Debug, PartialEq)]
pub struct ScreenLine {
    pub screener_id: String,
    pub from: Point,
    pub to: Point,
}

/// The positions after the moves: each move, in order, sets its player's point.
pub open spec fn overlay(m: Map<Seq<char>, Point>, moves: Seq<MoveAction>) -> Map<Seq<char>, Point>
    decreases moves.len(),
{
    if moves.len() == 0 {
        m
    } else {
        overlay(m, moves.drop_last()).insert(moves.last().player@, moves.last().target)
    }
}

/// Where a player starts: its stated position, else the origin.
pub open spec fn start_of(pb: Playbook, id: Seq<char>) -> (int, int) {
    let m = pb.state.positions@;
    if m.contains_key(id) {
        coords(m[id])
    } else {
        (0, 0)
    }
}

/// Where a player ends: the target of its last move, else where it starts.
pub open spec fn end_of(pb: Playbook, id: Seq<char>) -> (int, int) {
    let m = overlay(pb.state.positions@, pb.action.moves@);
    if m.contains_key(id) {
        coords(m[id])
    } else {
        start_of(pb, id)
    }
}

/// The point an action aims at on player `id`: its start for `Before`, its end
/// otherwise (`Middle` included).
pub open spec fn timed_point(pb: Playbook, id: Seq<char>, timing: Timing) -> (int, int) {
    if timing == Timing::Before {
        start_of(pb, id)
    } else {
        end_of(pb, id)
    }
}

/// The name with every `p` removed.
pub open spec fn label_of(id: Seq<char>) -> Seq<char>
    decreases id.len(),
{
    if id.len() == 0 {
        Seq::empty()
    } else if id.last() == 'p' {
        label_of(id.drop_last())
    } else {
        label_of(id.drop_last()).push(id.last())
    }
}

pub open spec fn entity_of(e: Entity, pb: Playbook, id: Seq<char>) -> bool {
    &&& e.id@ == id
    &&& e.label@ == label_of(id)
    &&& coords(e.start_pos) == start_of(pb, id)
    &&& coords(e.end_pos) == end_of(pb, id)
    &&& e.is_baller == (pb.state.baller matches Some(b) && b@ == id)
}

/// A move runs from its player's start to its literal target.
pub open spec fn move_line_of(i: Interaction, pb: Playbook, m: MoveAction) -> bool {
    match i {
        Interaction::Move(l) => l.player_id@ == m.player@ && coords(l.from) == start_of(
            pb,
            m.player@,
        ) && l.to == m.target,
        _ => false,
    }
}

/// A pass runs from the passer's end to the receiver's point for its timing.
pub open spec fn pass_line_of(i: Interaction, pb: Playbook, p: PassAction) -> bool {
    match i {
        Interaction::Pass(l) => coords(l.from) == end_of(pb, p.from@) && coords(l.to)
            == timed_point(pb, p.to@, p.timing),
        _ => false,
    }
}

/// A screen runs from the screener's start to the target's point for its timing.
pub open spec fn screen_line_of(i: Interaction, pb: Playbook, s: ScreenAction) -> bool {
    match i {
        Interaction::Screen(l) => l.screener_id@ == s.player@ && coords(l.from) == start_of(
            pb,
            s.player@,
        ) && coords(l.to) == timed_point(pb, s.target@, s.timing),
        _ => false,
    }
}

/// The scene that a playbook lowers to: one entity per player, in order, then
/// the moves, the passes and the screens, each group in its own order.
pub open spec fn scene_of(r: Scene, pb: Playbook) -> bool {
    let nm = pb.action.moves@.len();
    let np = pb.action.passes@.len();
    let ns = pb.action.screens@.len();
    &&& r.entities@.len() == pb.players@.len()
    &&& forall|k: int|
        0 <= k < pb.players@.len() ==> entity_of(#[trigger] r.entities@[k], pb, pb.players@[k]@)
    &&& r.interactions@.len() == nm + np + ns
    &&& forall|k: int|
        0 <= k < nm ==> move_line_of(#[trigger] r.interactions@[k], pb, pb.action.moves@[k])
    &&& forall|k: int|
        0 <= k < np ==> pass_line_of(
            #[trigger] r.interactions@[nm + k],
            pb,
            pb.action.passes@[k],
        )
    &&& forall|k: int|
        0 <= k < ns ==> screen_line_of(
            #[trigger] r.interactions@[nm + np + k],
            pb,
            pb.action.screens@[k],
        )
}

/// A player that no move names ends where it starts; one that moves ends at the
/// target of its last move.
pub proof fn lemma_end_position(pb: Playbook, id: Seq<char>)
    ensures
        (forall|k: int| 0 <= k < pb.action.moves@.len() ==> (#[trigger] pb.action.moves@[k]).player@
            != id) ==> end_of(pb, id) == start_of(pb, id),
        forall|k: int|
            0 <= k < pb.action.moves@.len() && (#[trigger] pb.action.moves@[k]).player@ == id && (
            forall|j: int| k < j < pb.action.moves@.len() ==> pb.action.moves@[j].player@ != id)
                ==> end_of(pb, id) == coords(pb.action.moves@[k].target),
{
    lemma_overlay(pb.state.positions@, pb.action.moves@, id);
}

proof fn lemma_overlay(m: Map<Seq<char>, Point>, moves: Seq<MoveAction>, id: Seq<char>)
    ensures
        (forall|k: int| 0 <= k < moves.len() ==> (#[trigger] moves[k]).player@ != id) ==> (
        overlay(m, moves).contains_key(id) == m.contains_key(id) && (m.contains_key(id)
            ==> overlay(m, moves)[id] == m[id])),
        forall|k: int|
            0 <= k < moves.len() && (#[trigger] moves[k]).player@ == id && (forall|j: int|
                k < j < moves.len() ==> moves[j].player@ != id) ==> overlay(m, moves).contains_key(
                id,
            ) && overlay(m, moves)[id] == moves[k].target,
    decreases moves.len(),
{
    if moves.len() > 0 {
        let d = moves.drop_last();
        lemma_overlay(m, d, id);
        assert forall|k: int|
            0 <= k < moves.len() && (#[trigger] moves[k]).player@ == id && (forall|j: int|
                k < j < moves.len() ==> moves[j].player@ != id) implies overlay(
            m,
            moves,
        ).contains_key(id) && overlay(m, moves)[id] == moves[k].target by {
            if k < moves.len() - 1 {
                assert(moves[moves.len() - 1].player@ != id);
                assert(d[k] == moves[k]);
                assert forall|j: int| k < j < d.len() implies d[j].player@ != id by {
                    assert(d[j] == moves[j]);
                }
            }
        }
        if forall|k: int| 0 <= k < moves.len() ==> (#[trigger] moves[k]).player@ != id {
            assert forall|k: int| 0 <= k < d.len() implies (#[trigger] d[k]).player@ != id by {
                assert(d[k] == moves[k]);
            }
            assert(moves[moves.len() - 1].player@ != id);
        }
    }
}

/// The name with every `p` removed.
fn label(id: &String) -> (r: String)
    ensures
        r@ == label_of(id@),
{
    let v = crate::chars::chars_of(id.as_str());
    let mut s = String::new();
    let mut i: usize = 0;
    while i < v.len()
        invariant
            i <= v@.len(),
            v@ == id@,
            s@ == label_of(v@.take(i as int)),
        decreases v@.len() - i,
    {
        assert(v@.take(i + 1).drop_last() =~= v@.take(i as int));
        if v[i] != 'p' {
            push_char(&mut s, v[i]);
        }
        i = i + 1;
    }
    assert(v@.take(v@.len() as int) =~= v@);
    s
}

/// The point of `id` in `m`, or `fallback`.
fn point_or(m: &PositionMap, id: &String, fallback: Point) -> (r: Point)
    ensures
        coords(r) == if m@.contains_key(id@) {
            coords(m@[id@])
        } else {
            coords(fallback)
        },
{
    match m.get(id.as_str()) {
        Some(p) => *p,
        None => fallback,
    }
}

/// Lowers playbooks to scenes. Positions are resolved through two flat maps,
/// where players start and where they end after their moves, rather than a
/// graph of dependencies between actions.
pub struct IRGenerator;

impl IRGenerator {
    /// Lowers a playbook to its scene.
    pub fn generate(playbook: Playbook) -> (r: Scene)
        ensures
            scene_of(r, playbook),
    {
        let ghost pb = playbook;
        let start_positions = playbook.state.positions.duplicate();
        let mut end_positions = start_positions.duplicate();
        let moves = &playbook.action.moves;
        let mut k: usize = 0;
        while k < moves.len()
            invariant
                k <= moves@.len(),
                moves@ == pb.action.moves@,
                start_positions@ == pb.state.positions@,
                end_positions@ == overlay(pb.state.positions@, moves@.take(k as int)),
            decreases moves@.len() - k,
        {
            assert(moves@.take(k + 1).drop_last() =~= moves@.take(k as int));
            end_positions.insert(moves[k].player.clone(), moves[k].target);
            k = k + 1;
        }
        assert(moves@.take(moves@.len() as int) =~= moves@);
        let origin = Point::origin();

        let mut entities: Vec<Entity> = Vec::new();
        let players = &playbook.players;
        let mut k: usize = 0;
        while k < players.len()
            invariant
                k <= players@.len(),
                players@ == pb.players@,
                pb == playbook,
                start_positions@ == pb.state.positions@,
                end_positions@ == overlay(pb.state.positions@, pb.action.moves@),
                coords(origin) == (0int, 0int),
                entities@.len() == k,
                forall|j: int| 0 <= j < k ==> entity_of(#[trigger] entities@[j], pb, pb.players@[j]@),
            decreases players@.len() - k,
        {
            let id = &players[k];
            let start_pos = point_or(&start_positions, id, origin);
            let end_pos = point_or(&end_positions, id, start_pos);
            let is_baller = match &playbook.state.baller {
                Some(b) => string_eq(b, id),
                None => false,
            };
            entities.push(
                Entity { id: id.clone(), label: label(id), start_pos, end_pos, is_baller },
            );
            k = k + 1;
        }

        let mut interactions: Vec<Interaction> = Vec::new();
        let mut k: usize = 0;
        while k < moves.len()
            invariant
                k <= moves@.len(),
                moves@ == pb.action.moves@,
                pb == playbook,
                start_positions@ == pb.state.positions@,
                coords(origin) == (0int, 0int),
                interactions@.len() == k,
                forall|j: int| 0 <= j < k ==> move_line_of(#[trigger] interactions@[j], pb, moves@[j]),
            decreases moves@.len() - k,
        {
            let m = &moves[k];
            let from = point_or(&start_positions, &m.player, origin);
            interactions.push(
                Interaction::Move(MoveLine { player_id: m.player.clone(), from, to: m.target }),
            );
            k = k + 1;
        }
        let nm = moves.len();
        let passes = &playbook.action.passes;
        let mut k: usize = 0;
        while k < passes.len()
            invariant
                k <= passes@.len(),
                passes@ == pb.action.passes@,
                nm == pb.action.moves@.len(),
                pb == playbook,
                start_positions@ == pb.state.positions@,
                end_positions@ == overlay(pb.state.positions@, pb.action.moves@),
                coords(origin) == (0int, 0int),
                interactions@.len() == nm + k,
                forall|j: int|
                    0 <= j < nm ==> move_line_of(
                        #[trigger] interactions@[j],
                        pb,
                        pb.action.moves@[j],
                    ),
                forall|j: int|
                    0 <= j < k ==> pass_line_of(#[trigger] interactions@[nm + j], pb, passes@[j]),
            decreases passes@.len() - k,
        {
            let p = &passes[k];
            let start_to = point_or(&start_positions, &p.to, origin);
            let from = point_or(&end_positions, &p.from, point_or(&start_positions, &p.from, origin));
            let to = match p.timing {
                Timing::Before => start_to,
                _ => point_or(&end_positions, &p.to, start_to),
            };
            let line = Interaction::Pass(PassLine { from, to });
            interactions.push(line);
            assert(interactions@[nm + k] == line);
            k = k + 1;
        }
        let np = passes.len();
        let screens = &playbook.action.screens;
        let mut k: usize = 0;
        while k < screens.len()
            invariant
                k <= screens@.len(),
                screens@ == pb.action.screens@,
                nm == pb.action.moves@.len(),
                np == pb.action.passes@.len(),
                pb == playbook,
                start_positions@ == pb.state.positions@,
                end_positions@ == overlay(pb.state.positions@, pb.action.moves@),
                coords(origin) == (0int, 0int),
                interactions@.len() == nm + np + k,
                forall|j: int|
                    0 <= j < nm ==> move_line_of(
                        #[trigger] interactions@[j],
                        pb,
                        pb.action.moves@[j],
                    ),
                forall|j: int|
                    0 <= j < np ==> pass_line_of(
                        #[trigger] interactions@[nm + j],
                        pb,
                        pb.action.passes@[j],
                    ),
                forall|j: int|
                    0 <= j < k ==> screen_line_of(
                        #[trigger] interactions@[nm + np + j],
                        pb,
                        screens@[j],
                    ),
            decreases screens@.len() - k,
        {
            let s = &screens[k];
            let from = point_or(&start_positions, &s.player, origin);
            let start_to = point_or(&start_positions, &s.target, origin);
            let to = match s.timing {
                Timing::Before => start_to,
                _ => point_or(&end_positions, &s.target, start_to),
            };
            let line = Interaction::Screen(ScreenLine { screener_id: s.player.clone(), from, to });
            interactions.push(line);
            assert(interactions@[nm + np + k] == line);
            k = k + 1;
        }
        Scene { entities, interactions }
    }
}

/// Whether two strings hold the same text.
fn string_eq(a: &String, b: &String) -> (r: bool)
    ensures
        r == (a@ == b@),
{
    a.eq(b)
}

} // verus!
