//! The syntax tree of one playbook: players, starting state and actions, all by
//! player name; positions are resolved later.
use vstd::prelude::*;
use crate::num::Num;
use crate::chars::text_of;

verus! {

/// When an action's target is taken relative to the other player's move.
#[derive(Clone, Copy, Debug, PartialEq, Eq)]
pub enum Timing {
    Before,
    After,
    Middle,
    /// No timing written; it reads as `After`.
    Unspecified,
}

/// A point on the court.
#[derive(Clone, Copy, Debug, PartialEq, Eq)]
pub struct Point {
    pub x: Num,
    pub y: Num,
}

/// A point's coordinates in millionths.
pub open spec fn coords(p: Point) -> (int, int) {
    (p.x@, p.y@)
}

impl Point {
    pub fn new(x: Num, y: Num) -> (r: Point)
        ensures
            r.x == x,
            r.y == y,
    {
        Point { x, y }
    }

    /// The point with whole coordinates `x` and `y`.
    pub fn from_ints(x: i32, y: i32) -> (r: Point)
        ensures
            coords(r) == (x * crate::num::SCALE, y * crate::num::SCALE),
    {
        Point { x: Num::from_int(x), y: Num::from_int(y) }
    }

    /// The point `(0, 0)`.
    pub fn origin() -> (r: Point)
        ensures
            coords(r) == (0int, 0int),
    {
        Point { x: Num::zero(), y: Num::zero() }
    }
}

/// A player runs to a point.
#[derive(Clone, Debug, PartialEq)]
pub struct MoveAction {
    pub player: String,
    pub target: Point,
}

/// A player sets a screen on another.
#[derive(Clone, Debug, PartialEq)]
pub struct ScreenAction {
    pub player: String,
    pub target: String,
    pub timing: Timing,
}

/// The ball goes from one player to another.
#[derive(Clone, Debug, PartialEq)]
pub struct PassAction {
    pub from: String,
    pub to: String,
    pub timing: Timing,
}

/// The actions of a play, each kind in the order written.
#[derive(Clone, Debug, PartialEq, Default)]
pub struct Action {
    pub moves: Vec<MoveAction>,
    pub screens: Vec<ScreenAction>,
    pub passes: Vec<PassAction>,
}

impl Action {
    /// No actions.
    pub fn new() -> (r: Action)
        ensures
            r.moves@.len() == 0,
            r.screens@.len() == 0,
            r.passes@.len() == 0,
    {
        Action { moves: Vec::new(), screens: Vec::new(), passes: Vec::new() }
    }
}

/// Positions by player name. A later insert for a name replaces the earlier one.
#[derive(Clone, Debug)]
pub struct PositionMap {
    entries: Vec<Entry>,
}

#[derive(Clone, Debug)]
struct Entry {
    name: String,
    at: Point,
}

/// The map that inserting `e` in order into an empty map gives.
spec fn entries_map(e: Seq<Entry>) -> Map<Seq<char>, Point>
    decreases e.len(),
{
    if e.len() == 0 {
        Map::empty()
    } else {
        entries_map(e.drop_last()).insert(e.last().name@, e.last().at)
    }
}

impl View for PositionMap {
    type V = Map<Seq<char>, Point>;

    closed spec fn view(&self) -> Map<Seq<char>, Point> {
        entries_map(self.entries@)
    }
}

impl Default for PositionMap {
    fn default() -> (r: PositionMap)
        ensures
            r@ == Map::<Seq<char>, Point>::empty(),
    {
        PositionMap::new()
    }
}

impl PositionMap {
    /// The empty map.
    pub fn new() -> (r: PositionMap)
        ensures
            r@ == Map::<Seq<char>, Point>::empty(),
    {
        PositionMap { entries: Vec::new() }
    }

    /// Sets the position of `key`.
    pub fn insert(&mut self, key: String, value: Point)
        ensures
            final(self)@ == old(self)@.insert(key@, value),
    {
        let ghost e = self.entries@;
        self.entries.push(Entry { name: key, at: value });
        assert(self.entries@.drop_last() =~= e);
    }

    /// The position of `key`, if it has one.
    pub fn get(&self, key: &str) -> (r: Option<&Point>)
        ensures
            match r {
                Some(v) => self@.contains_key(key@) && *v == self@[key@],
                None => !self@.contains_key(key@),
            },
    {
        let mut i: usize = self.entries.len();
        assert(self.entries@.take(i as int) =~= self.entries@);
        while i > 0
            invariant
                i <= self.entries@.len(),
                entries_map(self.entries@).contains_key(key@) == entries_map(
                    self.entries@.take(i as int),
                ).contains_key(key@),
                entries_map(self.entries@).contains_key(key@) ==> entries_map(self.entries@)[key@]
                    == entries_map(self.entries@.take(i as int))[key@],
            decreases i,
        {
            let ghost t = self.entries@.take(i as int);
            assert(t.drop_last() =~= self.entries@.take(i - 1));
            if text_eq(&self.entries[i - 1].name, key) {
                return Some(&self.entries[i - 1].at);
            }
            i = i - 1;
        }
        assert(self.entries@.take(0) =~= Seq::<Entry>::empty());
        None
    }

    /// A copy with the same positions.
    pub fn duplicate(&self) -> (r: PositionMap)
        ensures
            r@ == self@,
    {
        let mut entries: Vec<Entry> = Vec::new();
        let mut i: usize = 0;
        while i < self.entries.len()
            invariant
                i <= self.entries@.len(),
                entries@ == self.entries@.take(i as int),
            decreases self.entries@.len() - i,
        {
            let name = self.entries[i].name.clone();
            entries.push(Entry { name, at: self.entries[i].at });
            i = i + 1;
            assert(entries@ =~= self.entries@.take(i as int));
        }
        assert(entries@ =~= self.entries@);
        PositionMap { entries }
    }
}

/// Whether the string holds the text `t`.
fn text_eq(a: &String, t: &str) -> (r: bool)
    ensures
        r == (a@ == t@),
{
    let v = crate::chars::chars_of(a.as_str());
    assert(v@.subrange(0, v@.len() as int) =~= v@);
    crate::chars::text_is(&v, 0, v.len(), t)
}

/// Who starts with the ball, and where players start.
#[derive(Clone, Debug, PartialEq, Default)]
pub struct State {
    pub baller: Option<String>,
    pub positions: PositionMap,
}

impl State {
    /// No ball handler and no positions.
    pub fn new() -> (r: State)
        ensures
            r.baller is None,
            r.positions@ == Map::<Seq<char>, Point>::empty(),
    {
        State { baller: None, positions: PositionMap::new() }
    }
}

/// One parsed play.
#[derive(Clone, Debug, PartialEq)]
pub struct Playbook {
    pub players: Vec<String>,
    pub state: State,
    pub action: Action,
}


proof fn lemma_keys_are_names(e: Seq<Entry>, k: Seq<char>)
    requires
        entries_map(e).contains_key(k),
    ensures
        exists|i: int| 0 <= i < e.len() && (#[trigger] e[i]).name@ == k,
    decreases e.len(),
{
    if e.last().name@ != k {
        lemma_keys_are_names(e.drop_last(), k);
        let i = choose|i: int| 0 <= i < e.drop_last().len() && (#[trigger] e.drop_last()[i]).name@ == k;
        assert(e[i] == e.drop_last()[i]);
    }
}

proof fn lemma_names_are_keys(e: Seq<Entry>, i: int)
    requires
        0 <= i < e.len(),
    ensures
        entries_map(e).contains_key(e[i].name@),
    decreases e.len(),
{
    if i < e.len() - 1 {
        assert(e.drop_last()[i] == e[i]);
        lemma_names_are_keys(e.drop_last(), i);
    }
}

fn same_point(a: &Point, b: &Point) -> (r: bool)
    ensures
        r == (a == b),
{
    let r = a.x.micros() == b.x.micros() && a.y.micros() == b.y.micros();
    proof {
        if a.x@ == b.x@ && a.y@ == b.y@ {
            Num::lemma_view_injective(a.x, b.x);
            Num::lemma_view_injective(a.y, b.y);
        }
    }
    r
}

impl PositionMap {
    /// Whether every name that `other` places, `self` places at the same point.
    fn includes(&self, other: &PositionMap) -> (r: bool)
        ensures
            r == (forall|k: Seq<char>|
                #[trigger] other@.contains_key(k) ==> self@.contains_key(k) && self@[k]
                    == other@[k]),
    {
        let mut i: usize = 0;
        while i < other.entries.len()
            invariant
                i <= other.entries@.len(),
                forall|j: int|
                    0 <= j < i ==> self@.contains_key((#[trigger] other.entries@[j]).name@)
                        && self@[other.entries@[j].name@] == other@[other.entries@[j].name@],
            decreases other.entries@.len() - i,
        {
            proof {
                lemma_names_are_keys(other.entries@, i as int);
            }
            let name = other.entries[i].name.as_str();
            let theirs = other.get(name);
            let ours = self.get(name);
            let same = match (ours, theirs) {
                (Some(a), Some(b)) => same_point(a, b),
                _ => false,
            };
            if !same {
                return false;
            }
            i = i + 1;
        }
        proof {
            assert forall|k: Seq<char>| #[trigger] other@.contains_key(k) implies self@.contains_key(k)
                && self@[k] == other@[k] by {
                lemma_keys_are_names(other.entries@, k);
            }
        }
        true
    }
}

impl PartialEq for PositionMap {
    /// Maps are equal when they place the same names at the same points.
    fn eq(&self, other: &PositionMap) -> (r: bool)
        ensures
            r == (self@ == other@),
    {
        let r = self.includes(other) && other.includes(self);
        proof {
            if r {
                assert(self@ =~= other@);
            }
        }
        r
    }
}

impl vstd::std_specs::cmp::PartialEqSpecImpl for PositionMap {
    open spec fn obeys_eq_spec() -> bool {
        true
    }

    open spec fn eq_spec(&self, other: &PositionMap) -> bool {
        self@ == other@
    }
}

/// What a playbook holds, as plain values.
pub struct PlaybookView {
    pub players: Seq<Seq<char>>,
    pub baller: Option<Seq<char>>,
    pub positions: Map<Seq<char>, Point>,
    pub moves: Seq<(Seq<char>, Point)>,
    pub screens: Seq<(Seq<char>, Seq<char>, Timing)>,
    pub passes: Seq<(Seq<char>, Seq<char>, Timing)>,
}

pub open spec fn names(v: Seq<String>) -> Seq<Seq<char>> {
    v.map_values(|s: String| s@)
}

pub open spec fn moves_view(v: Seq<MoveAction>) -> Seq<(Seq<char>, Point)> {
    v.map_values(|m: MoveAction| (m.player@, m.target))
}

pub open spec fn screens_view(v: Seq<ScreenAction>) -> Seq<(Seq<char>, Seq<char>, Timing)> {
    v.map_values(|s: ScreenAction| (s.player@, s.target@, s.timing))
}

pub open spec fn passes_view(v: Seq<PassAction>) -> Seq<(Seq<char>, Seq<char>, Timing)> {
    v.map_values(|p: PassAction| (p.from@, p.to@, p.timing))
}

impl View for Playbook {
    type V = PlaybookView;

    open spec fn view(&self) -> PlaybookView {
        PlaybookView {
            players: names(self.players@),
            baller: text_of(self.state.baller),
            positions: self.state.positions@,
            moves: moves_view(self.action.moves@),
            screens: screens_view(self.action.screens@),
            passes: passes_view(self.action.passes@),
        }
    }
}

} // verus!
