//! The per-tick state machine: movement, collisions, food and segment transitions.

use vstd::prelude::*;
use crate::body::{
    count_kind, find_kind, first_kind, lemma_count_insert, lemma_count_repeat, lemma_count_same_kinds,
    lemma_count_split, lemma_count_concat, lemma_count_update, lemma_first_kind_count, lemma_first_kind_from,
    positions, Segment, SegmentKind, count_of,
};
use crate::grid::{Direction, Grid, Position};
use crate::placer::{
    lemma_place_spec, place, place_spec, random_draws, Food, FoodKind, PlacementError,
};

verus! {

/// Most tail segments a body grows.
pub const MAX_TAIL: usize = 3;

/// A body shorter than this has no stomach capacity yet.
pub const MIN_STOMACH_LEN: usize = 5;

/// Empty stomach segments that drinking water adds.
pub const WATER_GROWTH: usize = 5;

/// Candidate cells drawn for each random step.
pub const DRAWS_PER_STEP: usize = 32;

/// Why a session ended.
#[derive(Clone, Copy, Debug, PartialEq, Eq, Structural)]
pub enum EndReason {
    BoundaryExit,
    SelfCollision,
    StomachOverflow,
    StomachUnderflow,
}

/// The result of one step.
#[derive(Clone, Copy, Debug, PartialEq, Eq, Structural)]
pub enum Outcome {
    Continue,
    GameOver(EndReason),
}

/// The snake, its heading, the active foods and the score on a grid.
pub struct Simulation {
    pub grid: Grid,
    pub body: Vec<Segment>,
    pub direction: Direction,
    pub foods: Vec<Food>,
    pub score: u32,
}

/// The mathematical state of a simulation.
pub struct SimState {
    pub grid: Grid,
    pub body: Seq<Segment>,
    pub direction: Direction,
    pub foods: Seq<Food>,
    pub score: u32,
}

impl View for Simulation {
    type V = SimState;

    open spec fn view(&self) -> SimState {
        SimState {
            grid: self.grid,
            body: self.body@,
            direction: self.direction,
            foods: self.foods@,
            score: self.score,
        }
    }
}

/// The kind of the food kept at index `i` of a full food set.
pub open spec fn food_slot_kind(i: int) -> FoodKind {
    if i == 0 {
        FoodKind::RustyScrap
    } else if i == 1 {
        FoodKind::ShinyMetal
    } else {
        FoodKind::Water
    }
}

pub open spec fn food_positions(f: Seq<Food>) -> Seq<Position> {
    f.map_values(|food: Food| food.position)
}

/// Every cell held by a segment or a food.
pub open spec fn occupied_spec(body: Seq<Segment>, foods: Seq<Food>) -> Seq<Position> {
    positions(body) + food_positions(foods)
}

pub open spec fn foods_wf(g: Grid, foods: Seq<Food>) -> bool {
    foods.len() == 0 || (foods.len() == 3 && forall|i: int|
        0 <= i < 3 ==> (#[trigger] foods[i]).kind == food_slot_kind(i) && g.contains(foods[i].position))
}

pub open spec fn body_wf(g: Grid, body: Seq<Segment>) -> bool {
    &&& body.len() >= 1
    &&& body[0].kind == SegmentKind::Head
    &&& count_kind(body, SegmentKind::Head) == 1
    &&& forall|i: int| 0 <= i < body.len() ==> g.contains(#[trigger] body[i].position)
    &&& count_kind(body, SegmentKind::Tail) <= MAX_TAIL
    &&& count_kind(body, SegmentKind::EmptyStomach) + count_kind(body, SegmentKind::FullStomach) > 0
        ==> count_kind(body, SegmentKind::Tail) > 0
}

impl SimState {
    pub open spec fn wf(self) -> bool {
        self.grid.wf() && body_wf(self.grid, self.body) && foods_wf(self.grid, self.foods)
    }
}

/// `foods` with one more item of `kind`, placed by the candidates `draws`.
pub open spec fn add_food(g: Grid, body: Seq<Segment>, foods: Seq<Food>, kind: FoodKind, draws: Seq<Position>) -> Option<Seq<Food>> {
    match place_spec(g, occupied_spec(body, foods), draws) {
        Some(p) => Some(foods.push(Food { position: p, kind })),
        None => None,
    }
}

/// One food of each kind, placed in turn.
pub open spec fn seed_spec(g: Grid, body: Seq<Segment>, draws: Seq<Position>) -> Option<Seq<Food>> {
    match add_food(g, body, Seq::empty(), FoodKind::RustyScrap, draws) {
        None => None,
        Some(f1) => match add_food(g, body, f1, FoodKind::ShinyMetal, draws) {
            None => None,
            Some(f2) => add_food(g, body, f2, FoodKind::Water, draws),
        },
    }
}

/// The first food at or after index `i` lying on `c`.
pub open spec fn food_at_from(foods: Seq<Food>, c: Position, i: int) -> Option<int>
    decreases foods.len() - i,
{
    if i < 0 || i >= foods.len() {
        None
    } else if foods[i].position == c {
        Some(i)
    } else {
        food_at_from(foods, c, i + 1)
    }
}

/// The body after moving its head to `c`: each segment takes the cell of the one ahead
/// of it, kinds stay with their segments, and the first is the head.
pub open spec fn shifted(body: Seq<Segment>, c: Position) -> Seq<Segment> {
    Seq::new(body.len(), |i: int|
        if i == 0 {
            Segment { position: c, kind: SegmentKind::Head }
        } else {
            Segment { position: body[i - 1].position, kind: body[i].kind }
        })
}

pub open spec fn add_points(score: u32, n: u32) -> u32 {
    if score + n > u32::MAX { u32::MAX } else { (score + n) as u32 }
}

/// `n` empty stomach segments at `p`.
pub open spec fn empties(p: Position, n: nat) -> Seq<Segment> {
    Seq::new(n, |j: int| Segment { position: p, kind: SegmentKind::EmptyStomach })
}

/// What eating food of kind `k` does to the shifted body `b`, whose head stood at
/// `old_head` before the move, and to the score.
pub open spec fn effect(b: Seq<Segment>, old_head: Position, score: u32, k: FoodKind) -> (Seq<Segment>, u32, Outcome) {
    match k {
        FoodKind::RustyScrap => {
            let body = if count_kind(b, SegmentKind::Tail) < MAX_TAIL {
                b.push(Segment { position: b.last().position, kind: SegmentKind::Tail })
            } else {
                b.insert(1, Segment { position: old_head, kind: SegmentKind::EmptyStomach })
            };
            (body, add_points(score, 1), Outcome::Continue)
        },
        FoodKind::ShinyMetal => {
            if b.len() < MIN_STOMACH_LEN {
                (b, score, Outcome::GameOver(EndReason::StomachUnderflow))
            } else {
                match first_kind(b, SegmentKind::EmptyStomach) {
                    Some(i) => (
                        b.update(i, Segment { position: b[i].position, kind: SegmentKind::FullStomach }),
                        add_points(score, 2),
                        Outcome::Continue,
                    ),
                    None => (b, score, Outcome::GameOver(EndReason::StomachOverflow)),
                }
            }
        },
        FoodKind::Water => {
            match first_kind(b, SegmentKind::FullStomach) {
                None => (b, score, Outcome::Continue),
                Some(i) => {
                    let b1 = b.update(i, Segment { position: b[i].position, kind: SegmentKind::EmptyStomach });
                    match first_kind(b1, SegmentKind::Tail) {
                        Some(t) => (
                            b1.subrange(0, t) + empties(b1[t].position, WATER_GROWTH as nat) + b1.subrange(t, b1.len() as int),
                            add_points(score, 5),
                            Outcome::Continue,
                        ),
                        None => (b1, add_points(score, 5), Outcome::Continue),
                    }
                },
            }
        },
    }
}

/// The foods in play once a step has seeded them.
pub open spec fn seeded_foods(s: SimState, draws: Seq<Position>) -> Option<Seq<Food>> {
    if s.foods.len() == 0 { seed_spec(s.grid, s.body, draws) } else { Some(s.foods) }
}

/// The kind of food that a step from `s` consumes, if it gets that far.
pub open spec fn eaten_kind(s: SimState, draws: Seq<Position>) -> Option<FoodKind> {
    match seeded_foods(s, draws) {
        None => None,
        Some(foods) => match s.grid.project_spec(s.body[0].position, s.direction) {
            None => None,
            Some(c) => if positions(s.body).contains(c) {
                None
            } else {
                match food_at_from(foods, c, 0) {
                    None => None,
                    Some(i) => match place_spec(s.grid, occupied_spec(s.body, foods), draws) {
                        None => None,
                        Some(p) => Some(foods[i].kind),
                    },
                }
            },
        },
    }
}

/// One step from `s`, with `draws` as the candidate cells for any food placed.
pub open spec fn tick(s: SimState, draws: Seq<Position>) -> (SimState, Result<Outcome, PlacementError>) {
    match seeded_foods(s, draws) {
        None => (s, Err(PlacementError::NoFreeCell)),
        Some(foods) => {
            let s1 = SimState { foods, ..s };
            match s.grid.project_spec(s.body[0].position, s.direction) {
                None => (s1, Ok(Outcome::GameOver(EndReason::BoundaryExit))),
                Some(c) => if positions(s.body).contains(c) {
                    (s1, Ok(Outcome::GameOver(EndReason::SelfCollision)))
                } else {
                    match food_at_from(foods, c, 0) {
                        None => (SimState { body: shifted(s.body, c), ..s1 }, Ok(Outcome::Continue)),
                        Some(i) => match place_spec(s.grid, occupied_spec(s.body, foods), draws) {
                            None => (s1, Err(PlacementError::NoFreeCell)),
                            Some(p) => {
                                let e = effect(shifted(s.body, c), s.body[0].position, s.score, foods[i].kind);
                                (
                                    SimState {
                                        body: e.0,
                                        foods: foods.update(i, Food { position: p, kind: foods[i].kind }),
                                        score: e.1,
                                        ..s
                                    },
                                    Ok(e.2),
                                )
                            },
                        },
                    }
                },
            }
        },
    }
}

proof fn lemma_shifted(g: Grid, b: Seq<Segment>, c: Position)
    requires
        body_wf(g, b),
        g.contains(c),
    ensures
        body_wf(g, shifted(b, c)),
        shifted(b, c).len() == b.len(),
        forall|i: int| 0 <= i < b.len() ==> (#[trigger] shifted(b, c)[i]).kind == b[i].kind,
        forall|k: SegmentKind| count_kind(#[trigger] shifted(b, c), k) == count_kind(b, k),
{
    let nb = shifted(b, c);
    assert forall|i: int| 0 <= i < b.len() implies (#[trigger] nb[i]).kind == b[i].kind by {}
    assert forall|k: SegmentKind| count_kind(#[trigger] shifted(b, c), k) == count_kind(b, k) by {
        lemma_count_same_kinds(nb, b, k);
    }
    assert forall|i: int| 0 <= i < nb.len() implies g.contains(#[trigger] nb[i].position) by {
        if i > 0 {
            assert(g.contains(b[i - 1].position));
        }
    }
}

proof fn lemma_counts_update(b: Seq<Segment>, i: int, e: Segment)
    requires
        0 <= i < b.len(),
    ensures
        forall|k: SegmentKind| #![trigger count_kind(b.update(i, e), k)]
            count_kind(b.update(i, e), k) + (if b[i].kind == k { 1int } else { 0int })
                == count_kind(b, k) + (if e.kind == k { 1int } else { 0int }),
{
    assert forall|k: SegmentKind| #![trigger count_kind(b.update(i, e), k)]
        count_kind(b.update(i, e), k) + (if b[i].kind == k { 1int } else { 0int })
            == count_kind(b, k) + (if e.kind == k { 1int } else { 0int }) by {
        lemma_count_update(b, i, e, k);
    }
}

proof fn lemma_counts_insert(b: Seq<Segment>, i: int, e: Segment)
    requires
        0 <= i <= b.len(),
    ensures
        forall|k: SegmentKind| #![trigger count_kind(b.insert(i, e), k)]
            count_kind(b.insert(i, e), k) == count_kind(b, k) + (if e.kind == k { 1int } else { 0int }),
{
    assert forall|k: SegmentKind| #![trigger count_kind(b.insert(i, e), k)]
        count_kind(b.insert(i, e), k) == count_kind(b, k) + (if e.kind == k { 1int } else { 0int }) by {
        lemma_count_insert(b, i, e, k);
    }
}

proof fn lemma_counts_push(b: Seq<Segment>, e: Segment)
    ensures
        forall|k: SegmentKind| #![trigger count_kind(b.push(e), k)]
            count_kind(b.push(e), k) == count_kind(b, k) + (if e.kind == k { 1int } else { 0int }),
{
    assert(b.push(e).drop_last() =~= b);
}

proof fn lemma_counts_water(b1: Seq<Segment>, t: int, p: Position)
    requires
        0 <= t <= b1.len(),
    ensures
        forall|k: SegmentKind| #![trigger count_kind(b1.subrange(0, t) + empties(p, WATER_GROWTH as nat) + b1.subrange(t, b1.len() as int), k)]
            count_kind(b1.subrange(0, t) + empties(p, WATER_GROWTH as nat) + b1.subrange(t, b1.len() as int), k)
                == count_kind(b1, k) + (if k == SegmentKind::EmptyStomach { WATER_GROWTH as int } else { 0int }),
{
    let e = Segment { position: p, kind: SegmentKind::EmptyStomach };
    assert forall|k: SegmentKind| #![trigger count_kind(b1.subrange(0, t) + empties(p, WATER_GROWTH as nat) + b1.subrange(t, b1.len() as int), k)]
        count_kind(b1.subrange(0, t) + empties(p, WATER_GROWTH as nat) + b1.subrange(t, b1.len() as int), k)
            == count_kind(b1, k) + (if k == SegmentKind::EmptyStomach { WATER_GROWTH as int } else { 0int }) by {
        let pre = b1.subrange(0, t);
        let mid = empties(p, WATER_GROWTH as nat);
        let suf = b1.subrange(t, b1.len() as int);
        lemma_count_concat(pre + mid, suf, k);
        lemma_count_concat(pre, mid, k);
        assert(mid =~= Seq::new(WATER_GROWTH as nat, |j: int| e));
        lemma_count_repeat(e, WATER_GROWTH as nat, k);
        lemma_count_split(b1, t, k);
    }
}

/// Eating keeps the body well formed; it adds a tail segment only for rusty scrap
/// below the cap, stores one unit only for shiny metal, and releases one only for water.
proof fn lemma_effect(g: Grid, b: Seq<Segment>, old_head: Position, score: u32, k: FoodKind)
    requires
        body_wf(g, b),
        g.contains(old_head),
    ensures
        ({
            let (nb, ns, out) = effect(b, old_head, score, k);
            &&& body_wf(g, nb)
            &&& count_kind(nb, SegmentKind::Tail) == count_kind(b, SegmentKind::Tail)
                + (if k == FoodKind::RustyScrap && count_kind(b, SegmentKind::Tail) < MAX_TAIL { 1int } else { 0int })
            &&& count_kind(nb, SegmentKind::FullStomach) == count_kind(b, SegmentKind::FullStomach)
                + (if k == FoodKind::ShinyMetal && out == Outcome::Continue { 1int }
                   else if k == FoodKind::Water && count_kind(b, SegmentKind::FullStomach) > 0 { -1int }
                   else { 0int })
            &&& (k == FoodKind::Water && count_kind(b, SegmentKind::FullStomach) == 0) ==> nb == b && ns == score
        }),
{
    let (nb, ns, out) = effect(b, old_head, score, k);
    match k {
        FoodKind::RustyScrap => {
            if count_kind(b, SegmentKind::Tail) < MAX_TAIL {
                let e = Segment { position: b.last().position, kind: SegmentKind::Tail };
                lemma_counts_push(b, e);
                assert(g.contains(b[b.len() - 1].position));
                assert forall|i: int| 0 <= i < nb.len() implies g.contains(#[trigger] nb[i].position) by {
                    if i < b.len() {
                        assert(nb[i] == b[i]);
                    }
                }
            } else {
                let e = Segment { position: old_head, kind: SegmentKind::EmptyStomach };
                lemma_counts_insert(b, 1, e);
                assert forall|i: int| 0 <= i < nb.len() implies g.contains(#[trigger] nb[i].position) by {
                    if i > 1 {
                        assert(nb[i] == b[i - 1]);
                    } else if i == 0 {
                        assert(nb[i] == b[i]);
                    }
                }
            }
        },
        FoodKind::ShinyMetal => {
            if b.len() >= MIN_STOMACH_LEN {
                lemma_first_kind_from(b, SegmentKind::EmptyStomach, 0);
                lemma_first_kind_count(b, SegmentKind::EmptyStomach);
                if let Some(i) = first_kind(b, SegmentKind::EmptyStomach) {
                    let e = Segment { position: b[i].position, kind: SegmentKind::FullStomach };
                    lemma_counts_update(b, i, e);
                    assert(i != 0);
                    assert forall|j: int| 0 <= j < nb.len() implies g.contains(#[trigger] nb[j].position) by {
                        assert(g.contains(b[j].position));
                    }
                }
            }
        },
        FoodKind::Water => {
            lemma_first_kind_from(b, SegmentKind::FullStomach, 0);
            lemma_first_kind_count(b, SegmentKind::FullStomach);
            if let Some(i) = first_kind(b, SegmentKind::FullStomach) {
                let e = Segment { position: b[i].position, kind: SegmentKind::EmptyStomach };
                let b1 = b.update(i, e);
                lemma_counts_update(b, i, e);
                assert(i != 0);
                lemma_first_kind_from(b1, SegmentKind::Tail, 0);
                lemma_first_kind_count(b1, SegmentKind::Tail);
                let t = first_kind(b1, SegmentKind::Tail)->0;
                assert(b1[0].kind == SegmentKind::Head);
                assert(t != 0);
                lemma_counts_water(b1, t, b1[t].position);
                assert(g.contains(b[t].position));
                assert forall|j: int| 0 <= j < nb.len() implies g.contains(#[trigger] nb[j].position) by {
                    if j < t {
                        assert(nb[j] == b1[j]);
                        assert(g.contains(b[j].position));
                    } else if j >= t + WATER_GROWTH {
                        assert(nb[j] == b1[j - WATER_GROWTH]);
                        assert(g.contains(b[j - WATER_GROWTH].position));
                    }
                }
                assert(nb[0] == b1[0]);
            }
        },
    }
}

/// Every cell held by a segment of `body` or by a food of `foods`.
fn occupied_cells(body: &Vec<Segment>, foods: &Vec<Food>) -> (r: Vec<Position>)
    ensures
        r@ == occupied_spec(body@, foods@),
{
    let mut r: Vec<Position> = Vec::new();
    let mut i: usize = 0;
    while i < body.len()
        invariant
            i <= body@.len(),
            r@ =~= positions(body@).subrange(0, i as int),
        decreases body@.len() - i,
    {
        r.push(body[i].position);
        i = i + 1;
    }
    let mut j: usize = 0;
    while j < foods.len()
        invariant
            j <= foods@.len(),
            r@ =~= positions(body@) + food_positions(foods@).subrange(0, j as int),
        decreases foods@.len() - j,
    {
        r.push(foods[j].position);
        j = j + 1;
    }
    r
}

/// A food of `kind` on a cell that neither `body` nor `foods` holds.
fn food_for(g: &Grid, body: &Vec<Segment>, foods: &Vec<Food>, kind: FoodKind, draws: &Vec<Position>) -> (r: Result<Food, PlacementError>)
    requires
        g.wf(),
    ensures
        match place_spec(*g, occupied_spec(body@, foods@), draws@) {
            Some(p) => r == Ok::<Food, PlacementError>(Food { position: p, kind }),
            None => r == Err::<Food, PlacementError>(PlacementError::NoFreeCell),
        },
{
    let occupied = occupied_cells(body, foods);
    match place(g, &occupied, draws) {
        Ok(p) => Ok(Food { position: p, kind }),
        Err(e) => Err(e),
    }
}

/// Whether a segment of `body` lies on `c`.
fn body_covers(body: &Vec<Segment>, c: Position) -> (r: bool)
    ensures
        r == positions(body@).contains(c),
{
    let mut i: usize = 0;
    while i < body.len()
        invariant
            i <= body@.len(),
            forall|j: int| 0 <= j < i ==> body@[j].position != c,
        decreases body@.len() - i,
    {
        if body[i].position == c {
            assert(positions(body@)[i as int] == c);
            return true;
        }
        i = i + 1;
    }
    assert forall|j: int| 0 <= j < positions(body@).len() implies positions(body@)[j] != c by {
        assert(body@[j].position != c);
    }
    false
}

impl Simulation {
    /// A fresh simulation: a lone head at `start`, no food and no score.
    pub fn new(grid: Grid, start: Position, direction: Direction) -> (r: Simulation)
        requires
            grid.wf(),
            grid.contains(start),
        ensures
            r@.wf(),
            r.grid == grid,
            r.body@ == seq![Segment { position: start, kind: SegmentKind::Head }],
            r.direction == direction,
            r.foods@.len() == 0,
            r.score == 0,
    {
        let mut body: Vec<Segment> = Vec::new();
        body.push(Segment { position: start, kind: SegmentKind::Head });
        proof {
            crate::body::lemma_count_single(body@[0], SegmentKind::Head);
            crate::body::lemma_count_single(body@[0], SegmentKind::Tail);
            crate::body::lemma_count_single(body@[0], SegmentKind::EmptyStomach);
            crate::body::lemma_count_single(body@[0], SegmentKind::FullStomach);
            assert(body@ =~= seq![body@[0]]);
        }
        Simulation { grid, body, direction, foods: Vec::new(), score: 0 }
    }

    /// A simulation from its parts, or `None` when they are not well formed: the
    /// grid is empty, the body does not start with its only head, a segment or food
    /// lies off the grid, the tail is over its cap, stomach segments come without a
    /// tail, or the foods are not either absent or one of each kind in order.
    pub fn from_parts(grid: Grid, body: Vec<Segment>, direction: Direction, foods: Vec<Food>, score: u32) -> (r: Option<Simulation>)
        ensures
            r is Some <==> (SimState { grid, body: body@, direction, foods: foods@, score }).wf(),
            r matches Some(sim) ==> sim@ == (SimState { grid, body: body@, direction, foods: foods@, score }),
    {
        if grid.width <= 0 || grid.height <= 0 || body.len() == 0 {
            return None;
        }
        if body[0].kind != SegmentKind::Head || count_of(&body, SegmentKind::Head) != 1 {
            return None;
        }
        let mut i: usize = 0;
        while i < body.len()
            invariant
                i <= body@.len(),
                forall|j: int| 0 <= j < i ==> grid.contains(#[trigger] body@[j].position),
            decreases body@.len() - i,
        {
            if !grid.in_bounds(body[i].position) {
                return None;
            }
            i = i + 1;
        }
        let tails = count_of(&body, SegmentKind::Tail);
        let stomach = count_of(&body, SegmentKind::EmptyStomach) > 0 || count_of(&body, SegmentKind::FullStomach) > 0;
        if tails > MAX_TAIL || (stomach && tails == 0) {
            return None;
        }
        if foods.len() != 0 {
            if foods.len() != 3 {
                return None;
            }
            if foods[0].kind != FoodKind::RustyScrap || foods[1].kind != FoodKind::ShinyMetal || foods[2].kind != FoodKind::Water
                || !grid.in_bounds(foods[0].position) || !grid.in_bounds(foods[1].position) || !grid.in_bounds(foods[2].position) {
                proof {
                    if foods_wf(grid, foods@) {
                        assert(foods@[0].kind == food_slot_kind(0) && grid.contains(foods@[0].position));
                        assert(foods@[1].kind == food_slot_kind(1) && grid.contains(foods@[1].position));
                        assert(foods@[2].kind == food_slot_kind(2) && grid.contains(foods@[2].position));
                    }
                }
                return None;
            }
            proof {
                assert forall|j: int| 0 <= j < 3 implies (#[trigger] foods@[j]).kind == food_slot_kind(j)
                    && grid.contains(foods@[j].position) by {
                    if j == 0 {} else if j == 1 {} else {}
                }
            }
        }
        Some(Simulation { grid, body, direction, foods, score })
    }

    /// A food of `kind` on a cell free of segments and foods, taken from `draws`
    /// where one of them is free.
    pub fn generate_food(&self, kind: FoodKind, draws: &Vec<Position>) -> (r: Result<Food, PlacementError>)
        requires
            self@.wf(),
        ensures
            match place_spec(self.grid, occupied_spec(self.body@, self.foods@), draws@) {
                Some(p) => r == Ok::<Food, PlacementError>(Food { position: p, kind }),
                None => r == Err::<Food, PlacementError>(PlacementError::NoFreeCell),
            },
    {
        food_for(&self.grid, &self.body, &self.foods, kind, draws)
    }

    /// Replaces the foods with one of each kind. On failure nothing changes.
    pub fn spawn_foods(&mut self, draws: &Vec<Position>) -> (r: Result<(), PlacementError>)
        requires
            old(self)@.wf(),
        ensures
            final(self)@.wf(),
            match seed_spec(old(self).grid, old(self).body@, draws@) {
                Some(f) => r is Ok && final(self)@ == (SimState { foods: f, ..old(self)@ }),
                None => r is Err && final(self)@ == old(self)@,
            },
    {
        let ghost g = self.grid;
        let ghost b = self.body@;
        let mut fs: Vec<Food> = Vec::new();
        proof {
            lemma_place_spec(g, occupied_spec(b, fs@), draws@);
        }
        let f1 = match food_for(&self.grid, &self.body, &fs, FoodKind::RustyScrap, draws) {
            Ok(f) => f,
            Err(e) => return Err(e),
        };
        fs.push(f1);
        proof {
            lemma_place_spec(g, occupied_spec(b, fs@), draws@);
        }
        let f2 = match food_for(&self.grid, &self.body, &fs, FoodKind::ShinyMetal, draws) {
            Ok(f) => f,
            Err(e) => return Err(e),
        };
        fs.push(f2);
        proof {
            lemma_place_spec(g, occupied_spec(b, fs@), draws@);
        }
        let f3 = match food_for(&self.grid, &self.body, &fs, FoodKind::Water, draws) {
            Ok(f) => f,
            Err(e) => return Err(e),
        };
        fs.push(f3);
        self.foods = fs;
        proof {
            assert(self.foods@[0] == f1 && self.foods@[1] == f2 && self.foods@[2] == f3);
        }
        Ok(())
    }

    /// The index of the first food lying on `c`.
    fn food_index(&self, c: Position) -> (r: Option<usize>)
        ensures
            r matches Some(i) ==> food_at_from(self.foods@, c, 0) == Some(i as int) && i < self.foods@.len(),
            r is None ==> food_at_from(self.foods@, c, 0) is None,
    {
        let mut i: usize = 0;
        while i < self.foods.len()
            invariant
                i <= self.foods@.len(),
                food_at_from(self.foods@, c, 0) == food_at_from(self.foods@, c, i as int),
            decreases self.foods@.len() - i,
        {
            if self.foods[i].position == c {
                return Some(i);
            }
            i = i + 1;
        }
        None
    }

    /// Moves the head to `c`; every other segment takes the cell of the one ahead of it.
    fn shift(&mut self, c: Position)
        requires
            old(self).body@.len() >= 1,
        ensures
            final(self).body@ == shifted(old(self).body@, c),
            final(self).grid == old(self).grid,
            final(self).direction == old(self).direction,
            final(self).foods@ == old(self).foods@,
            final(self).score == old(self).score,
    {
        let ghost b = self.body@;
        let mut nb: Vec<Segment> = Vec::new();
        nb.push(Segment { position: c, kind: SegmentKind::Head });
        let mut i: usize = 1;
        while i < self.body.len()
            invariant
                1 <= i <= b.len(),
                self.body@ == b,
                nb@ =~= shifted(b, c).subrange(0, i as int),
            decreases b.len() - i,
        {
            nb.push(Segment { position: self.body[i - 1].position, kind: self.body[i].kind });
            i = i + 1;
        }
        self.body = nb;
        proof {
            assert(self.body@ =~= shifted(b, c));
        }
    }

    /// Applies the effect of eating food of `kind`; the head stood at `old_head` before
    /// the move.
    fn apply_food(&mut self, kind: FoodKind, old_head: Position) -> (r: Outcome)
        requires
            old(self).body@.len() >= 1,
        ensures
            final(self).body@ == effect(old(self).body@, old_head, old(self).score, kind).0,
            final(self).score == effect(old(self).body@, old_head, old(self).score, kind).1,
            r == effect(old(self).body@, old_head, old(self).score, kind).2,
            final(self).grid == old(self).grid,
            final(self).direction == old(self).direction,
            final(self).foods@ == old(self).foods@,
    {
        match kind {
            FoodKind::RustyScrap => {
                self.score = self.score.saturating_add(1);
                if count_of(&self.body, SegmentKind::Tail) < MAX_TAIL {
                    let last = self.body[self.body.len() - 1].position;
                    self.body.push(Segment { position: last, kind: SegmentKind::Tail });
                } else {
                    self.body.insert(1, Segment { position: old_head, kind: SegmentKind::EmptyStomach });
                }
                Outcome::Continue
            },
            FoodKind::ShinyMetal => {
                if self.body.len() < MIN_STOMACH_LEN {
                    return Outcome::GameOver(EndReason::StomachUnderflow);
                }
                match find_kind(&self.body, SegmentKind::EmptyStomach) {
                    Some(i) => {
                        proof {
                            lemma_first_kind_from(self.body@, SegmentKind::EmptyStomach, 0);
                        }
                        let p = self.body[i].position;
                        self.body.set(i, Segment { position: p, kind: SegmentKind::FullStomach });
                        self.score = self.score.saturating_add(2);
                        Outcome::Continue
                    },
                    None => Outcome::GameOver(EndReason::StomachOverflow),
                }
            },
            FoodKind::Water => {
                match find_kind(&self.body, SegmentKind::FullStomach) {
                    None => Outcome::Continue,
                    Some(i) => {
                        proof {
                            lemma_first_kind_from(self.body@, SegmentKind::FullStomach, 0);
                        }
                        let p = self.body[i].position;
                        self.body.set(i, Segment { position: p, kind: SegmentKind::EmptyStomach });
                        self.score = self.score.saturating_add(5);
                        let ghost b1 = self.body@;
                        match find_kind(&self.body, SegmentKind::Tail) {
                            Some(t) => {
                                proof {
                                    lemma_first_kind_from(b1, SegmentKind::Tail, 0);
                                }
                                let tp = self.body[t].position;
                                let ghost len = b1.len() as int;
                                let mut n: usize = 0;
                                proof {
                                    assert(self.body@ =~= b1.subrange(0, t as int) + empties(tp, 0) + b1.subrange(t as int, len));
                                }
                                while n < WATER_GROWTH
                                    invariant
                                        n <= WATER_GROWTH,
                                        t < len,
                                        len == b1.len(),
                                        self.body@.len() == len + n,
                                        self.body@ =~= b1.subrange(0, t as int) + empties(tp, n as nat) + b1.subrange(t as int, len),
                                        self.grid == old(self).grid,
                                        self.direction == old(self).direction,
                                        self.foods@ == old(self).foods@,
                                        self.score == add_points(old(self).score, 5),
                                    decreases WATER_GROWTH - n,
                                {
                                    let ghost before = self.body@;
                                    self.body.insert(t, Segment { position: tp, kind: SegmentKind::EmptyStomach });
                                    proof {
                                        let pre = b1.subrange(0, t as int);
                                        let suf = b1.subrange(t as int, len);
                                        let e_n = empties(tp, n as nat);
                                        let e_n1 = empties(tp, (n + 1) as nat);
                                        assert forall|j: int| 0 <= j < self.body@.len() implies
                                            self.body@[j] == (pre + e_n1 + suf)[j] by {
                                            if j < t {
                                                assert(self.body@[j] == before[j]);
                                            } else if j > t {
                                                assert(self.body@[j] == before[j - 1]);
                                            }
                                        }
                                        assert(self.body@ =~= b1.subrange(0, t as int) + empties(tp, (n + 1) as nat) + b1.subrange(t as int, len));
                                    }
                                    n = n + 1;
                                }
                            },
                            None => {},
                        }
                        Outcome::Continue
                    },
                }
            },
        }
    }

    /// One step, with `draws` as the candidate cells for any food placed in it.
    pub fn step_with(&mut self, draws: &Vec<Position>) -> (r: Result<Outcome, PlacementError>)
        requires
            old(self)@.wf(),
        ensures
            final(self)@ == tick(old(self)@, draws@).0,
            r == tick(old(self)@, draws@).1,
            final(self)@.wf(),
    {
        let ghost s = self@;
        if self.foods.len() == 0 {
            match self.spawn_foods(draws) {
                Ok(()) => {},
                Err(e) => return Err(e),
            }
        }
        let ghost s1 = self@;
        let head = self.body[0].position;
        let c = match self.grid.project(head, self.direction) {
            None => return Ok(Outcome::GameOver(EndReason::BoundaryExit)),
            Some(c) => c,
        };
        if body_covers(&self.body, c) {
            return Ok(Outcome::GameOver(EndReason::SelfCollision));
        }
        match self.food_index(c) {
            None => {
                proof {
                    lemma_shifted(self.grid, self.body@, c);
                }
                self.shift(c);
                Ok(Outcome::Continue)
            },
            Some(i) => {
                let kind = self.foods[i].kind;
                let food = match self.generate_food(kind, draws) {
                    Ok(f) => f,
                    Err(e) => return Err(e),
                };
                proof {
                    lemma_place_spec(self.grid, occupied_spec(self.body@, self.foods@), draws@);
                    lemma_shifted(self.grid, self.body@, c);
                    lemma_effect(self.grid, shifted(self.body@, c), head, self.score, kind);
                }
                self.foods.set(i, food);
                self.shift(c);
                let out = self.apply_food(kind, head);
                proof {
                    assert(self.foods@ =~= s1.foods.update(i as int, Food { position: food.position, kind }));
                }
                Ok(out)
            },
        }
    }

    /// One step, with food placed at random cells.
    pub fn step(&mut self) -> (r: Result<Outcome, PlacementError>)
        requires
            old(self)@.wf(),
        ensures
            final(self)@.wf(),
            exists|draws: Seq<Position>| final(self)@ == tick(old(self)@, draws).0 && r == tick(old(self)@, draws).1,
    {
        let draws = random_draws(&self.grid, DRAWS_PER_STEP);
        self.step_with(&draws)
    }
}

proof fn lemma_seed_wf(g: Grid, b: Seq<Segment>, draws: Seq<Position>)
    requires
        g.wf(),
    ensures
        seed_spec(g, b, draws) matches Some(f) ==> foods_wf(g, f),
{
    let e = Seq::<Food>::empty();
    lemma_place_spec(g, occupied_spec(b, e), draws);
    if let Some(f1) = add_food(g, b, e, FoodKind::RustyScrap, draws) {
        lemma_place_spec(g, occupied_spec(b, f1), draws);
        if let Some(f2) = add_food(g, b, f1, FoodKind::ShinyMetal, draws) {
            lemma_place_spec(g, occupied_spec(b, f2), draws);
            if let Some(f3) = add_food(g, b, f2, FoodKind::Water, draws) {
                assert(f3[0] == f1[0] && f3[1] == f2[1]);
            }
        }
    }
}

/// The facts about one step that the public laws below each state in part.
proof fn lemma_tick_facts(s: SimState, draws: Seq<Position>)
    requires
        s.wf(),
    ensures
        ({
            let (n, r) = tick(s, draws);
            let k = eaten_kind(s, draws);
            let tails = count_kind(s.body, SegmentKind::Tail);
            let fulls = count_kind(s.body, SegmentKind::FullStomach);
            &&& n.wf()
            &&& n.grid == s.grid
            &&& count_kind(n.body, SegmentKind::Tail) == tails
                + (if k == Some(FoodKind::RustyScrap) && tails < MAX_TAIL { 1int } else { 0int })
            &&& count_kind(n.body, SegmentKind::FullStomach) == fulls
                + (if k == Some(FoodKind::ShinyMetal) && r == Ok::<Outcome, PlacementError>(Outcome::Continue) { 1int }
                   else if k == Some(FoodKind::Water) && fulls > 0 { -1int }
                   else { 0int })
            &&& (k == Some(FoodKind::Water) && fulls == 0) ==> n.body.len() == s.body.len() && n.score == s.score
                && forall|i: int| 0 <= i < s.body.len() ==> (#[trigger] n.body[i]).kind == s.body[i].kind
        }),
{
    lemma_seed_wf(s.grid, s.body, draws);
    if let Some(foods) = seeded_foods(s, draws) {
        if let Some(c) = s.grid.project_spec(s.body[0].position, s.direction) {
            if !positions(s.body).contains(c) {
                lemma_shifted(s.grid, s.body, c);
                if let Some(i) = food_at_from(foods, c, 0) {
                    lemma_food_at_from(foods, c, 0);
                    lemma_place_spec(s.grid, occupied_spec(s.body, foods), draws);
                    if let Some(p) = place_spec(s.grid, occupied_spec(s.body, foods), draws) {
                        lemma_effect(s.grid, shifted(s.body, c), s.body[0].position, s.score, foods[i].kind);
                        let nf = foods.update(i, Food { position: p, kind: foods[i].kind });
                        assert forall|j: int| 0 <= j < 3 implies (#[trigger] nf[j]).kind == food_slot_kind(j)
                            && s.grid.contains(nf[j].position) by {}
                    }
                }
            }
        }
    }
}

proof fn lemma_food_at_from(foods: Seq<Food>, c: Position, i: int)
    requires
        0 <= i,
    ensures
        food_at_from(foods, c, i) matches Some(j) ==> i <= j < foods.len() && foods[j].position == c,
    decreases foods.len() - i,
{
    if i < foods.len() && foods[i].position != c {
        lemma_food_at_from(foods, c, i + 1);
    }
}

/// The first segment is the head before and after every step.
pub proof fn lemma_head_stays_first(s: SimState, draws: Seq<Position>)
    requires
        s.wf(),
    ensures
        s.body[0].kind == SegmentKind::Head,
        tick(s, draws).0.body[0].kind == SegmentKind::Head,
        tick(s, draws).0.wf(),
{
    lemma_tick_facts(s, draws);
}

/// With wrap-around, the head is on the grid after every step.
pub proof fn lemma_wrapped_head_in_grid(s: SimState, draws: Seq<Position>)
    requires
        s.wf(),
        s.grid.wrap_around,
    ensures
        0 <= tick(s, draws).0.body[0].position.x < s.grid.width,
        0 <= tick(s, draws).0.body[0].position.y < s.grid.height,
{
    lemma_tick_facts(s, draws);
}

/// The tail never exceeds its cap, and grows by one only when rusty scrap is eaten
/// below the cap.
pub proof fn lemma_tail_growth(s: SimState, draws: Seq<Position>)
    requires
        s.wf(),
    ensures
        count_kind(tick(s, draws).0.body, SegmentKind::Tail) <= MAX_TAIL,
        count_kind(tick(s, draws).0.body, SegmentKind::Tail) == count_kind(s.body, SegmentKind::Tail) + (
            if eaten_kind(s, draws) == Some(FoodKind::RustyScrap) && count_kind(s.body, SegmentKind::Tail) < MAX_TAIL { 1int } else { 0int }),
{
    lemma_tick_facts(s, draws);
}

/// A step changes the number of full stomach segments by at most one: up by one
/// only when shiny metal is stored, down by one only when water releases a stored unit.
pub proof fn lemma_full_stomach_change(s: SimState, draws: Seq<Position>)
    requires
        s.wf(),
    ensures
        ({
            let before = count_kind(s.body, SegmentKind::FullStomach) as int;
            let after = count_kind(tick(s, draws).0.body, SegmentKind::FullStomach) as int;
            &&& before - 1 <= after <= before + 1
            &&& after == before + 1 ==> eaten_kind(s, draws) == Some(FoodKind::ShinyMetal)
                && tick(s, draws).1 == Ok::<Outcome, PlacementError>(Outcome::Continue)
            &&& after == before - 1 ==> eaten_kind(s, draws) == Some(FoodKind::Water)
        }),
{
    lemma_tick_facts(s, draws);
}

/// Drinking water with nothing stored changes neither the length, the score nor any
/// segment's kind.
pub proof fn lemma_water_without_store(s: SimState, draws: Seq<Position>)
    requires
        s.wf(),
        eaten_kind(s, draws) == Some(FoodKind::Water),
        count_kind(s.body, SegmentKind::FullStomach) == 0,
    ensures
        tick(s, draws).0.body.len() == s.body.len(),
        tick(s, draws).0.score == s.score,
        forall|i: int| 0 <= i < s.body.len() ==> (#[trigger] tick(s, draws).0.body[i]).kind == s.body[i].kind,
        tick(s, draws).1 == Ok::<Outcome, PlacementError>(Outcome::Continue),
{
    lemma_tick_facts(s, draws);
}

} // verus!
