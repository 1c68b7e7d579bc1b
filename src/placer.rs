//! Choosing a free cell for a food item.

use vstd::prelude::*;
use rand::Rng;
use crate::grid::{Grid, Position};

verus! {

/// The three kinds of food, each with its own effect on the body.
#[derive(Clone, Copy, Debug, PartialEq, Eq, Structural)]
pub enum FoodKind {
    RustyScrap,
    ShinyMetal,
    Water,
}

/// A food item on the grid.
#[derive(Clone, Copy, Debug, PartialEq, Eq, Structural)]
pub struct Food {
    pub position: Position,
    pub kind: FoodKind,
}

/// Raised when the grid has no free cell left for a food item: a configuration
/// fault, not a gameplay ending.
#[derive(Clone, Copy, Debug, PartialEq, Eq, Structural)]
pub enum PlacementError {
    NoFreeCell,
}

pub open spec fn is_free(g: Grid, occupied: Seq<Position>, p: Position) -> bool {
    g.contains(p) && !occupied.contains(p)
}

/// Whether every cell of the grid is taken.
pub open spec fn grid_full(g: Grid, occupied: Seq<Position>) -> bool {
    forall|p: Position| g.contains(p) ==> #[trigger] occupied.contains(p)
}

/// The first candidate at or after index `i` that is a free cell.
pub open spec fn first_free_draw(g: Grid, occupied: Seq<Position>, draws: Seq<Position>, i: int) -> Option<Position>
    decreases draws.len() - i,
{
    if i < 0 || i >= draws.len() {
        None
    } else if is_free(g, occupied, draws[i]) {
        Some(draws[i])
    } else {
        first_free_draw(g, occupied, draws, i + 1)
    }
}

/// The first free cell in row-major order from column `x` of row `y` on.
pub open spec fn scan_from(g: Grid, occupied: Seq<Position>, x: int, y: int) -> Option<Position>
    decreases g.height - y, g.width - x,
{
    if y < 0 || y >= g.height || x < 0 {
        None
    } else if x >= g.width {
        scan_from(g, occupied, 0, y + 1)
    } else if is_free(g, occupied, Position { x: x as i32, y: y as i32 }) {
        Some(Position { x: x as i32, y: y as i32 })
    } else {
        scan_from(g, occupied, x + 1, y)
    }
}

/// Where a food item goes: the first free candidate, else the first free cell in
/// row-major order, else nowhere.
pub open spec fn place_spec(g: Grid, occupied: Seq<Position>, draws: Seq<Position>) -> Option<Position> {
    match first_free_draw(g, occupied, draws, 0) {
        Some(p) => Some(p),
        None => scan_from(g, occupied, 0, 0),
    }
}

proof fn lemma_first_free_draw(g: Grid, occupied: Seq<Position>, draws: Seq<Position>, i: int)
    requires
        0 <= i,
    ensures
        first_free_draw(g, occupied, draws, i) matches Some(p) ==> is_free(g, occupied, p),
    decreases draws.len() - i,
{
    if i < draws.len() && !is_free(g, occupied, draws[i]) {
        lemma_first_free_draw(g, occupied, draws, i + 1);
    }
}

proof fn lemma_scan_from(g: Grid, occupied: Seq<Position>, x: int, y: int)
    requires
        g.wf(),
        0 <= x <= g.width,
        0 <= y,
    ensures
        scan_from(g, occupied, x, y) matches Some(p) ==> is_free(g, occupied, p),
        scan_from(g, occupied, x, y) is None ==> forall|p: Position|
            g.contains(p) && (p.y > y || (p.y == y && p.x >= x)) ==> #[trigger] occupied.contains(p),
    decreases g.height - y, g.width - x,
{
    if y < g.height {
        if x >= g.width {
            lemma_scan_from(g, occupied, 0, y + 1);
        } else if !is_free(g, occupied, Position { x: x as i32, y: y as i32 }) {
            lemma_scan_from(g, occupied, x + 1, y);
            if scan_from(g, occupied, x, y) is None {
                assert forall|p: Position|
                    g.contains(p) && (p.y > y || (p.y == y && p.x >= x)) implies #[trigger] occupied.contains(p) by {
                    if p.y == y && p.x == x {
                        assert(p == Position { x: x as i32, y: y as i32 });
                    }
                }
            }
        }
    }
}

/// What `place_spec` yields is free, and it yields nothing only on a full grid.
pub proof fn lemma_place_spec(g: Grid, occupied: Seq<Position>, draws: Seq<Position>)
    requires
        g.wf(),
    ensures
        place_spec(g, occupied, draws) matches Some(p) ==> is_free(g, occupied, p),
        place_spec(g, occupied, draws) is None <==> grid_full(g, occupied),
{
    lemma_first_free_draw(g, occupied, draws, 0);
    lemma_scan_from(g, occupied, 0, 0);
}

/// Whether `p` is among `v`.
pub fn contains_position(v: &Vec<Position>, p: Position) -> (r: bool)
    ensures
        r == v@.contains(p),
{
    let mut i: usize = 0;
    while i < v.len()
        invariant
            i <= v@.len(),
            forall|j: int| 0 <= j < i ==> v@[j] != p,
        decreases v@.len() - i,
    {
        if v[i] == p {
            return true;
        }
        i = i + 1;
    }
    false
}

/// Picks a cell for a food item that is not in `occupied`: the first free cell among
/// `draws`, else the first free cell in row-major order. Fails only on a full grid.
pub fn place(g: &Grid, occupied: &Vec<Position>, draws: &Vec<Position>) -> (r: Result<Position, PlacementError>)
    requires
        g.wf(),
    ensures
        r matches Ok(p) ==> place_spec(*g, occupied@, draws@) == Some(p) && is_free(*g, occupied@, p),
        r is Err <==> grid_full(*g, occupied@),
        r is Err ==> place_spec(*g, occupied@, draws@) is None,
{
    proof {
        lemma_place_spec(*g, occupied@, draws@);
    }
    let mut i: usize = 0;
    while i < draws.len()
        invariant
            i <= draws@.len(),
            first_free_draw(*g, occupied@, draws@, 0) == first_free_draw(*g, occupied@, draws@, i as int),
        decreases draws@.len() - i,
    {
        let p = draws[i];
        if g.in_bounds(p) && !contains_position(occupied, p) {
            return Ok(p);
        }
        i = i + 1;
    }
    let mut y: i32 = 0;
    while y < g.height
        invariant
            g.wf(),
            0 <= y <= g.height,
            place_spec(*g, occupied@, draws@) == scan_from(*g, occupied@, 0, y as int),
        decreases g.height - y,
    {
        let mut x: i32 = 0;
        while x < g.width
            invariant
                g.wf(),
                0 <= y < g.height,
                0 <= x <= g.width,
                place_spec(*g, occupied@, draws@) == scan_from(*g, occupied@, x as int, y as int),
            decreases g.width - x,
        {
            let p = Position { x, y };
            if !contains_position(occupied, p) {
                return Ok(p);
            }
            x = x + 1;
        }
        y = y + 1;
    }
    Err(PlacementError::NoFreeCell)
}

/// Relies on rand's `Rng::gen_range` over `thread_rng()`: a value drawn from
/// `0..bound`, which must not be empty.
#[verifier::external_body]
fn random_below(bound: i32) -> (r: i32)
    requires
        bound > 0,
    ensures
        0 <= r < bound,
{
    rand::thread_rng().gen_range(0..bound)
}

/// `n` cells drawn at random from the grid, as candidates for `place`.
pub fn random_draws(g: &Grid, n: usize) -> (r: Vec<Position>)
    requires
        g.wf(),
    ensures
        r@.len() == n,
        forall|i: int| 0 <= i < n ==> g.contains(#[trigger] r@[i]),
{
    let mut v: Vec<Position> = Vec::new();
    let mut i: usize = 0;
    while i < n
        invariant
            g.wf(),
            i <= n,
            v@.len() == i,
            forall|j: int| 0 <= j < i ==> g.contains(#[trigger] v@[j]),
        decreases n - i,
    {
        let x = random_below(g.width);
        let y = random_below(g.height);
        v.push(Position { x, y });
        i = i + 1;
    }
    v
}

} // verus!
