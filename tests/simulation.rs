use rusty_snake::body::{Segment, SegmentKind};
use rusty_snake::grid::{Direction, Grid, Position};
use rusty_snake::placer::{place, random_draws, Food, FoodKind, PlacementError};
use rusty_snake::simulation::{EndReason, Outcome, Simulation};

fn pos(x: i32, y: i32) -> Position {
    Position { x, y }
}

fn seg(x: i32, y: i32, kind: SegmentKind) -> Segment {
    Segment { position: pos(x, y), kind }
}

fn grid(wrap_around: bool) -> Grid {
    Grid { width: 20, height: 20, wrap_around }
}

fn foods(scrap: Position, metal: Position, water: Position) -> Vec<Food> {
    vec![
        Food { position: scrap, kind: FoodKind::RustyScrap },
        Food { position: metal, kind: FoodKind::ShinyMetal },
        Food { position: water, kind: FoodKind::Water },
    ]
}

fn count(sim: &Simulation, kind: SegmentKind) -> usize {
    sim.body.iter().filter(|s| s.kind == kind).count()
}

fn kinds(sim: &Simulation) -> Vec<SegmentKind> {
    sim.body.iter().map(|s| s.kind).collect()
}

fn tail_body() -> Vec<Segment> {
    vec![
        seg(5, 5, SegmentKind::Head),
        seg(4, 5, SegmentKind::Tail),
        seg(3, 5, SegmentKind::Tail),
        seg(2, 5, SegmentKind::Tail),
    ]
}

#[test]
fn three_rusty_scraps_grow_full_tail() {
    let fs = foods(pos(6, 5), pos(0, 19), pos(1, 19));
    let mut sim = Simulation::from_parts(grid(false), vec![seg(5, 5, SegmentKind::Head)], Direction::Right, fs, 0).unwrap();
    for (i, next) in [pos(7, 5), pos(8, 5), pos(15, 15)].iter().enumerate() {
        assert_eq!(sim.step_with(&vec![*next]), Ok(Outcome::Continue));
        assert_eq!(sim.body.len(), i + 2);
        assert_eq!(sim.foods[0].position, *next);
    }
    assert_eq!(sim.body.len(), 4);
    assert_eq!(sim.score, 3);
    assert_eq!(count(&sim, SegmentKind::Tail), 3);
    assert_eq!(sim.body[0], seg(8, 5, SegmentKind::Head));
}

#[test]
fn fourth_rusty_scrap_inserts_empty_stomach_after_head() {
    let fs = foods(pos(6, 5), pos(0, 19), pos(1, 19));
    let mut sim = Simulation::from_parts(grid(false), tail_body(), Direction::Right, fs, 3).unwrap();
    assert_eq!(sim.step_with(&vec![pos(10, 10)]), Ok(Outcome::Continue));
    assert_eq!(sim.body.len(), 5);
    assert_eq!(sim.score, 4);
    assert_eq!(sim.body[1], seg(5, 5, SegmentKind::EmptyStomach));
    assert_eq!(count(&sim, SegmentKind::Tail), 3);
    assert_eq!(sim.foods[0].position, pos(10, 10));
}

#[test]
fn shiny_metal_fills_empty_stomach() {
    let body = vec![
        seg(5, 5, SegmentKind::Head),
        seg(4, 5, SegmentKind::EmptyStomach),
        seg(3, 5, SegmentKind::Tail),
        seg(2, 5, SegmentKind::Tail),
        seg(1, 5, SegmentKind::Tail),
    ];
    let fs = foods(pos(0, 19), pos(6, 5), pos(1, 19));
    let mut sim = Simulation::from_parts(grid(false), body, Direction::Right, fs, 10).unwrap();
    assert_eq!(sim.step_with(&vec![pos(10, 10)]), Ok(Outcome::Continue));
    assert_eq!(sim.body.len(), 5);
    assert_eq!(sim.score, 12);
    assert_eq!(sim.body[1], seg(5, 5, SegmentKind::FullStomach));
    assert_eq!(count(&sim, SegmentKind::EmptyStomach), 0);
}

#[test]
fn shiny_metal_on_short_body_underflows() {
    let body = vec![seg(5, 5, SegmentKind::Head), seg(4, 5, SegmentKind::Tail), seg(3, 5, SegmentKind::Tail)];
    let fs = foods(pos(0, 19), pos(6, 5), pos(1, 19));
    let mut sim = Simulation::from_parts(grid(false), body, Direction::Right, fs, 2).unwrap();
    assert_eq!(sim.step_with(&vec![pos(10, 10)]), Ok(Outcome::GameOver(EndReason::StomachUnderflow)));
    assert_eq!(sim.score, 2);
}

#[test]
fn shiny_metal_without_free_stomach_overflows() {
    let body = vec![
        seg(5, 5, SegmentKind::Head),
        seg(4, 5, SegmentKind::FullStomach),
        seg(3, 5, SegmentKind::Tail),
        seg(2, 5, SegmentKind::Tail),
        seg(1, 5, SegmentKind::Tail),
    ];
    let fs = foods(pos(0, 19), pos(6, 5), pos(1, 19));
    let mut sim = Simulation::from_parts(grid(false), body, Direction::Right, fs, 7).unwrap();
    assert_eq!(sim.step_with(&vec![pos(10, 10)]), Ok(Outcome::GameOver(EndReason::StomachOverflow)));
    assert_eq!(sim.score, 7);
    assert_eq!(count(&sim, SegmentKind::FullStomach), 1);
}

#[test]
fn water_releases_store_and_grows_before_tail() {
    let body = vec![
        seg(5, 5, SegmentKind::Head),
        seg(4, 5, SegmentKind::FullStomach),
        seg(3, 5, SegmentKind::Tail),
        seg(2, 5, SegmentKind::Tail),
        seg(1, 5, SegmentKind::Tail),
    ];
    let fs = foods(pos(0, 19), pos(1, 19), pos(6, 5));
    let mut sim = Simulation::from_parts(grid(false), body, Direction::Right, fs, 20).unwrap();
    assert_eq!(sim.step_with(&vec![pos(10, 10)]), Ok(Outcome::Continue));
    assert_eq!(sim.body.len(), 10);
    assert_eq!(sim.score, 25);
    assert_eq!(sim.body[0], seg(6, 5, SegmentKind::Head));
    assert_eq!(sim.body[1], seg(5, 5, SegmentKind::EmptyStomach));
    for i in 2..7 {
        assert_eq!(sim.body[i], seg(4, 5, SegmentKind::EmptyStomach));
    }
    assert_eq!(sim.body[7], seg(4, 5, SegmentKind::Tail));
    assert_eq!(count(&sim, SegmentKind::FullStomach), 0);
    assert_eq!(count(&sim, SegmentKind::Tail), 3);
}

#[test]
fn water_with_nothing_stored_is_harmless() {
    let fs = foods(pos(0, 19), pos(1, 19), pos(6, 5));
    let mut sim = Simulation::from_parts(grid(false), tail_body(), Direction::Right, fs, 4).unwrap();
    let before = kinds(&sim);
    assert_eq!(sim.step_with(&vec![pos(10, 10)]), Ok(Outcome::Continue));
    assert_eq!(sim.body.len(), 4);
    assert_eq!(sim.score, 4);
    assert_eq!(kinds(&sim), before);
    assert_eq!(sim.foods[2].position, pos(10, 10));
}

#[test]
fn self_collision_ends_without_mutation() {
    let body = vec![
        seg(5, 5, SegmentKind::Head),
        seg(4, 5, SegmentKind::Tail),
        seg(4, 6, SegmentKind::Tail),
        seg(5, 6, SegmentKind::Tail),
    ];
    let fs = foods(pos(0, 19), pos(1, 19), pos(2, 19));
    let mut sim = Simulation::from_parts(grid(false), body.clone(), Direction::Down, fs, 9).unwrap();
    assert_eq!(sim.step_with(&vec![pos(10, 10)]), Ok(Outcome::GameOver(EndReason::SelfCollision)));
    assert_eq!(sim.body, body);
    assert_eq!(sim.score, 9);
}

#[test]
fn boundary_exit_without_wrap() {
    let fs = foods(pos(0, 19), pos(1, 19), pos(2, 19));
    let mut sim = Simulation::from_parts(grid(false), vec![seg(19, 5, SegmentKind::Head)], Direction::Right, fs, 0).unwrap();
    assert_eq!(sim.step_with(&vec![]), Ok(Outcome::GameOver(EndReason::BoundaryExit)));
    assert_eq!(sim.body[0], seg(19, 5, SegmentKind::Head));
}

#[test]
fn wrap_around_uses_true_modulo() {
    let fs = foods(pos(5, 15), pos(6, 15), pos(7, 15));
    let mut right = Simulation::from_parts(grid(true), vec![seg(19, 5, SegmentKind::Head)], Direction::Right, fs.clone(), 0).unwrap();
    assert_eq!(right.step_with(&vec![]), Ok(Outcome::Continue));
    assert_eq!(right.body[0], seg(0, 5, SegmentKind::Head));
    let mut up = Simulation::from_parts(grid(true), vec![seg(0, 0, SegmentKind::Head)], Direction::Up, fs, 0).unwrap();
    assert_eq!(up.step_with(&vec![]), Ok(Outcome::Continue));
    assert_eq!(up.body[0], seg(0, 19, SegmentKind::Head));
}

#[test]
fn shift_moves_segments_and_keeps_kinds() {
    let body = vec![
        seg(5, 5, SegmentKind::Head),
        seg(4, 5, SegmentKind::EmptyStomach),
        seg(3, 5, SegmentKind::Tail),
    ];
    let fs = foods(pos(0, 19), pos(1, 19), pos(2, 19));
    let mut sim = Simulation::from_parts(grid(false), body, Direction::Up, fs, 0).unwrap();
    assert_eq!(sim.step_with(&vec![]), Ok(Outcome::Continue));
    assert_eq!(sim.body, vec![seg(5, 4, SegmentKind::Head), seg(5, 5, SegmentKind::EmptyStomach), seg(4, 5, SegmentKind::Tail)]);
}

#[test]
fn step_seeds_foods_when_none_are_active() {
    let mut sim = Simulation::new(grid(false), pos(5, 5), Direction::Right);
    let draws = vec![pos(5, 5), pos(1, 1), pos(1, 1), pos(2, 2), pos(3, 3)];
    assert_eq!(sim.step_with(&draws), Ok(Outcome::Continue));
    assert_eq!(sim.foods, foods(pos(1, 1), pos(2, 2), pos(3, 3)));
    assert_eq!(sim.body[0], seg(6, 5, SegmentKind::Head));
}

#[test]
fn placement_failure_is_reported_and_changes_nothing() {
    let g = Grid { width: 2, height: 1, wrap_around: true };
    let mut sim = Simulation::new(g, pos(0, 0), Direction::Right);
    assert_eq!(sim.spawn_foods(&vec![]), Err(PlacementError::NoFreeCell));
    assert!(sim.foods.is_empty());
    assert_eq!(sim.step_with(&vec![]), Err(PlacementError::NoFreeCell));
    assert_eq!(sim.body, vec![seg(0, 0, SegmentKind::Head)]);
}

#[test]
fn place_prefers_first_free_draw() {
    let g = grid(false);
    let occupied = vec![pos(1, 1), pos(2, 2)];
    let draws = vec![pos(1, 1), pos(-1, 3), pos(20, 0), pos(4, 4), pos(5, 5)];
    assert_eq!(place(&g, &occupied, &draws), Ok(pos(4, 4)));
}

#[test]
fn place_scans_when_no_draw_is_free() {
    let g = Grid { width: 3, height: 2, wrap_around: false };
    let occupied = vec![pos(0, 0), pos(1, 0), pos(2, 0)];
    assert_eq!(place(&g, &occupied, &vec![pos(0, 0)]), Ok(pos(0, 1)));
}

#[test]
fn place_fails_on_full_grid() {
    let g = Grid { width: 2, height: 1, wrap_around: false };
    let occupied = vec![pos(0, 0), pos(1, 0)];
    assert_eq!(place(&g, &occupied, &vec![pos(0, 0)]), Err(PlacementError::NoFreeCell));
}

#[test]
fn random_draws_stay_on_grid() {
    let one = Grid { width: 1, height: 1, wrap_around: false };
    assert_eq!(random_draws(&one, 4), vec![pos(0, 0); 4]);
    let g = Grid { width: 3, height: 2, wrap_around: false };
    for p in random_draws(&g, 50) {
        assert!(0 <= p.x && p.x < 3 && 0 <= p.y && p.y < 2);
    }
}

#[test]
fn random_step_moves_the_head() {
    let fs = foods(pos(0, 19), pos(1, 19), pos(2, 19));
    let mut sim = Simulation::from_parts(grid(true), vec![seg(5, 5, SegmentKind::Head)], Direction::Right, fs.clone(), 0).unwrap();
    assert_eq!(sim.step(), Ok(Outcome::Continue));
    assert_eq!(sim.body, vec![seg(6, 5, SegmentKind::Head)]);
    assert_eq!(sim.foods, fs);
}

#[test]
fn random_seeding_keeps_foods_apart_and_off_the_body() {
    let g = grid(true);
    let mut sim = Simulation::new(g, pos(5, 5), Direction::Right);
    assert_eq!(sim.spawn_foods(&random_draws(&g, 32)), Ok(()));
    assert_eq!(sim.foods.len(), 3);
    let kinds: Vec<FoodKind> = sim.foods.iter().map(|f| f.kind).collect();
    assert_eq!(kinds, vec![FoodKind::RustyScrap, FoodKind::ShinyMetal, FoodKind::Water]);
    for (i, f) in sim.foods.iter().enumerate() {
        assert!(f.position != pos(5, 5));
        for g in &sim.foods[i + 1..] {
            assert!(f.position != g.position);
        }
    }
}

#[test]
fn from_parts_rejects_malformed_state() {
    let fs = foods(pos(0, 19), pos(1, 19), pos(2, 19));
    let g = grid(false);
    assert!(Simulation::from_parts(g, vec![], Direction::Right, vec![], 0).is_none());
    assert!(Simulation::from_parts(g, vec![seg(1, 1, SegmentKind::Tail)], Direction::Right, vec![], 0).is_none());
    assert!(Simulation::from_parts(g, vec![seg(1, 1, SegmentKind::Head), seg(2, 1, SegmentKind::Head)], Direction::Right, vec![], 0).is_none());
    assert!(Simulation::from_parts(g, vec![seg(20, 1, SegmentKind::Head)], Direction::Right, vec![], 0).is_none());
    assert!(Simulation::from_parts(g, vec![seg(1, 1, SegmentKind::Head), seg(2, 1, SegmentKind::EmptyStomach)], Direction::Right, vec![], 0).is_none());
    let mut long = tail_body();
    long.push(seg(1, 5, SegmentKind::Tail));
    assert!(Simulation::from_parts(g, long, Direction::Right, vec![], 0).is_none());
    let swapped = foods(pos(0, 19), pos(1, 19), pos(2, 19)).into_iter().rev().collect();
    assert!(Simulation::from_parts(g, tail_body(), Direction::Right, swapped, 0).is_none());
    assert!(Simulation::from_parts(g, tail_body(), Direction::Right, fs, 0).is_some());
}

#[test]
fn opposite_directions() {
    assert_eq!(Direction::Right.opposite(), Direction::Left);
    assert_eq!(Direction::Left.opposite(), Direction::Right);
    assert_eq!(Direction::Up.opposite(), Direction::Down);
    assert_eq!(Direction::Down.opposite(), Direction::Up);
}
