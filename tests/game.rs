use rusty_snake::game::{Game, Phase, MAX_NAME_LEN, SNAKE_SPEED};
use rusty_snake::grid::{Direction, Position};
use rusty_snake::leaderboard::Leaderboard;
use rusty_snake::simulation::Simulation;
use rusty_snake::body::{Segment, SegmentKind};
use rusty_snake::placer::{Food, FoodKind};

fn pos(x: i32, y: i32) -> Position {
    Position { x, y }
}

fn far_draws() -> Vec<Position> {
    vec![pos(0, 0), pos(1, 0), pos(2, 0)]
}

fn run_frames(game: &mut Game, n: u64) {
    for _ in 0..n {
        assert_eq!(game.update_with(&vec![pos(0, 1)]), Ok(()));
    }
}

#[test]
fn session_waits_for_a_direction() {
    let mut game = Game::new(Leaderboard::new());
    assert_eq!(game.phase, Phase::NotStarted);
    run_frames(&mut game, SNAKE_SPEED * 2);
    assert_eq!(game.sim.body[0].position, pos(15, 10));
    assert!(game.sim.foods.is_empty());
    assert_eq!(game.on_direction(Direction::Up, &far_draws()), Ok(()));
    assert_eq!(game.phase, Phase::Running);
    assert_eq!(game.sim.direction, Direction::Up);
    assert_eq!(game.sim.foods.len(), 3);
}

#[test]
fn one_step_per_speed_interval() {
    let mut game = Game::new(Leaderboard::new());
    game.on_direction(Direction::Right, &far_draws()).unwrap();
    run_frames(&mut game, SNAKE_SPEED - 1);
    assert_eq!(game.sim.body[0].position, pos(15, 10));
    run_frames(&mut game, 1);
    assert_eq!(game.sim.body[0].position, pos(16, 10));
    run_frames(&mut game, SNAKE_SPEED);
    assert_eq!(game.sim.body[0].position, pos(17, 10));
}

#[test]
fn reversal_is_ignored() {
    let mut game = Game::new(Leaderboard::new());
    game.on_direction(Direction::Right, &far_draws()).unwrap();
    game.on_direction(Direction::Left, &far_draws()).unwrap();
    assert_eq!(game.sim.direction, Direction::Right);
    game.on_direction(Direction::Down, &far_draws()).unwrap();
    assert_eq!(game.sim.direction, Direction::Down);
}

fn finished_game(score: u32) -> Game {
    let mut game = Game::new(Leaderboard::new());
    game.on_direction(Direction::Right, &far_draws()).unwrap();
    let body = vec![Segment { position: pos(15, 10), kind: SegmentKind::Head }];
    let scrap = Food { position: pos(0, 0), kind: FoodKind::RustyScrap };
    let metal = Food { position: pos(16, 10), kind: FoodKind::ShinyMetal };
    let water = Food { position: pos(2, 0), kind: FoodKind::Water };
    game.sim = Simulation::from_parts(game.sim.grid, body, Direction::Right, vec![scrap, metal, water], score).unwrap();
    run_frames(&mut game, SNAKE_SPEED);
    game
}

#[test]
fn game_over_starts_name_entry_when_score_qualifies() {
    let game = finished_game(3);
    assert_eq!(game.phase, Phase::GameOver);
    assert!(game.entering_name);
}

#[test]
fn name_entry_caps_length_and_records() {
    let mut game = finished_game(3);
    assert!(!game.on_confirm());
    for c in "ABCDEFGHIJKL".chars() {
        game.on_character(c);
    }
    assert_eq!(game.player_name.len(), MAX_NAME_LEN);
    game.on_backspace();
    assert_eq!(game.player_name.iter().collect::<String>(), "ABCDEFGHI");
    assert!(game.on_confirm());
    assert!(!game.entering_name);
    assert_eq!(game.high_scores.entries.len(), 1);
    assert_eq!(game.high_scores.entries[0].score, 3);
    assert!(!game.on_confirm());
    assert_eq!(game.phase, Phase::NotStarted);
    assert_eq!(game.high_scores.entries.len(), 1);
    assert_eq!(game.sim.body.len(), 1);
    assert_eq!(game.sim.score, 0);
}

#[test]
fn low_score_skips_name_entry() {
    let mut board = Leaderboard::new();
    for s in [10, 20, 30, 40, 50] {
        board.add_high_score(vec!['z'], s);
    }
    let mut game = Game::new(board);
    game.on_direction(Direction::Right, &far_draws()).unwrap();
    let body = vec![Segment { position: pos(15, 10), kind: SegmentKind::Head }];
    let scrap = Food { position: pos(0, 0), kind: FoodKind::RustyScrap };
    let metal = Food { position: pos(16, 10), kind: FoodKind::ShinyMetal };
    let water = Food { position: pos(2, 0), kind: FoodKind::Water };
    game.sim = Simulation::from_parts(game.sim.grid, body, Direction::Right, vec![scrap, metal, water], 4).unwrap();
    run_frames(&mut game, SNAKE_SPEED);
    assert_eq!(game.phase, Phase::GameOver);
    assert!(!game.entering_name);
    game.on_character('A');
    assert!(game.player_name.is_empty());
}

#[test]
fn two_turns_within_one_tick_cannot_reverse() {
    let mut game = Game::new(Leaderboard::new());
    game.on_direction(Direction::Right, &far_draws()).unwrap();
    run_frames(&mut game, SNAKE_SPEED);
    assert_eq!(game.sim.body[0].position, pos(16, 10));
    game.on_direction(Direction::Up, &far_draws()).unwrap();
    game.on_direction(Direction::Left, &far_draws()).unwrap();
    assert_eq!(game.sim.direction, Direction::Up);
    run_frames(&mut game, SNAKE_SPEED);
    assert_eq!(game.sim.body[0].position, pos(16, 9));
    assert_eq!(game.heading, Direction::Up);
    game.on_direction(Direction::Left, &far_draws()).unwrap();
    assert_eq!(game.sim.direction, Direction::Left);
}

#[test]
fn confirming_an_empty_name_keeps_the_session() {
    let mut game = finished_game(3);
    let score = game.sim.score;
    assert!(!game.on_confirm());
    assert_eq!(game.phase, Phase::GameOver);
    assert!(game.entering_name);
    assert_eq!(game.sim.score, score);
    assert!(game.high_scores.entries.is_empty());
}
