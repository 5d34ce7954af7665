use std::collections::{HashMap, VecDeque};
use std::time::{Duration, Instant};

use battlesnake_doctor_strangle::bench::make_game;
use battlesnake_doctor_strangle::board::Board;
use battlesnake_doctor_strangle::brain::{bigbrain, BigbrainOptions, BigbrainResult};
use battlesnake_doctor_strangle::game::Game;
use battlesnake_doctor_strangle::memo::KnownScores;
use battlesnake_doctor_strangle::score_factors::DeathKind;
use battlesnake_doctor_strangle::snake::Snake;
use battlesnake_doctor_strangle::strangle::{after_depth, deepen, MoveError, SnakeInfo, Snapshot, Strangle};
use battlesnake_doctor_strangle::types::{manhattan_distance, Coord, Direction};

fn c(x: i64, y: i64) -> Coord {
    Coord { x, y }
}

fn snake(id: usize, cells: &[(i64, i64)], health: i64) -> Snake {
    Snake { id, body: cells.iter().map(|&(x, y)| c(x, y)).collect::<VecDeque<_>>(), health }
}

fn board11() -> Board {
    Board { width: 11, height: 11 }
}

fn search(game: &Game, depth: u64) -> BigbrainResult {
    let mut known = KnownScores::new();
    let options = BigbrainOptions { max_depth: depth, time_limit: Duration::from_secs(15) };
    bigbrain(game, 0, 0, &HashMap::new(), &mut known, Instant::now(), &options)
        .expect("a generous time limit lets the search finish")
}

fn own_score(r: &BigbrainResult) -> i64 {
    r.scores[&0].calculate(r.depth)
}

#[test]
fn possible_directions_skip_the_neck() {
    let s = snake(0, &[(5, 5), (5, 4), (5, 3)], 50);
    let dirs = s.possible_directions(&board11());
    assert_eq!(dirs, vec![Direction::Left, Direction::Right, Direction::Up]);
    assert!(!dirs.contains(&Direction::Down));
    let s = snake(0, &[(5, 5), (6, 5)], 50);
    let dirs = s.possible_directions(&board11());
    assert!(!dirs.contains(&Direction::Right));
}

#[test]
fn possible_directions_stay_on_board() {
    let s = snake(0, &[(0, 0), (1, 0), (2, 0)], 50);
    assert_eq!(s.possible_directions(&board11()), vec![Direction::Up]);
    let s = snake(0, &[(3, 3)], 50);
    assert_eq!(s.possible_directions(&board11()).len(), 4);
}

#[test]
fn facing_reads_neck_to_head() {
    assert_eq!(snake(0, &[(5, 5), (5, 4)], 1).facing(), Some(Direction::Up));
    assert_eq!(snake(0, &[(5, 5), (6, 5)], 1).facing(), Some(Direction::Left));
    assert_eq!(snake(0, &[(5, 5), (5, 5)], 1).facing(), None);
}

#[test]
fn solo_snake_heads_for_nearby_food() {
    let g = Game::new(
        vec![snake(0, &[(5, 5), (5, 4), (5, 3)], 100)],
        vec![c(5, 7)],
        Vec::new(),
        board11(),
    );
    let food = c(5, 7);
    let head = c(5, 5);
    for depth in 2..4 {
        let r = search(&g, depth);
        let d = r.direction.expect("the root chooses a direction");
        assert_eq!(d, Direction::Up);
        assert!(manhattan_distance(head.neighbour(d), food) < manhattan_distance(head, food));
    }
}

#[test]
fn self_avoids_equal_head_on() {
    let g = Game::new(
        vec![snake(0, &[(4, 5), (3, 5), (2, 5)], 90), snake(1, &[(6, 5), (7, 5), (8, 5)], 90)],
        vec![],
        Vec::new(),
        board11(),
    );
    for depth in 1..4 {
        let r = search(&g, depth);
        let d = r.direction.expect("the root chooses a direction");
        assert_ne!(d, Direction::Right);
        assert!(d == Direction::Up || d == Direction::Down);
    }
}

#[test]
fn starving_snake_scores_below_healthy_twin() {
    let starving = Game::new(vec![snake(0, &[(5, 5), (5, 4), (5, 3)], 1)], vec![], Vec::new(), board11());
    let healthy = Game::new(vec![snake(0, &[(5, 5), (5, 4), (5, 3)], 50)], vec![], Vec::new(), board11());
    for depth in 1..4 {
        let a = search(&starving, depth);
        let b = search(&healthy, depth);
        assert!(own_score(&a) < own_score(&b));
        assert!(a.scores[&0].dead);
        assert!(matches!(a.scores[&0].death_kind, DeathKind::Normal));
    }
}

#[test]
fn expired_clock_yields_no_result() {
    let g = Game::new(vec![snake(0, &[(5, 5), (5, 4), (5, 3)], 50)], vec![], Vec::new(), board11());
    let mut known = KnownScores::new();
    let options = BigbrainOptions { max_depth: 3, time_limit: Duration::from_secs(0) };
    assert!(bigbrain(&g, 0, 0, &HashMap::new(), &mut known, Instant::now(), &options).is_none());
    assert_eq!(deepen(&g, Instant::now(), Duration::from_secs(0)), Err(MoveError::NoResult));
}

#[test]
fn deepening_returns_a_legal_direction() {
    let g = Game::new(vec![snake(0, &[(0, 0), (1, 0), (2, 0)], 50)], vec![], Vec::new(), board11());
    let d = deepen(&g, Instant::now(), Duration::from_millis(100)).expect("a direction");
    assert_eq!(d, Direction::Up);
}

#[test]
fn search_stops_at_self_elimination() {
    let g = Game::new(vec![snake(0, &[(0, 0), (1, 0), (2, 0)], 1)], vec![], Vec::new(), board11());
    let r = search(&g, 5);
    assert_eq!(r.depth, 1);
    assert_eq!(r.direction, Some(Direction::Up));
}

#[test]
fn cache_gives_same_result() {
    let g = Game::new(
        vec![snake(0, &[(4, 5), (3, 5), (2, 5)], 90), snake(1, &[(6, 6), (7, 6), (8, 6)], 90)],
        vec![c(5, 5)],
        Vec::new(),
        board11(),
    );
    let mut known = KnownScores::new();
    let options = BigbrainOptions { max_depth: 2, time_limit: Duration::from_secs(15) };
    let a = bigbrain(&g, 0, 0, &HashMap::new(), &mut known, Instant::now(), &options).unwrap();
    let b = bigbrain(&g, 0, 0, &HashMap::new(), &mut known, Instant::now(), &options).unwrap();
    assert_eq!(a.direction, b.direction);
    assert_eq!(a.depth, b.depth);
    assert_eq!(a.scores, b.scores);
}

#[test]
fn score_of_snake_in_game() {
    let g = Game::new(vec![snake(0, &[(5, 5), (5, 4), (5, 3)], 70)], vec![], Vec::new(), board11());
    let f = g.score(&g.snakes[0], DeathKind::Normal);
    assert!(!f.dead);
    assert_eq!(f.health, 70);
    assert_eq!(f.length, 3);
    assert_eq!(f.center_dist, 0);
    assert_eq!(f.remaining_opponents, 0);
    assert_eq!(f.available_squares, 121 - 2);
}

#[test]
fn score_of_missing_snake_is_dead() {
    let g = Game::new(vec![snake(0, &[(5, 5), (5, 4), (5, 3)], 70)], vec![], Vec::new(), board11());
    let gone = snake(3, &[(1, 1)], 10);
    let f = g.score(&gone, DeathKind::Honourable);
    assert!(f.dead);
    assert!(matches!(f.death_kind, DeathKind::Honourable));
}

#[test]
fn many_snakes_skip_reachable_squares() {
    let snakes = (0..5).map(|i| snake(i, &[(2 * i as i64, 1), (2 * i as i64, 0)], 50)).collect();
    let g = Game::new(snakes, vec![], Vec::new(), board11());
    let f = g.score(&g.snakes[2], DeathKind::Normal);
    assert_eq!(f.available_squares, 0);
    assert_eq!(f.remaining_opponents, 4);
}

fn info(id: &str, body: Vec<Coord>, health: i64) -> SnakeInfo {
    SnakeInfo { id: id.to_string(), body, health }
}

#[test]
fn snapshot_puts_self_first() {
    let s = Snapshot {
        width: 11,
        height: 11,
        food: vec![c(1, 1)],
        hazards: vec![],
        snakes: vec![info("a", vec![c(1, 5)], 80), info("b", vec![c(3, 5)], 70), info("me", vec![c(7, 5)], 60)],
        you: "me".to_string(),
    };
    let g = Game::from_snapshot(&s).unwrap();
    assert_eq!(g.snakes.len(), 3);
    assert_eq!(g.snakes[0].id, 0);
    assert_eq!(g.snakes[0].health, 60);
    assert_eq!(g.snakes[2].id, 2);
    assert_eq!(g.snakes[2].health, 80);
    assert!(g.multisnake);
}

#[test]
fn snapshot_errors() {
    let mut s = Snapshot {
        width: 11,
        height: 11,
        food: vec![],
        hazards: vec![],
        snakes: vec![info("a", vec![c(1, 5)], 80)],
        you: "me".to_string(),
    };
    assert_eq!(Game::from_snapshot(&s).err(), Some(MoveError::MissingSelf));
    assert_eq!(Strangle.get_movement(Snapshot { snakes: vec![], ..s_clone(&s) }), Err(MoveError::MissingSelf));
    s.snakes.push(info("me", vec![], 50));
    assert_eq!(Game::from_snapshot(&s).err(), Some(MoveError::EmptyBody));
    s.snakes[1].body.push(c(20, 5));
    assert_eq!(Game::from_snapshot(&s).err(), Some(MoveError::OutOfRange));
    s.snakes[1].body[0] = c(2, 2);
    s.hazards.push(c(11, 0));
    assert_eq!(Game::from_snapshot(&s).err(), Some(MoveError::OutOfRange));
    s.hazards[0] = c(10, 0);
    assert!(Game::from_snapshot(&s).is_ok());
    s.width = 1_000_000;
    assert_eq!(Game::from_snapshot(&s).err(), Some(MoveError::OutOfRange));
}

fn s_clone(s: &Snapshot) -> Snapshot {
    Snapshot {
        width: s.width,
        height: s.height,
        food: s.food.clone(),
        hazards: s.hazards.clone(),
        snakes: vec![],
        you: s.you.clone(),
    }
}

#[test]
fn bench_game_lines_up_snakes() {
    let g = make_game(4, 19, 19);
    assert_eq!(g.snakes.len(), 4);
    assert!(g.multisnake);
    assert!(g.food.len() <= 4);
    for (i, s) in g.snakes.iter().enumerate() {
        assert_eq!(s.id, i);
        assert_eq!(s.health, 100);
        assert_eq!(s.body.len(), 15);
        assert_eq!(s.body[0], c(2 + 4 * i as i64, 2));
    }
    for f in &g.food {
        assert!(g.board.contains(*f));
    }
}

#[test]
fn driver_avoids_equal_head_on() {
    let snapshot = Snapshot {
        width: 11,
        height: 11,
        food: vec![],
        hazards: vec![],
        snakes: vec![
            info("rival", vec![c(6, 5), c(7, 5), c(8, 5)], 90),
            info("me", vec![c(4, 5), c(3, 5), c(2, 5)], 90),
        ],
        you: "me".to_string(),
    };
    let d = Strangle.get_movement(snapshot).expect("a direction");
    assert!(d == Direction::Up || d == Direction::Down);
}

fn result_at(depth: u64) -> BigbrainResult {
    BigbrainResult::outer(HashMap::new(), Direction::Left, depth)
}

#[test]
fn after_depth_keeps_completed_results() {
    let (kept, more) = after_depth(3, Some(result_at(3)), Some(result_at(2)));
    assert_eq!(kept.map(|r| r.depth), Some(3));
    assert!(more);
    let (kept, more) = after_depth(3, Some(result_at(1)), Some(result_at(2)));
    assert_eq!(kept.map(|r| r.depth), Some(1));
    assert!(!more);
    let (kept, more) = after_depth(3, None, Some(result_at(2)));
    assert_eq!(kept.map(|r| r.depth), Some(2));
    assert!(!more);
    let (kept, more) = after_depth(1, None, None);
    assert!(kept.is_none());
    assert!(!more);
}
