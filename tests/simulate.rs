use std::collections::{HashMap, VecDeque};

use battlesnake_doctor_strangle::board::Board;
use battlesnake_doctor_strangle::game::{Game, Type};
use battlesnake_doctor_strangle::score_factors::DeathKind;
use battlesnake_doctor_strangle::snake::Snake;
use battlesnake_doctor_strangle::types::{Coord, Direction};

fn c(x: i64, y: i64) -> Coord {
    Coord { x, y }
}

fn snake(id: usize, cells: &[(i64, i64)], health: i64) -> Snake {
    Snake { id, body: cells.iter().map(|&(x, y)| c(x, y)).collect::<VecDeque<_>>(), health }
}

fn game(snakes: Vec<Snake>, food: Vec<Coord>) -> Game {
    Game::new(snakes, food, Vec::new(), Board { width: 11, height: 11 })
}

fn moves(m: &[(usize, Direction)]) -> HashMap<usize, Direction> {
    m.iter().copied().collect()
}

fn body(s: &Snake) -> Vec<Coord> {
    s.body.iter().copied().collect()
}

#[test]
fn solo_snake_moves_forward() {
    let g = game(vec![snake(0, &[(5, 5), (5, 4), (5, 3)], 50)], vec![]);
    let (next, deaths) = g.step(&moves(&[(0, Direction::Up)]));
    assert!(deaths.is_empty());
    assert_eq!(next.snakes.len(), 1);
    assert_eq!(body(&next.snakes[0]), vec![c(5, 6), c(5, 5), c(5, 4)]);
    assert_eq!(next.snakes[0].health, 49);
    assert_eq!(next.prev_snakes.len(), 1);
}

#[test]
fn starving_snake_dies() {
    let g = game(vec![snake(0, &[(5, 5), (5, 4), (5, 3)], 1)], vec![]);
    let (next, deaths) = g.step(&moves(&[(0, Direction::Up)]));
    assert!(next.snakes.is_empty());
    assert_eq!(deaths, vec![(0, DeathKind::Normal)]);
}

#[test]
fn leaving_board_kills() {
    let g = game(vec![snake(0, &[(0, 5), (1, 5), (2, 5)], 50)], vec![]);
    let (next, deaths) = g.step(&moves(&[(0, Direction::Left)]));
    assert!(next.snakes.is_empty());
    assert_eq!(deaths, vec![(0, DeathKind::Normal)]);
}

#[test]
fn running_into_own_body_kills() {
    let g = game(vec![snake(0, &[(5, 5), (5, 6), (4, 6), (4, 5), (4, 4)], 50)], vec![]);
    let (next, deaths) = g.step(&moves(&[(0, Direction::Left)]));
    assert!(next.snakes.is_empty());
    assert_eq!(deaths, vec![(0, DeathKind::Normal)]);
}

#[test]
fn moving_into_vacated_tail_cell_is_safe() {
    let g = game(vec![snake(0, &[(5, 5), (5, 6), (4, 6), (4, 5)], 50)], vec![]);
    let (next, deaths) = g.step(&moves(&[(0, Direction::Left)]));
    assert!(deaths.is_empty());
    assert_eq!(body(&next.snakes[0]), vec![c(4, 5), c(5, 5), c(5, 6), c(4, 6)]);
}

#[test]
fn hazard_cell_kills() {
    let g = Game::new(
        vec![snake(0, &[(5, 5), (5, 4), (5, 3)], 50)],
        vec![],
        vec![c(5, 6)],
        Board { width: 11, height: 11 },
    );
    let (next, deaths) = g.step(&moves(&[(0, Direction::Up)]));
    assert!(next.snakes.is_empty());
    assert_eq!(deaths, vec![(0, DeathKind::Normal)]);
    assert_eq!(next.hazards, vec![c(5, 6)]);
}

#[test]
fn hitting_another_body_kills() {
    let g = game(
        vec![snake(0, &[(5, 5), (4, 5), (3, 5)], 50), snake(1, &[(6, 7), (6, 6), (6, 5), (6, 4)], 50)],
        vec![],
    );
    let (next, deaths) = g.step(&moves(&[(0, Direction::Right), (1, Direction::Up)]));
    assert_eq!(next.snakes.len(), 1);
    assert_eq!(next.snakes[0].id, 1);
    assert_eq!(deaths, vec![(0, DeathKind::Normal)]);
}

#[test]
fn equal_head_on_with_self_kills_only_self() {
    let g = game(
        vec![snake(0, &[(4, 5), (3, 5), (2, 5)], 50), snake(1, &[(6, 5), (7, 5), (8, 5)], 50)],
        vec![],
    );
    let (next, deaths) = g.step(&moves(&[(0, Direction::Right), (1, Direction::Left)]));
    assert_eq!(next.snakes.len(), 1);
    assert_eq!(next.snakes[0].id, 1);
    assert_eq!(deaths, vec![(0, DeathKind::Honourable)]);
}

#[test]
fn equal_head_on_between_rivals_kills_both() {
    let g = game(
        vec![
            snake(0, &[(0, 0), (0, 1), (0, 2)], 50),
            snake(1, &[(4, 5), (3, 5), (2, 5)], 50),
            snake(2, &[(6, 5), (7, 5), (8, 5)], 50),
        ],
        vec![],
    );
    let (next, deaths) = g.step(&moves(&[
        (0, Direction::Right),
        (1, Direction::Right),
        (2, Direction::Left),
    ]));
    assert_eq!(next.snakes.len(), 1);
    assert_eq!(next.snakes[0].id, 0);
    assert_eq!(deaths, vec![(1, DeathKind::Normal), (2, DeathKind::Normal)]);
}

#[test]
fn longer_snake_wins_head_on() {
    let g = game(
        vec![snake(0, &[(4, 5), (3, 5), (2, 5), (1, 5)], 50), snake(1, &[(6, 5), (7, 5), (8, 5)], 50)],
        vec![],
    );
    let (next, deaths) = g.step(&moves(&[(0, Direction::Right), (1, Direction::Left)]));
    assert_eq!(next.snakes.len(), 1);
    assert_eq!(next.snakes[0].id, 0);
    assert_eq!(deaths, vec![(1, DeathKind::Normal)]);
}

#[test]
fn eating_restores_health_and_grows() {
    let g = game(vec![snake(0, &[(5, 5), (5, 4), (5, 3)], 20)], vec![c(5, 6), c(1, 1)]);
    let (next, deaths) = g.step(&moves(&[(0, Direction::Up)]));
    assert!(deaths.is_empty());
    assert_eq!(next.snakes[0].health, 100);
    assert_eq!(body(&next.snakes[0]), vec![c(5, 6), c(5, 5), c(5, 4), c(5, 4)]);
    assert_eq!(next.food, vec![c(1, 1)]);
    assert_eq!(next.prev_food, vec![c(5, 6), c(1, 1)]);
}

#[test]
fn step_never_adds_snakes() {
    let g = game(
        vec![
            snake(0, &[(4, 5), (3, 5), (2, 5)], 50),
            snake(1, &[(6, 5), (7, 5), (8, 5)], 50),
            snake(2, &[(0, 10), (1, 10), (2, 10)], 3),
        ],
        vec![c(9, 9)],
    );
    for d0 in Direction::iter() {
        for d1 in Direction::iter() {
            for d2 in Direction::iter() {
                let (next, deaths) = g.step(&moves(&[(0, d0), (1, d1), (2, d2)]));
                assert!(next.snakes.len() <= g.snakes.len());
                assert_eq!(next.snakes.len() + deaths.len(), g.snakes.len());
            }
        }
    }
}

#[test]
fn step_is_deterministic() {
    let g = game(
        vec![snake(0, &[(4, 5), (3, 5), (2, 5)], 50), snake(1, &[(6, 6), (7, 6), (8, 6)], 50)],
        vec![c(5, 5), c(6, 7)],
    );
    let m = moves(&[(0, Direction::Right), (1, Direction::Up)]);
    let (a, da) = g.step(&m);
    let (b, db) = g.step(&m);
    assert_eq!(da, db);
    assert_eq!(a.snakes.len(), b.snakes.len());
    for (x, y) in a.snakes.iter().zip(b.snakes.iter()) {
        assert_eq!(x.id, y.id);
        assert_eq!(x.health, y.health);
        assert_eq!(body(x), body(y));
    }
    assert_eq!(a.food, b.food);
    assert_eq!(a.prev_food, b.prev_food);
}

#[test]
fn game_type_counts_snakes() {
    let one = game(vec![snake(0, &[(1, 1)], 5)], vec![]);
    assert!(matches!(one.game_type(), Type::Solo));
    assert!(!one.multisnake);
    let two = game(vec![snake(0, &[(1, 1)], 5), snake(1, &[(3, 3)], 5)], vec![]);
    assert!(matches!(two.game_type(), Type::Duel));
    assert!(two.multisnake);
    let five = game((0..5).map(|i| snake(i, &[(i as i64, 0)], 5)).collect(), vec![]);
    assert!(matches!(five.game_type(), Type::TooMany));
}

#[test]
fn final_scores_record_honourable_death() {
    let g = game(
        vec![snake(0, &[(4, 5), (3, 5), (2, 5)], 50), snake(1, &[(6, 5), (7, 5), (8, 5)], 50)],
        vec![],
    );
    let (next, deaths) = g.step(&moves(&[(0, Direction::Right), (1, Direction::Left)]));
    let scores = next.final_scores(&deaths);
    assert_eq!(scores.len(), 2);
    assert!(scores[&0].dead);
    assert!(matches!(scores[&0].death_kind, DeathKind::Honourable));
    assert!(!scores[&1].dead);
    assert_eq!(scores[&1].remaining_opponents, 0);
    assert_eq!(scores[&1].health, 49);
    assert_eq!(scores[&1].calculate(1), 10_000_000 - 100);
}

#[test]
fn last_health_point_is_lost_even_on_food() {
    let g = game(vec![snake(0, &[(5, 5), (5, 4), (5, 3)], 1)], vec![c(5, 6)]);
    let (next, deaths) = g.step(&moves(&[(0, Direction::Up)]));
    assert!(next.snakes.is_empty());
    assert_eq!(deaths, vec![(0, DeathKind::Normal)]);
    assert_eq!(next.food, vec![c(5, 6)]);
}

#[test]
fn self_losing_to_longer_snake_in_three_way_meeting_dies_normally() {
    let g = game(
        vec![
            snake(0, &[(4, 5), (3, 5), (2, 5)], 50),
            snake(1, &[(6, 5), (7, 5), (8, 5)], 50),
            snake(2, &[(5, 4), (5, 3), (5, 2), (5, 1)], 50),
        ],
        vec![],
    );
    let (next, deaths) = g.step(&moves(&[
        (0, Direction::Right),
        (1, Direction::Left),
        (2, Direction::Up),
    ]));
    assert_eq!(next.snakes.len(), 1);
    assert_eq!(next.snakes[0].id, 2);
    assert_eq!(deaths, vec![(0, DeathKind::Normal), (1, DeathKind::Normal)]);
}
