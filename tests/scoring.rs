use battlesnake_doctor_strangle::score_factors::{DeathKind, ScoreFactors};

#[test]
fn normal_death_scores_low_and_rises_with_depth() {
    let f = ScoreFactors::dead(0, DeathKind::Normal, true);
    assert_eq!(f.calculate(3), -100_000_000 + 300);
    assert!(f.calculate(4) > f.calculate(3));
}

#[test]
fn honourable_death_is_less_severe() {
    let f = ScoreFactors::dead(0, DeathKind::Honourable, true);
    assert_eq!(f.calculate(2), -50_000_000 + 200);
    assert!(f.calculate(2) > ScoreFactors::dead(0, DeathKind::Normal, true).calculate(2));
}

#[test]
fn winning_sooner_scores_higher() {
    let f = ScoreFactors::alive(1, 50, 4, 3, 0, 20, true);
    assert_eq!(f.calculate(2), 10_000_000 - 200);
    assert!(f.calculate(1) > f.calculate(2));
}

#[test]
fn alive_score_is_weighted_sum() {
    let f = ScoreFactors::alive(0, 90, 3, 2, 1, 100, true);
    assert_eq!(f.calculate(5), 90 * 200 + 3 * 5000 - 2 * 250 - 10_000 + 100 * 2500 + 500);
}

#[test]
fn solo_game_with_no_opponents_is_not_a_win() {
    let f = ScoreFactors::alive(0, 10, 3, 0, 0, 5, false);
    assert_eq!(f.calculate(1), 10 * 200 + 3 * 5000 + 5 * 2500 + 100);
}

#[test]
fn low_health_scores_lower_all_else_equal() {
    let low = ScoreFactors::alive(0, 1, 3, 2, 0, 50, false);
    let high = ScoreFactors::alive(0, 60, 3, 2, 0, 50, false);
    assert!(low.calculate(1) < high.calculate(1));
}
