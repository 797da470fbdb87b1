use pamir::player::Color;
use pamir::score::{compute_block_scores, compute_cylinder_scores, compute_scores};

fn scores_of(buckets: &[i8], tallies: &[(Color, i8)]) -> pamir::player::ColorCounts {
    let buckets: Vec<i8> = buckets.to_vec();
    let tallies: Vec<(Color, i8)> = tallies.to_vec();
    compute_scores(&buckets, &tallies)
}

#[test]
fn test_basic() {
    let s = scores_of(&[5, 3, 1], &[(Color::Red, 3), (Color::Blue, 2), (Color::Yellow, 1)]);
    assert_eq!(s.get(Color::Red), 5);
    assert_eq!(s.get(Color::Blue), 3);
    assert_eq!(s.get(Color::Yellow), 1);
    assert_eq!(s.get(Color::Black), 0);
    assert_eq!(s.get(Color::Grey), 0);
}

#[test]
fn test_two() {
    let s = scores_of(&[5, 3, 1], &[(Color::Red, 2), (Color::Yellow, 1)]);
    assert_eq!(s.get(Color::Red), 5);
    assert_eq!(s.get(Color::Yellow), 3);
}

#[test]
fn test_tie_3() {
    let s = scores_of(&[5, 3, 1], &[(Color::Red, 1), (Color::Blue, 1), (Color::Yellow, 1)]);
    assert_eq!(s.get(Color::Red), 3);
    assert_eq!(s.get(Color::Blue), 3);
    assert_eq!(s.get(Color::Yellow), 3);
}

#[test]
fn test_tie_2() {
    let s = scores_of(&[5, 3, 1], &[(Color::Red, 2), (Color::Blue, 2), (Color::Yellow, 1)]);
    assert_eq!(s.get(Color::Red), 4);
    assert_eq!(s.get(Color::Blue), 4);
    assert_eq!(s.get(Color::Yellow), 1);
}

#[test]
fn test_tie_lower_2() {
    let s = scores_of(&[5, 3, 1], &[(Color::Red, 3), (Color::Blue, 1), (Color::Yellow, 1)]);
    assert_eq!(s.get(Color::Red), 5);
    assert_eq!(s.get(Color::Blue), 2);
    assert_eq!(s.get(Color::Yellow), 2);
}

#[test]
fn test_tie_only_2() {
    let s = scores_of(&[5, 3, 1], &[(Color::Red, 2), (Color::Blue, 2)]);
    assert_eq!(s.get(Color::Red), 4);
    assert_eq!(s.get(Color::Blue), 4);
}

#[test]
fn test_lower_tie() {
    let s = scores_of(
        &[5, 3, 1],
        &[(Color::Red, 3), (Color::Blue, 2), (Color::Yellow, 2), (Color::Black, 2)],
    );
    assert_eq!(s.get(Color::Red), 5);
    assert_eq!(s.get(Color::Blue), 1);
    assert_eq!(s.get(Color::Yellow), 1);
    assert_eq!(s.get(Color::Black), 1);
}

#[test]
fn test_basic_2() {
    let s = scores_of(&[3, 1], &[(Color::Blue, 2), (Color::Yellow, 1)]);
    assert_eq!(s.get(Color::Blue), 3);
    assert_eq!(s.get(Color::Yellow), 1);
}

#[test]
fn test_tie() {
    let s = scores_of(&[3, 1], &[(Color::Blue, 2), (Color::Yellow, 2)]);
    assert_eq!(s.get(Color::Blue), 2);
    assert_eq!(s.get(Color::Yellow), 2);
}

#[test]
fn test_low_tie() {
    let s = scores_of(&[3, 1], &[(Color::Blue, 2), (Color::Yellow, 1), (Color::Red, 1)]);
    assert_eq!(s.get(Color::Blue), 3);
    assert_eq!(s.get(Color::Yellow), 0);
    assert_eq!(s.get(Color::Red), 0);
}

#[test]
fn test_zeroes() {
    let s = scores_of(&[3, 1], &[(Color::Blue, 1), (Color::Yellow, 0)]);
    assert_eq!(s.get(Color::Blue), 3);
    assert_eq!(s.get(Color::Yellow), 1);
}

#[test]
fn test_order_independent() {
    let forward = scores_of(
        &[5, 3, 1],
        &[(Color::Red, 2), (Color::Blue, 2), (Color::Yellow, 1), (Color::Grey, 7)],
    );
    let backward = scores_of(
        &[5, 3, 1],
        &[(Color::Grey, 7), (Color::Yellow, 1), (Color::Blue, 2), (Color::Red, 2)],
    );
    for color in [Color::Red, Color::Blue, Color::Yellow, Color::Black, Color::Grey] {
        assert_eq!(forward.get(color), backward.get(color));
    }
}

#[test]
fn test_block_schedule_doubles_on_final_check() {
    let tallies: Vec<(Color, i8)> = vec![(Color::Red, 3), (Color::Blue, 2)];
    let normal = compute_block_scores(&tallies, false);
    assert_eq!(normal.get(Color::Red), 5);
    assert_eq!(normal.get(Color::Blue), 3);
    let doubled = compute_block_scores(&tallies, true);
    assert_eq!(doubled.get(Color::Red), 10);
    assert_eq!(doubled.get(Color::Blue), 6);
}

#[test]
fn test_cylinder_schedule_doubles_on_final_check() {
    let tallies: Vec<(Color, i8)> = vec![(Color::Red, 3), (Color::Blue, 2)];
    let normal = compute_cylinder_scores(&tallies, false);
    assert_eq!(normal.get(Color::Red), 3);
    assert_eq!(normal.get(Color::Blue), 1);
    let doubled = compute_cylinder_scores(&tallies, true);
    assert_eq!(doubled.get(Color::Red), 6);
    assert_eq!(doubled.get(Color::Blue), 2);
}
