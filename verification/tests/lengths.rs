//! Splitting a length between children with floors.

use wm::lengths::resolve_lengths;
use wm::tree::FULL_SIZE;

/// Tiling sizes as fractions of the whole.
fn sizes(fractions: &[f32]) -> Vec<u32> {
    fractions.iter().map(|fraction| (fraction * FULL_SIZE as f32) as u32).collect()
}

#[test]
fn splits_evenly_without_minimums() {
    assert_eq!(resolve_lengths(&sizes(&[0.5, 0.5]), &[0, 0], 1000), vec![500, 500]);
}

#[test]
fn pins_a_constrained_child_and_pays_from_the_rest() {
    // The first wants 250 but cannot go under 400, so the other three
    // share the remaining 600.
    let lengths = resolve_lengths(&sizes(&[0.25; 4]), &[400, 0, 0, 0], 1000);
    assert_eq!(lengths[0], 400);
    assert_eq!(lengths[1..].iter().sum::<i32>(), 600);
}

#[test]
fn pinning_one_can_pin_the_next() {
    // Pinning the 500 leaves 500 for two, which puts the 300 under too.
    let lengths = resolve_lengths(&sizes(&[0.34, 0.33, 0.33]), &[500, 300, 0], 1000);
    assert_eq!(lengths[0], 500);
    assert_eq!(lengths[1], 300);
    assert_eq!(lengths[2], 200);
}

#[test]
fn gives_every_child_its_floor_when_they_cannot_all_fit() {
    // 600 + 600 needs 1200 and there is 1000: overflow is unavoidable,
    // so each keeps its floor rather than every window being wrong.
    assert_eq!(resolve_lengths(&sizes(&[0.5, 0.5]), &[600, 600], 1000), vec![600, 600]);
}

#[test]
fn leaves_a_child_alone_when_its_share_already_clears_its_floor() {
    assert_eq!(resolve_lengths(&sizes(&[0.5, 0.5]), &[100, 100], 1000), vec![500, 500]);
}

#[test]
fn honours_uneven_sizes() {
    assert_eq!(resolve_lengths(&sizes(&[0.75, 0.25]), &[0, 0], 1000), vec![750, 250]);
}

#[test]
fn floors_win_by_a_single_pixel() {
    // The floors need 7 and there are 6. Each plain share rounds to 2, which
    // clears every floor, but the floors cannot all fit.
    assert_eq!(resolve_lengths(&sizes(&[0.25; 4]), &[2, 2, 2, 1], 6), vec![2, 2, 2, 1]);
}

#[test]
fn floors_that_just_fit_are_all_kept() {
    assert_eq!(resolve_lengths(&sizes(&[0.5, 0.5]), &[700, 300], 1000), vec![700, 300]);
}

#[test]
fn children_without_size_get_their_floors() {
    assert_eq!(resolve_lengths(&[0, 0], &[10, 20], 1000), vec![10, 20]);
}

#[test]
fn no_children_get_nothing() {
    assert_eq!(resolve_lengths(&[], &[], 1000), Vec::<i32>::new());
}

#[test]
fn halves_round_away_from_zero() {
    assert_eq!(resolve_lengths(&[1, 1], &[0, 0], 5), vec![3, 3]);
    assert_eq!(resolve_lengths(&[1, 1], &[-10, -10], -5), vec![-3, -3]);
}

#[test]
fn thirds_add_up_within_rounding() {
    let lengths = resolve_lengths(&[1, 1, 1], &[0, 0, 0], 1000);
    assert_eq!(lengths, vec![333, 333, 333]);
}

#[test]
fn the_largest_total_is_shared_without_overflow() {
    assert_eq!(
        resolve_lengths(&[u32::MAX, u32::MAX], &[0, 0], i32::MAX),
        vec![1_073_741_824, 1_073_741_824]
    );
}

#[test]
fn children_are_filled_to_one_level() {
    // The first is held at 700. The other two divide 300 by their sizes, and
    // each gets its share of that level or its floor.
    let lengths = resolve_lengths(&[2, 1, 3], &[700, 50, 10], 1000);
    assert_eq!(lengths, vec![700, 75, 225]);
    assert_eq!(lengths.iter().sum::<i32>(), 1000);
}
