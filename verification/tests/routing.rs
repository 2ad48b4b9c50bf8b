use fretwire::routing::{plan_insert_right_end, plan_reorder, plan_row_insert};

#[test]
fn insert_before_split_shifts_common_left() {
    let (moves, target) = plan_insert_right_end(&[4], &[1, 2, 3], 5).unwrap();
    assert_eq!(moves, vec![(4, 3)]);
    assert_eq!(target, 4);
}

#[test]
fn insert_before_split_cascades_run_left() {
    let (moves, target) = plan_insert_right_end(&[3, 4], &[2], 5).unwrap();
    assert_eq!(moves, vec![(3, 2), (4, 3)]);
    assert_eq!(target, 4);
}

#[test]
fn insert_before_split_rightmost_free_no_shift() {
    let (moves, target) = plan_insert_right_end(&[1, 2], &[3, 4], 5).unwrap();
    assert!(moves.is_empty());
    assert_eq!(target, 4);
}

#[test]
fn insert_before_split_no_room() {
    assert!(plan_insert_right_end(&[1, 2, 3, 4], &[], 5).is_none());
}

/// Apply a plan_reorder move list to a slot→label board and return the final row order.
fn simulate_labels(
    labels: &[&str],
    slots: &[usize],
    scratch: usize,
    from: usize,
    to: usize,
) -> Vec<String> {
    let mut board: std::collections::BTreeMap<usize, String> = slots
        .iter()
        .copied()
        .zip(labels.iter().map(|s| s.to_string()))
        .collect();
    for (a, b) in plan_reorder(slots, scratch, from, to) {
        let block = board.remove(&a).expect("move source occupied");
        assert!(!board.contains_key(&b), "move destination must be empty");
        board.insert(b, block);
    }
    assert!(!board.contains_key(&scratch), "scratch ends empty");
    board.into_values().collect()
}

#[test]
fn drop_after_maps_pos_to_final_index() {
    let fin = simulate_labels(&["NG", "Glitz", "Min", "Amp", "SD"], &[1, 2, 3, 4, 5], 6, 0, 3);
    assert_eq!(fin, ["Glitz", "Min", "Amp", "NG", "SD"]);
}

#[test]
fn drop_before_maps_pos_to_final_index() {
    let fin = simulate_labels(&["NG", "Glitz", "Min", "Amp", "SD"], &[1, 2, 3, 4, 5], 6, 4, 1);
    assert_eq!(fin, ["NG", "SD", "Glitz", "Min", "Amp"]);
}

#[test]
fn adjacent_drop_is_a_no_op() {
    assert!(plan_reorder(&[1, 2, 3, 4, 5], 6, 2, 2).is_empty());
}

#[test]
fn insert_at_end_takes_next_free_slot_no_shift() {
    let (moves, target) = plan_row_insert(&[15], &[16, 17, 18], 1).unwrap();
    assert!(moves.is_empty());
    assert_eq!(target, 16);
}

#[test]
fn insert_at_front_shifts_suffix_right() {
    let (moves, target) = plan_row_insert(&[15], &[16, 17, 18], 0).unwrap();
    assert_eq!(moves, vec![(15, 16)]);
    assert_eq!(target, 15);
}

#[test]
fn insert_front_contiguous_cascades() {
    let (moves, target) = plan_row_insert(&[14, 15], &[16, 17], 0).unwrap();
    assert_eq!(moves, vec![(15, 16), (14, 15)]);
    assert_eq!(target, 14);
}

#[test]
fn insert_no_room_returns_none() {
    assert!(plan_row_insert(&[18], &[], 0).is_none());
}

#[test]
fn row_insert_matches_dsp0_shifted_by_20() {
    let (moves, target) = plan_row_insert(&[35], &[36, 37, 38], 0).unwrap();
    assert_eq!(moves, vec![(35, 36)]);
    assert_eq!(target, 35);

    let (moves, target) = plan_row_insert(&[35], &[36, 37, 38], 1).unwrap();
    assert!(moves.is_empty());
    assert_eq!(target, 36);
}

#[test]
fn reorder_bubbles_through_a_dsp2_scratch_slot() {
    let moves = plan_reorder(&[21, 22, 23, 24], 25, 0, 3);
    assert_eq!(
        moves,
        vec![(21, 25), (22, 21), (23, 22), (24, 23), (25, 24)]
    );
    assert!(
        moves
            .iter()
            .flat_map(|&(a, b)| [a, b])
            .all(|s| (20..40).contains(&s))
    );
}

/// Apply a move list to an occupancy/content model and assert every destination was empty.
fn simulate(slots: &[usize], scratch: usize, moves: &[(usize, usize)]) -> Vec<Option<usize>> {
    let max = slots
        .iter()
        .copied()
        .chain(std::iter::once(scratch))
        .max()
        .unwrap_or(0);
    let mut cell = vec![None; max + 1];
    for (id, &sl) in slots.iter().enumerate() {
        cell[sl] = Some(id);
    }
    for &(a, b) in moves {
        assert!(cell[a].is_some(), "move source {a} was empty");
        assert!(
            cell[b].is_none(),
            "move dest {b} was occupied (op 43 needs an empty slot)"
        );
        cell[b] = cell[a].take();
    }
    cell
}

#[test]
fn noop_when_same_position() {
    assert!(plan_reorder(&[0, 1, 2, 3], 6, 2, 2).is_empty());
}

#[test]
fn drag_right_inserts_and_shifts() {
    let slots = [0, 1, 2, 3, 4, 5];
    let moves = plan_reorder(&slots, 6, 1, 4);
    assert_eq!(moves, vec![(1, 6), (2, 1), (3, 2), (4, 3), (6, 4)]);
    let cell = simulate(&slots, 6, &moves);
    let order: Vec<usize> = (0..=5).map(|s| cell[s].unwrap()).collect();
    assert_eq!(order, vec![0, 2, 3, 4, 1, 5]);
    assert_eq!(cell[6], None);
}

#[test]
fn drag_left_inserts_and_shifts() {
    let slots = [0, 1, 2, 3, 4, 5];
    let moves = plan_reorder(&slots, 9, 4, 1);
    assert_eq!(moves, vec![(4, 9), (3, 4), (2, 3), (1, 2), (9, 1)]);
    let cell = simulate(&slots, 9, &moves);
    let order: Vec<usize> = (0..=5).map(|s| cell[s].unwrap()).collect();
    assert_eq!(order, vec![0, 4, 1, 2, 3, 5]);
}

#[test]
fn works_with_noncontiguous_slots() {
    let slots = [2, 3, 4, 5, 6, 7];
    let moves = plan_reorder(&slots, 8, 0, 5);
    let cell = simulate(&slots, 8, &moves);
    let order: Vec<usize> = slots.iter().map(|&s| cell[s].unwrap()).collect();
    assert_eq!(order, vec![1, 2, 3, 4, 5, 0]);
    assert_eq!(cell[8], None);
}

#[test]
fn a_row_insert_shifts_into_the_lowest_free_slot_above() {
    // 10 and 12 occupied, free 11 and 13: 12 goes to 13, then 10 to 11, newcomer takes 10.
    let (moves, target) = plan_row_insert(&[10, 12], &[13, 11], 0).unwrap();
    assert_eq!(moves, vec![(12, 13), (10, 11)]);
    assert_eq!(target, 10);
    // Appending after the last block with no free slot past it takes any free slot.
    let (moves, target) = plan_row_insert(&[10, 12], &[11], 2).unwrap();
    assert!(moves.is_empty());
    assert_eq!(target, 11);
    assert!(plan_row_insert(&[10], &[], 1).is_none());
}

#[test]
fn a_row_insert_fails_only_without_room_past_the_last_block() {
    assert!(plan_row_insert(&[2, 3], &[0, 1], 0).is_none());
    assert!(plan_row_insert(&[2, 3], &[], 2).is_none());
    let (moves, target) = plan_row_insert(&[2, 3], &[0, 1], 2).unwrap();
    assert!(moves.is_empty());
    assert_eq!(target, 0);
    let (moves, target) = plan_row_insert(&[1, 3, 5], &[2, 4, 6], 1).unwrap();
    assert_eq!(moves, vec![(5, 6), (3, 4)]);
    assert_eq!(target, 3);
}
