use fretwire::grid::{
    bracket_strays, check_empty_slot, check_node_kind, check_node_move, check_preset_addr, check_same_dsp,
    guard_moves, plan_append, plan_insert, plan_move_before_split, plan_move_to_row, plan_reorder_block,
    select_slots, GridSlot, InsertPlan, Pick, SlotKind, MIXER_NODE, SPLIT_NODE,
};

/// One DSP's twenty slots: input at 0, output at 9, the row-B ends at 10 and 19, and the kinds
/// given for the rest (empty where not named).
fn dsp(n: usize, kinds: &[(usize, SlotKind)]) -> Vec<GridSlot> {
    (0..20)
        .map(|i| {
            let kind = kinds
                .iter()
                .find(|(s, _)| *s == i)
                .map(|(_, k)| *k)
                .unwrap_or(if i == 0 || i == 9 || i == 10 || i == 19 { SlotKind::Other } else { SlotKind::Empty });
            GridSlot { index: i, wire_slot: (n * 20 + i) as i64, kind }
        })
        .collect()
}

fn effects(slots: &[usize]) -> Vec<(usize, SlotKind)> {
    slots.iter().map(|&s| (s, SlotKind::Effect)).collect()
}

#[test]
fn a_pick_selects_slots_by_kind_in_order() {
    let blocks = dsp(0, &effects(&[1, 3, 12]));
    assert_eq!(select_slots(&blocks, Pick::Effects), vec![1, 3, 12]);
    assert_eq!(select_slots(&blocks, Pick::EmptiesWithin { lo: 1, hi: 4 }), vec![2, 4]);
    assert_eq!(select_slots(&blocks, Pick::EffectsWithin { lo: 1, hi: 8, except: Some(3) }), vec![1]);
}

#[test]
fn an_insert_within_a_row_bubbles_through_a_spare_slot_in_that_row() {
    let blocks = dsp(0, &effects(&[1, 2, 3]));
    match plan_insert(&blocks, 3, 1, true, 0).unwrap() {
        InsertPlan::Reorder(moves) => assert_eq!(moves, vec![(3, 4), (2, 3), (1, 2), (4, 1)]),
        _ => panic!("expected a reorder"),
    }
}

#[test]
fn an_insert_after_the_last_block_of_its_row_keeps_the_row_in_place() {
    let blocks = dsp(0, &effects(&[1, 2, 3]));
    match plan_insert(&blocks, 1, 3, false, 0).unwrap() {
        InsertPlan::Reorder(moves) => assert_eq!(moves, vec![(1, 4), (2, 1), (3, 2), (4, 3)]),
        _ => panic!("expected a reorder"),
    }
}

#[test]
fn an_insert_across_rows_opens_a_slot_in_the_destination_row() {
    let blocks = dsp(0, &effects(&[1, 12, 13]));
    match plan_insert(&blocks, 1, 12, true, 0).unwrap() {
        InsertPlan::Shift { moves, target } => {
            assert_eq!(moves, vec![(13, 14), (12, 13)]);
            assert_eq!(target, 12);
        }
        _ => panic!("expected a shift"),
    }
}

#[test]
fn an_insert_on_dsp2_keeps_global_slots() {
    let blocks = dsp(1, &effects(&[1, 2]));
    match plan_insert(&blocks, 22, 21, true, 20).unwrap() {
        InsertPlan::Reorder(moves) => assert_eq!(moves, vec![(22, 23), (21, 22), (23, 21)]),
        _ => panic!("expected a reorder"),
    }
}

#[test]
fn an_insert_needs_blocks_at_both_ends() {
    let blocks = dsp(0, &effects(&[1, 2]));
    assert_eq!(plan_insert(&blocks, 5, 1, true, 0).err().unwrap(), "slot 5 has no block");
    assert_eq!(plan_insert(&blocks, 1, 6, true, 0).err().unwrap(), "slot 6 has no block");
    assert_eq!(plan_insert(&blocks, 1, 0, true, 0).err().unwrap(), "slot 0 has no block");
    assert_eq!(plan_insert(&blocks, 19, 2, false, 0).err().unwrap(), "slot 19 has no block");
    assert_eq!(plan_insert(&blocks, 9, 10, true, 0).err().unwrap(), "slot 9 has no block");
}

#[test]
fn a_full_destination_row_refuses_the_insert() {
    let blocks = dsp(0, &effects(&[1, 11, 12, 13, 14, 15, 16, 17, 18]));
    assert_eq!(plan_insert(&blocks, 1, 12, true, 0).err().unwrap(), "no free slot in the destination row");
}

#[test]
fn a_reorder_drops_the_block_where_it_was_dropped() {
    let blocks = dsp(0, &effects(&[1, 2, 3, 4, 5]));
    // Dragging the first block to the gap after the fourth lands it fourth.
    assert_eq!(
        plan_reorder_block(&blocks, false, 1, 4).unwrap(),
        vec![(1, 6), (2, 1), (3, 2), (4, 3), (6, 4)]
    );
    // A gap past the end clamps to the last position.
    assert_eq!(
        plan_reorder_block(&blocks, false, 4, 9).unwrap(),
        vec![(4, 6), (5, 4), (6, 5)]
    );
    // The gap right after the block itself is no move at all.
    assert!(plan_reorder_block(&blocks, false, 3, 3).unwrap().is_empty());
}

#[test]
fn a_reorder_refuses_what_it_cannot_do() {
    let blocks = dsp(0, &effects(&[1, 2]));
    assert_eq!(
        plan_reorder_block(&blocks, true, 1, 0).err().unwrap(),
        "reordering on split (parallel) presets isn't supported yet"
    );
    assert_eq!(plan_reorder_block(&blocks, false, 5, 0).err().unwrap(), "source slot is not an effect block");
    let full: Vec<GridSlot> = (0..4)
        .map(|i| GridSlot { index: i, wire_slot: i as i64, kind: SlotKind::Effect })
        .collect();
    assert_eq!(plan_reorder_block(&full, false, 1, 0).err().unwrap(), "no empty slot to reorder through");
}

#[test]
fn an_appended_block_goes_after_the_last_series_block() {
    let blocks = dsp(0, &effects(&[1, 2, 5]));
    assert_eq!(plan_append(&blocks).unwrap(), 6);
}

#[test]
fn on_a_split_preset_append_stays_in_the_series_row() {
    let mut kinds = effects(&[1, 2, 4]);
    kinds.push((5, SlotKind::Split));
    kinds.push((8, SlotKind::Mixer));
    let blocks = dsp(0, &kinds);
    // Row A ends at the split (index 5): its last block is at 4, so the first free slot after it
    // is past the split; the first free row-A slot is 3.
    assert_eq!(plan_append(&blocks).unwrap(), 3);
}

#[test]
fn a_full_grid_has_no_slot_to_append_to() {
    let full: Vec<GridSlot> = (0..4)
        .map(|i| GridSlot { index: i, wire_slot: i as i64, kind: SlotKind::Effect })
        .collect();
    assert_eq!(plan_append(&full).err().unwrap(), "no free slot to add a block");
}

#[test]
fn only_the_split_and_mixer_move() {
    assert!(check_node_kind(SPLIT_NODE).is_ok());
    assert!(check_node_kind(MIXER_NODE).is_ok());
    assert_eq!(check_node_kind(4).err().unwrap(), "not a movable node kind: 4");
}

#[test]
fn a_node_stays_on_its_side_of_the_other() {
    assert!(check_node_move(0, SPLIT_NODE, 3, true, Some(6), &vec![]).is_ok());
    assert_eq!(
        check_node_move(0, SPLIT_NODE, 6, true, Some(6), &vec![]).err().unwrap(),
        "node position 6 out of range 1..=5 (the split stays left of the mixer)"
    );
    assert_eq!(
        check_node_move(0, MIXER_NODE, 2, true, Some(3), &vec![]).err().unwrap(),
        "node position 2 out of range 4..=9 (the split stays left of the mixer)"
    );
    assert!(check_node_move(0, MIXER_NODE, 9, true, Some(3), &vec![]).is_ok());
    assert_eq!(check_node_move(1, SPLIT_NODE, 3, false, Some(6), &vec![]).err().unwrap(), "DSP 1 is not split");
    assert_eq!(check_node_move(0, SPLIT_NODE, 3, true, None, &vec![]).err().unwrap(), "missing peer node position");
}

#[test]
fn a_node_move_that_strands_row_b_blocks_is_refused() {
    assert_eq!(
        check_node_move(0, SPLIT_NODE, 3, true, Some(5), &vec![1, 3]).err().unwrap(),
        "node position 3 would leave 1 occupied row-B column(s) outside the split..mixer bracket"
    );
    assert_eq!(
        check_node_move(0, MIXER_NODE, 6, true, Some(2), &vec![2, 6, 7]).err().unwrap(),
        "node position 6 would leave 2 occupied row-B column(s) outside the split..mixer bracket"
    );
    assert!(check_node_move(0, SPLIT_NODE, 2, true, Some(6), &vec![2, 3, 5]).is_ok());
}

#[test]
fn row_b_columns_outside_the_bracket_are_reported() {
    assert_eq!(bracket_strays(&vec![2, 3, 4, 7], SPLIT_NODE, 3, 6), vec![2, 7]);
    assert_eq!(bracket_strays(&vec![2, 3, 4], MIXER_NODE, 4, 1), vec![4]);
}

#[test]
fn a_global_preset_number_is_refused_before_it_reaches_the_wire() {
    assert!(check_preset_addr(0, 127, "goto_preset", 8, 128).is_ok());
    assert_eq!(
        check_preset_addr(7, 906, "goto_preset", 8, 128).err().unwrap(),
        "goto_preset: preset slot 906 out of range 0..128 for bank 7 \u{2014} this looks like a global \
         preset number (1802) rather than a slot within the setlist"
    );
    assert_eq!(
        check_preset_addr(8, 0, "save_preset", 8, 128).err().unwrap(),
        "save_preset: bank 8 out of range (device has 8 setlist(s))"
    );
    assert_eq!(
        check_preset_addr(-1, 0, "rename_preset", 8, 128).err().unwrap(),
        "rename_preset: bank -1 out of range (device has 8 setlist(s))"
    );
}

#[test]
fn an_add_onto_an_occupied_slot_is_refused() {
    let blocks = dsp(0, &effects(&[1]));
    assert!(check_empty_slot(&blocks, 2).is_ok());
    assert_eq!(
        check_empty_slot(&blocks, 1).err().unwrap(),
        "slot 1 is not an empty grid slot (refusing add \u{2014} it would overwrite)"
    );
    assert!(check_empty_slot(&blocks, 0).is_err());
}

#[test]
fn blocks_only_move_within_their_dsp() {
    assert!(check_same_dsp(3, 19).is_ok());
    assert!(check_same_dsp(21, 39).is_ok());
    assert_eq!(check_same_dsp(19, 20).err().unwrap(), "can't move a block between DSPs");
}

#[test]
fn the_guard_stops_before_a_move_onto_a_block() {
    let (sent, err) = guard_moves(&vec![(13, 14), (12, 13)], 1, 12, &vec![0, 1, 12, 13]);
    assert_eq!(sent, vec![(13, 14), (12, 13), (1, 12)]);
    assert!(err.is_none());
    let (sent, err) = guard_moves(&vec![(13, 14), (12, 14)], 1, 12, &vec![0, 1, 12, 13]);
    assert_eq!(sent, vec![(13, 14)]);
    assert_eq!(err.unwrap(), "refusing move onto occupied slot 14 (would delete a block)");
    let (sent, err) = guard_moves(&vec![], 1, 9, &vec![0, 1, 9]);
    assert!(sent.is_empty());
    assert_eq!(err.unwrap(), "refusing move onto occupied slot 9 (would delete a block)");
}

#[test]
fn a_block_moves_into_the_parallel_row_at_its_drop_position() {
    let mut kinds = effects(&[1, 2, 12, 13]);
    kinds.push((5, SlotKind::Split));
    kinds.push((8, SlotKind::Mixer));
    let blocks = dsp(0, &kinds);
    let (moves, target) = plan_move_to_row(&blocks, 1, true, 0).unwrap();
    assert!(moves.is_empty());
    assert_eq!(target, 6);
    let (moves, target) = plan_move_to_row(&blocks, 12, false, 1).unwrap();
    assert!(moves.is_empty());
    assert_eq!(target, 3);
}

#[test]
fn moving_before_the_split_needs_a_split() {
    let blocks = dsp(0, &effects(&[1, 2]));
    assert_eq!(plan_move_before_split(&blocks, 12, None).err().unwrap(), "preset is not split");
    let (moves, target) = plan_move_before_split(&blocks, 12, Some(5)).unwrap();
    assert!(moves.is_empty());
    assert_eq!(target, 4);
}
