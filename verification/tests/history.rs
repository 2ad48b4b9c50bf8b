use fretwire::history::{EditHistory, MAX_HISTORY};

fn edited(h: &mut EditHistory, label: &str, blob: u8) {
    h.edit_begin(label, Some(vec![0]));
    h.edit_commit(Some(vec![blob]));
}

#[test]
fn the_first_edit_seeds_the_loaded_state() {
    let mut h = EditHistory::new();
    assert!(h.needs_seed());
    assert!(!h.dirty());
    edited(&mut h, "Gain", 1);
    assert_eq!(h.history_labels(), vec!["Loaded".to_string(), "Gain".to_string()]);
    assert_eq!(h.history_cursor(), 1);
    assert_eq!(h.undo_depth(), 1);
    assert_eq!(h.redo_depth(), 0);
    assert!(h.dirty());
}

#[test]
fn without_a_state_to_seed_from_no_edit_opens() {
    let mut h = EditHistory::new();
    h.edit_begin("Gain", None);
    h.edit_commit(Some(vec![1]));
    assert!(h.needs_seed());
    assert_eq!(h.history_labels().len(), 0);
}

#[test]
fn undo_and_redo_walk_the_timeline() {
    let mut h = EditHistory::new();
    edited(&mut h, "Gain", 1);
    edited(&mut h, "Bass", 2);
    let back = h.undo().unwrap();
    assert_eq!(back, 1);
    assert_eq!(h.jump_target(back).unwrap().unwrap(), &vec![1u8]);
    h.history_jump(back);
    assert_eq!(h.redo().unwrap(), 2);
    h.history_jump(0);
    assert_eq!(h.undo().err().unwrap(), "nothing to undo");
    h.history_jump(2);
    assert_eq!(h.redo().err().unwrap(), "nothing to redo");
}

#[test]
fn an_edit_after_undo_discards_the_states_ahead() {
    let mut h = EditHistory::new();
    edited(&mut h, "Gain", 1);
    edited(&mut h, "Bass", 2);
    h.history_jump(1);
    edited(&mut h, "Treble", 3);
    assert_eq!(
        h.history_labels(),
        vec!["Loaded".to_string(), "Gain".to_string(), "Treble".to_string()]
    );
    assert_eq!(h.redo_depth(), 0);
}

#[test]
fn an_aborted_edit_leaves_no_trace() {
    let mut h = EditHistory::new();
    edited(&mut h, "Gain", 1);
    h.edit_begin("Bass", None);
    h.edit_abort();
    h.edit_commit(Some(vec![9]));
    assert_eq!(h.history_labels().len(), 2);
}

#[test]
fn the_oldest_state_falls_off_past_the_limit() {
    let mut h = EditHistory::new();
    for i in 0..MAX_HISTORY + 5 {
        edited(&mut h, &format!("edit {i}"), i as u8);
    }
    let labels = h.history_labels();
    assert_eq!(labels.len(), MAX_HISTORY);
    assert_eq!(labels[0], "edit 5");
    assert_eq!(h.history_cursor(), MAX_HISTORY - 1);
}

#[test]
fn saving_marks_the_clean_position() {
    let mut h = EditHistory::new();
    edited(&mut h, "Gain", 1);
    h.mark_saved();
    assert!(!h.dirty());
    h.history_jump(0);
    assert!(h.dirty());
    h.history_jump(1);
    assert!(!h.dirty());
    h.clear_history();
    assert!(!h.dirty());
    assert!(h.needs_seed());
}

#[test]
fn a_jump_to_a_missing_entry_names_it() {
    let mut h = EditHistory::new();
    edited(&mut h, "Gain", 1);
    assert_eq!(h.jump_target(7).err().unwrap(), "no history entry 7 (have 2)");
    assert!(h.jump_target(1).unwrap().is_none());
}
