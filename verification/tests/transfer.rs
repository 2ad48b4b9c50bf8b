use fretwire::stream::reported_identity;
/// The longest run of consecutive chunks drawing no flow-control credit — the rule the write
/// transfer applies incrementally, restated over a whole recorded trace.
fn longest_silence(per_chunk: &[usize]) -> usize {
    let (mut run, mut worst) = (0usize, 0usize);
    for &c in per_chunk {
        run = if c == 0 { run + 1 } else { 0 };
        worst = worst.max(run);
    }
    worst
}

#[test]
fn three_quiet_chunks_separates_the_recorded_writes() {
    assert_eq!(longest_silence(&[1, 1, 2, 1, 1]), 0);
    let floor_stalled = [1, 1, 0, 0, 0];
    assert_eq!(longest_silence(&floor_stalled), 3);
    let floor_completed = [3, 2, 1, 1, 1, 1, 1, 1, 1, 1, 1, 1, 1, 1];
    assert_eq!(floor_completed.len(), 14);
    assert_eq!(longest_silence(&floor_completed), 0);
    assert_eq!(longest_silence(&[1, 0, 0, 2, 0, 0, 3]), 2);
    assert_eq!(longest_silence(&[]), 0);
}

use fretwire::stream::{
    frames_of_unit, identity_confirms, identity_settled, reject_hint, StreamRead, WriteStep, WriteTransfer,
    OP_SWAP_MODEL,
};

#[test]
fn the_codes_we_have_pinned_down_get_a_plain_language_gloss() {
    let dsp = reject_hint(Some(OP_SWAP_MODEL), -306);
    assert!(dsp.contains("not enough DSP"), "{dsp}");
    assert_eq!(reject_hint(Some(43), -306), "");
    assert_eq!(reject_hint(Some(OP_SWAP_MODEL), -21), "");
    assert!(reject_hint(Some(30), -3).contains("wrong value type"));
    assert!(reject_hint(None, -3).contains("wrong value type"));
}

#[test]
fn a_lagging_identity_does_not_confirm_the_preset_we_asked_for() {
    let want = Some((0, 45));
    assert!(!identity_confirms(want, Some((0, 56))));
    assert!(identity_confirms(want, Some((0, 45))));
    assert!(!identity_confirms(Some((0, 3)), Some((1, 3))));
    assert!(identity_confirms(None, None));
    assert!(identity_confirms(None, Some((0, 56))));
    assert!(!identity_confirms(want, None));
}

#[test]
fn an_identity_that_moved_during_the_read_is_unsettled() {
    assert!(identity_settled(Some((0, 45)), Some((0, 45))));
    assert!(!identity_settled(Some((0, 56)), Some((0, 45))));
    assert!(identity_settled(None, Some((0, 45))));
}

/// Run a write of `total` bytes against a per-unit credit trace; the step after the last unit.
fn run_write(total: usize, credits: &[usize]) -> (WriteStep, usize) {
    let mut w = WriteTransfer::new(total);
    let mut step = WriteStep::Continue;
    for (k, &got) in credits.iter().enumerate() {
        let len: usize = frames_of_unit(total, k).iter().map(|f| f.1).sum();
        step = w.on_unit(len, got, false);
        if !matches!(step, WriteStep::Continue) {
            return (step, k + 1);
        }
    }
    (step, credits.len())
}

#[test]
fn a_write_stops_on_the_third_unanswered_unit_with_data_left() {
    match run_write(6816, &[1, 1, 0, 0, 0]) {
        (WriteStep::Stalled(m), 5) => assert_eq!(
            m,
            "the pedal stopped responding 2560 of 6816 bytes into a preset write (no reply to the last 3 \
             frames). The edit buffer may be inconsistent \u{2014} reload the preset, and power-cycle the pedal if \
             it is unresponsive"
        ),
        _ => panic!("expected a stall at the fifth unit"),
    }
    assert!(matches!(run_write(6816, &[3, 2, 1, 1, 1, 1, 1, 1, 1, 1, 1, 1, 1, 1]).0, WriteStep::Continue));
    assert!(matches!(run_write(3000, &[1, 0, 0, 2, 0, 0]).0, WriteStep::Continue));
    // The last unit has nothing left to withhold, so silence there is no stall.
    assert!(matches!(run_write(2560, &[1, 1, 0, 0, 0]).0, WriteStep::Continue));
}

#[test]
fn a_write_past_its_budget_says_how_far_it_got() {
    let mut w = WriteTransfer::new(1024);
    match w.on_unit(512, 1, true) {
        WriteStep::OverBudget(m) => assert_eq!(
            m,
            "a preset write ran past 30s with 512 of 1024 bytes sent. The edit buffer may be inconsistent \
             \u{2014} reload the preset, and power-cycle the pedal if it is unresponsive"
        ),
        _ => panic!("expected the budget to run out"),
    }
}

#[test]
fn a_full_unit_goes_out_as_a_full_frame_and_a_short_one() {
    assert_eq!(frames_of_unit(1000, 0), vec![(0, 496), (496, 16)]);
    assert_eq!(frames_of_unit(1000, 1), vec![(512, 488)]);
    assert_eq!(frames_of_unit(1100, 2), vec![(1024, 76)]);
}

#[test]
fn a_read_takes_chunks_until_the_declared_length() {
    let mut r = StreamRead::start(vec![0; 100], Some(250));
    assert!(r.wants_more());
    r.on_chunk(&[1; 100]);
    assert!(r.wants_more());
    r.on_chunk(&[]);
    assert!(r.wants_more());
    r.on_chunk(&[2; 50]);
    assert!(!r.wants_more());
    let payload = r.finish("preset").unwrap();
    assert_eq!(payload.len(), 250);
    assert_eq!(payload[150], 1);
    assert_eq!(payload[249], 2);
}

#[test]
fn a_read_that_goes_quiet_is_refused_short() {
    let mut r = StreamRead::start(vec![0; 100], Some(300));
    r.on_chunk(&[1; 100]);
    let mut asked = 0;
    while r.wants_more() {
        r.on_chunk(&[]);
        asked += 1;
    }
    assert_eq!(asked, 8);
    assert_eq!(
        r.finish("preset").err().unwrap(),
        "preset read ended 100 bytes short of the declared 300 \u{2014} the device stopped answering mid-stream"
    );
}

#[test]
fn a_read_that_times_out_reports_what_it_had() {
    let r = StreamRead::start(vec![0; 100], None);
    assert_eq!(
        r.deadline_message("5s"),
        "preset read gave up after 5s with 100 of ? bytes \u{2014} the device stopped answering mid-stream"
    );
}

use fretwire::stream::{active_snapshot, reread_needed, retry_pause_ms};

#[test]
fn a_failed_read_backs_off_longer_each_time() {
    assert_eq!(retry_pause_ms(0), 150);
    assert_eq!(retry_pause_ms(1), 400);
    assert_eq!(retry_pause_ms(2), 800);
    assert_eq!(retry_pause_ms(9), 800);
}

#[test]
fn a_stale_read_is_retried_while_attempts_remain() {
    assert!(reread_needed(0, false, None, None));
    assert!(reread_needed(1, true, Some((0, 45)), Some((0, 56))));
    assert!(!reread_needed(2, true, Some((0, 45)), Some((0, 56))));
    assert!(!reread_needed(0, true, Some((0, 45)), Some((0, 45))));
    assert!(!reread_needed(0, true, None, Some((0, 56))));
}

#[test]
fn the_live_snapshot_wins_over_the_stored_one() {
    assert_eq!(active_snapshot(Some(0), Some(3)), Some(3));
    assert_eq!(active_snapshot(Some(1), None), Some(1));
    assert_eq!(active_snapshot(None, None), None);
}

#[test]
fn a_read_reports_the_identity_given_after_the_stream() {
    assert_eq!(reported_identity(Some((0, 1)), Some((0, 2))), Some((0, 2)));
    assert_eq!(reported_identity(Some((0, 1)), None), Some((0, 1)));
    assert_eq!(reported_identity::<(i64, i64)>(None, None), None);
}
