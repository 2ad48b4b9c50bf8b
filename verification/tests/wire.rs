use fretwire::wire::{
    ascii_run, classify_chunk, normalise_preset_list, reply_txn, stream_request_cap,
    ChunkVerdict,
};

const KEEP: ChunkVerdict = ChunkVerdict::Keep;
const LAST: ChunkVerdict = ChunkVerdict::Last;
const SKIP: ChunkVerdict = ChunkVerdict::Skip;

fn named(entries: &[(u16, &str)]) -> Vec<(u16, String)> {
    entries
        .iter()
        .map(|(i, n)| (*i, (*n).to_string()))
        .collect()
}

#[test]
fn global_indices_become_bank_relative_slots() {
    // TEMPLATES (bank 7) lists from 896 = 7 × 128.
    let (out, reordered) = normalise_preset_list(
        named(&[(896, "Quick Start"), (897, "Parallel Spans")]),
        7 * 128,
    );
    assert_eq!(out, named(&[(0, "Quick Start"), (1, "Parallel Spans")]));
    assert!(!reordered, "an in-order listing is left alone");
}

#[test]
fn a_moved_preset_is_put_back_in_slot_order() {
    // The shape bank 0 of the tester's Floor really sends: slot 68 arrives late, after 100.
    let (out, reordered) = normalise_preset_list(
        named(&[
            (67, "BMBLFOOT PRINCE"),
            (69, "SHEEHAN PEARCE"),
            (100, "REUTER LEAD"),
            (68, "InSTANtgH0St/24"),
        ]),
        0,
    );
    assert_eq!(
        out,
        named(&[
            (67, "BMBLFOOT PRINCE"),
            (68, "InSTANtgH0St/24"),
            (69, "SHEEHAN PEARCE"),
            (100, "REUTER LEAD"),
        ]),
    );
    assert!(reordered, "the device's order differed and we say so");
}

#[test]
fn an_index_below_the_bank_base_clamps_rather_than_wrapping() {
    // Defensive: `as u16` on a negative would wrap to ~65k and address nothing.
    let (out, _) = normalise_preset_list(named(&[(5, "Stray")]), 7 * 128);
    assert_eq!(out, named(&[(0, "Stray")]));
}

#[test]
fn a_repeated_slot_keeps_the_order_it_came_in() {
    let (out, reordered) =
        normalise_preset_list(named(&[(3, "b"), (1, "x"), (3, "a"), (1, "y")]), 0);
    assert_eq!(out, named(&[(1, "x"), (1, "y"), (3, "b"), (3, "a")]));
    assert!(reordered);
}

const FULL: usize = 256;

#[test]
fn a_full_chunk_mid_stream_continues() {
    assert_eq!(classify_chunk(FULL, FULL, 512, Some(7398)), KEEP);
}

#[test]
fn the_chunk_that_completes_the_declared_length_ends_the_stream() {
    // 7398 = 28 full chunks (7168) + 230.
    assert_eq!(classify_chunk(230, FULL, 7168, Some(7398)), LAST);
}

#[test]
fn an_empty_chunk_before_the_declared_end_is_dropped_not_appended() {
    for (have, want) in [(2560, 7527), (3072, 7508), (4352, 7344), (256, 7193)] {
        assert_eq!(classify_chunk(0, FULL, have, Some(want)), SKIP);
    }
}

#[test]
fn a_short_nonempty_chunk_before_the_declared_end_keeps_reading() {
    assert_eq!(classify_chunk(100, FULL, 1000, Some(7398)), KEEP);
}

#[test]
fn an_empty_chunk_at_the_declared_end_terminates() {
    assert_eq!(classify_chunk(0, FULL, 7398, Some(7398)), LAST);
}

#[test]
fn without_a_declared_length_a_short_chunk_still_ends_the_stream() {
    assert_eq!(classify_chunk(FULL, FULL, 512, None), KEEP);
    assert_eq!(classify_chunk(12, FULL, 512, None), LAST);
    assert_eq!(classify_chunk(0, FULL, 512, None), LAST);
}

#[test]
fn a_fragmented_read_does_not_run_out_of_requests() {
    const REPLIES: [usize; 41] = [
        214, 214, 214, 214, 214, 42, 172, 84, 214, 214, 214, 214, 214, 214, 214, 42, 172, 84,
        130, 126, 214, 214, 214, 42, 214, 42, 172, 84, 214, 42, 214, 42, 214, 42, 214, 42, 214,
        42, 214, 42, 214,
    ];
    const DECLARED: usize = 7055;
    let got: usize = REPLIES.iter().sum();
    assert_eq!(got, 6366, "what the device managed to hand over");
    assert!(got < DECLARED, "and it was 689 bytes short");

    let mut have = REPLIES[0];
    for &n in &REPLIES[1..] {
        assert_eq!(classify_chunk(n, REPLIES[0], have, Some(DECLARED)), KEEP);
        have += n;
    }

    assert_eq!(DECLARED / REPLIES[0] + 8, REPLIES.len() - 1, "the old cap");
    assert!(stream_request_cap(Some(DECLARED)) > REPLIES.len());
    assert!(stream_request_cap(Some(DECLARED)) >= DECLARED.div_ceil(42));
}

#[test]
fn the_request_cap_is_one_per_fragment_plus_spare() {
    assert_eq!(stream_request_cap(Some(7055)), 7055 / 32 + 16);
    assert_eq!(stream_request_cap(None), 4096);
    let v: ChunkVerdict = classify_chunk(1, 1, 0, None);
    assert_eq!(v, KEEP);
}

fn hex(s: &str) -> Vec<u8> {
    let s: String = s.chars().filter(|c| !c.is_whitespace()).collect();
    (0..s.len())
        .step_by(2)
        .map(|i| u8::from_str_radix(&s[i..i + 2], 16).unwrap())
        .collect()
}

#[test]
fn reads_txn_from_a_complete_envelope_reply() {
    let body = hex(
        "00000600260000008366cd03ea670068866bcd00006ccd00146da9447561\
                    6c20416d700075c35392cd2292005c00",
    );
    assert_eq!(reply_txn(&body), Some(0x03ea));
}

#[test]
fn reads_txn_from_a_truncated_stream_start_reply() {
    let body = hex("00001e28290a00008366cd03eb670068da0a1ea96c362d68656c697800");
    assert_eq!(reply_txn(&body), Some(0x03eb));
}

#[test]
fn no_txn_in_a_raw_chunk() {
    let body = hex("c093c240c093c240c093c240c093c240");
    assert_eq!(reply_txn(&body), None);
}

#[test]
fn small_transaction_ids_read_in_every_width() {
    assert_eq!(reply_txn(&[0x83, 0x66, 0x2c]), Some(44));
    assert_eq!(reply_txn(&[0x83, 0x66, 0xcc, 0xff]), Some(255));
    assert_eq!(reply_txn(&[0x83, 0x66, 0xcc]), None, "cut off");
    assert_eq!(reply_txn(&[0x83, 0x66, 0xc0]), None, "not an integer");
}

#[test]
fn the_model_code_is_the_longest_printable_run() {
    assert_eq!(
        ascii_run(&[0, 1, b'P', b'3', b'3', 0, b'P', b'3', b'3', b'M', b'a', b'i', b'n', 9]).as_deref(),
        Some("P33Main")
    );
    assert_eq!(ascii_run(b"\x00ab\x00cd\x00").as_deref(), None, "two is too short");
    assert_eq!(ascii_run(b"abc\x00xyz").as_deref(), Some("abc"), "the first of equals");
    assert_eq!(ascii_run(b"P34").as_deref(), Some("P34"));
    assert_eq!(ascii_run(&[]), None);
}
