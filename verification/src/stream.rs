//! The two long transfers on the edit channel, as the decisions they make between frames: reading
//! a paginated stream (a preset, a preset list) until its declared length is in hand, and writing
//! a preset in credit-paced units until the device stops answering. The caller moves the bytes;
//! these say what to do next and what came of it.

use vstd::prelude::*;
use crate::text::{dec, owned, push_str, push_u64};
use crate::wire::{chunk_verdict, classify_chunk, stream_request_cap, ChunkVerdict};

verus! {

/// Consecutive skipped replies after which a read stops asking.
pub const MAX_EMPTY_REPLIES: usize = 8;

/// A paginated stream being read: what is in hand, the size of chunk #0, the length the stream
/// declared, the run of skipped replies, and how many requests were made of the allowed number.
pub struct StreamRead {
    pub payload: Vec<u8>,
    pub full_chunk: usize,
    pub target: Option<usize>,
    pub empties: usize,
    pub requests: usize,
    pub cap: usize,
    /// The stream ended, or went quiet for too long.
    pub stopped: bool,
}

/// A read that has not stopped has had fewer than [`MAX_EMPTY_REPLIES`] skips in a row.
pub open spec fn stream_wf(s: StreamRead) -> bool {
    !s.stopped ==> s.empties < MAX_EMPTY_REPLIES
}

/// The declared payload is in hand.
pub open spec fn is_whole(s: StreamRead) -> bool {
    s.target matches Some(t) && s.payload@.len() >= t
}

/// The read asks for another chunk: it has not stopped, has requests left, and is not whole.
pub open spec fn wants_more_spec(s: StreamRead) -> bool {
    !s.stopped && s.requests < s.cap && !is_whole(s)
}

/// Why a finished read is refused: it ended `short` bytes before the declared `t`.
pub open spec fn short_read_message(what: Seq<char>, short: nat, t: nat) -> Seq<char> {
    what + " read ended "@ + dec(short) + " bytes short of the declared "@ + dec(t)
        + " — the device stopped answering mid-stream"@
}

impl StreamRead {
    /// The read after the stream-start reply `first` (chunk #0), for a stream that declared
    /// `target` bytes (`None` when the length could not be read).
    pub fn start(first: Vec<u8>, target: Option<usize>) -> (s: StreamRead)
        ensures
            s.payload@ == first@,
            s.full_chunk == first@.len(),
            s.target == target,
            s.empties == 0,
            s.requests == 0,
            s.cap == match target { None => 4096, Some(t) => t / 32 + 16 },
            !s.stopped,
            stream_wf(s),
    {
        let full_chunk = first.len();
        StreamRead {
            payload: first,
            full_chunk,
            target,
            empties: 0,
            requests: 0,
            cap: stream_request_cap(target),
            stopped: false,
        }
    }

    /// Whether to request another chunk.
    pub fn wants_more(&self) -> (r: bool)
        ensures
            r == wants_more_spec(*self),
    {
        let whole = match self.target {
            Some(t) => self.payload.len() >= t,
            None => false,
        };
        !self.stopped && self.requests < self.cap && !whole
    }

    /// Take in one chunk reply: skipped replies add nothing, and eight in a row stop the read;
    /// kept ones are appended, and a full-size one ends the run of skips; the last one is appended
    /// and ends the read.
    pub fn on_chunk(&mut self, body: &[u8])
        requires
            stream_wf(*old(self)),
            wants_more_spec(*old(self)),
            old(self).payload@.len() + body@.len() <= usize::MAX,
        ensures
            stream_wf(*final(self)),
            final(self).requests == old(self).requests + 1,
            final(self).cap == old(self).cap,
            final(self).full_chunk == old(self).full_chunk,
            final(self).target == old(self).target,
            ({
                let v = chunk_verdict(body@.len() as int, old(self).full_chunk as int, old(self).payload@.len() as int, old(self).target);
                &&& v is Skip ==> final(self).payload@ == old(self).payload@
                    && final(self).empties == old(self).empties + 1
                    && final(self).stopped == (old(self).empties + 1 >= MAX_EMPTY_REPLIES)
                &&& v is Keep ==> final(self).payload@ == old(self).payload@ + body@
                    && final(self).empties == (if body@.len() >= old(self).full_chunk { 0 } else { old(self).empties })
                    && !final(self).stopped
                &&& v is Last ==> final(self).payload@ == old(self).payload@ + body@
                    && final(self).empties == old(self).empties
                    && final(self).stopped
            }),
    {
        let n = body.len();
        self.requests = self.requests + 1;
        match classify_chunk(n, self.full_chunk, self.payload.len(), self.target) {
            ChunkVerdict::Skip => {
                self.empties = self.empties + 1;
                if self.empties >= MAX_EMPTY_REPLIES {
                    self.stopped = true;
                }
            }
            ChunkVerdict::Keep => {
                self.payload.extend_from_slice(body);
                if n >= self.full_chunk {
                    self.empties = 0;
                }
            }
            ChunkVerdict::Last => {
                self.payload.extend_from_slice(body);
                self.stopped = true;
            }
        }
    }

    /// The message for a read that ran out of time, given how long it took as text.
    pub fn deadline_message(&self, elapsed: &str) -> (m: String)
        ensures
            m@ == "preset read gave up after "@ + elapsed@ + " with "@ + dec(self.payload@.len() as nat) + " of "@
                + (match self.target { Some(t) => dec(t as nat), None => "?"@ })
                + " bytes — the device stopped answering mid-stream"@,
    {
        let mut m = owned("preset read gave up after ");
        push_str(&mut m, elapsed);
        push_str(&mut m, " with ");
        push_u64(&mut m, self.payload.len() as u64);
        push_str(&mut m, " of ");
        match self.target {
            Some(t) => push_u64(&mut m, t as u64),
            None => push_str(&mut m, "?"),
        }
        push_str(&mut m, " bytes — the device stopped answering mid-stream");
        m
    }

    /// The payload of a finished read, `what` naming the stream in the error; a read that ended
    /// short of its declared length is refused.
    pub fn finish(self, what: &str) -> (r: Result<Vec<u8>, String>)
        ensures
            (self.target matches Some(t) && self.payload@.len() < t) ==> (r matches Err(m)
                && m@ == short_read_message(what@, (self.target->0 - self.payload@.len()) as nat, self.target->0 as nat)),
            !(self.target matches Some(t) && self.payload@.len() < t) ==> (r matches Ok(p) && p@ == self.payload@),
    {
        match self.target {
            Some(t) => {
                if self.payload.len() < t {
                    let mut m = owned(what);
                    push_str(&mut m, " read ended ");
                    push_u64(&mut m, (t - self.payload.len()) as u64);
                    push_str(&mut m, " bytes short of the declared ");
                    push_u64(&mut m, t as u64);
                    push_str(&mut m, " — the device stopped answering mid-stream");
                    return Err(m);
                }
                Ok(self.payload)
            }
            None => Ok(self.payload),
        }
    }
}

/// How many times a preset read is tried before its error stands.
pub const READ_ATTEMPTS: usize = 3;

/// Whether a preset read whose stream arrived should be read again rather than decoded: the
/// identity moved across the stream (`settled` false), or it is not the preset a pending preset
/// change asked for — but only while attempts remain, so a pedal that keeps moving still yields
/// something.
pub fn reread_needed(attempt: usize, settled: bool, want: Option<(i64, i64)>, got: Option<(i64, i64)>) -> (r: bool)
    ensures
        r == ((!settled || !(match want { None => true, Some(w) => got == Some(w) })) && attempt + 1 < READ_ATTEMPTS),
{
    (!settled || !identity_confirms(want, got)) && attempt < READ_ATTEMPTS - 1
}

/// The snapshot a read preset is on: the device's live report, else the one stored with it.
pub fn active_snapshot(stored: Option<i64>, live: Option<i64>) -> (r: Option<i64>)
    ensures
        r == (if live is Some { live } else { stored }),
{
    match live {
        Some(l) => Some(l),
        None => stored,
    }
}

/// How long to wait, in milliseconds, before retrying a failed preset read for the `attempt`-th
/// time (from 0): a failed read usually means the device is busy, so each retry waits longer.
pub fn retry_pause_ms(attempt: usize) -> (ms: u64)
    ensures
        ms == (if attempt == 0 { 150u64 } else if attempt == 1 { 400u64 } else { 800u64 }),
{
    if attempt == 0 {
        150
    } else if attempt == 1 {
        400
    } else {
        800
    }
}

/// The identity a read reports for its blob: the one the device gave after the stream, else the
/// one it gave before.
pub fn reported_identity<T>(before: Option<T>, after: Option<T>) -> (r: Option<T>)
    ensures
        r == (if after is Some { after } else { before }),
{
    match after {
        Some(a) => Some(a),
        None => before,
    }
}

/// Whether a read's blob and identity agree: the device reported the same bank and index before
/// and after the stream (either report missing leaves nothing to disagree with).
pub fn identity_settled(before: Option<(i64, i64)>, after: Option<(i64, i64)>) -> (r: bool)
    ensures
        r == !(before matches Some(b) && after matches Some(a) && (b.0 != a.0 || b.1 != a.1)),
{
    match (before, after) {
        (Some(b), Some(a)) => !(b.0 != a.0 || b.1 != a.1),
        _ => true,
    }
}

/// Whether the identity the device reported, `(bank, index)`, confirms the preset a preset change
/// asked for: with nothing pending anything does; otherwise bank and index must both match.
pub fn identity_confirms(want: Option<(i64, i64)>, got: Option<(i64, i64)>) -> (r: bool)
    ensures
        r == match want {
            None => true,
            Some(w) => got == Some(w),
        },
{
    match want {
        None => true,
        Some(w) => match got {
            Some(g) => g.0 == w.0 && g.1 == w.1,
            None => false,
        },
    }
}

/// The model-swap op, whose refusal `-306` means the DSP is full.
pub const OP_SWAP_MODEL: i64 = 40;

/// The plain-language gloss on a refusal code we have pinned down, in parentheses after the raw
/// number: `-306` on a model swap is not enough DSP, `-3` on anything is a write the block would
/// not take. Empty for every other code.
pub fn reject_hint(op: Option<i64>, code: i64) -> (s: String)
    ensures
        (op == Some(OP_SWAP_MODEL) && code == -306) ==> s@ == " (not enough DSP for that model — the pedal fills up near 75% on our meter, so free some up by simplifying or removing a block)"@,
        !(op == Some(OP_SWAP_MODEL) && code == -306) && code == -3 ==> s@ == " (the block would not take that write — wrong value type for the parameter, or no parameter at that index)"@,
        !(op == Some(OP_SWAP_MODEL) && code == -306) && code != -3 ==> s@.len() == 0,
{
    let swap = match op {
        Some(o) => o == OP_SWAP_MODEL,
        None => false,
    };
    if swap && code == -306 {
        owned(" (not enough DSP for that model — the pedal fills up near 75% on our meter, so free some up by simplifying or removing a block)")
    } else if code == -3 {
        owned(" (the block would not take that write — wrong value type for the parameter, or no parameter at that index)")
    } else {
        String::new()
    }
}

/// Payload bytes per flow-control credit.
pub const UNIT: usize = 512;
/// The biggest frame body that fits one bulk packet with its 16-byte header.
pub const FRAME_BODY: usize = 496;
/// Consecutive unanswered units after which the device is taken to be wedged.
pub const MAX_SILENT_CHUNKS: usize = 3;

/// How many units a transfer of `total` bytes takes.
pub open spec fn unit_count(total: nat) -> nat {
    (total + UNIT - 1) as nat / (UNIT as nat)
}

/// The frames unit `k` of a `total`-byte transfer goes out as, `(offset, length)`: the unit's
/// bytes in one frame when they fit one, else a full frame body and the rest.
pub open spec fn unit_frames(total: nat, k: nat) -> Seq<(nat, nat)> {
    let start = (k * UNIT) as nat;
    let len = if total - start < UNIT { (total - start) as nat } else { UNIT as nat };
    if len <= FRAME_BODY {
        seq![(start, len)]
    } else {
        seq![(start, FRAME_BODY as nat), ((start + FRAME_BODY) as nat, (len - FRAME_BODY) as nat)]
    }
}

/// The frames of unit `k` (exec form of [`unit_frames`]).
pub fn frames_of_unit(total: usize, k: usize) -> (v: Vec<(usize, usize)>)
    requires
        k * UNIT < total,
    ensures
        v@.len() == unit_frames(total as nat, k as nat).len(),
        forall|i: int| 0 <= i < v@.len() ==> (#[trigger] v@[i]).0 as nat == unit_frames(total as nat, k as nat)[i].0
            && v@[i].1 as nat == unit_frames(total as nat, k as nat)[i].1,
{
    let start = k * UNIT;
    let len = if total - start < UNIT { total - start } else { UNIT };
    let mut v: Vec<(usize, usize)> = Vec::new();
    if len <= FRAME_BODY {
        v.push((start, len));
    } else {
        v.push((start, FRAME_BODY));
        v.push((start + FRAME_BODY, len - FRAME_BODY));
    }
    v
}

/// How a transfer is going, unit by unit.
pub enum WriteStep {
    /// Send the next unit.
    Continue,
    /// The device stopped granting credits mid-transfer, with the message to report.
    Stalled(String),
    /// The transfer ran past its wall-clock budget, with the message to report.
    OverBudget(String),
}

/// A preset write in progress: its size, its units, what went out, the credits the device
/// granted, the run of unanswered units, and how many units were sent.
pub struct WriteTransfer {
    pub total: usize,
    pub chunks: usize,
    pub sent: usize,
    pub credits: usize,
    pub silent: usize,
    pub units_done: usize,
}

/// The run of unanswered units at the end of a credit trace (credits per unit, in order).
pub open spec fn silence(trace: Seq<nat>) -> nat
    decreases trace.len(),
{
    if trace.len() == 0 {
        0
    } else if trace.last() == 0 {
        silence(trace.drop_last()) + 1
    } else {
        0
    }
}

/// The message for a stalled transfer.
pub open spec fn stalled_message(sent: nat, total: nat, silent: nat) -> Seq<char> {
    "the pedal stopped responding "@ + dec(sent) + " of "@ + dec(total)
        + " bytes into a preset write (no reply to the last "@ + dec(silent)
        + " frames). The edit buffer may be inconsistent — reload the preset, and power-cycle the pedal if it is unresponsive"@
}

/// The message for a transfer that ran past its budget.
pub open spec fn over_budget_message(sent: nat, total: nat) -> Seq<char> {
    "a preset write ran past 30s with "@ + dec(sent) + " of "@ + dec(total)
        + " bytes sent. The edit buffer may be inconsistent — reload the preset, and power-cycle the pedal if it is unresponsive"@
}

impl WriteTransfer {
    /// A transfer of `total` bytes, nothing sent yet.
    pub fn new(total: usize) -> (w: WriteTransfer)
        ensures
            w.total == total,
            w.chunks == unit_count(total as nat),
            w.sent == 0 && w.credits == 0 && w.silent == 0 && w.units_done == 0,
    {
        let chunks = total / UNIT + if total % UNIT == 0 { 0 } else { 1 };
        proof {
            assert(chunks == unit_count(total as nat)) by (nonlinear_arith)
                requires chunks == total / 512 + if total % 512 == 0 { 0int } else { 1int };
        }
        WriteTransfer { total, chunks, sent: 0, credits: 0, silent: 0, units_done: 0 }
    }

    /// After a unit of `unit_len` bytes went out and drew `got` credits: stop when this is the
    /// third unanswered unit in a row and data is still left to send (past the last unit there is
    /// nothing to withhold), or when the budget ran out; otherwise go on.
    pub fn on_unit(&mut self, unit_len: usize, got: usize, over_budget: bool) -> (step: WriteStep)
        requires
            old(self).units_done < old(self).chunks,
            old(self).sent + unit_len <= usize::MAX,
            old(self).credits + got <= usize::MAX,
            old(self).silent < usize::MAX,
        ensures
            final(self).total == old(self).total,
            final(self).chunks == old(self).chunks,
            final(self).units_done == old(self).units_done + 1,
            final(self).sent == old(self).sent + unit_len,
            final(self).credits == old(self).credits + got,
            final(self).silent == (if got == 0 { old(self).silent + 1 } else { 0 }),
            (final(self).silent >= MAX_SILENT_CHUNKS && final(self).units_done < final(self).chunks) ==> (step matches WriteStep::Stalled(m)
                && m@ == stalled_message(final(self).sent as nat, final(self).total as nat, final(self).silent as nat)),
            !(final(self).silent >= MAX_SILENT_CHUNKS && final(self).units_done < final(self).chunks) && over_budget
                ==> (step matches WriteStep::OverBudget(m) && m@ == over_budget_message(final(self).sent as nat, final(self).total as nat)),
            !(final(self).silent >= MAX_SILENT_CHUNKS && final(self).units_done < final(self).chunks) && !over_budget ==> step is Continue,
    {
        self.sent = self.sent + unit_len;
        self.credits = self.credits + got;
        self.silent = if got == 0 { self.silent + 1 } else { 0 };
        self.units_done = self.units_done + 1;
        if self.silent >= MAX_SILENT_CHUNKS && self.units_done < self.chunks {
            let mut m = owned("the pedal stopped responding ");
            push_u64(&mut m, self.sent as u64);
            push_str(&mut m, " of ");
            push_u64(&mut m, self.total as u64);
            push_str(&mut m, " bytes into a preset write (no reply to the last ");
            push_u64(&mut m, self.silent as u64);
            push_str(&mut m, " frames). The edit buffer may be inconsistent — reload the preset, and power-cycle the pedal if it is unresponsive");
            return WriteStep::Stalled(m);
        }
        if over_budget {
            let mut m = owned("a preset write ran past 30s with ");
            push_u64(&mut m, self.sent as u64);
            push_str(&mut m, " of ");
            push_u64(&mut m, self.total as u64);
            push_str(&mut m, " bytes sent. The edit buffer may be inconsistent — reload the preset, and power-cycle the pedal if it is unresponsive");
            return WriteStep::OverBudget(m);
        }
        WriteStep::Continue
    }
}

/// Every unit of a transfer goes out as frames that fit a packet, starting where the unit starts
/// and covering it exactly; a full unit goes out as 496 bytes and then 16, so it ends on a short
/// packet.
pub proof fn units_go_out_whole(total: nat, k: nat)
    requires
        k * UNIT < total,
    ensures
        ({
            let f = unit_frames(total, k);
            let len = if total - k * UNIT < UNIT { (total - k * UNIT) as nat } else { UNIT as nat };
            &&& f[0].0 == k * UNIT
            &&& forall|i: int| 0 <= i < f.len() ==> (#[trigger] f[i]).1 <= FRAME_BODY && f[i].1 > 0
            &&& forall|i: int| 0 <= i < f.len() - 1 ==> #[trigger] f[i + 1].0 == f[i].0 + f[i].1
            &&& f[f.len() - 1].0 + f[f.len() - 1].1 == k * UNIT + len
            &&& len == UNIT ==> f.len() == 2 && f[0].1 == 496 && f[1].1 == 16
        }),
{
}

/// The run of unanswered units is what a transfer counts: it grows by one on a unit without a
/// credit and starts over on any credit.
pub proof fn silence_steps(trace: Seq<nat>, got: nat)
    ensures
        silence(trace.push(got)) == if got == 0 { silence(trace) + 1 } else { 0 },
{
    assert(trace.push(got).drop_last() =~= trace);
}

/// A transfer whose every unit drew a credit never counts a silent unit, so never stalls; one
/// that counts three has had three unanswered units in a row.
pub proof fn stalls_need_three_quiet_units(trace: Seq<nat>)
    ensures
        (forall|k: int| 0 <= k < trace.len() ==> #[trigger] trace[k] > 0) ==> silence(trace) == 0,
        silence(trace) >= 3 ==> trace.len() >= 3 && trace[trace.len() - 1] == 0
            && trace[trace.len() - 2] == 0 && trace[trace.len() - 3] == 0,
    decreases trace.len(),
{
    if trace.len() > 0 {
        stalls_need_three_quiet_units(trace.drop_last());
        if silence(trace) >= 3 {
            let t1 = trace.drop_last();
            assert(silence(t1) >= 2);
            if silence(t1) >= 3 {
            } else {
                assert(t1.len() > 0 && t1.last() == 0);
                let t2 = t1.drop_last();
                assert(silence(t2) >= 1);
                assert(t2.len() > 0 && t2.last() == 0);
            }
        }
    }
}

} // verus!
