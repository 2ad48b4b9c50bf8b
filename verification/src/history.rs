//! The edit history: a timeline of labelled preset states, oldest first, with a cursor on the
//! state the device's edit buffer holds, the label of an edit in flight, and which position
//! matches what is saved in flash. Undo, redo and the history pane all move the cursor; an edit
//! discards whatever lay ahead of it.

use vstd::prelude::*;
use crate::text::{dec, owned, push_str, push_u64};

verus! {

/// The most states the timeline keeps; the oldest falls off first.
pub const MAX_HISTORY: usize = 50;

/// One state on the timeline: the writable preset blob and the label of the edit that made it.
pub struct HistoryEntry {
    pub label: String,
    pub blob: Vec<u8>,
}

/// The edit history of one editing context.
pub struct EditHistory {
    /// Oldest first. Entry 0 is the loaded state; each later one the state after its edit.
    pub entries: Vec<HistoryEntry>,
    /// The entry the edit buffer holds.
    pub cursor: usize,
    /// The label of an edit begun and not yet committed or abandoned.
    pub pending: Option<String>,
    /// The entry whose state is saved in flash, `None` when it fell off the timeline.
    pub saved_cursor: Option<usize>,
}

/// A state as the timeline records it: label and blob, as values.
pub open spec fn entry_view(e: HistoryEntry) -> (Seq<char>, Seq<u8>) {
    (e.label@, e.blob@)
}

/// The timeline as values.
pub open spec fn timeline(h: EditHistory) -> Seq<(Seq<char>, Seq<u8>)> {
    h.entries@.map_values(|e: HistoryEntry| entry_view(e))
}

/// The error text for a jump to an entry that does not exist.
pub open spec fn no_entry_message(index: nat, len: nat) -> Seq<char> {
    "no history entry "@ + dec(index) + " (have "@ + dec(len) + seq![')']
}

/// The timeline after committing an edit labelled `label` that left the state `blob`, with the
/// cursor at `cursor`: the states ahead of the cursor go, the new one goes on the end, and past
/// [`MAX_HISTORY`] the oldest falls off.
pub open spec fn commit_timeline(t: Seq<(Seq<char>, Seq<u8>)>, cursor: int, label: Seq<char>, blob: Seq<u8>) -> Seq<(Seq<char>, Seq<u8>)> {
    let kept = if t.len() == 0 { t } else { t.take(cursor + 1) };
    let grown = kept.push((label, blob));
    if grown.len() > MAX_HISTORY { grown.drop_first() } else { grown }
}

/// Where the saved marker is after that commit: gone with the discarded states, and moved down
/// with the rest when the oldest falls off.
pub open spec fn commit_saved(saved: Option<usize>, cursor: int, len: int) -> Option<usize> {
    let kept = match saved {
        Some(i) => if i > cursor { None } else { Some(i) },
        None => None,
    };
    let grown_len = (if len == 0 { 0 } else { cursor + 1 }) + 1;
    if grown_len > MAX_HISTORY {
        match kept {
            Some(i) => if i > 0 { Some((i - 1) as usize) } else { None },
            None => None,
        }
    } else {
        kept
    }
}

impl EditHistory {
    /// The timeline holds at most [`MAX_HISTORY`] states, and the cursor is on one of them (0
    /// when there are none).
    pub open spec fn wf(self) -> bool {
        &&& self.entries@.len() <= MAX_HISTORY
        &&& self.entries@.len() == 0 ==> self.cursor == 0
        &&& self.entries@.len() > 0 ==> self.cursor < self.entries@.len()
    }

    /// A fresh history: empty, nothing pending, the buffer as saved.
    pub fn new() -> (h: EditHistory)
        ensures
            h.wf(),
            h.entries@.len() == 0,
            h.cursor == 0,
            h.pending is None,
            h.saved_cursor == Some(0usize),
    {
        EditHistory { entries: Vec::new(), cursor: 0, pending: None, saved_cursor: Some(0) }
    }

    /// Whether the timeline has no state yet, so one must be read to seed it.
    pub fn needs_seed(&self) -> (r: bool)
        ensures
            r == (self.entries@.len() == 0),
    {
        self.entries.len() == 0
    }

    /// Seed an empty timeline with the state as loaded; a timeline that has states is left alone.
    pub fn seed_loaded(&mut self, blob: Vec<u8>)
        requires
            old(self).wf(),
        ensures
            final(self).wf(),
            old(self).entries@.len() == 0 ==> timeline(*final(self)) == seq![("Loaded"@, blob@)] && final(self).cursor == 0,
            old(self).entries@.len() != 0 ==> timeline(*final(self)) == timeline(*old(self)) && final(self).cursor == old(self).cursor,
            final(self).pending == old(self).pending,
            final(self).saved_cursor == old(self).saved_cursor,
    {
        if self.entries.len() == 0 {
            self.entries.push(HistoryEntry { label: owned("Loaded"), blob });
            self.cursor = 0;
            proof {
                assert(timeline(*self) =~= seq![("Loaded"@, blob@)]);
            }
        }
    }

    /// Start an undoable edit labelled `label`. An empty timeline is first seeded with `seed`, the
    /// state as it stands; with no state to seed it from, no edit is opened.
    pub fn edit_begin(&mut self, label: &str, seed: Option<Vec<u8>>)
        requires
            old(self).wf(),
        ensures
            final(self).wf(),
            final(self).saved_cursor == old(self).saved_cursor,
            old(self).entries@.len() != 0 ==> {
                &&& timeline(*final(self)) == timeline(*old(self))
                &&& final(self).cursor == old(self).cursor
                &&& final(self).pending matches Some(l) && l@ == label@
            },
            old(self).entries@.len() == 0 ==> match seed {
                Some(b) => timeline(*final(self)) == seq![("Loaded"@, b@)] && final(self).cursor == 0
                    && (final(self).pending matches Some(l) && l@ == label@),
                None => timeline(*final(self)) == timeline(*old(self)) && final(self).cursor == old(self).cursor
                    && final(self).pending is None,
            },
    {
        if self.entries.len() == 0 {
            match seed {
                Some(blob) => {
                    self.entries.push(HistoryEntry { label: owned("Loaded"), blob });
                    self.cursor = 0;
                    proof {
                        assert(timeline(*self) =~= seq![("Loaded"@, blob@)]);
                    }
                }
                None => {
                    self.pending = None;
                    return;
                }
            }
        }
        self.pending = Some(owned(label));
    }

    /// Abandon the edit [`Self::edit_begin`] opened, leaving the timeline exactly as it was.
    pub fn edit_abort(&mut self)
        requires
            old(self).wf(),
        ensures
            final(self).wf(),
            timeline(*final(self)) == timeline(*old(self)),
            final(self).cursor == old(self).cursor,
            final(self).saved_cursor == old(self).saved_cursor,
            final(self).pending is None,
    {
        self.pending = None;
    }

    /// Finish the pending edit with `post`, the state after it: the states ahead of the cursor are
    /// discarded, the new state goes on the end under the edit's label, the oldest falls off past
    /// [`MAX_HISTORY`], and the cursor moves to the new state. Nothing happens without a pending
    /// edit; without a post-edit state the edit is dropped and the timeline kept.
    pub fn edit_commit(&mut self, post: Option<Vec<u8>>)
        requires
            old(self).wf(),
        ensures
            final(self).wf(),
            final(self).pending is None,
            (old(self).pending is None || post is None) ==> {
                &&& timeline(*final(self)) == timeline(*old(self))
                &&& final(self).cursor == old(self).cursor
                &&& final(self).saved_cursor == old(self).saved_cursor
            },
            (old(self).pending is Some && post is Some) ==> {
                &&& timeline(*final(self)) == commit_timeline(timeline(*old(self)), old(self).cursor as int, old(self).pending->0@, post->0@)
                &&& final(self).saved_cursor == commit_saved(old(self).saved_cursor, old(self).cursor as int, timeline(*old(self)).len() as int)
                &&& final(self).cursor == timeline(*final(self)).len() - 1
            },
    {
        let label = match self.pending.take() {
            Some(l) => l,
            None => {
                return;
            }
        };
        let blob = match post {
            Some(b) => b,
            None => {
                return;
            }
        };
        let ghost before = timeline(*self);
        let ghost old_cursor = self.cursor;
        let ghost label_v = label@;
        let ghost blob_v = blob@;
        if self.entries.len() > 0 {
            self.entries.truncate(self.cursor + 1);
        }
        let ghost kept = timeline(*self);
        proof {
            if before.len() > 0 {
                assert(kept =~= before.take(old_cursor + 1));
            } else {
                assert(kept =~= Seq::<(Seq<char>, Seq<u8>)>::empty());
            }
        }
        match self.saved_cursor {
            Some(i) => {
                if i > self.cursor {
                    self.saved_cursor = None;
                }
            }
            None => {}
        }
        self.entries.push(HistoryEntry { label, blob });
        proof {
            assert(timeline(*self) =~= kept.push((label_v, blob_v)));
        }
        if self.entries.len() > MAX_HISTORY {
            let ghost grown = timeline(*self);
            self.entries.remove(0);
            proof {
                assert(timeline(*self) =~= grown.drop_first());
            }
            self.saved_cursor = match self.saved_cursor {
                Some(i) => if i > 0 { Some(i - 1) } else { None },
                None => None,
            };
        }
        self.cursor = self.entries.len() - 1;
        proof {
            assert(timeline(*self) == commit_timeline(before, old_cursor as int, label_v, blob_v));
        }
    }

    /// Steps available behind the cursor (enables Undo).
    pub fn undo_depth(&self) -> (n: usize)
        ensures
            n == self.cursor,
    {
        self.cursor
    }

    /// Steps available ahead of the cursor (enables Redo).
    pub fn redo_depth(&self) -> (n: usize)
        requires
            self.wf(),
        ensures
            n == (if self.entries@.len() > self.cursor + 1 { self.entries@.len() - self.cursor - 1 } else { 0 }),
    {
        if self.entries.len() > self.cursor + 1 {
            self.entries.len() - (self.cursor + 1)
        } else {
            0
        }
    }

    /// The timeline's labels, oldest first.
    pub fn history_labels(&self) -> (v: Vec<String>)
        ensures
            v@.len() == self.entries@.len(),
            forall|i: int| 0 <= i < v@.len() ==> #[trigger] v@[i]@ == self.entries@[i].label@,
    {
        let mut v: Vec<String> = Vec::new();
        let mut i: usize = 0;
        while i < self.entries.len()
            invariant
                i <= self.entries@.len(),
                v@.len() == i,
                forall|k: int| 0 <= k < i ==> #[trigger] v@[k]@ == self.entries@[k].label@,
            decreases self.entries.len() - i,
        {
            v.push(self.entries[i].label.clone());
            i = i + 1;
        }
        v
    }

    /// The entry the edit buffer holds.
    pub fn history_cursor(&self) -> (c: usize)
        ensures
            c == self.cursor,
    {
        self.cursor
    }

    /// Drop all history, for a new editing context: the buffer was just loaded, so it is clean.
    pub fn clear_history(&mut self)
        ensures
            final(self).wf(),
            final(self).entries@.len() == 0,
            final(self).cursor == 0,
            final(self).pending is None,
            final(self).saved_cursor == Some(0usize),
    {
        self.entries = Vec::new();
        self.cursor = 0;
        self.pending = None;
        self.saved_cursor = Some(0);
    }

    /// The buffer was saved to flash: the cursor's position is the clean one.
    pub fn mark_saved(&mut self)
        requires
            old(self).wf(),
        ensures
            final(self).wf(),
            timeline(*final(self)) == timeline(*old(self)),
            final(self).cursor == old(self).cursor,
            final(self).pending == old(self).pending,
            final(self).saved_cursor == Some(old(self).cursor),
    {
        self.saved_cursor = Some(self.cursor);
    }

    /// Whether the buffer differs from what is saved: the cursor is off the saved position.
    pub fn dirty(&self) -> (d: bool)
        ensures
            d == (self.saved_cursor != Some(self.cursor)),
    {
        match self.saved_cursor {
            Some(i) => i != self.cursor,
            None => true,
        }
    }

    /// What jumping to entry `index` asks for: an error for an entry that does not exist, nothing
    /// to write when it is the current one, otherwise that entry's blob.
    pub fn jump_target(&self, index: usize) -> (r: Result<Option<&Vec<u8>>, String>)
        requires
            self.wf(),
        ensures
            index >= self.entries@.len() ==> (r matches Err(m) && m@ == no_entry_message(index as nat, self.entries@.len()) ),
            index < self.entries@.len() && index == self.cursor ==> r matches Ok(None),
            index < self.entries@.len() && index != self.cursor ==> (r matches Ok(Some(b)) && b@ == self.entries@[index as int].blob@),
    {
        if index >= self.entries.len() {
            let mut m = owned("no history entry ");
            push_u64(&mut m, index as u64);
            push_str(&mut m, " (have ");
            push_u64(&mut m, self.entries.len() as u64);
            push_str(&mut m, ")");
            proof {
                reveal_strlit(")");
                assert(m@ =~= no_entry_message(index as nat, self.entries@.len()));
            }
            return Err(m);
        }
        if index == self.cursor {
            return Ok(None);
        }
        Ok(Some(&self.entries[index].blob))
    }

    /// The buffer now holds entry `index`: move the cursor there. Navigation adds and removes
    /// nothing.
    pub fn history_jump(&mut self, index: usize)
        requires
            old(self).wf(),
            index < old(self).entries@.len(),
        ensures
            final(self).wf(),
            timeline(*final(self)) == timeline(*old(self)),
            final(self).cursor == index,
            final(self).pending == old(self).pending,
            final(self).saved_cursor == old(self).saved_cursor,
    {
        self.cursor = index;
    }

    /// The entry one step back, or why there is none.
    pub fn undo(&self) -> (r: Result<usize, String>)
        requires
            self.wf(),
        ensures
            self.cursor == 0 ==> (r matches Err(m) && m@ == "nothing to undo"@),
            self.cursor > 0 ==> r == Ok::<usize, String>((self.cursor - 1) as usize),
    {
        if self.cursor == 0 {
            return Err(owned("nothing to undo"));
        }
        Ok(self.cursor - 1)
    }

    /// The entry one step forward, or why there is none.
    pub fn redo(&self) -> (r: Result<usize, String>)
        requires
            self.wf(),
        ensures
            self.cursor + 1 >= self.entries@.len() ==> (r matches Err(m) && m@ == "nothing to redo"@),
            self.cursor + 1 < self.entries@.len() ==> r == Ok::<usize, String>((self.cursor + 1) as usize),
    {
        if self.cursor + 1 >= self.entries.len() {
            return Err(owned("nothing to redo"));
        }
        Ok(self.cursor + 1)
    }
}

/// After an edit, the newest state is the edit's, and one step back is the state the edit
/// started from: undo right after an edit restores what was there before it.
pub proof fn undo_after_commit_restores(t: Seq<(Seq<char>, Seq<u8>)>, cursor: int, label: Seq<char>, blob: Seq<u8>)
    requires
        t.len() > 0,
        0 <= cursor < t.len(),
        t.len() <= MAX_HISTORY,
    ensures
        ({
            let n = commit_timeline(t, cursor, label, blob);
            &&& n.len() >= 2
            &&& n[n.len() - 1] == (label, blob)
            &&& n[n.len() - 2] == t[cursor]
        }),
{
    let kept = t.take(cursor + 1);
    let grown = kept.push((label, blob));
    assert(grown[grown.len() - 2] == t[cursor]);
    if grown.len() > MAX_HISTORY {
        let n = grown.drop_first();
        assert(n[n.len() - 2] == grown[grown.len() - 2]);
    }
}

/// An edit keeps every state up to the cursor, in order (bar the oldest when the timeline is
/// full), and after it there is nothing left to redo.
pub proof fn commit_keeps_the_past(t: Seq<(Seq<char>, Seq<u8>)>, cursor: int, label: Seq<char>, blob: Seq<u8>)
    requires
        t.len() > 0,
        0 <= cursor < t.len(),
        t.len() <= MAX_HISTORY,
    ensures
        ({
            let n = commit_timeline(t, cursor, label, blob);
            let shift = if cursor + 2 > MAX_HISTORY { 1int } else { 0int };
            &&& n.len() == cursor + 2 - shift
            &&& n.len() <= MAX_HISTORY
            &&& forall|k: int| shift <= k <= cursor ==> n[k - shift] == #[trigger] t[k]
        }),
{
}

/// The saved marker stays on the state that was saved: wherever it points after an edit, that
/// position holds the very state it pointed at before.
pub proof fn saved_marker_follows_its_state(t: Seq<(Seq<char>, Seq<u8>)>, cursor: int, saved: Option<usize>, label: Seq<char>, blob: Seq<u8>)
    requires
        t.len() > 0,
        0 <= cursor < t.len(),
        t.len() <= MAX_HISTORY,
    ensures
        ({
            let n = commit_timeline(t, cursor, label, blob);
            commit_saved(saved, cursor, t.len() as int) matches Some(j) ==> (saved matches Some(i) && j < n.len() && n[j as int] == t[i as int])
        }),
{
}

/// Undo then redo comes back to where it started.
pub proof fn redo_after_undo_returns(h: EditHistory)
    requires
        h.wf(),
        h.cursor > 0,
    ensures
        h.cursor - 1 + 1 < h.entries@.len(),
        (h.cursor - 1 + 1) as usize == h.cursor,
{
}

/// An edit keeps the saved marker when it sits on a kept state, at or before the cursor: it stays
/// on that state, moving down one place only when the oldest state falls off (and going with it
/// when that is the one saved).
pub proof fn commit_keeps_an_earlier_saved_marker(t: Seq<(Seq<char>, Seq<u8>)>, cursor: int, i: usize)
    requires
        t.len() > 0,
        0 <= cursor < t.len(),
        t.len() <= MAX_HISTORY,
        i <= cursor,
    ensures
        cursor + 2 <= MAX_HISTORY ==> commit_saved(Some(i), cursor, t.len() as int) == Some(i),
        cursor + 2 > MAX_HISTORY ==> commit_saved(Some(i), cursor, t.len() as int)
            == (if i > 0 { Some((i - 1) as usize) } else { None::<usize> }),
{
}

/// Undoing an edit made on a clean buffer leaves it clean: after the edit, the saved marker sits
/// exactly one step behind the cursor, where undo takes it.
pub proof fn undo_of_an_edit_on_a_clean_buffer_is_clean(t: Seq<(Seq<char>, Seq<u8>)>, cursor: int, label: Seq<char>, blob: Seq<u8>)
    requires
        t.len() > 0,
        0 <= cursor < t.len(),
        t.len() <= MAX_HISTORY,
    ensures
        commit_saved(Some(cursor as usize), cursor, t.len() as int)
            == Some((commit_timeline(t, cursor, label, blob).len() - 2) as usize),
{
    commit_keeps_the_past(t, cursor, label, blob);
}

} // verus!
