//! Planning block moves on the device's slot grid. The device only moves a block into an empty
//! slot, so every rearrangement is a sequence of single moves, each into a slot that is empty when
//! it runs. Slots are global wire slots (`dsp * 20 + index`); nothing here assumes a base.

use vstd::prelude::*;

verus! {

/// The moves that take the block at position `from` of the row `s` to position `to`: park it in
/// `scratch`, shift the blocks between one slot toward the hole, then drop it into the slot freed
/// at `to`. Nothing when `from == to` or either position is outside the row.
pub open spec fn reorder_plan(s: Seq<usize>, scratch: usize, from: int, to: int) -> Seq<(usize, usize)> {
    if from == to || from >= s.len() || to >= s.len() || from < 0 || to < 0 {
        Seq::empty()
    } else if to > from {
        seq![(s[from], scratch)] + Seq::new((to - from) as nat, |m: int| (s[from + 1 + m], s[from + m]))
            + seq![(scratch, s[to])]
    } else {
        seq![(s[from], scratch)] + Seq::new((from - to) as nat, |m: int| (s[from - 1 - m], s[from - m]))
            + seq![(scratch, s[to])]
    }
}

/// Plan a same-row reorder as single moves, each into an empty slot. `occupied` is the row's
/// block slots in order, `scratch` a spare empty slot to stage through, and `from`/`to` positions
/// in `occupied`.
pub fn plan_reorder(occupied: &[usize], scratch: usize, from: usize, to: usize) -> (moves: Vec<(usize, usize)>)
    ensures
        moves@ == reorder_plan(occupied@, scratch, from as int, to as int),
{
    let mut moves: Vec<(usize, usize)> = Vec::new();
    if from == to || from >= occupied.len() || to >= occupied.len() {
        return moves;
    }
    let ghost s = occupied@;
    moves.push((occupied[from], scratch));
    if to > from {
        let mut k: usize = from + 1;
        while k <= to
            invariant
                s == occupied@,
                from < to < s.len(),
                from + 1 <= k <= to + 1,
                moves@ == seq![(s[from as int], scratch)]
                    + Seq::new((k - from - 1) as nat, |m: int| (s[from + 1 + m], s[from + m])),
            decreases to + 1 - k,
        {
            moves.push((occupied[k], occupied[k - 1]));
            proof {
                assert(Seq::new((k + 1 - from - 1) as nat, |m: int| (s[from + 1 + m], s[from + m]))
                    =~= Seq::new((k - from - 1) as nat, |m: int| (s[from + 1 + m], s[from + m])).push((s[k as int], s[k - 1])));
                assert(moves@ =~= seq![(s[from as int], scratch)]
                    + Seq::new((k + 1 - from - 1) as nat, |m: int| (s[from + 1 + m], s[from + m])));
            }
            k = k + 1;
        }
    } else {
        let mut k: usize = from;
        while k > to
            invariant
                s == occupied@,
                to < from < s.len(),
                to <= k <= from,
                moves@ == seq![(s[from as int], scratch)]
                    + Seq::new((from - k) as nat, |m: int| (s[from - 1 - m], s[from - m])),
            decreases k - to,
        {
            moves.push((occupied[k - 1], occupied[k]));
            proof {
                assert(Seq::new((from - (k - 1)) as nat, |m: int| (s[from - 1 - m], s[from - m]))
                    =~= Seq::new((from - k) as nat, |m: int| (s[from - 1 - m], s[from - m])).push((s[k - 1], s[k as int])));
                assert(moves@ =~= seq![(s[from as int], scratch)]
                    + Seq::new((from - (k - 1)) as nat, |m: int| (s[from - 1 - m], s[from - m])));
            }
            k = k - 1;
        }
    }
    moves.push((scratch, occupied[to]));
    moves
}

/// Some slot of `free` lies above `x`.
pub open spec fn has_above(free: Set<usize>, x: usize) -> bool {
    exists|d: usize| free.contains(d) && d > x
}

/// The lowest slot of `free` above `x`.
pub open spec fn least_above(free: Set<usize>, x: usize) -> usize {
    choose|d: usize| free.contains(d) && d > x && forall|y: usize| #[trigger] free.contains(y) && y > x ==> d <= y
}

/// The moves that shift the blocks at `occ[pos..i]` one step right, the rightmost first, each into
/// the lowest free slot above it; a block's old slot is free for the ones after it. `None` when
/// some block has no free slot above it.
pub open spec fn shift_right(occ: Seq<usize>, free: Set<usize>, pos: int, i: int) -> Option<Seq<(usize, usize)>>
    decreases i - pos,
{
    if i <= pos || i > occ.len() || pos < 0 {
        Some(Seq::empty())
    } else {
        let from = occ[i - 1];
        if has_above(free, from) {
            let d = least_above(free, from);
            match shift_right(occ, free.remove(d).insert(from), pos, i - 1) {
                Some(rest) => Some(seq![(from, d)] + rest),
                None => None,
            }
        } else {
            None
        }
    }
}

/// The first slot of `free`, in the order given, above `last` (any, when the row is empty).
pub open spec fn first_free_after(free: Seq<usize>, last: Option<usize>) -> Option<usize>
    decreases free.len(),
{
    if free.len() == 0 {
        None
    } else if (last matches Some(l) ==> free[0] > l) {
        Some(free[0])
    } else {
        first_free_after(free.drop_first(), last)
    }
}

/// Where a block inserted at position `pos` of a row goes, and the moves that open it: appending
/// takes the first free slot past the last block (any free slot if there is none past it);
/// otherwise the blocks from `pos` on shift right and the newcomer takes `occ[pos]`.
pub open spec fn row_insert_plan(occ: Seq<usize>, free: Seq<usize>, pos: int) -> Option<(Seq<(usize, usize)>, usize)> {
    if pos >= occ.len() {
        let last = if occ.len() == 0 { None } else { Some(occ.last()) };
        match first_free_after(free, last) {
            Some(t) => Some((Seq::empty(), t)),
            None => if free.len() > 0 { Some((Seq::empty(), free[0])) } else { None },
        }
    } else {
        match shift_right(occ, free.to_set(), pos, occ.len() as int) {
            Some(m) => Some((m, occ[pos])),
            None => None,
        }
    }
}

/// The lowest slot of `fs` above `x`, if any.
fn lowest_above(fs: &Vec<usize>, x: usize) -> (r: Option<usize>)
    ensures
        r is None ==> !has_above(fs@.to_set(), x),
        r matches Some(d) ==> has_above(fs@.to_set(), x) && d == least_above(fs@.to_set(), x),
{
    let ghost f = fs@.to_set();
    let mut best: Option<usize> = None;
    let mut i: usize = 0;
    while i < fs.len()
        invariant
            i <= fs@.len(),
            f == fs@.to_set(),
            best is None ==> forall|k: int| 0 <= k < i ==> #[trigger] fs@[k] <= x,
            best matches Some(d) ==> d > x && f.contains(d) && forall|k: int| 0 <= k < i && fs@[k] > x ==> d <= #[trigger] fs@[k],
        decreases fs.len() - i,
    {
        let v = fs[i];
        proof {
            assert(f.contains(fs@[i as int]));
        }
        if v > x {
            match best {
                None => { best = Some(v); }
                Some(d) => { if v < d { best = Some(v); } }
            }
        }
        i = i + 1;
    }
    match best {
        None => {
            proof {
                assert forall|d: usize| f.contains(d) implies !(d > x) by {
                    let k = choose|k: int| 0 <= k < fs@.len() && fs@[k] == d;
                    assert(fs@[k] <= x);
                }
            }
            None
        }
        Some(d) => {
            proof {
                assert forall|y: usize| #[trigger] f.contains(y) && y > x implies d <= y by {
                    let k = choose|k: int| 0 <= k < fs@.len() && fs@[k] == y;
                    assert(d <= fs@[k]);
                }
                let c = least_above(f, x);
                assert(f.contains(c) && c > x && forall|y: usize| #[trigger] f.contains(y) && y > x ==> c <= y);
                assert(c <= d && d <= c);
            }
            Some(d)
        }
    }
}

proof fn lemma_push_contains(s: Seq<usize>, a: usize, v: usize)
    ensures
        s.push(a).contains(v) <==> (s.contains(v) || v == a),
{
    if s.contains(v) {
        let j = choose|j: int| 0 <= j < s.len() && s[j] == v;
        assert(s.push(a)[j] == v);
    }
    if v == a {
        assert(s.push(a)[s.len() as int] == v);
    }
    if s.push(a).contains(v) {
        let j = choose|j: int| 0 <= j < s.push(a).len() && s.push(a)[j] == v;
        if j < s.len() {
            assert(s[j] == v);
        }
    }
}

/// `fs` without `d`, and with `x` added.
pub(crate) fn swap_free(fs: &Vec<usize>, d: usize, x: usize) -> (out: Vec<usize>)
    ensures
        out@.to_set() == fs@.to_set().remove(d).insert(x),
{
    let mut out: Vec<usize> = Vec::new();
    let mut i: usize = 0;
    while i < fs.len()
        invariant
            i <= fs@.len(),
            forall|v: usize| #[trigger] out@.contains(v) <==> (v != d && fs@.take(i as int).contains(v)),
        decreases fs.len() - i,
    {
        let ghost before = out@;
        if fs[i] != d {
            out.push(fs[i]);
        }
        proof {
            assert(fs@.take(i + 1) =~= fs@.take(i as int).push(fs@[i as int]));
            assert forall|v: usize| #[trigger] out@.contains(v) <==> (v != d && fs@.take(i + 1).contains(v)) by {
                lemma_push_contains(fs@.take(i as int), fs@[i as int], v);
                if fs@[i as int] != d {
                    lemma_push_contains(before, fs@[i as int], v);
                }
            }
        }
        i = i + 1;
    }
    let ghost kept = out@;
    out.push(x);
    proof {
        assert(fs@.take(fs@.len() as int) =~= fs@);
        assert(out@.to_set() =~= fs@.to_set().remove(d).insert(x)) by {
            assert forall|v: usize| out@.to_set().contains(v) <==> fs@.to_set().remove(d).insert(x).contains(v) by {
                lemma_push_contains(kept, x, v);
            }
        }
    }
    out
}

/// The slot an appended block takes: the first of `free` past `last`, else the first of `free`.
fn append_target(free: &[usize], last: Option<usize>) -> (r: Option<usize>)
    ensures
        r == (match first_free_after(free@, last) {
            Some(t) => Some(t),
            None => if free@.len() > 0 { Some(free@[0]) } else { None },
        }),
{
    let mut k: usize = 0;
    assert(free@.skip(0) =~= free@);
    while k < free.len()
        invariant
            k <= free@.len(),
            first_free_after(free@, last) == first_free_after(free@.skip(k as int), last),
        decreases free.len() - k,
    {
        let ok = match last {
            None => true,
            Some(l) => free[k] > l,
        };
        proof {
            assert(free@.skip(k as int).drop_first() =~= free@.skip(k + 1));
            assert(free@.skip(k as int)[0] == free@[k as int]);
        }
        if ok {
            return Some(free[k]);
        }
        k = k + 1;
    }
    proof {
        assert(free@.skip(k as int) =~= Seq::<usize>::empty());
    }
    if free.len() > 0 {
        Some(free[0])
    } else {
        None
    }
}

/// The shifts of `occupied[pos..]` one step right (exec form of [`shift_right`]).
#[verifier::rlimit(40)]
fn shift_suffix(occupied: &[usize], free: &[usize], pos: usize) -> (r: Option<Vec<(usize, usize)>>)
    requires
        pos < occupied@.len(),
    ensures
        r is None <==> shift_right(occupied@, free@.to_set(), pos as int, occupied@.len() as int) is None,
        r matches Some(m) ==> shift_right(occupied@, free@.to_set(), pos as int, occupied@.len() as int) == Some(m@),
{
    let mut fs: Vec<usize> = Vec::new();
    let mut j: usize = 0;
    while j < free.len()
        invariant
            j <= free@.len(),
            fs@ == free@.take(j as int),
        decreases free.len() - j,
    {
        fs.push(free[j]);
        proof {
            assert(free@.take(j + 1) =~= free@.take(j as int).push(free@[j as int]));
        }
        j = j + 1;
    }
    proof {
        assert(free@.take(free@.len() as int) =~= free@);
    }
    let ghost occ = occupied@;
    let ghost whole = shift_right(occ, free@.to_set(), pos as int, occ.len() as int);
    let mut moves: Vec<(usize, usize)> = Vec::new();
    let mut i: usize = occupied.len();
    while i > pos
        invariant
            occ == occupied@,
            pos < occ.len(),
            pos <= i <= occ.len(),
            whole == shift_right(occupied@, free@.to_set(), pos as int, occupied@.len() as int),
            whole == match shift_right(occ, fs@.to_set(), pos as int, i as int) {
                Some(rest) => Some(moves@ + rest),
                None => None::<Seq<(usize, usize)>>,
            },
        decreases i - pos,
    {
        let from = occupied[i - 1];
        let ghost f0 = fs@.to_set();
        match lowest_above(&fs, from) {
            None => {
                proof {
                    assert(shift_right(occ, f0, pos as int, i as int) is None);
                }
                return None;
            }
            Some(d) => {
                let ghost before = moves@;
                moves.push((from, d));
                fs = swap_free(&fs, d, from);
                proof {
                    assert(fs@.to_set() == f0.remove(d).insert(from));
                    match shift_right(occ, fs@.to_set(), pos as int, (i - 1) as int) {
                        Some(rest) => {
                            assert(shift_right(occ, f0, pos as int, i as int) == Some(seq![(from, d)] + rest));
                            assert(moves@ + rest =~= before + (seq![(from, d)] + rest));
                        }
                        None => {
                            assert(shift_right(occ, f0, pos as int, i as int) is None);
                        }
                    }
                }
            }
        }
        i = i - 1;
    }
    proof {
        assert(moves@ + Seq::<(usize, usize)>::empty() =~= moves@);
    }
    Some(moves)
}

/// Plan the moves that open a slot for a block inserted at position `pos` among a row's
/// `occupied` slots (sorted), with the row's empty slots `free` (sorted). Shifting the suffix
/// right keeps a parallel section's left edge where it is. `None` when there is no room.
pub fn plan_row_insert(occupied: &[usize], free: &[usize], pos: usize) -> (r: Option<(Vec<(usize, usize)>, usize)>)
    ensures
        r is None <==> row_insert_plan(occupied@, free@, pos as int) is None,
        r matches Some(p) ==> row_insert_plan(occupied@, free@, pos as int) == Some((p.0@, p.1)),
{
    if pos >= occupied.len() {
        let last: Option<usize> = if occupied.len() == 0 { None } else { Some(occupied[occupied.len() - 1]) };
        return match append_target(free, last) {
            Some(t) => Some((Vec::new(), t)),
            None => None,
        };
    }
    match shift_suffix(occupied, free, pos) {
        Some(m) => Some((m, occupied[pos])),
        None => None,
    }
}

/// Where the contiguous run of occupied slots ending just below `r` starts.
pub open spec fn run_start(occ: Set<usize>, r: int) -> int
    decreases r,
{
    if r > 0 && occ.contains((r - 1) as usize) {
        run_start(occ, r - 1)
    } else {
        r
    }
}

/// The moves that open the rightmost slot of the window below `hi` for a block inserted at its
/// high end: nothing when that slot is free; otherwise the occupied run ending there shifts one
/// step left, lowest first, into the free slot just below it. `None` when there is no such slot.
pub open spec fn right_end_plan(occ: Seq<usize>, free: Seq<usize>, hi: int) -> Option<(Seq<(usize, usize)>, usize)> {
    if hi <= 0 {
        None
    } else if free.contains((hi - 1) as usize) {
        Some((Seq::empty(), (hi - 1) as usize))
    } else {
        let rs = run_start(occ.to_set(), hi - 1);
        if rs == 0 || !free.contains((rs - 1) as usize) {
            None
        } else {
            Some((Seq::new((hi - rs) as nat, |m: int| ((rs + m) as usize, (rs + m - 1) as usize)), (hi - 1) as usize))
        }
    }
}

/// Whether `x` is one of `v`.
pub(crate) fn slots_contain_vec(v: &Vec<usize>, x: usize) -> (r: bool)
    ensures
        r == v@.to_set().contains(x),
{
    let r = slots_contain(v.as_slice(), x);
    proof {
        assert(v@.to_set().contains(x) == v@.contains(x));
    }
    r
}

/// Whether `x` is one of `s`.
fn slots_contain(s: &[usize], x: usize) -> (r: bool)
    ensures
        r == s@.contains(x),
{
    let mut i: usize = 0;
    while i < s.len()
        invariant
            i <= s@.len(),
            forall|k: int| 0 <= k < i ==> s@[k] != x,
        decreases s.len() - i,
    {
        if s[i] == x {
            return true;
        }
        i = i + 1;
    }
    false
}

/// Plan the moves that open the rightmost slot of a window (`hi` exclusive) for a block inserted
/// at its high end, shifting the occupied run ending there one step left. Mirror of
/// [`plan_row_insert`]: inserting just before a split keeps the split's column where it is.
pub fn plan_insert_right_end(occ: &[usize], free: &[usize], hi: usize) -> (r: Option<(Vec<(usize, usize)>, usize)>)
    ensures
        r is None <==> right_end_plan(occ@, free@, hi as int) is None,
        r matches Some(p) ==> right_end_plan(occ@, free@, hi as int) == Some((p.0@, p.1)),
{
    if hi == 0 {
        return None;
    }
    let target = hi - 1;
    if slots_contain(free, target) {
        return Some((Vec::new(), target));
    }
    let ghost os = occ@.to_set();
    let mut run: usize = target;
    while run > 0 && slots_contain(occ, run - 1)
        invariant
            os == occ@.to_set(),
            run <= target,
            run_start(os, target as int) == run_start(os, run as int),
        decreases run,
    {
        proof {
            assert(os.contains((run - 1) as usize));
        }
        run = run - 1;
    }
    proof {
        assert(run_start(os, run as int) == run as int);
    }
    if run == 0 {
        return None;
    }
    if !slots_contain(free, run - 1) {
        return None;
    }
    let mut moves: Vec<(usize, usize)> = Vec::new();
    let mut s: usize = run;
    while s <= target
        invariant
            1 <= run <= s <= target + 1,
            target + 1 == hi,
            moves@ == Seq::new((s - run) as nat, |m: int| ((run + m) as usize, (run + m - 1) as usize)),
        decreases hi - s,
    {
        moves.push((s, s - 1));
        proof {
            assert(moves@ =~= Seq::new((s + 1 - run) as nat, |m: int| ((run + m) as usize, (run + m - 1) as usize)));
        }
        s = s + 1;
    }
    Some((moves, target))
}

/// A board — which block (by id) sits in which slot — after running `moves` in order, or `None`
/// when some move's source is empty or its destination is taken when it runs.
pub open spec fn apply_moves(board: Map<usize, int>, moves: Seq<(usize, usize)>) -> Option<Map<usize, int>>
    decreases moves.len(),
{
    if moves.len() == 0 {
        Some(board)
    } else {
        let a = moves[0].0;
        let b = moves[0].1;
        if board.dom().contains(a) && !board.dom().contains(b) {
            apply_moves(board.remove(a).insert(b, board[a]), moves.drop_first())
        } else {
            None
        }
    }
}

/// After moving the block at position `from` to position `to`, the position whose block now sits
/// at position `p`.
pub open spec fn reorder_source(from: int, to: int, p: int) -> int {
    if to > from {
        if from <= p < to { p + 1 } else if p == to { from } else { p }
    } else {
        if to < p <= from { p - 1 } else if p == to { from } else { p }
    }
}

/// `after` is `board` with the row `s` reordered (block at `from` moved to `to`) and every other
/// slot as it was.
pub open spec fn is_reordered(after: Map<usize, int>, board: Map<usize, int>, s: Seq<usize>, from: int, to: int) -> bool {
    &&& after.dom() == board.dom()
    &&& forall|p: int| 0 <= p < s.len() ==> after[#[trigger] s[p]] == board[s[reorder_source(from, to, p)]]
    &&& forall|x: usize| board.dom().contains(x) && !s.contains(x) ==> after[x] == board[x]
}

proof fn lemma_reorder_forward(board: Map<usize, int>, s: Seq<usize>, scratch: usize, from: int, to: int, m: int, cur: Map<usize, int>)
    requires
        s.no_duplicates(),
        0 <= from < to < s.len(),
        0 <= m <= to - from,
        forall|p: int| 0 <= p < s.len() ==> board.dom().contains(#[trigger] s[p]),
        !board.dom().contains(scratch),
        cur.dom() == board.dom().remove(s[from + m]).insert(scratch),
        cur[scratch] == board[s[from]],
        forall|p: int| 0 <= p < s.len() && p != from + m ==> cur[#[trigger] s[p]] == (if from <= p < from + m { board[s[p + 1]] } else { board[s[p]] }),
        forall|x: usize| board.dom().contains(x) && !s.contains(x) ==> cur[x] == board[x],
    ensures
        apply_moves(cur, Seq::new((to - from - m) as nat, |k: int| (s[from + 1 + m + k], s[from + m + k])) + seq![(scratch, s[to])])
            matches Some(after) && is_reordered(after, board, s, from, to),
    decreases to - from - m,
{
    let moves = Seq::new((to - from - m) as nat, |k: int| (s[from + 1 + m + k], s[from + m + k])) + seq![(scratch, s[to])];
    assert(s.contains(s[from + m]));
    if m == to - from {
        assert(moves =~= seq![(scratch, s[to])]);
        let after = cur.remove(scratch).insert(s[to], cur[scratch]);
        assert(moves.drop_first() =~= Seq::<(usize, usize)>::empty());
        assert(apply_moves(cur, moves) == apply_moves(after, moves.drop_first()));
        assert(after.dom() =~= board.dom());
        assert forall|p: int| 0 <= p < s.len() implies after[#[trigger] s[p]] == board[s[reorder_source(from, to, p)]] by {
            if p != to {
                assert(s[p] != s[to]);
                assert(s[p] != scratch);
            }
        }
        assert forall|x: usize| board.dom().contains(x) && !s.contains(x) implies after[x] == board[x] by {
            assert(x != s[to]);
        }
    } else {
        let a = s[from + m + 1];
        let b = s[from + m];
        assert(a != b);
        assert(s.contains(a));
        assert(a != scratch);
        let next = cur.remove(a).insert(b, cur[a]);
        assert(moves[0] == (a, b));
        assert(moves.drop_first() =~= Seq::new((to - from - (m + 1)) as nat, |k: int| (s[from + 1 + (m + 1) + k], s[from + (m + 1) + k])) + seq![(scratch, s[to])]);
        assert(next.dom() =~= board.dom().remove(s[from + m + 1]).insert(scratch));
        assert forall|p: int| 0 <= p < s.len() && p != from + m + 1 implies next[#[trigger] s[p]] == (if from <= p < from + m + 1 { board[s[p + 1]] } else { board[s[p]] }) by {
            if p == from + m {
            } else {
                assert(s[p] != b);
                assert(s[p] != a);
            }
        }
        assert forall|x: usize| board.dom().contains(x) && !s.contains(x) implies next[x] == board[x] by {
            assert(x != a && x != b);
        }
        lemma_reorder_forward(board, s, scratch, from, to, m + 1, next);
    }
}

proof fn lemma_reorder_backward(board: Map<usize, int>, s: Seq<usize>, scratch: usize, from: int, to: int, m: int, cur: Map<usize, int>)
    requires
        s.no_duplicates(),
        0 <= to < from < s.len(),
        0 <= m <= from - to,
        forall|p: int| 0 <= p < s.len() ==> board.dom().contains(#[trigger] s[p]),
        !board.dom().contains(scratch),
        cur.dom() == board.dom().remove(s[from - m]).insert(scratch),
        cur[scratch] == board[s[from]],
        forall|p: int| 0 <= p < s.len() && p != from - m ==> cur[#[trigger] s[p]] == (if from - m < p <= from { board[s[p - 1]] } else { board[s[p]] }),
        forall|x: usize| board.dom().contains(x) && !s.contains(x) ==> cur[x] == board[x],
    ensures
        apply_moves(cur, Seq::new((from - to - m) as nat, |k: int| (s[from - 1 - m - k], s[from - m - k])) + seq![(scratch, s[to])])
            matches Some(after) && is_reordered(after, board, s, from, to),
    decreases from - to - m,
{
    let moves = Seq::new((from - to - m) as nat, |k: int| (s[from - 1 - m - k], s[from - m - k])) + seq![(scratch, s[to])];
    assert(s.contains(s[from - m]));
    if m == from - to {
        assert(moves =~= seq![(scratch, s[to])]);
        let after = cur.remove(scratch).insert(s[to], cur[scratch]);
        assert(moves.drop_first() =~= Seq::<(usize, usize)>::empty());
        assert(apply_moves(cur, moves) == apply_moves(after, moves.drop_first()));
        assert(after.dom() =~= board.dom());
        assert forall|p: int| 0 <= p < s.len() implies after[#[trigger] s[p]] == board[s[reorder_source(from, to, p)]] by {
            if p != to {
                assert(s[p] != s[to]);
                assert(s[p] != scratch);
            }
        }
        assert forall|x: usize| board.dom().contains(x) && !s.contains(x) implies after[x] == board[x] by {
            assert(x != s[to]);
        }
    } else {
        let a = s[from - m - 1];
        let b = s[from - m];
        assert(a != b);
        assert(s.contains(a));
        assert(a != scratch);
        let next = cur.remove(a).insert(b, cur[a]);
        assert(moves[0] == (a, b));
        assert(moves.drop_first() =~= Seq::new((from - to - (m + 1)) as nat, |k: int| (s[from - 1 - (m + 1) - k], s[from - (m + 1) - k])) + seq![(scratch, s[to])]);
        assert(next.dom() =~= board.dom().remove(s[from - (m + 1)]).insert(scratch));
        assert forall|p: int| 0 <= p < s.len() && p != from - (m + 1) implies next[#[trigger] s[p]] == (if from - (m + 1) < p <= from { board[s[p - 1]] } else { board[s[p]] }) by {
            if p == from - m {
            } else {
                assert(s[p] != b);
                assert(s[p] != a);
            }
        }
        assert forall|x: usize| board.dom().contains(x) && !s.contains(x) implies next[x] == board[x] by {
            assert(x != a && x != b);
        }
        lemma_reorder_backward(board, s, scratch, from, to, m + 1, next);
    }
}

/// A reorder plan runs on the device: every move's destination is empty when it runs, the blocks
/// of the row end in their new order (the dragged block at `to`, the ones between shifted one
/// step toward where it was), `scratch` is empty again, and every other slot is as it was.
pub proof fn reorder_plan_runs(board: Map<usize, int>, s: Seq<usize>, scratch: usize, from: int, to: int)
    requires
        s.no_duplicates(),
        0 <= from < s.len(),
        0 <= to < s.len(),
        forall|p: int| 0 <= p < s.len() ==> board.dom().contains(#[trigger] s[p]),
        !board.dom().contains(scratch),
    ensures
        apply_moves(board, reorder_plan(s, scratch, from, to)) matches Some(after)
            && is_reordered(after, board, s, from, to),
{
    let plan = reorder_plan(s, scratch, from, to);
    if from == to {
        assert(plan =~= Seq::<(usize, usize)>::empty());
        assert(board.dom() =~= board.dom());
    } else {
        assert(s.contains(s[from]));
        let cur = board.remove(s[from]).insert(scratch, board[s[from]]);
        assert(cur.dom() =~= board.dom().remove(s[from]).insert(scratch));
        if to > from {
            let rest = Seq::new((to - from) as nat, |k: int| (s[from + 1 + k], s[from + k])) + seq![(scratch, s[to])];
            assert(plan[0] == (s[from], scratch));
            assert(plan.drop_first() =~= Seq::new((to - from - 0) as nat, |k: int| (s[from + 1 + 0 + k], s[from + 0 + k])) + seq![(scratch, s[to])]);
            assert forall|p: int| 0 <= p < s.len() && p != from + 0 implies cur[#[trigger] s[p]] == (if from <= p < from + 0 { board[s[p + 1]] } else { board[s[p]] }) by {
                assert(s[p] != s[from]);
                assert(s[p] != scratch);
            }
            assert forall|x: usize| board.dom().contains(x) && !s.contains(x) implies cur[x] == board[x] by {
                assert(x != s[from]);
            }
            lemma_reorder_forward(board, s, scratch, from, to, 0, cur);
        } else {
            assert(plan[0] == (s[from], scratch));
            assert(plan.drop_first() =~= Seq::new((from - to - 0) as nat, |k: int| (s[from - 1 - 0 - k], s[from - 0 - k])) + seq![(scratch, s[to])]);
            assert forall|p: int| 0 <= p < s.len() && p != from - 0 implies cur[#[trigger] s[p]] == (if from - 0 < p <= from { board[s[p - 1]] } else { board[s[p]] }) by {
                assert(s[p] != s[from]);
                assert(s[p] != scratch);
            }
            assert forall|x: usize| board.dom().contains(x) && !s.contains(x) implies cur[x] == board[x] by {
                assert(x != s[from]);
            }
            lemma_reorder_backward(board, s, scratch, from, to, 0, cur);
        }
    }
}

proof fn lemma_least_above(f: Set<usize>, x: usize)
    requires
        f.finite(),
        has_above(f, x),
    ensures
        f.contains(least_above(f, x)),
        least_above(f, x) > x,
        forall|y: usize| #[trigger] f.contains(y) && y > x ==> least_above(f, x) <= y,
    decreases f.len(),
{
    let e = choose|d: usize| f.contains(d) && d > x;
    let g = f.remove(e);
    if has_above(g, x) {
        lemma_least_above(g, x);
        let m = least_above(g, x);
        let w = if m < e { m } else { e };
        assert(f.contains(w) && w > x && forall|y: usize| #[trigger] f.contains(y) && y > x ==> w <= y) by {
            assert forall|y: usize| #[trigger] f.contains(y) && y > x implies w <= y by {
                if y != e {
                    assert(g.contains(y));
                }
            }
        }
    } else {
        assert(f.contains(e) && e > x && forall|y: usize| #[trigger] f.contains(y) && y > x ==> e <= y) by {
            assert forall|y: usize| #[trigger] f.contains(y) && y > x implies e <= y by {
                if y != e {
                    assert(g.contains(y));
                }
            }
        }
    }
}

/// Slot `x` is one of `occ[lo..hi]`.
pub open spec fn in_slots(occ: Seq<usize>, lo: int, hi: int, x: usize) -> bool {
    exists|p: int| lo <= p < hi && #[trigger] occ[p] == x
}

/// The slots of `s` rise strictly from left to right.
pub open spec fn increasing(s: Seq<usize>) -> bool {
    forall|a: int, b: int| 0 <= a < b < s.len() ==> s[a] < s[b]
}

/// `x` is the slot one of `moves` picks a block up from.
pub open spec fn moves_from(moves: Seq<(usize, usize)>, x: usize) -> bool {
    exists|k: int| 0 <= k < moves.len() && (#[trigger] moves[k]).0 == x
}

/// Every block of `board` that no move picks up is still in its slot in `after`.
pub open spec fn keeps_unmoved(board: Map<usize, int>, after: Map<usize, int>, moves: Seq<(usize, usize)>) -> bool {
    forall|x: usize| #[trigger] board.dom().contains(x) && !moves_from(moves, x) ==> after.dom().contains(x) && after[x] == board[x]
}

/// The block each move picks up is, in `after`, at that move's destination.
pub open spec fn lands_each(board: Map<usize, int>, after: Map<usize, int>, moves: Seq<(usize, usize)>) -> bool {
    forall|k: int| 0 <= k < moves.len() ==> after.dom().contains((#[trigger] moves[k]).1) && after[moves[k].1] == board[moves[k].0]
}

/// The moves pick up the blocks of `occ[pos..]`, the last first, each to a higher slot.
pub open spec fn shifts_suffix_right(occ: Seq<usize>, pos: int, moves: Seq<(usize, usize)>) -> bool {
    &&& moves.len() == (if pos < occ.len() { occ.len() - pos } else { 0 })
    &&& forall|k: int| 0 <= k < moves.len() ==> (#[trigger] moves[k]).0 == occ[occ.len() - 1 - k] && moves[k].0 < moves[k].1
}

/// Each moved block lands no higher than the slot the block moved before it left, so blocks
/// shifted right keep their order.
pub open spec fn shifts_in_order(moves: Seq<(usize, usize)>) -> bool {
    forall|k: int| 1 <= k < moves.len() ==> (#[trigger] moves[k]).1 <= moves[k - 1].0
}

proof fn lemma_shift_shape(occ: Seq<usize>, f: Set<usize>, pos: int, i: int)
    requires
        0 <= pos < i <= occ.len(),
        f.finite(),
        shift_right(occ, f, pos, i) is Some,
    ensures
        (shift_right(occ, f, pos, i)->0).len() == i - pos,
        forall|k: int| 0 <= k < i - pos ==> (#[trigger] (shift_right(occ, f, pos, i)->0)[k]).0 == occ[i - 1 - k]
            && (shift_right(occ, f, pos, i)->0)[k].0 < (shift_right(occ, f, pos, i)->0)[k].1,
        f.contains((shift_right(occ, f, pos, i)->0)[0].1),
        forall|y: usize| #[trigger] f.contains(y) && y > occ[i - 1] ==> (shift_right(occ, f, pos, i)->0)[0].1 <= y,
        increasing(occ) ==> shifts_in_order(shift_right(occ, f, pos, i)->0),
    decreases i - pos,
{
    let from = occ[i - 1];
    lemma_least_above(f, from);
    let d = least_above(f, from);
    let f2 = f.remove(d).insert(from);
    let rest = shift_right(occ, f2, pos, i - 1)->0;
    let m = seq![(from, d)] + rest;
    assert(shift_right(occ, f, pos, i) == Some(m));
    assert(m[0] == (from, d));
    if i - 1 > pos {
        lemma_shift_shape(occ, f2, pos, i - 1);
        assert forall|k: int| 1 <= k < m.len() implies #[trigger] m[k] == rest[k - 1] by {}
        assert forall|k: int| 0 <= k < i - pos implies (#[trigger] m[k]).0 == occ[i - 1 - k] && m[k].0 < m[k].1 by {
            if k > 0 {
                assert(m[k] == rest[k - 1]);
            }
        }
        if increasing(occ) {
            assert(f2.contains(from) && from > occ[i - 2]);
            assert forall|k: int| 1 <= k < m.len() implies (#[trigger] m[k]).1 <= m[k - 1].0 by {
                assert(m[k] == rest[k - 1]);
                if k > 1 {
                    assert(m[k - 1] == rest[k - 2]);
                }
            }
        }
    } else {
        assert(rest =~= Seq::<(usize, usize)>::empty());
        assert(m.len() == 1);
    }
}

proof fn lemma_shift_some(occ: Seq<usize>, f: Set<usize>, pos: int, i: int)
    requires
        increasing(occ),
        0 <= pos < i <= occ.len(),
        has_above(f, occ[i - 1]),
    ensures
        shift_right(occ, f, pos, i) is Some,
    decreases i - pos,
{
    let from = occ[i - 1];
    let d = least_above(f, from);
    let f2 = f.remove(d).insert(from);
    if i - 1 > pos {
        assert(occ[i - 2] < from);
        assert(f2.contains(from));
        assert(has_above(f2, occ[i - 2]));
        lemma_shift_some(occ, f2, pos, i - 1);
    }
    assert(shift_right(occ, f2, pos, i - 1) is Some);
    assert(d == least_above(f, from));
}

proof fn lemma_shift_right_runs(cur: Map<usize, int>, occ: Seq<usize>, f: Set<usize>, pos: int, i: int)
    requires
        occ.no_duplicates(),
        0 <= pos < i <= occ.len(),
        f.finite(),
        forall|p: int| pos <= p < i ==> cur.dom().contains(#[trigger] occ[p]),
        forall|x: usize| #[trigger] f.contains(x) ==> !cur.dom().contains(x),
        shift_right(occ, f, pos, i) is Some,
    ensures
        apply_moves(cur, shift_right(occ, f, pos, i)->0) matches Some(after)
            && !after.dom().contains(occ[pos])
            && (forall|x: usize| #[trigger] cur.dom().contains(x) && !in_slots(occ, pos, i, x) ==> after.dom().contains(x) && after[x] == cur[x])
            && lands_each(cur, after, shift_right(occ, f, pos, i)->0),
    decreases i - pos,
{
    let from = occ[i - 1];
    lemma_least_above(f, from);
    let d = least_above(f, from);
    let f2 = f.remove(d).insert(from);
    let rest = shift_right(occ, f2, pos, i - 1)->0;
    let moves = seq![(from, d)] + rest;
    assert(shift_right(occ, f, pos, i) == Some(moves));
    assert(moves[0] == (from, d));
    assert(moves.drop_first() =~= rest);
    assert(cur.dom().contains(from));
    assert(!cur.dom().contains(d));
    let next = cur.remove(from).insert(d, cur[from]);
    assert(apply_moves(cur, moves) == apply_moves(next, rest));
    if i - 1 == pos {
        assert(rest =~= Seq::<(usize, usize)>::empty());
        assert(apply_moves(next, rest) == Some(next));
        assert forall|x: usize| #[trigger] cur.dom().contains(x) && !in_slots(occ, pos, i, x) implies next.dom().contains(x) && next[x] == cur[x] by {
            assert(occ[i - 1] == from);
        }
        assert(lands_each(cur, next, moves)) by {
            assert forall|k: int| 0 <= k < moves.len() implies next.dom().contains((#[trigger] moves[k]).1) && next[moves[k].1] == cur[moves[k].0] by {
                assert(k == 0);
            }
        }
    } else {
        assert forall|p: int| pos <= p < i - 1 implies next.dom().contains(#[trigger] occ[p]) by {
            assert(occ[p] != from);
        }
        assert forall|x: usize| #[trigger] f2.contains(x) implies !next.dom().contains(x) by {
            if x != from {
                assert(f.contains(x));
            }
        }
        assert(f2.finite());
        lemma_shift_right_runs(next, occ, f2, pos, i - 1);
        lemma_shift_shape(occ, f2, pos, i - 1);
        let after = apply_moves(next, rest)->0;
        assert forall|x: usize| #[trigger] cur.dom().contains(x) && !in_slots(occ, pos, i, x) implies after.dom().contains(x) && after[x] == cur[x] by {
            assert(occ[i - 1] == from);
            assert(next.dom().contains(x));
            assert(!in_slots(occ, pos, i - 1, x)) by {
                if in_slots(occ, pos, i - 1, x) {
                    let p = choose|p: int| pos <= p < i - 1 && #[trigger] occ[p] == x;
                    assert(occ[p] == x);
                }
            }
        }
        assert(!in_slots(occ, pos, i - 1, d)) by {
            if in_slots(occ, pos, i - 1, d) {
                let p = choose|p: int| pos <= p < i - 1 && #[trigger] occ[p] == d;
                assert(cur.dom().contains(occ[p]));
            }
        }
        assert(next.dom().contains(d));
        assert forall|k: int| 0 <= k < moves.len() implies after.dom().contains((#[trigger] moves[k]).1) && after[moves[k].1] == cur[moves[k].0] by {
            if k > 0 {
                assert(moves[k] == rest[k - 1]);
                let src = rest[k - 1].0;
                assert(src == occ[i - 2 - (k - 1)]);
                assert(cur.dom().contains(occ[i - 2 - (k - 1)]));
                assert(src != from);
                assert(src != d);
            }
        }
    }
}

/// A row-insert plan runs on the device: with the row's blocks on the board and its free slots
/// empty, every move lands in an empty slot and the slot the newcomer is meant for is empty
/// afterwards. The moves pick up the blocks from position `pos` on, the last first, and each
/// ends in a higher slot; every other block, those before `pos` among them, stays where it was.
/// With the row in increasing slot order, each shifted block lands no higher than the slot of
/// the block after it, so the shifted blocks keep their order.
pub proof fn row_insert_plan_runs(board: Map<usize, int>, occ: Seq<usize>, free: Seq<usize>, pos: int)
    requires
        pos >= 0,
        occ.no_duplicates(),
        forall|p: int| 0 <= p < occ.len() ==> board.dom().contains(#[trigger] occ[p]),
        forall|k: int| 0 <= k < free.len() ==> !board.dom().contains(#[trigger] free[k]),
        row_insert_plan(occ, free, pos) is Some,
    ensures
        apply_moves(board, (row_insert_plan(occ, free, pos)->0).0) matches Some(after)
            && !after.dom().contains((row_insert_plan(occ, free, pos)->0).1)
            && keeps_unmoved(board, after, (row_insert_plan(occ, free, pos)->0).0)
            && lands_each(board, after, (row_insert_plan(occ, free, pos)->0).0),
        shifts_suffix_right(occ, pos, (row_insert_plan(occ, free, pos)->0).0),
        increasing(occ) ==> shifts_in_order((row_insert_plan(occ, free, pos)->0).0),
{
    let plan = row_insert_plan(occ, free, pos)->0;
    if pos >= occ.len() {
        let last = if occ.len() == 0 { None } else { Some(occ.last()) };
        lemma_first_free_after(free, last);
        assert(plan.0 =~= Seq::<(usize, usize)>::empty());
        assert(apply_moves(board, plan.0) == Some(board));
    } else {
        let f = free.to_set();
        assert(f.finite()) by {
            free.lemma_cardinality_of_set();
        }
        assert forall|x: usize| #[trigger] f.contains(x) implies !board.dom().contains(x) by {
            let k = choose|k: int| 0 <= k < free.len() && free[k] == x;
            assert(!board.dom().contains(free[k]));
        }
        let n = occ.len() as int;
        lemma_shift_right_runs(board, occ, f, pos, n);
        lemma_shift_shape(occ, f, pos, n);
        let moves = plan.0;
        let after = apply_moves(board, moves)->0;
        assert forall|x: usize| #[trigger] board.dom().contains(x) && !moves_from(moves, x) implies after.dom().contains(x) && after[x] == board[x] by {
            if in_slots(occ, pos, n, x) {
                let p = choose|p: int| pos <= p < n && #[trigger] occ[p] == x;
                assert(moves[n - 1 - p].0 == x);
            }
        }
    }
}

/// With the row in increasing slot order, a row-insert plan fails exactly when there is no room:
/// appending with no free slot at all, or inserting with no free slot above the last block.
pub proof fn row_insert_plan_fails_exactly(occ: Seq<usize>, free: Seq<usize>, pos: int)
    requires
        pos >= 0,
        increasing(occ),
    ensures
        row_insert_plan(occ, free, pos) is None <==> (if pos >= occ.len() {
            free.len() == 0
        } else {
            !has_above(free.to_set(), occ.last())
        }),
{
    if pos >= occ.len() {
        let last = if occ.len() == 0 { None } else { Some(occ.last()) };
        lemma_first_free_after(free, last);
    } else if has_above(free.to_set(), occ.last()) {
        lemma_shift_some(occ, free.to_set(), pos, occ.len() as int);
    }
}

proof fn lemma_first_free_after(free: Seq<usize>, last: Option<usize>)
    ensures
        first_free_after(free, last) matches Some(t) ==> free.contains(t),
    decreases free.len(),
{
    if free.len() > 0 {
        assert(free[0] == free[0]);
        lemma_first_free_after(free.drop_first(), last);
        match first_free_after(free.drop_first(), last) {
            Some(t) => {
                let k = choose|k: int| 0 <= k < free.drop_first().len() && free.drop_first()[k] == t;
                assert(free[k + 1] == t);
            }
            None => {}
        }
    }
}

proof fn lemma_run_start(occ: Set<usize>, r: int)
    requires
        r >= 0,
    ensures
        0 <= run_start(occ, r) <= r,
        forall|x: int| run_start(occ, r) <= x < r ==> occ.contains(#[trigger] (x as usize)),
    decreases r,
{
    if r > 0 && occ.contains((r - 1) as usize) {
        lemma_run_start(occ, r - 1);
    }
}

proof fn lemma_shift_left_runs(cur: Map<usize, int>, rs: int, hi: int, m: int)
    requires
        1 <= rs < hi,
        hi <= usize::MAX + 1,
        0 <= m <= hi - rs,
        forall|x: int| rs + m <= x < hi ==> cur.dom().contains(#[trigger] (x as usize)),
        !cur.dom().contains((rs + m - 1) as usize),
    ensures
        apply_moves(cur, Seq::new((hi - rs - m) as nat, |k: int| ((rs + m + k) as usize, (rs + m + k - 1) as usize)))
            matches Some(after) && !after.dom().contains((hi - 1) as usize)
            && (forall|x: usize| #[trigger] cur.dom().contains(x) && !(rs + m <= x < hi) ==> after.dom().contains(x) && after[x] == cur[x])
            && (forall|k: int| 0 <= k < hi - rs - m ==> after.dom().contains(#[trigger] ((rs + m + k - 1) as usize))
                && after[(rs + m + k - 1) as usize] == cur[(rs + m + k) as usize]),
    decreases hi - rs - m,
{
    let moves = Seq::new((hi - rs - m) as nat, |k: int| ((rs + m + k) as usize, (rs + m + k - 1) as usize));
    if m < hi - rs {
        let a = (rs + m) as usize;
        let b = (rs + m - 1) as usize;
        assert(cur.dom().contains(a));
        assert(moves[0] == (a, b));
        let next = cur.remove(a).insert(b, cur[a]);
        assert(moves.drop_first() =~= Seq::new((hi - rs - (m + 1)) as nat, |k: int| ((rs + (m + 1) + k) as usize, (rs + (m + 1) + k - 1) as usize)));
        assert forall|x: int| rs + m + 1 <= x < hi implies next.dom().contains(#[trigger] (x as usize)) by {
            assert(cur.dom().contains(x as usize));
        }
        lemma_shift_left_runs(next, rs, hi, m + 1);
        let after = apply_moves(next, moves.drop_first())->0;
        assert forall|x: usize| #[trigger] cur.dom().contains(x) && !(rs + m <= x < hi) implies after.dom().contains(x) && after[x] == cur[x] by {
            assert(next.dom().contains(x));
        }
        assert(next.dom().contains(b));
        assert forall|k: int| 0 <= k < hi - rs - m implies after.dom().contains(#[trigger] ((rs + m + k - 1) as usize))
            && after[(rs + m + k - 1) as usize] == cur[(rs + m + k) as usize] by {
            if k > 0 {
                assert(((rs + (m + 1) + (k - 1) - 1) as usize) == ((rs + m + k - 1) as usize));
                assert(((rs + (m + 1) + (k - 1)) as usize) == ((rs + m + k) as usize));
                assert(cur.dom().contains((rs + m + k) as usize));
            }
        }
    }
}

/// The moves each take a block one slot left.
pub open spec fn shifts_left_by_one(moves: Seq<(usize, usize)>) -> bool {
    forall|k: int| 0 <= k < moves.len() ==> (#[trigger] moves[k]).1 + 1 == moves[k].0
}

/// A right-end insert plan runs on the device: with the window's occupied slots on the board, its
/// free slots empty and its rightmost slot one or the other, every move lands in an empty slot and
/// the rightmost slot is empty afterwards. Each moved block ends one slot left of where it was,
/// and every block no move picks up stays where it was.
pub proof fn right_end_plan_runs(board: Map<usize, int>, occ: Seq<usize>, free: Seq<usize>, hi: int)
    requires
        forall|k: int| 0 <= k < occ.len() ==> board.dom().contains(#[trigger] occ[k]),
        forall|k: int| 0 <= k < free.len() ==> !board.dom().contains(#[trigger] free[k]),
        hi <= usize::MAX + 1,
        right_end_plan(occ, free, hi) is Some,
        board.dom().contains((hi - 1) as usize) || free.contains((hi - 1) as usize),
    ensures
        apply_moves(board, (right_end_plan(occ, free, hi)->0).0) matches Some(after)
            && !after.dom().contains((right_end_plan(occ, free, hi)->0).1)
            && keeps_unmoved(board, after, (right_end_plan(occ, free, hi)->0).0)
            && lands_each(board, after, (right_end_plan(occ, free, hi)->0).0),
        shifts_left_by_one((right_end_plan(occ, free, hi)->0).0),
{
    let target = (hi - 1) as usize;
    let moves = (right_end_plan(occ, free, hi)->0).0;
    if free.contains(target) {
        let k = choose|k: int| 0 <= k < free.len() && free[k] == target;
        assert(!board.dom().contains(free[k]));
        assert(moves =~= Seq::<(usize, usize)>::empty());
        assert(apply_moves(board, moves) == Some(board));
    } else {
        let os = occ.to_set();
        let rs = run_start(os, hi - 1);
        lemma_run_start(os, hi - 1);
        let g = (rs - 1) as usize;
        assert(free.contains(g));
        let k = choose|k: int| 0 <= k < free.len() && free[k] == g;
        assert(!board.dom().contains(free[k]));
        assert forall|x: int| rs + 0 <= x < hi implies board.dom().contains(#[trigger] (x as usize)) by {
            if x < hi - 1 {
                assert(os.contains(x as usize));
                let j = choose|j: int| 0 <= j < occ.len() && occ[j] == x as usize;
                assert(board.dom().contains(occ[j]));
            }
        }
        assert(moves =~= Seq::new((hi - rs - 0) as nat, |k: int| ((rs + 0 + k) as usize, (rs + 0 + k - 1) as usize)));
        lemma_shift_left_runs(board, rs, hi, 0);
        let after = apply_moves(board, moves)->0;
        assert forall|x: usize| #[trigger] board.dom().contains(x) && !moves_from(moves, x) implies after.dom().contains(x) && after[x] == board[x] by {
            if rs <= x < hi {
                assert(moves[x - rs].0 == x);
            }
        }
        assert forall|j: int| 0 <= j < moves.len() implies after.dom().contains((#[trigger] moves[j]).1) && after[moves[j].1] == board[moves[j].0] by {
            assert(moves[j] == ((rs + 0 + j) as usize, (rs + 0 + j - 1) as usize));
        }
    }
}

} // verus!
