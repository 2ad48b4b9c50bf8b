//! Planning edits on one DSP's slot grid: which slots a row spans, where a dragged or added block
//! goes, which single moves get it there, and the guard that never lets a move land on a block.
//! A DSP's slots are read as [`GridSlot`]s in index order; wire slots are `dsp * 20 + index`.

use vstd::prelude::*;
use crate::routing::{plan_insert_right_end, plan_reorder, plan_row_insert, reorder_plan, right_end_plan, row_insert_plan};
use crate::text::{dec, dec_signed, owned, push_i64, push_str, push_u64};

verus! {

/// What occupies a slot.
#[derive(Debug, Clone, Copy, PartialEq, Eq, Structural)]
pub enum SlotKind {
    Empty,
    /// An effect block.
    Effect,
    /// The parallel split node.
    Split,
    /// The parallel mixer (join) node.
    Mixer,
    /// Any other fixed node (input, output).
    Other,
}

/// One slot of a DSP's grid.
#[derive(Debug, Clone, Copy, PartialEq, Eq, Structural)]
pub struct GridSlot {
    /// Index within the DSP.
    pub index: usize,
    /// The slot's global address, `dsp * 20 + index`.
    pub wire_slot: i64,
    pub kind: SlotKind,
}

/// A choice of slots by kind and position.
#[allow(inconsistent_fields)]
#[derive(Debug, Clone, Copy, PartialEq, Eq, Structural)]
pub enum Pick {
    /// Effect blocks strictly between `lo` and `hi`, except the one at `except`.
    EffectsBetween { lo: usize, hi: usize, except: i64 },
    /// Empty slots strictly between `lo` and `hi`.
    EmptiesBetween { lo: usize, hi: usize },
    /// Effect blocks below `hi`, except the one at `except`.
    EffectsBelow { hi: usize, except: i64 },
    /// Effect blocks from `lo` to `hi` inclusive (as wire slots), except the one at `except`
    /// (none when `except` is `None`).
    EffectsWithin { lo: i64, hi: i64, except: Option<i64> },
    /// Empty slots from `lo` to `hi` inclusive.
    EmptiesWithin { lo: i64, hi: i64 },
    /// Every effect block.
    Effects,
    /// Every empty slot.
    Empties,
    /// Every slot that is not empty, nodes included.
    NonEmpty,
}

/// Whether slot `b` is one `p` picks.
pub open spec fn picks(p: Pick, b: GridSlot) -> bool {
    let s = b.wire_slot as usize;
    match p {
        Pick::EffectsBetween { lo, hi, except } => b.kind is Effect && lo < s && s < hi && b.wire_slot != except,
        Pick::EmptiesBetween { lo, hi } => b.kind is Empty && lo < s && s < hi,
        Pick::EffectsBelow { hi, except } => b.kind is Effect && s < hi && b.wire_slot != except,
        Pick::EffectsWithin { lo, hi, except } => b.kind is Effect && lo <= b.wire_slot <= hi
            && (except matches Some(x) ==> b.wire_slot != x),
        Pick::EmptiesWithin { lo, hi } => b.kind is Empty && lo <= b.wire_slot <= hi,
        Pick::Effects => b.kind is Effect,
        Pick::Empties => b.kind is Empty,
        Pick::NonEmpty => !(b.kind is Empty),
    }
}

/// The wire slots (as `usize`) of the slots `p` picks, in order.
pub open spec fn pick_slots(blocks: Seq<GridSlot>, p: Pick) -> Seq<usize>
    decreases blocks.len(),
{
    if blocks.len() == 0 {
        Seq::empty()
    } else {
        let r = pick_slots(blocks.drop_last(), p);
        if picks(p, blocks.last()) { r.push(blocks.last().wire_slot as usize) } else { r }
    }
}

fn picks_exec(p: Pick, b: GridSlot) -> (r: bool)
    ensures
        r == picks(p, b),
{
    let s = b.wire_slot as usize;
    match p {
        Pick::EffectsBetween { lo, hi, except } => b.kind == SlotKind::Effect && lo < s && s < hi && b.wire_slot != except,
        Pick::EmptiesBetween { lo, hi } => b.kind == SlotKind::Empty && lo < s && s < hi,
        Pick::EffectsBelow { hi, except } => b.kind == SlotKind::Effect && s < hi && b.wire_slot != except,
        Pick::EffectsWithin { lo, hi, except } => b.kind == SlotKind::Effect && lo <= b.wire_slot && b.wire_slot <= hi
            && match except { Some(x) => b.wire_slot != x, None => true },
        Pick::EmptiesWithin { lo, hi } => b.kind == SlotKind::Empty && lo <= b.wire_slot && b.wire_slot <= hi,
        Pick::Effects => b.kind == SlotKind::Effect,
        Pick::Empties => b.kind == SlotKind::Empty,
        Pick::NonEmpty => b.kind != SlotKind::Empty,
    }
}

/// The slots `p` picks (exec form of [`pick_slots`]).
pub fn select_slots(blocks: &Vec<GridSlot>, p: Pick) -> (v: Vec<usize>)
    ensures
        v@ == pick_slots(blocks@, p),
{
    let mut v: Vec<usize> = Vec::new();
    let mut i: usize = 0;
    while i < blocks.len()
        invariant
            i <= blocks@.len(),
            v@ == pick_slots(blocks@.take(i as int), p),
        decreases blocks.len() - i,
    {
        proof {
            assert(blocks@.take(i + 1).drop_last() =~= blocks@.take(i as int));
            assert(blocks@.take(i + 1).last() == blocks@[i as int]);
        }
        if picks_exec(p, blocks[i]) {
            v.push(blocks[i].wire_slot as usize);
        }
        i = i + 1;
    }
    proof {
        assert(blocks@.take(blocks@.len() as int) =~= blocks@);
    }
    v
}

/// The first slot of kind `k`.
pub open spec fn first_of_kind(blocks: Seq<GridSlot>, k: SlotKind) -> Option<GridSlot>
    decreases blocks.len(),
{
    if blocks.len() == 0 {
        None
    } else if blocks[0].kind == k {
        Some(blocks[0])
    } else {
        first_of_kind(blocks.drop_first(), k)
    }
}

/// The first slot of kind `k` (exec form of [`first_of_kind`]).
pub fn find_kind(blocks: &Vec<GridSlot>, k: SlotKind) -> (r: Option<GridSlot>)
    ensures
        r == first_of_kind(blocks@, k),
{
    let mut i: usize = 0;
    assert(blocks@.skip(0) =~= blocks@);
    while i < blocks.len()
        invariant
            i <= blocks@.len(),
            first_of_kind(blocks@, k) == first_of_kind(blocks@.skip(i as int), k),
        decreases blocks.len() - i,
    {
        proof {
            assert(blocks@.skip(i as int).drop_first() =~= blocks@.skip(i + 1));
            assert(blocks@.skip(i as int)[0] == blocks@[i as int]);
        }
        if blocks[i].kind == k {
            return Some(blocks[i]);
        }
        i = i + 1;
    }
    proof {
        assert(blocks@.skip(i as int) =~= Seq::<GridSlot>::empty());
    }
    None
}

/// The first of `free` strictly between `lower` and `upper`, else the first above `lower`, else
/// the first of all.
pub open spec fn series_target(free: Seq<usize>, lower: usize, upper: usize) -> Option<usize> {
    if exists|k: int| 0 <= k < free.len() && lower < #[trigger] free[k] < upper {
        Some(free[choose|k: int| 0 <= k < free.len() && lower < #[trigger] free[k] < upper
            && forall|j: int| 0 <= j < k ==> !(lower < #[trigger] free[j] < upper)])
    } else if exists|k: int| 0 <= k < free.len() && lower < #[trigger] free[k] {
        Some(free[choose|k: int| 0 <= k < free.len() && lower < #[trigger] free[k]
            && forall|j: int| 0 <= j < k ==> !(lower < #[trigger] free[j])])
    } else if free.len() > 0 {
        Some(free[0])
    } else {
        None
    }
}

/// The first of `free` strictly between `lower` and `upper` (or above `lower` when `upper` is
/// `None`).
fn first_free_between(free: &Vec<usize>, lower: usize, upper: Option<usize>) -> (r: Option<usize>)
    ensures
        r is None ==> forall|k: int| 0 <= k < free@.len() ==> !(lower < #[trigger] free@[k] && (upper matches Some(u) ==> free@[k] < u)),
        r matches Some(s) ==> exists|k: int| 0 <= k < free@.len() && #[trigger] free@[k] == s
            && lower < s && (upper matches Some(u) ==> s < u)
            && forall|j: int| 0 <= j < k ==> !(lower < #[trigger] free@[j] && (upper matches Some(u) ==> free@[j] < u)),
{
    let mut i: usize = 0;
    while i < free.len()
        invariant
            i <= free@.len(),
            forall|j: int| 0 <= j < i ==> !(lower < #[trigger] free@[j] && (upper matches Some(u) ==> free@[j] < u)),
        decreases free.len() - i,
    {
        let s = free[i];
        let below = match upper {
            Some(u) => s < u,
            None => true,
        };
        if lower < s && below {
            return Some(s);
        }
        i = i + 1;
    }
    None
}

/// Where a block dropped on the series row goes (exec form of [`series_target`]).
fn pick_series_target(free: &Vec<usize>, lower: usize, upper: usize) -> (r: Option<usize>)
    ensures
        r == series_target(free@, lower, upper),
{
    match first_free_between(free, lower, Some(upper)) {
        Some(s) => {
            proof {
                let k = choose|k: int| 0 <= k < free@.len() && #[trigger] free@[k] == s && lower < s && s < upper
                    && forall|j: int| 0 <= j < k ==> !(lower < #[trigger] free@[j] && free@[j] < upper);
                let c = choose|k: int| 0 <= k < free@.len() && lower < #[trigger] free@[k] < upper
                    && forall|j: int| 0 <= j < k ==> !(lower < #[trigger] free@[j] < upper);
                assert(c == k) by {
                    if c < k {
                        assert(!(lower < free@[c] && free@[c] < upper));
                    } else if c > k {
                        assert(!(lower < free@[k] < upper));
                    }
                }
            }
            return Some(s);
        }
        None => {}
    }
    match first_free_between(free, lower, None) {
        Some(s) => {
            proof {
                let k = choose|k: int| 0 <= k < free@.len() && #[trigger] free@[k] == s && lower < s
                    && forall|j: int| 0 <= j < k ==> !(lower < #[trigger] free@[j]);
                let c = choose|k: int| 0 <= k < free@.len() && lower < #[trigger] free@[k]
                    && forall|j: int| 0 <= j < k ==> !(lower < #[trigger] free@[j]);
                assert(c == k) by {
                    if c < k {
                        assert(!(lower < free@[c]));
                    } else if c > k {
                        assert(!(lower < free@[k]));
                    }
                }
                assert(!(exists|k: int| 0 <= k < free@.len() && lower < #[trigger] free@[k] < upper));
            }
            return Some(s);
        }
        None => {}
    }
    if free.len() > 0 {
        Some(free[0])
    } else {
        None
    }
}

/// The first wire slot of this DSP's grid (0 for an empty one).
pub open spec fn grid_base(blocks: Seq<GridSlot>) -> i64 {
    if blocks.len() == 0 { 0 } else { blocks[0].wire_slot }
}

/// The slot window of the row a block is moved into, exclusive of the nodes bounding it: the
/// parallel row runs from the split to the mixer (to the end of the grid without one), the series
/// row from the start of the grid to the split.
pub open spec fn row_window(blocks: Seq<GridSlot>, split: usize, parallel: bool) -> (usize, usize) {
    let mixer = match first_of_kind(blocks, SlotKind::Mixer) {
        Some(m) => m.wire_slot as usize,
        None => ((grid_base(blocks) as usize) + blocks.len()) as usize,
    };
    if parallel { (split, mixer) } else { (grid_base(blocks) as usize, split) }
}

/// The error for a row with no room.
pub open spec fn no_slot_message(parallel: bool) -> Seq<char> {
    "no free slot in the "@ + (if parallel { "parallel"@ } else { "series"@ }) + " row"@
}

/// How a block at `src` moves to position `pos` of the other row: on the parallel row the blocks
/// from `pos` on shift right to make room (so the section's left edge stays put); on the series
/// row it drops into the free slot between its new neighbours, else the first free one past the
/// left neighbour, else any free one. The moves to run first, and the slot it goes to.
pub open spec fn move_to_row_spec(blocks: Seq<GridSlot>, src: i64, parallel: bool, pos: int) -> Result<(Seq<(usize, usize)>, usize), Seq<char>> {
    match first_of_kind(blocks, SlotKind::Split) {
        None => Err("no split node in the preset grid"@),
        Some(sp) => {
            let (lo, hi) = row_window(blocks, sp.wire_slot as usize, parallel);
            let occ = pick_slots(blocks, Pick::EffectsBetween { lo, hi, except: src });
            let free = pick_slots(blocks, Pick::EmptiesBetween { lo, hi });
            if parallel {
                match row_insert_plan(occ, free, pos) {
                    Some(plan) => Ok(plan),
                    None => Err(no_slot_message(parallel)),
                }
            } else {
                let p = if pos < occ.len() { pos } else { occ.len() as int };
                let lower = if p == 0 { lo } else { occ[p - 1] };
                let upper = if p < occ.len() { occ[p] } else { hi };
                match series_target(free, lower, upper) {
                    Some(t) => Ok((Seq::empty(), t)),
                    None => Err(no_slot_message(parallel)),
                }
            }
        },
    }
}

/// Plan moving the block at `src` to position `pos` among the blocks of the other row (series
/// when `parallel` is false). The blocks are one DSP's slots in index order.
pub fn plan_move_to_row(blocks: &Vec<GridSlot>, src: i64, parallel: bool, pos: usize) -> (r: Result<(Vec<(usize, usize)>, usize), String>)
    requires
        blocks@.len() > 0 ==> (blocks@[0].wire_slot as usize) + blocks@.len() <= usize::MAX,
    ensures
        match move_to_row_spec(blocks@, src, parallel, pos as int) {
            Ok(plan) => r matches Ok(p) && p.0@ == plan.0 && p.1 == plan.1,
            Err(m) => r matches Err(e) && e@ == m,
        },
{
    let no_slot = if parallel { owned("no free slot in the parallel row") } else { owned("no free slot in the series row") };
    proof {
        reveal_strlit("no free slot in the parallel row");
        reveal_strlit("no free slot in the series row");
        reveal_strlit("no free slot in the ");
        reveal_strlit("parallel");
        reveal_strlit("series");
        reveal_strlit(" row");
        assert(no_slot@ =~= no_slot_message(parallel));
    }
    let base: i64 = if blocks.len() == 0 { 0 } else { blocks[0].wire_slot };
    let split = match find_kind(blocks, SlotKind::Split) {
        Some(b) => b.wire_slot as usize,
        None => {
            return Err(owned("no split node in the preset grid"));
        }
    };
    let mixer = match find_kind(blocks, SlotKind::Mixer) {
        Some(b) => b.wire_slot as usize,
        None => (base as usize) + blocks.len(),
    };
    let (lo, hi) = if parallel { (split, mixer) } else { (base as usize, split) };
    let occ = select_slots(blocks, Pick::EffectsBetween { lo, hi, except: src });
    let free = select_slots(blocks, Pick::EmptiesBetween { lo, hi });
    if parallel {
        match plan_row_insert(occ.as_slice(), free.as_slice(), pos) {
            Some(plan) => Ok(plan),
            None => Err(no_slot),
        }
    } else {
        let p = if pos < occ.len() { pos } else { occ.len() };
        let lower = if p == 0 { lo } else { occ[p - 1] };
        let upper = if p < occ.len() { occ[p] } else { hi };
        match pick_series_target(&free, lower, upper) {
            Some(t) => Ok((Vec::new(), t)),
            None => Err(no_slot),
        }
    }
}

/// How a block at `src` moves into the common section just before the split whose column is
/// `split_pos`: the common blocks shift left so the split's column stays where it is.
pub open spec fn before_split_spec(blocks: Seq<GridSlot>, src: i64, split_pos: Option<i64>) -> Result<(Seq<(usize, usize)>, usize), Seq<char>> {
    match split_pos {
        None => Err("preset is not split"@),
        Some(sp) => {
            let base = grid_base(blocks) as usize;
            let split_wire = (base + (sp as usize)) as usize;
            let occ = pick_slots(blocks, Pick::EffectsBelow { hi: split_wire, except: src });
            let free = pick_slots(blocks, Pick::EmptiesBetween { lo: base, hi: split_wire });
            match right_end_plan(occ, free, split_wire as int) {
                Some(plan) => Ok(plan),
                None => Err("no free slot before the split"@),
            }
        },
    }
}

/// Plan moving the block at `src` into the common section just before the split, given the
/// split's column (`None` when the DSP is not split).
pub fn plan_move_before_split(blocks: &Vec<GridSlot>, src: i64, split_pos: Option<i64>) -> (r: Result<(Vec<(usize, usize)>, usize), String>)
    requires
        split_pos matches Some(sp) ==> (grid_base(blocks@) as usize) + (sp as usize) <= usize::MAX,
    ensures
        match before_split_spec(blocks@, src, split_pos) {
            Ok(plan) => r matches Ok(p) && p.0@ == plan.0 && p.1 == plan.1,
            Err(m) => r matches Err(e) && e@ == m,
        },
{
    let sp = match split_pos {
        Some(sp) => sp,
        None => {
            return Err(owned("preset is not split"));
        }
    };
    let base: usize = if blocks.len() == 0 { 0 } else { blocks[0].wire_slot as usize };
    let split_wire = base + (sp as usize);
    let occ = select_slots(blocks, Pick::EffectsBelow { hi: split_wire, except: src });
    let free = select_slots(blocks, Pick::EmptiesBetween { lo: base, hi: split_wire });
    match plan_insert_right_end(occ.as_slice(), free.as_slice(), split_wire) {
        Some(plan) => Ok(plan),
        None => Err(owned("no free slot before the split")),
    }
}

/// Running `moves` and then the move of `src` into `target`, refusing the first one whose
/// destination is taken (`occ` is what is taken before the first): the moves that are sent, and
/// the slot refused, if one was.
pub open spec fn guarded_moves(moves: Seq<(usize, usize)>, src: i64, target: i64, occ: Set<usize>) -> (Seq<(i64, i64)>, Option<usize>)
    decreases moves.len(),
{
    if moves.len() == 0 {
        if occ.contains(target as usize) {
            (Seq::empty(), Some(target as usize))
        } else {
            (seq![(src, target)], None)
        }
    } else {
        let f = moves[0].0;
        let t = moves[0].1;
        if occ.contains(t) {
            (Seq::empty(), Some(t))
        } else {
            let rest = guarded_moves(moves.drop_first(), src, target, occ.remove(f).insert(t));
            (seq![(f as i64, t as i64)] + rest.0, rest.1)
        }
    }
}

/// The error for a move refused by the guard.
pub open spec fn occupied_message(dst: usize) -> Seq<char> {
    "refusing move onto occupied slot "@ + dec(dst as nat) + " (would delete a block)"@
}

/// The moves to send for a planned rearrangement: `moves`, then `src` into `target`, stopping
/// before the first that would land on a taken slot — a backstop so a planning mistake can never
/// delete a block. `occupied` is every slot taken at the start. The moves to send, and the error
/// to report after them, if any.
pub fn guard_moves(moves: &Vec<(usize, usize)>, src: i64, target: i64, occupied: &Vec<usize>) -> (r: (Vec<(i64, i64)>, Option<String>))
    ensures
        r.0@ == guarded_moves(moves@, src, target, occupied@.to_set()).0,
        r.1 is None <==> guarded_moves(moves@, src, target, occupied@.to_set()).1 is None,
        r.1 matches Some(m) ==> m@ == occupied_message(guarded_moves(moves@, src, target, occupied@.to_set()).1->0),
{
    let mut occ: Vec<usize> = Vec::new();
    let mut j: usize = 0;
    while j < occupied.len()
        invariant
            j <= occupied@.len(),
            occ@ == occupied@.take(j as int),
        decreases occupied.len() - j,
    {
        occ.push(occupied[j]);
        proof {
            assert(occupied@.take(j + 1) =~= occupied@.take(j as int).push(occupied@[j as int]));
        }
        j = j + 1;
    }
    proof {
        assert(occupied@.take(occupied@.len() as int) =~= occupied@);
    }
    let ghost whole = guarded_moves(moves@, src, target, occupied@.to_set());
    let mut sent: Vec<(i64, i64)> = Vec::new();
    let mut i: usize = 0;
    assert(moves@.skip(0) =~= moves@);
    while i < moves.len()
        invariant
            i <= moves@.len(),
            whole == guarded_moves(moves@, src, target, occupied@.to_set()),
            whole.0 == sent@ + guarded_moves(moves@.skip(i as int), src, target, occ@.to_set()).0,
            whole.1 == guarded_moves(moves@.skip(i as int), src, target, occ@.to_set()).1,
        decreases moves.len() - i,
    {
        let (f, t) = moves[i];
        let ghost rest = moves@.skip(i as int);
        proof {
            assert(rest[0] == moves@[i as int]);
            assert(rest.drop_first() =~= moves@.skip(i + 1));
        }
        if crate::routing::slots_contain_vec(&occ, t) {
            let mut m = owned("refusing move onto occupied slot ");
            push_u64(&mut m, t as u64);
            push_str(&mut m, " (would delete a block)");
            proof {
                assert(sent@ + Seq::<(i64, i64)>::empty() =~= sent@);
            }
            return (sent, Some(m));
        }
        let ghost before = sent@;
        sent.push((f as i64, t as i64));
        occ = crate::routing::swap_free(&occ, f, t);
        proof {
            let r2 = guarded_moves(moves@.skip(i + 1), src, target, occ@.to_set());
            assert(before + (seq![(f as i64, t as i64)] + r2.0) =~= sent@ + r2.0);
        }
        i = i + 1;
    }
    proof {
        assert(moves@.skip(i as int) =~= Seq::<(usize, usize)>::empty());
    }
    if crate::routing::slots_contain_vec(&occ, target as usize) {
        let mut m = owned("refusing move onto occupied slot ");
        push_u64(&mut m, (target as usize) as u64);
        push_str(&mut m, " (would delete a block)");
        proof {
            assert(sent@ + Seq::<(i64, i64)>::empty() =~= sent@);
        }
        return (sent, Some(m));
    }
    let ghost before = sent@;
    sent.push((src, target));
    proof {
        assert(before + seq![(src, target)] =~= sent@);
    }
    (sent, None)
}

/// Every move of `sent`, run in order from the occupancy `occ`, lands on a slot that is free at
/// that point.
pub open spec fn lands_free(occ: Set<usize>, sent: Seq<(i64, i64)>) -> bool
    decreases sent.len(),
{
    sent.len() == 0 || (!occ.contains(sent[0].1 as usize)
        && lands_free(occ.remove(sent[0].0 as usize).insert(sent[0].1 as usize), sent.drop_first()))
}

/// The guard never sends a move onto a taken slot: whatever the plan, every move that goes out
/// lands on a slot that is free when it runs, so no block is ever overwritten.
pub proof fn guard_never_lands_on_a_block(moves: Seq<(usize, usize)>, src: i64, target: i64, occ: Set<usize>)
    requires
        forall|k: int| 0 <= k < moves.len() ==> #[trigger] moves[k].0 <= i64::MAX && moves[k].1 <= i64::MAX,
    ensures
        lands_free(occ, guarded_moves(moves, src, target, occ).0),
    decreases moves.len(),
{
    if moves.len() > 0 {
        let f = moves[0].0;
        let t = moves[0].1;
        if !occ.contains(t) {
            let next = occ.remove(f).insert(t);
            assert forall|k: int| 0 <= k < moves.drop_first().len() implies #[trigger] moves.drop_first()[k].0 <= i64::MAX
                && moves.drop_first()[k].1 <= i64::MAX by {
                assert(moves.drop_first()[k] == moves[k + 1]);
            }
            guard_never_lands_on_a_block(moves.drop_first(), src, target, next);
            let rest = guarded_moves(moves.drop_first(), src, target, next);
            let sent = guarded_moves(moves, src, target, occ).0;
            assert(moves[0].0 <= i64::MAX && moves[0].1 <= i64::MAX);
            assert(sent.drop_first() =~= rest.0);
            assert(sent[0] == (f as i64, t as i64));
            assert((f as i64) as usize == f && (t as i64) as usize == t);
            assert(lands_free(next, sent.drop_first()));
        }
    } else {
        let sent = guarded_moves(moves, src, target, occ).0;
        if sent.len() > 0 {
            assert(lands_free(occ.remove(src as usize).insert(target as usize), sent.drop_first()));
        }
    }
}

/// The first position of `x` among `slots` (compared as wire slots).
pub open spec fn position_of(slots: Seq<usize>, x: i64) -> Option<int> {
    if exists|k: int| 0 <= k < slots.len() && #[trigger] slots[k] as i64 == x {
        Some(choose|k: int| 0 <= k < slots.len() && #[trigger] slots[k] as i64 == x
            && forall|j: int| 0 <= j < k ==> #[trigger] slots[j] as i64 != x)
    } else {
        None
    }
}

fn find_position(slots: &Vec<usize>, x: i64) -> (r: Option<usize>)
    ensures
        r is None <==> position_of(slots@, x) is None,
        r matches Some(k) ==> position_of(slots@, x) == Some(k as int) && k < slots@.len(),
{
    let mut i: usize = 0;
    while i < slots.len()
        invariant
            i <= slots@.len(),
            forall|j: int| 0 <= j < i ==> #[trigger] slots@[j] as i64 != x,
        decreases slots.len() - i,
    {
        if slots[i] as i64 == x {
            proof {
                let c = choose|k: int| 0 <= k < slots@.len() && #[trigger] slots@[k] as i64 == x
                    && forall|j: int| 0 <= j < k ==> #[trigger] slots@[j] as i64 != x;
                assert(c == i) by {
                    if c < i {
                        assert(slots@[c] as i64 != x);
                    } else if c > i {
                        assert(slots@[i as int] as i64 != x);
                    }
                }
            }
            return Some(i);
        }
        i = i + 1;
    }
    None
}

/// The wire-slot window of the row a slot is in: row B from `base + 11` to `base + 18`, the top
/// row from `base + 1` to `base + 8` (the nodes at 0, 9, 10 and 19 bound them).
pub open spec fn row_of(base: i64, s: i64) -> (i64, i64) {
    if 11 <= s - base <= 18 { ((base + 11) as i64, (base + 18) as i64) } else { ((base + 1) as i64, (base + 8) as i64) }
}

/// There is an effect block at wire slot `s`.
pub open spec fn has_block_at(blocks: Seq<GridSlot>, s: i64) -> bool {
    exists|k: int| 0 <= k < blocks.len() && #[trigger] blocks[k].wire_slot == s && blocks[k].kind is Effect
}

/// A slot lies in one of the two rows of its DSP.
pub open spec fn in_a_row(base: i64, s: i64) -> bool {
    1 <= s - base <= 8 || 11 <= s - base <= 18
}

/// How an insert is carried out: within a row, a reorder through a spare slot; across rows, the
/// destination row's blocks shift to open `target`, and the block moves there.
pub enum InsertPlan {
    Reorder(Vec<(usize, usize)>),
    Shift { moves: Vec<(usize, usize)>, target: usize },
}

/// An insert plan as values.
pub enum InsertSpec {
    Reorder(Seq<(usize, usize)>),
    Shift(Seq<(usize, usize)>, usize),
}

pub open spec fn insert_view(p: InsertPlan) -> InsertSpec {
    match p {
        InsertPlan::Reorder(m) => InsertSpec::Reorder(m@),
        InsertPlan::Shift { moves, target } => InsertSpec::Shift(moves@, target),
    }
}

/// The spare slot a reorder stages through: the first empty one in the row, else the first at all.
pub open spec fn scratch_slot(blocks: Seq<GridSlot>, lo: i64, hi: i64) -> Option<usize> {
    let in_row = pick_slots(blocks, Pick::EmptiesWithin { lo, hi });
    let all = pick_slots(blocks, Pick::Empties);
    if in_row.len() > 0 { Some(in_row[0]) } else if all.len() > 0 { Some(all[0]) } else { None }
}

/// The error for a slot without a block.
pub open spec fn no_block_message(s: i64) -> Seq<char> {
    "slot "@ + dec_signed(s as int) + " has no block"@
}

/// A within-row insert: the row's blocks (with `src`) reorder so `src` lands at position `pos`
/// (clamped to the last one), staged through the spare slot.
pub open spec fn same_row_spec(blocks: Seq<GridSlot>, src: i64, lo: i64, hi: i64, pos: int) -> Result<InsertSpec, Seq<char>> {
    let with_src = pick_slots(blocks, Pick::EffectsWithin { lo, hi, except: None });
    let from_pos = position_of(with_src, src)->0;
    match scratch_slot(blocks, lo, hi) {
        None => Err("no empty slot to reorder through"@),
        Some(scratch) => {
            let last = if with_src.len() > 0 { with_src.len() - 1 } else { 0 };
            let to_pos = if pos < last { pos } else { last };
            Ok(InsertSpec::Reorder(reorder_plan(with_src, scratch, from_pos, to_pos)))
        },
    }
}

/// A cross-row insert: the destination row's blocks `occ` shift right to open position `pos`.
pub open spec fn cross_row_spec(blocks: Seq<GridSlot>, occ: Seq<usize>, lo: i64, hi: i64, pos: int) -> Result<InsertSpec, Seq<char>> {
    let free = pick_slots(blocks, Pick::EmptiesWithin { lo, hi });
    match row_insert_plan(occ, free, pos) {
        Some(p) => Ok(InsertSpec::Shift(p.0, p.1)),
        None => Err("no free slot in the destination row"@),
    }
}

/// Inserting the block at `src` before (or after) the block at `dst`, on a DSP whose first wire
/// slot is `base`. Within one row the block is reordered to the position `dst` marks among the
/// other blocks; across rows the destination row opens a slot there.
pub open spec fn insert_spec(blocks: Seq<GridSlot>, src: i64, dst: i64, before: bool, base: i64) -> Result<InsertSpec, Seq<char>> {
    if src == dst {
        Ok(InsertSpec::Reorder(Seq::empty()))
    } else if !has_block_at(blocks, src) {
        Err(no_block_message(src))
    } else if !has_block_at(blocks, dst) {
        Err(no_block_message(dst))
    } else {
        let (lo, hi) = row_of(base, dst);
        let occ = pick_slots(blocks, Pick::EffectsWithin { lo, hi, except: Some(src) });
        let dst_pos = position_of(occ, dst)->0;
        let pos = if before { dst_pos } else { dst_pos + 1 };
        if row_of(base, src) == (lo, hi) {
            same_row_spec(blocks, src, lo, hi, pos)
        } else {
            cross_row_spec(blocks, occ, lo, hi, pos)
        }
    }
}

fn has_block(blocks: &Vec<GridSlot>, s: i64) -> (r: bool)
    ensures
        r == has_block_at(blocks@, s),
{
    let mut i: usize = 0;
    while i < blocks.len()
        invariant
            i <= blocks@.len(),
            forall|k: int| 0 <= k < i ==> !(#[trigger] blocks@[k].wire_slot == s && blocks@[k].kind is Effect),
        decreases blocks.len() - i,
    {
        if blocks[i].wire_slot == s && blocks[i].kind == SlotKind::Effect {
            return true;
        }
        i = i + 1;
    }
    false
}

proof fn lemma_picked(blocks: Seq<GridSlot>, p: Pick, k: int)
    requires
        0 <= k < blocks.len(),
        picks(p, blocks[k]),
    ensures
        pick_slots(blocks, p).contains(blocks[k].wire_slot as usize),
    decreases blocks.len(),
{
    if k == blocks.len() - 1 {
        let r = pick_slots(blocks.drop_last(), p);
        assert(pick_slots(blocks, p) == r.push(blocks[k].wire_slot as usize));
        assert(pick_slots(blocks, p)[r.len() as int] == blocks[k].wire_slot as usize);
    } else {
        lemma_picked(blocks.drop_last(), p, k);
        let r = pick_slots(blocks.drop_last(), p);
        let j = choose|j: int| 0 <= j < r.len() && r[j] == blocks[k].wire_slot as usize;
        if picks(p, blocks.last()) {
            assert(pick_slots(blocks, p)[j] == r[j]);
        }
    }
}

fn insert_same_row(blocks: &Vec<GridSlot>, src: i64, lo: i64, hi: i64, pos: usize) -> (r: Result<InsertPlan, String>)
    requires
        has_block_at(blocks@, src),
        lo <= src <= hi,
        forall|k: int| 0 <= k < blocks@.len() ==> (#[trigger] blocks@[k].wire_slot as usize) as i64 == blocks@[k].wire_slot,
    ensures
        match same_row_spec(blocks@, src, lo, hi, pos as int) {
            Ok(p) => r matches Ok(x) && insert_view(x) == p,
            Err(m) => r matches Err(e) && e@ == m,
        },
{
    let with_src = select_slots(blocks, Pick::EffectsWithin { lo, hi, except: None });
    proof {
        let k = choose|k: int| 0 <= k < blocks@.len() && #[trigger] blocks@[k].wire_slot == src && blocks@[k].kind is Effect;
        lemma_picked(blocks@, Pick::EffectsWithin { lo, hi, except: None }, k);
        let j = choose|j: int| 0 <= j < with_src@.len() && with_src@[j] == blocks@[k].wire_slot as usize;
        assert(with_src@[j] as i64 == src);
    }
    let from_pos = find_position(&with_src, src).unwrap();
    let in_row = select_slots(blocks, Pick::EmptiesWithin { lo, hi });
    let all = select_slots(blocks, Pick::Empties);
    let scratch = if in_row.len() > 0 {
        in_row[0]
    } else if all.len() > 0 {
        all[0]
    } else {
        return Err(owned("no empty slot to reorder through"));
    };
    let last = if with_src.len() > 0 { with_src.len() - 1 } else { 0 };
    let to_pos = if pos < last { pos } else { last };
    Ok(InsertPlan::Reorder(plan_reorder(with_src.as_slice(), scratch, from_pos, to_pos)))
}

fn insert_cross_row(blocks: &Vec<GridSlot>, occ: &Vec<usize>, lo: i64, hi: i64, pos: usize) -> (r: Result<InsertPlan, String>)
    ensures
        match cross_row_spec(blocks@, occ@, lo, hi, pos as int) {
            Ok(p) => r matches Ok(x) && insert_view(x) == p,
            Err(m) => r matches Err(e) && e@ == m,
        },
{
    let free = select_slots(blocks, Pick::EmptiesWithin { lo, hi });
    match plan_row_insert(occ.as_slice(), free.as_slice(), pos) {
        Some(p) => Ok(InsertPlan::Shift { moves: p.0, target: p.1 }),
        None => Err(owned("no free slot in the destination row")),
    }
}

/// Plan inserting the block at `src` before (or after) the block at `dst`; `base` is the DSP's
/// first wire slot. A slot without an effect block, a node slot among them, is refused with the
/// error naming it (dropping a block on itself plans nothing). An effect block listed at a node
/// slot, where the destination's row cannot find it, is outside what this plans.
pub fn plan_insert(blocks: &Vec<GridSlot>, src: i64, dst: i64, before: bool, base: i64) -> (r: Result<InsertPlan, String>)
    requires
        src != dst && has_block_at(blocks@, dst) ==> in_a_row(base, dst),
        src != dst && has_block_at(blocks@, src) && has_block_at(blocks@, dst) && row_of(base, src) == row_of(base, dst)
            ==> in_a_row(base, src),
        i64::MIN <= src - base <= i64::MAX,
        base + 18 <= i64::MAX,
        forall|k: int| 0 <= k < blocks@.len() ==> (#[trigger] blocks@[k].wire_slot as usize) as i64 == blocks@[k].wire_slot,
    ensures
        match insert_spec(blocks@, src, dst, before, base) {
            Ok(p) => r matches Ok(x) && insert_view(x) == p,
            Err(m) => r matches Err(e) && e@ == m,
        },
{
    if src == dst {
        return Ok(InsertPlan::Reorder(Vec::new()));
    }
    if !has_block(blocks, src) {
        let mut m = owned("slot ");
        push_i64(&mut m, src);
        push_str(&mut m, " has no block");
        return Err(m);
    }
    if !has_block(blocks, dst) {
        let mut m = owned("slot ");
        push_i64(&mut m, dst);
        push_str(&mut m, " has no block");
        return Err(m);
    }
    let (lo, hi) = if 11 <= dst - base && dst - base <= 18 { (base + 11, base + 18) } else { (base + 1, base + 8) };
    let src_row = if 11 <= src - base && src - base <= 18 { (base + 11, base + 18) } else { (base + 1, base + 8) };
    let occ = select_slots(blocks, Pick::EffectsWithin { lo, hi, except: Some(src) });
    proof {
        let k = choose|k: int| 0 <= k < blocks@.len() && #[trigger] blocks@[k].wire_slot == dst && blocks@[k].kind is Effect;
        lemma_picked(blocks@, Pick::EffectsWithin { lo, hi, except: Some(src) }, k);
        let j = choose|j: int| 0 <= j < occ@.len() && occ@[j] == blocks@[k].wire_slot as usize;
        assert(occ@[j] as i64 == dst);
    }
    let dst_pos = find_position(&occ, dst).unwrap();
    let pos = if before { dst_pos } else { dst_pos + 1 };
    if src_row.0 == lo && src_row.1 == hi {
        insert_same_row(blocks, src, lo, hi, pos)
    } else {
        insert_cross_row(blocks, &occ, lo, hi, pos)
    }
}

/// Where a block dragged from order position `from` to the drop gap `gap` (the number of blocks
/// before the drop point) ends up: a gap past the block counts one less once it is lifted out, and
/// the result is clamped to the last of `n` positions.
pub open spec fn drop_position(from: int, gap: int, n: int) -> int {
    let t = if gap > from { gap - 1 } else { gap };
    let last = if n > 0 { n - 1 } else { 0 };
    if t < last { t } else { last }
}

/// Reordering the block at `src` to the drop gap `gap` of a serial chain: the chain's blocks
/// bubble through the first empty slot. Split presets are refused.
pub open spec fn reorder_block_spec(blocks: Seq<GridSlot>, split: bool, src: i64, gap: int) -> Result<Seq<(usize, usize)>, Seq<char>> {
    if split {
        Err("reordering on split (parallel) presets isn't supported yet"@)
    } else {
        let occ = pick_slots(blocks, Pick::Effects);
        match position_of(occ, src) {
            None => Err("source slot is not an effect block"@),
            Some(from) => {
                let empties = pick_slots(blocks, Pick::Empties);
                if empties.len() == 0 {
                    Err("no empty slot to reorder through"@)
                } else {
                    Ok(reorder_plan(occ, empties[0], from, drop_position(from, gap, occ.len() as int)))
                }
            },
        }
    }
}

/// Plan moving the block at `src` to the drop gap `gap` among the serial chain's blocks; `split`
/// says whether the DSP is split.
pub fn plan_reorder_block(blocks: &Vec<GridSlot>, split: bool, src: i64, gap: usize) -> (r: Result<Vec<(usize, usize)>, String>)
    ensures
        match reorder_block_spec(blocks@, split, src, gap as int) {
            Ok(m) => r matches Ok(v) && v@ == m,
            Err(m) => r matches Err(e) && e@ == m,
        },
{
    if split {
        return Err(owned("reordering on split (parallel) presets isn't supported yet"));
    }
    let occ = select_slots(blocks, Pick::Effects);
    let from = match find_position(&occ, src) {
        Some(k) => k,
        None => {
            return Err(owned("source slot is not an effect block"));
        },
    };
    let empties = select_slots(blocks, Pick::Empties);
    if empties.len() == 0 {
        return Err(owned("no empty slot to reorder through"));
    }
    let n = occ.len();
    let t = if gap > from { gap - 1 } else { gap };
    let last = if n > 0 { n - 1 } else { 0 };
    let to = if t < last { t } else { last };
    Ok(plan_reorder(occ.as_slice(), empties[0], from, to))
}

/// Whether index `idx` lies in the series row: before the split node, or anywhere without one.
pub open spec fn in_series_row(split: Option<usize>, idx: usize) -> bool {
    split matches Some(s) ==> idx < s
}

/// The highest index of an effect block in the series row (0 with none).
pub open spec fn series_last(blocks: Seq<GridSlot>, split: Option<usize>) -> usize
    decreases blocks.len(),
{
    if blocks.len() == 0 {
        0
    } else {
        let r = series_last(blocks.drop_last(), split);
        let b = blocks.last();
        if b.kind is Effect && in_series_row(split, b.index) && b.index > r { b.index } else { r }
    }
}

/// An empty slot in the series row (anywhere, when `split` is `None`) above `above`.
pub open spec fn empty_fits(b: GridSlot, split: Option<usize>, above: Option<usize>) -> bool {
    b.kind is Empty && in_series_row(split, b.index) && (above matches Some(a) ==> b.index > a)
}

/// The index of the first slot that [`empty_fits`].
pub open spec fn first_empty(blocks: Seq<GridSlot>, split: Option<usize>, above: Option<usize>) -> Option<usize>
    decreases blocks.len(),
{
    if blocks.len() == 0 {
        None
    } else if empty_fits(blocks[0], split, above) {
        Some(blocks[0].index)
    } else {
        first_empty(blocks.drop_first(), split, above)
    }
}

/// Where an appended block goes: the first empty series-row slot after the row's last block, else
/// any empty series-row slot, else any empty slot at all.
pub open spec fn append_target(blocks: Seq<GridSlot>) -> Option<usize> {
    let split = match first_of_kind(blocks, SlotKind::Split) {
        Some(s) => Some(s.index),
        None => None,
    };
    match first_empty(blocks, split, Some(series_last(blocks, split))) {
        Some(t) => Some(t),
        None => match first_empty(blocks, split, None) {
            Some(t) => Some(t),
            None => first_empty(blocks, None, None),
        },
    }
}

fn last_series_index(blocks: &Vec<GridSlot>, split: Option<usize>) -> (r: usize)
    ensures
        r == series_last(blocks@, split),
{
    let mut r: usize = 0;
    let mut i: usize = 0;
    while i < blocks.len()
        invariant
            i <= blocks@.len(),
            r == series_last(blocks@.take(i as int), split),
        decreases blocks.len() - i,
    {
        proof {
            assert(blocks@.take(i + 1).drop_last() =~= blocks@.take(i as int));
            assert(blocks@.take(i + 1).last() == blocks@[i as int]);
        }
        let b = blocks[i];
        let in_row = match split {
            Some(s) => b.index < s,
            None => true,
        };
        if b.kind == SlotKind::Effect && in_row && b.index > r {
            r = b.index;
        }
        i = i + 1;
    }
    proof {
        assert(blocks@.take(blocks@.len() as int) =~= blocks@);
    }
    r
}

fn find_empty(blocks: &Vec<GridSlot>, split: Option<usize>, above: Option<usize>) -> (r: Option<usize>)
    ensures
        r == first_empty(blocks@, split, above),
{
    let mut i: usize = 0;
    assert(blocks@.skip(0) =~= blocks@);
    while i < blocks.len()
        invariant
            i <= blocks@.len(),
            first_empty(blocks@, split, above) == first_empty(blocks@.skip(i as int), split, above),
        decreases blocks.len() - i,
    {
        proof {
            assert(blocks@.skip(i as int).drop_first() =~= blocks@.skip(i + 1));
            assert(blocks@.skip(i as int)[0] == blocks@[i as int]);
        }
        let b = blocks[i];
        let in_row = match split {
            Some(s) => b.index < s,
            None => true,
        };
        let past = match above {
            Some(a) => b.index > a,
            None => true,
        };
        if b.kind == SlotKind::Empty && in_row && past {
            return Some(b.index);
        }
        i = i + 1;
    }
    proof {
        assert(blocks@.skip(i as int) =~= Seq::<GridSlot>::empty());
    }
    None
}

/// Where a block appended to the chain goes (see [`append_target`]), or the error when no slot is
/// free. The blocks are DSP 0's slots in index order.
pub fn plan_append(blocks: &Vec<GridSlot>) -> (r: Result<usize, String>)
    ensures
        match append_target(blocks@) {
            Some(t) => r == Ok::<usize, String>(t),
            None => r matches Err(e) && e@ == "no free slot to add a block"@,
        },
{
    let split = match find_kind(blocks, SlotKind::Split) {
        Some(s) => Some(s.index),
        None => None,
    };
    let last = last_series_index(blocks, split);
    match find_empty(blocks, split, Some(last)) {
        Some(t) => Ok(t),
        None => match find_empty(blocks, split, None) {
            Some(t) => Ok(t),
            None => match find_empty(blocks, None, None) {
                Some(t) => Ok(t),
                None => Err(owned("no free slot to add a block")),
            },
        },
    }
}

/// The node kind of the parallel split.
pub const SPLIT_NODE: i64 = 2;

/// The node kind of the parallel mixer.
pub const MIXER_NODE: i64 = 3;

/// The error for a node kind that cannot be moved.
pub open spec fn node_kind_message(kind: i64) -> Seq<char> {
    "not a movable node kind: "@ + dec_signed(kind as int)
}

/// Only the split and the mixer can be moved.
pub fn check_node_kind(kind: i64) -> (r: Result<(), String>)
    ensures
        (kind == SPLIT_NODE || kind == MIXER_NODE) ==> r is Ok,
        !(kind == SPLIT_NODE || kind == MIXER_NODE) ==> (r matches Err(e) && e@ == node_kind_message(kind)),
{
    if kind != SPLIT_NODE && kind != MIXER_NODE {
        let mut m = owned("not a movable node kind: ");
        push_i64(&mut m, kind);
        return Err(m);
    }
    Ok(())
}

/// The columns a node may move to: the split from column 1 to just left of the mixer, the mixer
/// from just right of the split to column 9.
pub open spec fn node_range(kind: i64, other: i64) -> (int, int) {
    if kind == SPLIT_NODE { (1, other - 1) } else { (other + 1, 9) }
}

/// The error for a node move that would leave occupied row-B columns outside the bracket.
pub open spec fn strays_message(pos: i64, n: nat) -> Seq<char> {
    "node position "@ + dec_signed(pos as int) + " would leave "@ + dec(n)
        + " occupied row-B column(s) outside the split..mixer bracket"@
}

/// Checking a node move on a DSP: it must be split, the other node's column must be known, the
/// new column must keep the split left of the mixer, and the new bracket must still enclose every
/// occupied row-B column of `cols`.
pub open spec fn node_move_spec(dsp: usize, kind: i64, pos: i64, split: bool, other: Option<i64>, cols: Seq<i64>) -> Result<(), Seq<char>> {
    if !split {
        Err("DSP "@ + dec(dsp as nat) + " is not split"@)
    } else {
        match other {
            None => Err("missing peer node position"@),
            Some(o) => {
                let (lo, hi) = node_range(kind, o);
                if pos < lo || pos > hi {
                    Err("node position "@ + dec_signed(pos as int) + " out of range "@ + dec_signed(lo) + "..="@
                        + dec_signed(hi) + " (the split stays left of the mixer)"@)
                } else if strays_spec(cols, kind, pos, o).len() > 0 {
                    Err(strays_message(pos, strays_spec(cols, kind, pos, o).len()))
                } else {
                    Ok(())
                }
            },
        }
    }
}

/// Check moving node `kind` (the split or the mixer) of DSP `dsp` to column `pos`; `split` says
/// whether the DSP is split, `other` is the other node's column, and `cols` are the occupied
/// row-B columns, which the moved bracket must still enclose.
pub fn check_node_move(dsp: usize, kind: i64, pos: i64, split: bool, other: Option<i64>, cols: &Vec<i64>) -> (r: Result<(), String>)
    requires
        other matches Some(o) ==> i64::MIN < o < i64::MAX,
    ensures
        match node_move_spec(dsp, kind, pos, split, other, cols@) {
            Ok(()) => r is Ok,
            Err(m) => r matches Err(e) && e@ == m,
        },
{
    if !split {
        let mut m = owned("DSP ");
        push_u64(&mut m, dsp as u64);
        push_str(&mut m, " is not split");
        return Err(m);
    }
    let o = match other {
        Some(o) => o,
        None => {
            return Err(owned("missing peer node position"));
        },
    };
    let (lo, hi) = if kind == SPLIT_NODE { (1i64, o - 1) } else { (o + 1, 9i64) };
    if pos < lo || pos > hi {
        let mut m = owned("node position ");
        push_i64(&mut m, pos);
        push_str(&mut m, " out of range ");
        push_i64(&mut m, lo);
        push_str(&mut m, "..=");
        push_i64(&mut m, hi);
        push_str(&mut m, " (the split stays left of the mixer)");
        return Err(m);
    }
    let strays = bracket_strays(cols, kind, pos, o);
    if strays.len() > 0 {
        let mut m = owned("node position ");
        push_i64(&mut m, pos);
        push_str(&mut m, " would leave ");
        push_u64(&mut m, strays.len() as u64);
        push_str(&mut m, " occupied row-B column(s) outside the split..mixer bracket");
        return Err(m);
    }
    Ok(())
}

/// The row-B columns a node move would leave outside the split..mixer bracket.
pub open spec fn strays_spec(cols: Seq<i64>, kind: i64, pos: i64, other: i64) -> Seq<i64>
    decreases cols.len(),
{
    if cols.len() == 0 {
        Seq::empty()
    } else {
        let (sp, mp) = if kind == SPLIT_NODE { (pos, other) } else { (other, pos) };
        let r = strays_spec(cols.drop_last(), kind, pos, other);
        let c = cols.last();
        if c < sp || c >= mp { r.push(c) } else { r }
    }
}

/// The occupied row-B columns `cols` that moving node `kind` to `pos` would leave outside the
/// bracket, in the order given.
pub fn bracket_strays(cols: &Vec<i64>, kind: i64, pos: i64, other: i64) -> (v: Vec<i64>)
    ensures
        v@ == strays_spec(cols@, kind, pos, other),
{
    let (sp, mp) = if kind == SPLIT_NODE { (pos, other) } else { (other, pos) };
    let mut v: Vec<i64> = Vec::new();
    let mut i: usize = 0;
    while i < cols.len()
        invariant
            i <= cols@.len(),
            sp == (if kind == SPLIT_NODE { pos } else { other }),
            mp == (if kind == SPLIT_NODE { other } else { pos }),
            v@ == strays_spec(cols@.take(i as int), kind, pos, other),
        decreases cols.len() - i,
    {
        proof {
            assert(cols@.take(i + 1).drop_last() =~= cols@.take(i as int));
            assert(cols@.take(i + 1).last() == cols@[i as int]);
        }
        let c = cols[i];
        if c < sp || c >= mp {
            v.push(c);
        }
        i = i + 1;
    }
    proof {
        assert(cols@.take(cols@.len() as int) =~= cols@);
    }
    v
}

/// The error for a preset address outside the device's setlists.
pub open spec fn preset_addr_spec(bank: i64, slot: i64, what: Seq<char>, banks: i64, stride: i64) -> Result<(), Seq<char>> {
    if bank < 0 || bank >= banks {
        Err(what + ": bank "@ + dec_signed(bank as int) + " out of range (device has "@ + dec_signed(banks as int)
            + " setlist(s))"@)
    } else if slot < 0 || slot >= stride {
        Err(what + ": preset slot "@ + dec_signed(slot as int) + " out of range 0.."@ + dec_signed(stride as int)
            + " for bank "@ + dec_signed(bank as int)
            + " \u{2014} this looks like a global preset number ("@ + dec_signed(bank * stride + slot)
            + ") rather than a slot within the setlist"@)
    } else {
        Ok(())
    }
}

/// Refuse a `(bank, slot)` the device cannot address before it is sent: the bank must be one of
/// the device's `banks` setlists and the slot lie within a setlist of `stride` presets. A slot
/// past the end is most likely a global preset number, and the message says so.
pub fn check_preset_addr(bank: i64, slot: i64, what: &str, banks: i64, stride: i64) -> (r: Result<(), String>)
    requires
        0 <= bank < banks ==> i64::MIN <= bank * stride <= i64::MAX && i64::MIN <= bank * stride + slot <= i64::MAX,
    ensures
        match preset_addr_spec(bank, slot, what@, banks, stride) {
            Ok(()) => r is Ok,
            Err(m) => r matches Err(e) && e@ == m,
        },
{
    if bank < 0 || bank >= banks {
        let mut m = owned(what);
        push_str(&mut m, ": bank ");
        push_i64(&mut m, bank);
        push_str(&mut m, " out of range (device has ");
        push_i64(&mut m, banks);
        push_str(&mut m, " setlist(s))");
        return Err(m);
    }
    if slot < 0 || slot >= stride {
        let mut m = owned(what);
        push_str(&mut m, ": preset slot ");
        push_i64(&mut m, slot);
        push_str(&mut m, " out of range 0..");
        push_i64(&mut m, stride);
        push_str(&mut m, " for bank ");
        push_i64(&mut m, bank);
        push_str(&mut m, " \u{2014} this looks like a global preset number (");
        push_i64(&mut m, bank * stride + slot);
        push_str(&mut m, ") rather than a slot within the setlist");
        return Err(m);
    }
    Ok(())
}

/// The error for adding onto a slot that is not empty.
pub open spec fn not_empty_message(slot: i64) -> Seq<char> {
    "slot "@ + dec_signed(slot as int) + " is not an empty grid slot (refusing add \u{2014} it would overwrite)"@
}

/// A block may only be added onto an empty grid slot.
pub fn check_empty_slot(blocks: &Vec<GridSlot>, slot: i64) -> (r: Result<(), String>)
    ensures
        (exists|k: int| 0 <= k < blocks@.len() && #[trigger] blocks@[k].wire_slot == slot && blocks@[k].kind is Empty)
            ==> r is Ok,
        !(exists|k: int| 0 <= k < blocks@.len() && #[trigger] blocks@[k].wire_slot == slot && blocks@[k].kind is Empty)
            ==> (r matches Err(e) && e@ == not_empty_message(slot)),
{
    let mut i: usize = 0;
    while i < blocks.len()
        invariant
            i <= blocks@.len(),
            forall|k: int| 0 <= k < i ==> !(#[trigger] blocks@[k].wire_slot == slot && blocks@[k].kind is Empty),
        decreases blocks.len() - i,
    {
        if blocks[i].wire_slot == slot && blocks[i].kind == SlotKind::Empty {
            return Ok(());
        }
        i = i + 1;
    }
    let mut m = owned("slot ");
    push_i64(&mut m, slot);
    push_str(&mut m, " is not an empty grid slot (refusing add \u{2014} it would overwrite)");
    Err(m)
}

/// The DSP a wire slot belongs to (slots are numbered 20 to a DSP).
pub open spec fn dsp_of(slot: i64) -> int {
    slot as int / 20
}

/// A block only moves within its own DSP.
pub fn check_same_dsp(src: i64, dst: i64) -> (r: Result<(), String>)
    ensures
        dsp_of(src) == dsp_of(dst) ==> r is Ok,
        dsp_of(src) != dsp_of(dst) ==> (r matches Err(e) && e@ == "can't move a block between DSPs"@),
{
    let a = if src >= 0 { src / 20 } else { -((-(src + 1)) / 20) - 1 };
    let b = if dst >= 0 { dst / 20 } else { -((-(dst + 1)) / 20) - 1 };
    assert(a == dsp_of(src)) by (nonlinear_arith)
        requires a == (if src >= 0 { src / 20 } else { -((-(src + 1)) / 20) - 1 });
    assert(b == dsp_of(dst)) by (nonlinear_arith)
        requires b == (if dst >= 0 { dst / 20 } else { -((-(dst + 1)) / 20) - 1 });
    if a != b {
        return Err(owned("can't move a block between DSPs"));
    }
    Ok(())
}

/// The blocks of the series row, bar the one being moved, in slot order.
pub open spec fn series_blocks(blocks: Seq<GridSlot>, src: i64) -> Seq<usize> {
    let (lo, hi) = row_window(blocks, first_of_kind(blocks, SlotKind::Split)->0.wire_slot as usize, false);
    pick_slots(blocks, Pick::EffectsBetween { lo, hi, except: src })
}

/// The free slots of the series row, in slot order.
pub open spec fn series_free(blocks: Seq<GridSlot>) -> Seq<usize> {
    let (lo, hi) = row_window(blocks, first_of_kind(blocks, SlotKind::Split)->0.wire_slot as usize, false);
    pick_slots(blocks, Pick::EmptiesBetween { lo, hi })
}

/// Slot `t` lies after the first `pos` of the row's blocks `occ` and before the rest (after all
/// of them when `pos` is past the end): a block there is at position `pos` among them.
pub open spec fn at_position(occ: Seq<usize>, pos: int, t: usize) -> bool {
    let p = if pos < occ.len() { pos } else { occ.len() as int };
    &&& forall|k: int| 0 <= k < p ==> #[trigger] occ[k] < t
    &&& forall|k: int| p <= k < occ.len() ==> t < #[trigger] occ[k]
}

/// The grid's slots rise from one to the next.
pub open spec fn slots_rise(blocks: Seq<GridSlot>) -> bool {
    forall|a: int, b: int| 0 <= a < b < blocks.len() ==> (blocks[a].wire_slot as usize) < (blocks[b].wire_slot as usize)
}

proof fn lemma_pick_at(blocks: Seq<GridSlot>, p: Pick, i: int) -> (k: int)
    requires
        0 <= i < pick_slots(blocks, p).len(),
    ensures
        0 <= k < blocks.len(),
        picks(p, blocks[k]),
        pick_slots(blocks, p)[i] == blocks[k].wire_slot as usize,
    decreases blocks.len(),
{
    let d = blocks.drop_last();
    let r = pick_slots(d, p);
    if i < r.len() {
        let k = lemma_pick_at(d, p, i);
        assert(blocks[k] == d[k]);
        k
    } else {
        blocks.len() - 1
    }
}

proof fn lemma_pick_rises(blocks: Seq<GridSlot>, p: Pick)
    requires
        slots_rise(blocks),
    ensures
        forall|a: int, b: int| 0 <= a < b < pick_slots(blocks, p).len()
            ==> #[trigger] pick_slots(blocks, p)[a] < #[trigger] pick_slots(blocks, p)[b],
    decreases blocks.len(),
{
    if blocks.len() > 0 {
        let d = blocks.drop_last();
        assert(slots_rise(d));
        lemma_pick_rises(d, p);
        let r = pick_slots(d, p);
        let whole = pick_slots(blocks, p);
        if picks(p, blocks.last()) {
            assert forall|a: int, b: int| 0 <= a < b < whole.len() implies #[trigger] whole[a] < #[trigger] whole[b] by {
                assert(whole[a] == r[a]);
                if b < r.len() {
                    assert(whole[b] == r[b]);
                } else {
                    let k = lemma_pick_at(d, p, a);
                    assert(blocks[k] == d[k]);
                    assert(whole[b] == blocks[blocks.len() - 1].wire_slot as usize);
                }
            }
        }
    }
}

proof fn lemma_first_between(free: Seq<usize>, lower: usize, upper: usize, n: int)
    requires
        0 <= n <= free.len(),
        exists|k: int| 0 <= k < n && lower < #[trigger] free[k] < upper,
    ensures
        exists|k: int| 0 <= k < n && lower < #[trigger] free[k] < upper
            && forall|j: int| 0 <= j < k ==> !(lower < #[trigger] free[j] < upper),
    decreases n,
{
    if exists|k: int| 0 <= k < n - 1 && lower < #[trigger] free[k] < upper {
        lemma_first_between(free, lower, upper, n - 1);
    } else {
        let k = n - 1;
        assert(lower < free[k] < upper);
        assert forall|j: int| 0 <= j < k implies !(lower < #[trigger] free[j] < upper) by {}
    }
}

proof fn lemma_series_target_between(free: Seq<usize>, lower: usize, upper: usize, fi: int)
    requires
        0 <= fi < free.len(),
        lower < free[fi] < upper,
    ensures
        series_target(free, lower, upper) matches Some(t) && lower < t < upper && free.contains(t),
{
    lemma_first_between(free, lower, upper, free.len() as int);
    let c = choose|k: int| 0 <= k < free.len() && lower < #[trigger] free[k] < upper
        && forall|j: int| 0 <= j < k ==> !(lower < #[trigger] free[j] < upper);
    assert(series_target(free, lower, upper) == Some(free[c]));
}

proof fn lemma_at_position(occ: Seq<usize>, pos: int, lower: usize, upper: usize, lo: usize, hi: usize, t: usize)
    requires
        pos >= 0,
        forall|a: int, b: int| 0 <= a < b < occ.len() ==> #[trigger] occ[a] < #[trigger] occ[b],
        lower == (if (if pos < occ.len() { pos } else { occ.len() as int }) == 0 { lo } else {
            occ[(if pos < occ.len() { pos } else { occ.len() as int }) - 1] }),
        upper == (if pos < occ.len() { occ[pos] } else { hi }),
        lower < t < upper,
    ensures
        at_position(occ, pos, t),
{
    let p = if pos < occ.len() { pos } else { occ.len() as int };
    assert forall|k: int| 0 <= k < p implies #[trigger] occ[k] < t by {
        if k < p - 1 {
            assert(occ[k] < occ[p - 1]);
        }
    }
    assert forall|k: int| p <= k < occ.len() implies t < #[trigger] occ[k] by {
        if k > p {
            assert(occ[p] < occ[k]);
        }
    }
}

/// A block dropped at position `pos` of the series row lands there: when some free slot of the
/// row lies after the first `pos` of the row's other blocks and before the rest, the move goes
/// straight to such a slot, so the block ends at position `pos` among them.
#[verifier::rlimit(80)]
#[verifier::spinoff_prover]
pub proof fn a_series_drop_lands_at_its_position(blocks: Seq<GridSlot>, src: i64, pos: int)
    requires
        pos >= 0,
        first_of_kind(blocks, SlotKind::Split) is Some,
        slots_rise(blocks),
        exists|f: usize| series_free(blocks).contains(f) && at_position(series_blocks(blocks, src), pos, f),
    ensures
        move_to_row_spec(blocks, src, false, pos) matches Ok(plan) && plan.0.len() == 0
            && series_free(blocks).contains(plan.1) && at_position(series_blocks(blocks, src), pos, plan.1),
{
    let sp = first_of_kind(blocks, SlotKind::Split)->0;
    let w = row_window(blocks, sp.wire_slot as usize, false);
    let lo = w.0;
    let hi = w.1;
    let occ = series_blocks(blocks, src);
    let free = series_free(blocks);
    assert(occ == pick_slots(blocks, Pick::EffectsBetween { lo, hi, except: src }));
    assert(free == pick_slots(blocks, Pick::EmptiesBetween { lo, hi }));
    lemma_pick_rises(blocks, Pick::EffectsBetween { lo, hi, except: src });
    let f = choose|f: usize| free.contains(f) && at_position(occ, pos, f);
    let fi = choose|i: int| 0 <= i < free.len() && free[i] == f;
    let kf = lemma_pick_at(blocks, Pick::EmptiesBetween { lo, hi }, fi);
    assert(lo < f && f < hi);
    let p = if pos < occ.len() { pos } else { occ.len() as int };
    let lower = if p == 0 { lo } else { occ[p - 1] };
    let upper = if p < occ.len() { occ[p] } else { hi };
    if p > 0 {
        assert(occ[p - 1] < f);
    }
    if p < occ.len() {
        assert(f < occ[p]);
    }
    lemma_series_target_between(free, lower, upper, fi);
    let t = series_target(free, lower, upper)->0;
    lemma_at_position(occ, pos, lower, upper, lo, hi, t);
    assert(move_to_row_spec(blocks, src, false, pos) == Ok::<(Seq<(usize, usize)>, usize), Seq<char>>((Seq::empty(), t)));
}

} // verus!
