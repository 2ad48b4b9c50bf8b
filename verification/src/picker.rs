//! The model picker: which models the swap/add menu offers in a category, one per model, in name
//! order with same-named models told apart; and which categories it lists. The device's symbol
//! table is read as [`SymbolEntry`]s, each carrying what the model table says of its model.

use vstd::prelude::*;
use crate::editor::{
    canonical_category, canonical_category_spec, category_name, category_name_spec, is_dual_cab, split_variant,
    split_variant_spec, type_token, type_token_spec, CATEGORY_AMP_CAB,
};
use crate::text::{chars_eq, chars_of, has_prefix, has_suffix, lex_less, lex_lt, lemma_lex_total, lemma_lex_trans, push_str, str_is};

verus! {

/// One symbol of the device's symbol table, as the picker reads it: its index (what a swap
/// sends), the symbol as the table spells it, and — when the symbol resolves to a model — the
/// model's category and display name.
pub struct SymbolEntry {
    pub index: usize,
    pub symbol: String,
    /// The model's category, `None` when the symbol resolves to no model or to one without a
    /// category.
    pub category: Option<i64>,
    /// The model's display name, where the model table has one.
    pub name: Option<String>,
}

/// A model the picker offers: the symbol index to send, its `symbolicID` (without the variant
/// suffix), the name to show, its `Mono`/`Stereo` variant, and — on the Amp+Cab list — the symbol
/// index of the cab it comes paired with.
pub struct ModelPick {
    pub index: usize,
    pub symbolic_id: String,
    pub name: String,
    pub variant: Option<&'static str>,
    pub paired_index: Option<usize>,
}

/// A pick as values: index, `symbolicID`, name, variant, paired cab.
pub type PickView = (usize, Seq<char>, Seq<char>, Option<Seq<char>>, Option<usize>);

/// A variant as a value.
pub open spec fn variant_view(v: Option<&str>) -> Option<Seq<char>> {
    match v {
        Some(s) => Some(s@),
        None => None,
    }
}

pub open spec fn pick_view(p: ModelPick) -> PickView {
    (p.index, p.symbolic_id@, p.name@, variant_view(p.variant), p.paired_index)
}

pub open spec fn picks_view(v: Seq<ModelPick>) -> Seq<PickView> {
    v.map_values(|p: ModelPick| pick_view(p))
}

/// What `e` offers in `category`, if anything: a symbol whose model is in that category (after
/// folding the old Pitch id into Pitch/Synth), is not a dual cab, and has a name to show — the
/// model's own, else its `symbolicID`.
pub open spec fn candidate(e: SymbolEntry, category: i64) -> Option<PickView> {
    match e.category {
        Some(c) => if canonical_category_spec(c) != category {
            None
        } else {
            let (base, var) = split_variant_spec(e.symbol@);
            if has_prefix(base, "HD2_CabMicIr_"@) && has_suffix(base, "WithPan"@) {
                None
            } else {
                let name = match e.name {
                    Some(n) => n@,
                    None => base,
                };
                if name.len() == 0 { None } else { Some((e.index, base, name, var, None)) }
            }
        },
        None => None,
    }
}

/// The position of the pick for `base` among `acc`, if there is one.
pub open spec fn base_pos(acc: Seq<PickView>, base: Seq<char>) -> Option<int>
    decreases acc.len(),
{
    if acc.len() == 0 {
        None
    } else if acc.last().1 == base {
        Some(acc.len() - 1)
    } else {
        base_pos(acc.drop_last(), base)
    }
}

/// Taking candidate `c` into the picks `acc`: a new model is added; for a model already picked,
/// `c` replaces the pick only when the pick's variant is not the wanted one and `c`'s is.
pub open spec fn choose_step(acc: Seq<PickView>, c: PickView, want: Option<Seq<char>>) -> Seq<PickView> {
    match base_pos(acc, c.1) {
        Some(k) => if acc[k].3 == want || c.3 != want { acc } else { acc.update(k, c) },
        None => acc.push(c),
    }
}

/// One pick per model in `category`, in the order models first appear among `entries`,
/// preferring the `want`ed variant.
pub open spec fn chosen(entries: Seq<SymbolEntry>, category: i64, want: Option<Seq<char>>) -> Seq<PickView>
    decreases entries.len(),
{
    if entries.len() == 0 {
        Seq::empty()
    } else {
        let acc = chosen(entries.drop_last(), category, want);
        match candidate(entries.last(), category) {
            Some(c) => choose_step(acc, c, want),
            None => acc,
        }
    }
}

fn same_variant(a: Option<&'static str>, b: Option<&str>) -> (r: bool)
    ensures
        r == (variant_view(a) == variant_view(b)),
{
    match (a, b) {
        (Some(x), Some(y)) => str_is(x, y),
        (None, None) => true,
        _ => false,
    }
}

fn candidate_of(e: &SymbolEntry, category: i64) -> (r: Option<ModelPick>)
    ensures
        r is None <==> candidate(*e, category) is None,
        r matches Some(p) ==> candidate(*e, category) == Some(pick_view(p)),
{
    let c = match e.category {
        Some(c) => c,
        None => {
            return None;
        },
    };
    if canonical_category(c) != category {
        return None;
    }
    let (base, var) = split_variant(e.symbol.as_str());
    if is_dual_cab(base.as_str()) {
        return None;
    }
    let name = match &e.name {
        Some(n) => n.clone(),
        None => base.clone(),
    };
    if chars_of(name.as_str()).len() == 0 {
        return None;
    }
    Some(ModelPick { index: e.index, symbolic_id: base, name, variant: var, paired_index: None })
}

fn find_base(acc: &Vec<ModelPick>, base: &str) -> (r: Option<usize>)
    ensures
        r is None <==> base_pos(picks_view(acc@), base@) is None,
        r matches Some(k) ==> base_pos(picks_view(acc@), base@) == Some(k as int) && k < acc@.len(),
{
    let b = chars_of(base);
    let mut i: usize = acc.len();
    assert(picks_view(acc@).take(i as int) =~= picks_view(acc@));
    while i > 0
        invariant
            i <= acc@.len(),
            b@ == base@,
            base_pos(picks_view(acc@), base@) == base_pos(picks_view(acc@).take(i as int), base@),
        decreases i,
    {
        proof {
            assert(picks_view(acc@).take(i as int).drop_last() =~= picks_view(acc@).take(i - 1));
            assert(picks_view(acc@).take(i as int).last() == pick_view(acc@[i - 1]));
        }
        if chars_eq(&chars_of(acc[i - 1].symbolic_id.as_str()), &b) {
            return Some(i - 1);
        }
        i = i - 1;
    }
    None
}

proof fn lemma_picks_push(v: Seq<ModelPick>, p: ModelPick)
    ensures
        picks_view(v.push(p)) == picks_view(v).push(pick_view(p)),
{
    assert(picks_view(v.push(p)) =~= picks_view(v).push(pick_view(p)));
}

proof fn lemma_picks_update(v: Seq<ModelPick>, k: int, p: ModelPick)
    requires
        0 <= k < v.len(),
    ensures
        picks_view(v.update(k, p)) == picks_view(v).update(k, pick_view(p)),
{
    assert(picks_view(v.update(k, p)) =~= picks_view(v).update(k, pick_view(p)));
}

/// One pick per model in `category` (exec form of [`chosen`]).
fn choose_models(entries: &Vec<SymbolEntry>, category: i64, want: Option<&str>) -> (acc: Vec<ModelPick>)
    ensures
        picks_view(acc@) == chosen(entries@, category, variant_view(want)),
{
    let mut acc: Vec<ModelPick> = Vec::new();
    let mut i: usize = 0;
    proof {
        assert(picks_view(acc@) =~= Seq::<PickView>::empty());
    }
    while i < entries.len()
        invariant
            i <= entries@.len(),
            picks_view(acc@) == chosen(entries@.take(i as int), category, variant_view(want)),
        decreases entries.len() - i,
    {
        proof {
            assert(entries@.take(i + 1).drop_last() =~= entries@.take(i as int));
            assert(entries@.take(i + 1).last() == entries@[i as int]);
        }
        match candidate_of(&entries[i], category) {
            Some(c) => {
                match find_base(&acc, c.symbolic_id.as_str()) {
                    Some(k) => {
                        let keep = same_variant(acc[k].variant, want) || !same_variant(c.variant, want);
                        if !keep {
                            let ghost before = acc@;
                            acc.set(k, c);
                            proof {
                                lemma_picks_update(before, k as int, c);
                            }
                        }
                    },
                    None => {
                        let ghost before = acc@;
                        acc.push(c);
                        proof {
                            lemma_picks_push(before, c);
                        }
                    },
                }
            },
            None => {},
        }
        i = i + 1;
    }
    proof {
        assert(entries@.take(entries@.len() as int) =~= entries@);
    }
    acc
}

/// The picker's order: by name, then by `symbolicID`.
pub open spec fn pick_lt(a: PickView, b: PickView) -> bool {
    lex_lt(a.2, b.2) || (a.2 == b.2 && lex_lt(a.1, b.1))
}

/// Strictly ascending in the picker's order.
pub open spec fn strictly_sorted(s: Seq<PickView>) -> bool {
    forall|i: int, j: int| 0 <= i < j < s.len() ==> pick_lt(#[trigger] s[i], #[trigger] s[j])
}

/// No two picks are for the same model.
pub open spec fn distinct_models(s: Seq<PickView>) -> bool {
    forall|i: int, j: int| 0 <= i < j < s.len() ==> (#[trigger] s[i]).1 != (#[trigger] s[j]).1
}

/// The same picks, in any order.
pub open spec fn same_picks(a: Seq<PickView>, b: Seq<PickView>) -> bool {
    a.len() == b.len() && forall|x: PickView| a.contains(x) <==> b.contains(x)
}

/// The picks `acc` in the picker's order.
pub open spec fn sorted_picks(acc: Seq<PickView>) -> Seq<PickView> {
    choose|s: Seq<PickView>| strictly_sorted(s) && same_picks(s, acc)
}

proof fn lemma_pick_order(a: PickView, b: PickView, c: PickView)
    ensures
        !pick_lt(a, a),
        !(pick_lt(a, b) && pick_lt(b, a)),
        a.1 != b.1 ==> pick_lt(a, b) || pick_lt(b, a),
        pick_lt(a, b) && pick_lt(b, c) ==> pick_lt(a, c),
{
    lemma_lex_total(a.2, b.2);
    lemma_lex_total(a.1, b.1);
    lemma_lex_total(a.2, a.2);
    lemma_lex_total(a.1, a.1);
    if pick_lt(a, b) && pick_lt(b, c) {
        lemma_lex_total(b.2, c.2);
        lemma_lex_total(a.2, c.2);
        if lex_lt(a.2, b.2) && lex_lt(b.2, c.2) {
            lemma_lex_trans(a.2, b.2, c.2);
        } else if a.2 == b.2 && b.2 == c.2 {
            lemma_lex_trans(a.1, b.1, c.1);
        }
    }
}

proof fn lemma_base_pos(acc: Seq<PickView>, base: Seq<char>)
    ensures
        base_pos(acc, base) matches Some(k) ==> 0 <= k < acc.len() && acc[k].1 == base,
        base_pos(acc, base) is None ==> forall|i: int| 0 <= i < acc.len() ==> (#[trigger] acc[i]).1 != base,
    decreases acc.len(),
{
    if acc.len() > 0 {
        lemma_base_pos(acc.drop_last(), base);
        if acc.last().1 != base {
            assert forall|i: int| 0 <= i < acc.len() - 1 implies #[trigger] acc[i] == acc.drop_last()[i] by {}
        }
    }
}

/// The picks are one per model.
proof fn lemma_chosen_distinct(entries: Seq<SymbolEntry>, category: i64, want: Option<Seq<char>>)
    ensures
        distinct_models(chosen(entries, category, want)),
    decreases entries.len(),
{
    if entries.len() > 0 {
        let acc = chosen(entries.drop_last(), category, want);
        lemma_chosen_distinct(entries.drop_last(), category, want);
        match candidate(entries.last(), category) {
            Some(c) => {
                lemma_base_pos(acc, c.1);
                let r = choose_step(acc, c, want);
                assert(distinct_models(r)) by {
                    assert forall|i: int, j: int| 0 <= i < j < r.len() implies (#[trigger] r[i]).1 != (#[trigger] r[j]).1 by {
                        if j == acc.len() {
                            assert(r[i] == acc[i]);
                        } else {
                            assert(r[i].1 == acc[i].1 && r[j].1 == acc[j].1);
                        }
                    }
                }
            },
            None => {},
        }
    }
}

/// Two strictly sorted sequences of the same picks are the same sequence.
proof fn lemma_sorted_unique(s: Seq<PickView>, t: Seq<PickView>)
    requires
        strictly_sorted(s),
        strictly_sorted(t),
        same_picks(s, t),
    ensures
        s == t,
    decreases s.len(),
{
    if s.len() > 0 {
        assert(s.contains(s[0]));
        let k = choose|k: int| 0 <= k < t.len() && t[k] == s[0];
        assert(t.contains(t[0]));
        let m = choose|m: int| 0 <= m < s.len() && s[m] == t[0];
        if k > 0 {
            assert(pick_lt(t[0], t[k]));
            if m > 0 {
                assert(pick_lt(s[0], s[m]));
                lemma_pick_order(s[0], t[0], s[0]);
            } else {
                lemma_pick_order(t[0], t[0], t[0]);
            }
        }
        assert(t[0] == s[0]);
        let s1 = s.drop_first();
        let t1 = t.drop_first();
        assert(strictly_sorted(s1)) by {
            assert forall|i: int, j: int| 0 <= i < j < s1.len() implies pick_lt(#[trigger] s1[i], #[trigger] s1[j]) by {
                assert(s1[i] == s[i + 1] && s1[j] == s[j + 1]);
            }
        }
        assert(strictly_sorted(t1)) by {
            assert forall|i: int, j: int| 0 <= i < j < t1.len() implies pick_lt(#[trigger] t1[i], #[trigger] t1[j]) by {
                assert(t1[i] == t[i + 1] && t1[j] == t[j + 1]);
            }
        }
        assert forall|x: PickView| s1.contains(x) <==> t1.contains(x) by {
            if s1.contains(x) {
                let i = choose|i: int| 0 <= i < s1.len() && s1[i] == x;
                assert(s[i + 1] == x);
                assert(pick_lt(s[0], s[i + 1]));
                lemma_pick_order(x, x, x);
                assert(t.contains(x));
                let j = choose|j: int| 0 <= j < t.len() && t[j] == x;
                assert(j != 0);
                assert(t1[j - 1] == x);
            }
            if t1.contains(x) {
                let i = choose|i: int| 0 <= i < t1.len() && t1[i] == x;
                assert(t[i + 1] == x);
                assert(pick_lt(t[0], t[i + 1]));
                lemma_pick_order(x, x, x);
                assert(s.contains(x));
                let j = choose|j: int| 0 <= j < s.len() && s[j] == x;
                assert(j != 0);
                assert(s1[j - 1] == x);
            }
        }
        lemma_sorted_unique(s1, t1);
        assert(s =~= seq![s[0]] + s1);
        assert(t =~= seq![t[0]] + t1);
    } else {
        assert(t.len() == 0);
        assert(s =~= t);
    }
}

fn pick_less(a: &ModelPick, b: &ModelPick) -> (r: bool)
    ensures
        r == pick_lt(pick_view(*a), pick_view(*b)),
{
    let an = chars_of(a.name.as_str());
    let bn = chars_of(b.name.as_str());
    if lex_less(&an, &bn) {
        return true;
    }
    chars_eq(&an, &bn) && lex_less(&chars_of(a.symbolic_id.as_str()), &chars_of(b.symbolic_id.as_str()))
}

/// The picks in the picker's order (by name, then `symbolicID`), one per model as they came.
fn sort_picks(acc: Vec<ModelPick>) -> (out: Vec<ModelPick>)
    requires
        distinct_models(picks_view(acc@)),
    ensures
        strictly_sorted(picks_view(out@)),
        same_picks(picks_view(out@), picks_view(acc@)),
{
    let ghost a = picks_view(acc@);
    let mut out: Vec<ModelPick> = Vec::new();
    let total = acc.len();
    let mut rest = acc;
    proof {
        assert(picks_view(out@) =~= Seq::<PickView>::empty());
        assert(picks_view(rest@) =~= a.skip(0));
    }
    let mut n: usize = 0;
    while rest.len() > 0
        invariant
            n + rest@.len() == a.len(),
            a.len() == total,
            picks_view(rest@) == a.skip(n as int),
            distinct_models(a),
            strictly_sorted(picks_view(out@)),
            same_picks(picks_view(out@), a.take(n as int)),
        decreases rest.len(),
    {
        let ghost rv = rest@;
        let e = rest.remove(0);
        proof {
            assert(pick_view(e) == picks_view(rv)[0]);
            assert(pick_view(e) == a[n as int]);
            assert(picks_view(rest@) =~= a.skip(n + 1)) by {
                assert(rest@ =~= rv.drop_first());
                assert(picks_view(rv.drop_first()) =~= picks_view(rv).drop_first());
                assert(a.skip(n as int).drop_first() =~= a.skip(n + 1));
            }
        }
        let mut j: usize = 0;
        while j < out.len() && pick_less(&out[j], &e)
            invariant
                j <= out@.len(),
                forall|x: int| 0 <= x < j ==> pick_lt(#[trigger] picks_view(out@)[x], pick_view(e)),
            decreases out.len() - j,
        {
            j = j + 1;
        }
        let ghost before = picks_view(out@);
        let ghost pe = pick_view(e);
        proof {
            // `e`'s model is not among those placed yet.
            assert forall|x: int| 0 <= x < before.len() implies (#[trigger] before[x]).1 != pe.1 by {
                assert(a.take(n as int).contains(before[x]));
                let y = choose|y: int| 0 <= y < n && #[trigger] a.take(n as int)[y] == before[x];
                assert(a[y] == before[x]);
            }
        }
        out.insert(j, e);
        proof {
            let after = picks_view(out@);
            assert(after =~= before.insert(j as int, pe));
            assert forall|x: int| j < x < before.len() implies pick_lt(pe, #[trigger] before[x]) by {
                lemma_pick_order(before[j as int], pe, pe);
                lemma_pick_order(pe, before[j as int], before[x]);
            }
            if j < before.len() {
                lemma_pick_order(before[j as int], pe, pe);
            }
            assert(strictly_sorted(after)) by {
                assert forall|x: int, y: int| 0 <= x < y < after.len() implies pick_lt(#[trigger] after[x], #[trigger] after[y]) by {
                    if y < j {
                        assert(after[x] == before[x] && after[y] == before[y]);
                    } else if y == j {
                        assert(after[x] == before[x]);
                    } else if x < j {
                        assert(after[x] == before[x] && after[y] == before[y - 1]);
                        lemma_pick_order(before[x], pe, before[y - 1]);
                    } else if x == j {
                        assert(after[y] == before[y - 1]);
                    } else {
                        assert(after[x] == before[x - 1] && after[y] == before[y - 1]);
                    }
                }
            }
            assert(a.take(n + 1) =~= a.take(n as int).push(pe));
            assert forall|v: PickView| after.contains(v) <==> a.take(n + 1).contains(v) by {
                if after.contains(v) {
                    let x = choose|x: int| 0 <= x < after.len() && after[x] == v;
                    if x < j {
                        assert(before.contains(before[x]));
                        assert(a.take(n as int).contains(v));
                    } else if x > j {
                        assert(before.contains(before[x - 1]));
                        assert(a.take(n as int).contains(v));
                    }
                    if a.take(n as int).contains(v) {
                        let y = choose|y: int| 0 <= y < n && #[trigger] a.take(n as int)[y] == v;
                        assert(a.take(n + 1)[y] == v);
                    } else {
                        assert(v == pe);
                        assert(a.take(n + 1)[n as int] == v);
                    }
                }
                if a.take(n + 1).contains(v) {
                    let y = choose|y: int| 0 <= y < n + 1 && #[trigger] a.take(n + 1)[y] == v;
                    if y < n {
                        assert(a.take(n as int)[y] == v);
                        assert(a.take(n as int).contains(v));
                        assert(before.contains(v));
                        let x = choose|x: int| 0 <= x < before.len() && before[x] == v;
                        if x < j {
                            assert(after[x] == v);
                        } else {
                            assert(after[x + 1] == v);
                        }
                    } else {
                        assert(after[j as int] == v);
                    }
                }
            }
        }
        n = n + 1;
    }
    proof {
        assert(a.take(n as int) =~= a);
    }
    out
}

/// Whether another pick of `s` shows the same name as pick `i`.
pub open spec fn name_shared(s: Seq<PickView>, i: int) -> bool {
    exists|j: int| 0 <= j < s.len() && j != i && #[trigger] s[j].2 == s[i].2
}

/// The name pick `i` of `s` is shown under: a name two models share is followed by each one's
/// type word in parentheses (the amp and the preamp of one name, say).
pub open spec fn shown_name(s: Seq<PickView>, i: int) -> Seq<char> {
    if name_shared(s, i) { s[i].2 + " ("@ + type_token_spec(s[i].1) + ")"@ } else { s[i].2 }
}

/// The picks `s` under the names they are shown with.
pub open spec fn disambiguated(s: Seq<PickView>) -> Seq<PickView> {
    Seq::new(s.len(), |i: int| (s[i].0, s[i].1, shown_name(s, i), s[i].3, s[i].4))
}

/// The models offered in a category of the model table: one per model, preferring the `want`ed
/// variant, by name then `symbolicID`, same-named models told apart.
pub open spec fn offered_in(entries: Seq<SymbolEntry>, category: i64, want: Option<Seq<char>>) -> Seq<PickView> {
    disambiguated(sorted_picks(chosen(entries, category, want)))
}

fn disambiguate(sorted: Vec<ModelPick>) -> (out: Vec<ModelPick>)
    ensures
        picks_view(out@) == disambiguated(picks_view(sorted@)),
        distinct_models(picks_view(sorted@)) ==> distinct_models(picks_view(out@)),
{
    let ghost s = picks_view(sorted@);
    let mut out: Vec<ModelPick> = Vec::new();
    let mut i: usize = 0;
    while i < sorted.len()
        invariant
            i <= sorted@.len(),
            s == picks_view(sorted@),
            picks_view(out@) == disambiguated(s).take(i as int),
        decreases sorted.len() - i,
    {
        let mut shared = false;
        let mut j: usize = 0;
        while j < sorted.len()
            invariant
                j <= sorted@.len(),
                i < sorted@.len(),
                s == picks_view(sorted@),
                shared <==> exists|k: int| 0 <= k < j && k != i && #[trigger] s[k].2 == s[i as int].2,
            decreases sorted.len() - j,
        {
            proof {
                assert(s[j as int] == pick_view(sorted@[j as int]));
                assert(s[i as int] == pick_view(sorted@[i as int]));
            }
            if j != i && str_is(sorted[j].name.as_str(), sorted[i].name.as_str()) {
                shared = true;
                assert(s[j as int].2 == s[i as int].2);
            }
            j = j + 1;
        }
        let p = &sorted[i];
        let name = if shared {
            let mut m = p.name.clone();
            push_str(&mut m, " (");
            let t = type_token(p.symbolic_id.as_str());
            push_str(&mut m, t.as_str());
            push_str(&mut m, ")");
            proof {
                reveal_strlit(")");
                reveal_strlit(" (");
                assert(m@ =~= shown_name(s, i as int));
            }
            m
        } else {
            p.name.clone()
        };
        let ghost before = out@;
        out.push(ModelPick {
            index: p.index,
            symbolic_id: p.symbolic_id.clone(),
            name,
            variant: p.variant,
            paired_index: p.paired_index,
        });
        proof {
            lemma_picks_push(before, out@.last());
            assert(disambiguated(s).take(i + 1) =~= disambiguated(s).take(i as int).push(disambiguated(s)[i as int]));
        }
        i = i + 1;
    }
    proof {
        assert(disambiguated(s).take(i as int) =~= disambiguated(s));
    }
    out
}

/// The models offered in category `category` of the model table (exec form of [`offered_in`]).
fn offer_in(entries: &Vec<SymbolEntry>, category: i64, want: Option<&str>) -> (out: Vec<ModelPick>)
    ensures
        picks_view(out@) == offered_in(entries@, category, variant_view(want)),
        distinct_models(picks_view(out@)),
        strictly_sorted(sorted_picks(chosen(entries@, category, variant_view(want)))),
        same_picks(sorted_picks(chosen(entries@, category, variant_view(want))), chosen(entries@, category, variant_view(want))),
{
    let acc = choose_models(entries, category, want);
    proof {
        lemma_chosen_distinct(entries@, category, variant_view(want));
    }
    let sorted = sort_picks(acc);
    proof {
        let c = chosen(entries@, category, variant_view(want));
        let sp = sorted_picks(c);
        assert(strictly_sorted(picks_view(sorted@)) && same_picks(picks_view(sorted@), c));
        assert(strictly_sorted(sp) && same_picks(sp, c));
        lemma_sorted_unique(sp, picks_view(sorted@));
        let sv = picks_view(sorted@);
        assert forall|i: int, j: int| 0 <= i < j < sv.len() implies (#[trigger] sv[i]).1 != (#[trigger] sv[j]).1 by {
            assert(sv.contains(sv[i]) && sv.contains(sv[j]));
            let p = choose|p: int| 0 <= p < c.len() && c[p] == sv[i];
            let q = choose|q: int| 0 <= q < c.len() && c[q] == sv[j];
            assert(pick_lt(sv[i], sv[j]));
            lemma_pick_order(sv[i], sv[i], sv[i]);
            if p == q {
                assert(sv[i] == sv[j]);
            } else if p < q {
                assert(c[p].1 != c[q].1);
            } else {
                assert(c[q].1 != c[p].1);
            }
        }
    }
    disambiguate(sorted)
}

/// The first cab `links` pairs with the amp `amp`.
pub open spec fn cab_for(links: Seq<(Seq<char>, Seq<char>)>, amp: Seq<char>) -> Option<Seq<char>>
    decreases links.len(),
{
    if links.len() == 0 {
        None
    } else if links[0].0 == amp {
        Some(links[0].1)
    } else {
        cab_for(links.drop_first(), amp)
    }
}

/// The index of the first symbol spelled `sym`.
pub open spec fn symbol_index_of(entries: Seq<SymbolEntry>, sym: Seq<char>) -> Option<usize>
    decreases entries.len(),
{
    if entries.len() == 0 {
        None
    } else if entries[0].symbol@ == sym {
        Some(entries[0].index)
    } else {
        symbol_index_of(entries.drop_first(), sym)
    }
}

/// The amps `amps` that come with a cab, each paired with the symbol index of its cab; an amp
/// whose cab is not linked, or not on the device, is left out.
pub open spec fn with_cabs(amps: Seq<PickView>, links: Seq<(Seq<char>, Seq<char>)>, entries: Seq<SymbolEntry>) -> Seq<PickView>
    decreases amps.len(),
{
    if amps.len() == 0 {
        Seq::empty()
    } else {
        let r = with_cabs(amps.drop_last(), links, entries);
        let a = amps.last();
        match cab_for(links, a.1) {
            Some(cab) => match symbol_index_of(entries, cab) {
                Some(ix) => r.push((a.0, a.1, a.2, a.3, Some(ix))),
                None => r,
            },
            None => r,
        }
    }
}

/// No two links name the same amp.
pub open spec fn keys_once(links: Seq<(Seq<char>, Seq<char>)>) -> bool {
    forall|i: int, j: int| 0 <= i < j < links.len() ==> #[trigger] links[i].0 != #[trigger] links[j].0
}

/// The amp-to-cab links, as values.
pub open spec fn links_view(links: Seq<(String, String)>) -> Seq<(Seq<char>, Seq<char>)> {
    links.map_values(|l: (String, String)| (l.0@, l.1@))
}

/// What the picker offers in `category`: the models of that category, or for the synthetic
/// Amp+Cab list the amps, each paired with its linked cab.
pub open spec fn offered(entries: Seq<SymbolEntry>, links: Seq<(Seq<char>, Seq<char>)>, category: i64, want: Option<Seq<char>>) -> Seq<PickView> {
    if category == CATEGORY_AMP_CAB {
        with_cabs(offered_in(entries, 1, want), links, entries)
    } else {
        offered_in(entries, category, want)
    }
}

fn cab_of(links: &Vec<(String, String)>, amp: &str) -> (r: Option<String>)
    ensures
        r is None <==> cab_for(links_view(links@), amp@) is None,
        r matches Some(c) ==> cab_for(links_view(links@), amp@) == Some(c@),
{
    let a = chars_of(amp);
    let mut i: usize = 0;
    proof {
        assert(links_view(links@).skip(0) =~= links_view(links@));
    }
    while i < links.len()
        invariant
            i <= links@.len(),
            a@ == amp@,
            cab_for(links_view(links@), amp@) == cab_for(links_view(links@).skip(i as int), amp@),
        decreases links.len() - i,
    {
        proof {
            assert(links_view(links@).skip(i as int).drop_first() =~= links_view(links@).skip(i + 1));
            assert(links_view(links@).skip(i as int)[0] == (links@[i as int].0@, links@[i as int].1@));
        }
        if chars_eq(&chars_of(links[i].0.as_str()), &a) {
            return Some(links[i].1.clone());
        }
        i = i + 1;
    }
    proof {
        assert(links_view(links@).skip(i as int) =~= Seq::<(Seq<char>, Seq<char>)>::empty());
    }
    None
}

fn symbol_index(entries: &Vec<SymbolEntry>, sym: &str) -> (r: Option<usize>)
    ensures
        r == symbol_index_of(entries@, sym@),
{
    let target = chars_of(sym);
    let mut i: usize = 0;
    proof {
        assert(entries@.skip(0) =~= entries@);
    }
    while i < entries.len()
        invariant
            i <= entries@.len(),
            target@ == sym@,
            symbol_index_of(entries@, sym@) == symbol_index_of(entries@.skip(i as int), sym@),
        decreases entries.len() - i,
    {
        proof {
            assert(entries@.skip(i as int).drop_first() =~= entries@.skip(i + 1));
            assert(entries@.skip(i as int)[0] == entries@[i as int]);
        }
        if chars_eq(&chars_of(entries[i].symbol.as_str()), &target) {
            return Some(entries[i].index);
        }
        i = i + 1;
    }
    proof {
        assert(entries@.skip(i as int) =~= Seq::<SymbolEntry>::empty());
    }
    None
}

proof fn lemma_with_cabs_from(amps: Seq<PickView>, links: Seq<(Seq<char>, Seq<char>)>, entries: Seq<SymbolEntry>)
    ensures
        forall|i: int| 0 <= i < with_cabs(amps, links, entries).len() ==> exists|k: int| 0 <= k < amps.len()
            && (#[trigger] with_cabs(amps, links, entries)[i]).1 == amps[k].1,
        distinct_models(amps) ==> distinct_models(with_cabs(amps, links, entries)),
    decreases amps.len(),
{
    if amps.len() > 0 {
        let d = amps.drop_last();
        lemma_with_cabs_from(d, links, entries);
        let r = with_cabs(d, links, entries);
        let w = with_cabs(amps, links, entries);
        assert forall|i: int| 0 <= i < w.len() implies exists|k: int| 0 <= k < amps.len() && (#[trigger] w[i]).1 == amps[k].1 by {
            if i < r.len() {
                assert(w[i] == r[i]);
                let k = choose|k: int| 0 <= k < d.len() && r[i].1 == d[k].1;
                assert(amps[k] == d[k]);
            } else {
                assert(w[i].1 == amps[amps.len() - 1].1);
            }
        }
        if distinct_models(amps) {
            assert(distinct_models(d)) by {
                assert forall|i: int, j: int| 0 <= i < j < d.len() implies (#[trigger] d[i]).1 != (#[trigger] d[j]).1 by {
                    assert(d[i] == amps[i] && d[j] == amps[j]);
                }
            }
            assert forall|i: int, j: int| 0 <= i < j < w.len() implies (#[trigger] w[i]).1 != (#[trigger] w[j]).1 by {
                if j < r.len() {
                    assert(w[i] == r[i] && w[j] == r[j]);
                } else {
                    assert(w[i] == r[i]);
                    let k = choose|k: int| 0 <= k < d.len() && r[i].1 == d[k].1;
                    assert(amps[k] == d[k]);
                    assert(w[j].1 == amps[amps.len() - 1].1);
                }
            }
        }
    }
}

/// The models the picker offers in `category`, one per model, for a block of variant `want`
/// (`Mono`/`Stereo`; amps have none): each model once, in the wanted variant where it comes in
/// that one, ordered by name and then `symbolicID`, with models that share a name told apart by
/// their type word. The synthetic Amp+Cab category lists the amps, each with the symbol index of
/// the cab `links` pairs it with; amps without one are left out. `entries` is the device's symbol
/// table; `links` maps each amp to its cab, so no amp is listed twice.
pub fn models_in_category(entries: &Vec<SymbolEntry>, links: &Vec<(String, String)>, category: i64, want: Option<&str>) -> (out: Vec<ModelPick>)
    requires
        keys_once(links_view(links@)),
    ensures
        picks_view(out@) == offered(entries@, links_view(links@), category, variant_view(want)),
        distinct_models(picks_view(out@)),
        ({
            let c = chosen(entries@, if category == CATEGORY_AMP_CAB { 1 } else { category }, variant_view(want));
            strictly_sorted(sorted_picks(c)) && same_picks(sorted_picks(c), c)
        }),
{
    if category != CATEGORY_AMP_CAB {
        return offer_in(entries, category, want);
    }
    let amps = offer_in(entries, 1, want);
    let ghost av = picks_view(amps@);
    proof {
        lemma_with_cabs_from(av, links_view(links@), entries@);
    }
    let mut out: Vec<ModelPick> = Vec::new();
    let mut i: usize = 0;
    proof {
        assert(picks_view(out@) =~= Seq::<PickView>::empty());
    }
    while i < amps.len()
        invariant
            i <= amps@.len(),
            av == picks_view(amps@),
            picks_view(out@) == with_cabs(av.take(i as int), links_view(links@), entries@),
        decreases amps.len() - i,
    {
        proof {
            assert(av.take(i + 1).drop_last() =~= av.take(i as int));
            assert(av.take(i + 1).last() == pick_view(amps@[i as int]));
        }
        let a = &amps[i];
        match cab_of(links, a.symbolic_id.as_str()) {
            Some(cab) => match symbol_index(entries, cab.as_str()) {
                Some(ix) => {
                    let ghost before = out@;
                    out.push(ModelPick {
                        index: a.index,
                        symbolic_id: a.symbolic_id.clone(),
                        name: a.name.clone(),
                        variant: a.variant,
                        paired_index: Some(ix),
                    });
                    proof {
                        lemma_picks_push(before, out@.last());
                    }
                },
                None => {},
            },
            None => {},
        }
        i = i + 1;
    }
    proof {
        assert(av.take(i as int) =~= av);
    }
    out
}

/// The symbol's model is in category `c` (after folding the old Pitch id into Pitch/Synth).
pub open spec fn in_category(e: SymbolEntry, c: i64) -> bool {
    match e.category {
        Some(x) => canonical_category_spec(x) == c,
        None => false,
    }
}

/// Some symbol's model is in category `c`.
pub open spec fn category_present(entries: Seq<SymbolEntry>, c: i64) -> bool {
    exists|k: int| 0 <= k < entries.len() && in_category(#[trigger] entries[k], c)
}

/// Category `c` is listed: it has a name, and some model is in it — or it is the Amp+Cab list
/// and there are amps to pair.
pub open spec fn listed_category(entries: Seq<SymbolEntry>, c: i64) -> bool {
    (category_present(entries, c) || (c == CATEGORY_AMP_CAB && category_present(entries, 1)))
        && category_name_spec(c) is Some
}

/// The name of a named category.
pub open spec fn cat_name(c: i64) -> Seq<char> {
    category_name_spec(c)->0
}

/// The named categories, in order of name.
pub open spec fn name_order() -> Seq<i64> {
    seq![1i64, 100, 2, 19, 9, 3, 4, 14, 6, 16, 15, 8, 7, 13, 10, 12, 17, 11]
}

proof fn lemma_chain(i: int, j: int)
    requires
        0 <= i < j < name_order().len(),
        forall|k: int| 0 <= k < name_order().len() - 1 ==> lex_lt(cat_name(#[trigger] name_order()[k]), cat_name(name_order()[k + 1])),
    ensures
        lex_lt(cat_name(name_order()[i]), cat_name(name_order()[j])),
    decreases j - i,
{
    if j > i + 1 {
        lemma_chain(i, j - 1);
        let k = j - 1;
        assert(lex_lt(cat_name(name_order()[k]), cat_name(name_order()[k + 1])));
        lemma_lex_trans(cat_name(name_order()[i]), cat_name(name_order()[j - 1]), cat_name(name_order()[j]));
    }
}

/// The list really is in name order, and holds every named category but the folded Pitch id.
proof fn lemma_name_order()
    ensures
        forall|i: int, j: int| 0 <= i < j < name_order().len()
            ==> lex_lt(cat_name(#[trigger] name_order()[i]), cat_name(#[trigger] name_order()[j])),
        forall|i: int| 0 <= i < name_order().len() ==> category_name_spec(#[trigger] name_order()[i]) is Some,
        forall|c: i64| #[trigger] category_name_spec(c) is Some && c != 5 ==> name_order().contains(c),
{
    reveal_strlit("Amp");
    reveal_strlit("Amp+Cab");
    reveal_strlit("Cab");
    reveal_strlit("Cab (Mic+IR)");
    reveal_strlit("Delay");
    reveal_strlit("Distortion");
    reveal_strlit("Dynamics");
    reveal_strlit("EQ");
    reveal_strlit("Filter");
    reveal_strlit("IR");
    reveal_strlit("Looper");
    reveal_strlit("Modulation");
    reveal_strlit("Pitch/Synth");
    reveal_strlit("Preamp");
    reveal_strlit("Reverb");
    reveal_strlit("Send/Return");
    reveal_strlit("Volume/Pan");
    reveal_strlit("Wah");
    reveal_with_fuel(lex_lt, 5);
    let o = name_order();
    assert(lex_lt(cat_name(o[0]), cat_name(o[1])));
    assert(lex_lt(cat_name(o[1]), cat_name(o[2])));
    assert(lex_lt(cat_name(o[2]), cat_name(o[3])));
    assert(lex_lt(cat_name(o[3]), cat_name(o[4])));
    assert(lex_lt(cat_name(o[4]), cat_name(o[5])));
    assert(lex_lt(cat_name(o[5]), cat_name(o[6])));
    assert(lex_lt(cat_name(o[6]), cat_name(o[7])));
    assert(lex_lt(cat_name(o[7]), cat_name(o[8])));
    assert(lex_lt(cat_name(o[8]), cat_name(o[9])));
    assert(lex_lt(cat_name(o[9]), cat_name(o[10])));
    assert(lex_lt(cat_name(o[10]), cat_name(o[11])));
    assert(lex_lt(cat_name(o[11]), cat_name(o[12])));
    assert(lex_lt(cat_name(o[12]), cat_name(o[13])));
    assert(lex_lt(cat_name(o[13]), cat_name(o[14])));
    assert(lex_lt(cat_name(o[14]), cat_name(o[15])));
    assert(lex_lt(cat_name(o[15]), cat_name(o[16])));
    assert(lex_lt(cat_name(o[16]), cat_name(o[17])));
    assert forall|k: int| 0 <= k < o.len() - 1 implies lex_lt(cat_name(#[trigger] o[k]), cat_name(o[k + 1])) by {
        if k == 0 {} else if k == 1 {} else if k == 2 {} else if k == 3 {} else if k == 4 {} else if k == 5 {}
        else if k == 6 {} else if k == 7 {} else if k == 8 {} else if k == 9 {} else if k == 10 {}
        else if k == 11 {} else if k == 12 {} else if k == 13 {} else if k == 14 {} else if k == 15 {} else {}
    }
    assert forall|i: int, j: int| 0 <= i < j < o.len() implies lex_lt(cat_name(#[trigger] o[i]), cat_name(#[trigger] o[j])) by {
        lemma_chain(i, j);
    }
    assert forall|c: i64| #[trigger] category_name_spec(c) is Some && c != 5 implies o.contains(c) by {
        let k: int = if c == 1 { 0 } else if c == 100 { 1 } else if c == 2 { 2 } else if c == 19 { 3 }
            else if c == 9 { 4 } else if c == 3 { 5 } else if c == 4 { 6 } else if c == 14 { 7 }
            else if c == 6 { 8 } else if c == 16 { 9 } else if c == 15 { 10 } else if c == 8 { 11 }
            else if c == 7 { 12 } else if c == 13 { 13 } else if c == 10 { 14 } else if c == 12 { 15 }
            else if c == 17 { 16 } else { 17 };
        assert(o[k] == c);
    }
}

fn present(entries: &Vec<SymbolEntry>, c: i64) -> (r: bool)
    ensures
        r == category_present(entries@, c),
{
    let mut i: usize = 0;
    while i < entries.len()
        invariant
            i <= entries@.len(),
            forall|k: int| 0 <= k < i ==> !in_category(#[trigger] entries@[k], c),
        decreases entries.len() - i,
    {
        match entries[i].category {
            Some(x) => {
                if canonical_category(x) == c {
                    return true;
                }
            },
            None => {},
        }
        i = i + 1;
    }
    false
}

/// The categories the picker lists, as `(id, name)` in order of name: each named category some
/// model of the device's symbol table is in, and the synthetic Amp+Cab list whenever there are
/// amps to pair.
pub fn categories(entries: &Vec<SymbolEntry>) -> (out: Vec<(i64, &'static str)>)
    ensures
        forall|k: int| 0 <= k < out@.len() ==> category_name_spec((#[trigger] out@[k]).0) == Some(out@[k].1@),
        forall|a: int, b: int| 0 <= a < b < out@.len() ==> lex_lt((#[trigger] out@[a]).1@, (#[trigger] out@[b]).1@),
        forall|c: i64| listed_category(entries@, c) <==> exists|k: int| 0 <= k < out@.len() && (#[trigger] out@[k]).0 == c,
{
    proof {
        lemma_name_order();
    }
    let order: Vec<i64> = vec![1, 100, 2, 19, 9, 3, 4, 14, 6, 16, 15, 8, 7, 13, 10, 12, 17, 11];
    assert(order@ == name_order());
    let amps = present(entries, 1);
    let mut out: Vec<(i64, &'static str)> = Vec::new();
    let mut i: usize = 0;
    while i < order.len()
        invariant
            i <= order@.len(),
            order@ == name_order(),
            amps == category_present(entries@, 1),
            forall|i: int, j: int| 0 <= i < j < name_order().len()
                ==> lex_lt(cat_name(#[trigger] name_order()[i]), cat_name(#[trigger] name_order()[j])),
            forall|x: int| 0 <= x < name_order().len() ==> category_name_spec(#[trigger] name_order()[x]) is Some,
            forall|k: int| 0 <= k < out@.len() ==> category_name_spec((#[trigger] out@[k]).0) == Some(out@[k].1@),
            forall|k: int| 0 <= k < out@.len() ==> exists|p: int| 0 <= p < i && #[trigger] name_order()[p] == (#[trigger] out@[k]).0,
            forall|a: int, b: int| 0 <= a < b < out@.len() ==> lex_lt((#[trigger] out@[a]).1@, (#[trigger] out@[b]).1@),
            forall|k: int| 0 <= k < out@.len() ==> listed_category(entries@, (#[trigger] out@[k]).0),
            forall|p: int| 0 <= p < i && #[trigger] listed_category(entries@, name_order()[p])
                ==> exists|k: int| 0 <= k < out@.len() && (#[trigger] out@[k]).0 == name_order()[p],
        decreases order.len() - i,
    {
        let c = order[i];
        let listed = present(entries, c) || (c == CATEGORY_AMP_CAB && amps);
        if listed {
            match category_name(c) {
                Some(n) => {
                    let ghost before = out@;
                    proof {
                        assert forall|k: int| 0 <= k < before.len() implies lex_lt((#[trigger] before[k]).1@, n@) by {
                            let p = choose|p: int| 0 <= p < i && #[trigger] name_order()[p] == before[k].0;
                            assert(lex_lt(cat_name(name_order()[p]), cat_name(name_order()[i as int])));
                        }
                    }
                    out.push((c, n));
                    proof {
                        assert forall|k: int| 0 <= k < out@.len() implies exists|p: int| 0 <= p < i + 1 && #[trigger] name_order()[p] == (#[trigger] out@[k]).0 by {
                            if k < before.len() {
                                assert(out@[k] == before[k]);
                                let p = choose|p: int| 0 <= p < i && #[trigger] name_order()[p] == before[k].0;
                                assert(name_order()[p] == out@[k].0);
                            } else {
                                assert(name_order()[i as int] == out@[k].0);
                            }
                        }
                        assert forall|a: int, b: int| 0 <= a < b < out@.len() implies lex_lt((#[trigger] out@[a]).1@, (#[trigger] out@[b]).1@) by {
                            if b < before.len() {
                                assert(out@[a] == before[a] && out@[b] == before[b]);
                            } else {
                                assert(out@[a] == before[a]);
                            }
                        }
                        assert forall|p: int| 0 <= p < i + 1 && #[trigger] listed_category(entries@, name_order()[p])
                            implies exists|k: int| 0 <= k < out@.len() && (#[trigger] out@[k]).0 == name_order()[p] by {
                            if p < i {
                                let k = choose|k: int| 0 <= k < before.len() && (#[trigger] before[k]).0 == name_order()[p];
                                assert(out@[k] == before[k]);
                            } else {
                                assert(out@[before.len() as int].0 == name_order()[p]);
                            }
                        }
                    }
                },
                None => {},
            }
        }
        proof {
            assert forall|p: int| 0 <= p < i + 1 && #[trigger] listed_category(entries@, name_order()[p])
                implies exists|k: int| 0 <= k < out@.len() && (#[trigger] out@[k]).0 == name_order()[p] by {
                if p == i {
                    assert(category_name_spec(c) is Some);
                }
            }
            assert forall|k: int| 0 <= k < out@.len() implies exists|p: int| 0 <= p < i + 1 && #[trigger] name_order()[p] == (#[trigger] out@[k]).0 by {
                let p = choose|p: int| 0 <= p < i + 1 && #[trigger] name_order()[p] == out@[k].0;
            }
        }
        i = i + 1;
    }
    proof {
        assert forall|c: i64| listed_category(entries@, c) implies exists|k: int| 0 <= k < out@.len() && (#[trigger] out@[k]).0 == c by {
            if c == 5 {
                let k = choose|k: int| 0 <= k < entries@.len() && in_category(#[trigger] entries@[k], 5);
            }
            assert(category_name_spec(c) is Some);
            assert(name_order().contains(c));
            let p = choose|p: int| 0 <= p < name_order().len() && name_order()[p] == c;
            assert(listed_category(entries@, name_order()[p]));
        }
    }
    out
}

/// A symbol whose model the category list counts in `c` (its category folds to `c`), that is not
/// a dual cab and has a name to show, is offered in `c`: under its symbol index and its
/// `symbolicID` without the variant suffix.
pub proof fn a_counted_model_is_offered(e: SymbolEntry, c: i64)
    requires
        in_category(e, c),
        !(has_prefix(split_variant_spec(e.symbol@).0, "HD2_CabMicIr_"@)
            && has_suffix(split_variant_spec(e.symbol@).0, "WithPan"@)),
        match e.name {
            Some(n) => n@.len() > 0,
            None => split_variant_spec(e.symbol@).0.len() > 0,
        },
    ensures
        candidate(e, c) matches Some(p) && p.0 == e.index && p.1 == split_variant_spec(e.symbol@).0,
{
}

proof fn lemma_choose_step_keeps(acc: Seq<PickView>, c: PickView, want: Option<Seq<char>>)
    ensures
        exists|j: int| 0 <= j < choose_step(acc, c, want).len() && (#[trigger] choose_step(acc, c, want)[j]).1 == c.1,
        forall|i: int| 0 <= i < acc.len() ==> exists|j: int| 0 <= j < choose_step(acc, c, want).len()
            && (#[trigger] choose_step(acc, c, want)[j]).1 == (#[trigger] acc[i]).1,
{
    lemma_base_pos(acc, c.1);
    let n = choose_step(acc, c, want);
    match base_pos(acc, c.1) {
        Some(k) => {
            assert(n[k].1 == c.1);
        },
        None => {
            assert(n[acc.len() as int].1 == c.1);
        },
    }
    assert forall|i: int| 0 <= i < acc.len() implies exists|j: int| 0 <= j < n.len() && (#[trigger] n[j]).1 == (#[trigger] acc[i]).1 by {
        assert(n[i].1 == acc[i].1);
    }
}

/// Every model some symbol offers in `category` is among the picks, once the symbol table has
/// been taken in: no offered model is dropped.
pub proof fn every_offered_model_is_picked(entries: Seq<SymbolEntry>, category: i64, want: Option<Seq<char>>, k: int)
    requires
        0 <= k < entries.len(),
        candidate(entries[k], category) is Some,
    ensures
        exists|j: int| 0 <= j < chosen(entries, category, want).len()
            && (#[trigger] chosen(entries, category, want)[j]).1 == (candidate(entries[k], category)->0).1,
    decreases entries.len(),
{
    let acc = chosen(entries.drop_last(), category, want);
    let b = (candidate(entries[k], category)->0).1;
    let whole = chosen(entries, category, want);
    if k == entries.len() - 1 {
        let c = candidate(entries.last(), category)->0;
        assert(whole == choose_step(acc, c, want));
        lemma_choose_step_keeps(acc, c, want);
    } else {
        assert(entries.drop_last()[k] == entries[k]);
        every_offered_model_is_picked(entries.drop_last(), category, want, k);
        let i = choose|i: int| 0 <= i < acc.len() && (#[trigger] acc[i]).1 == b;
        match candidate(entries.last(), category) {
            Some(c) => {
                assert(whole == choose_step(acc, c, want));
                lemma_choose_step_keeps(acc, c, want);
                assert(acc[i].1 == b);
                let j = choose|j: int| 0 <= j < whole.len() && (#[trigger] whole[j]).1 == acc[i].1;
                assert(whole[j].1 == b);
            },
            None => {
                assert(whole == acc);
                assert(whole[i].1 == b);
            },
        }
    }
}

} // verus!
