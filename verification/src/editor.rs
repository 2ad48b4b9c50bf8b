//! The editor's naming rules: snapshot names, effect categories, model symbols, the names and
//! addressing of a block's parameters, and tempo-sync groups.

use vstd::prelude::*;
use crate::text::{
    before_first, chars_of, dec, ends_with, has_prefix, has_suffix, is_lower, is_upper,
    lemma_before_first, owned, push_u64, starts_with, string_of,
};

verus! {

/// The name the device gives a snapshot nobody renamed: `SNAPSHOT 1`, `SNAPSHOT 2`, … for the
/// 0-based `index`.
pub fn default_snapshot_name(index: usize) -> (s: String)
    requires
        index < usize::MAX,
    ensures
        s@ == "SNAPSHOT "@ + dec((index + 1) as nat),
{
    let mut s = owned("SNAPSHOT ");
    push_u64(&mut s, (index + 1) as u64);
    s
}

/// The four split-node types, as `(Helix.sym index, canonical symbol, label)`, in the device's
/// menu order. Y is the type a new split gets.
pub fn split_types() -> (v: Vec<(i64, &'static str, &'static str)>)
    ensures
        v@.len() == 4,
        v@[0].0 == 257 && v@[0].1@ == "HD2_AppDSPFlowSplitY"@ && v@[0].2@ == "Y"@,
        v@[1].0 == 256 && v@[1].1@ == "HD2_AppDSPFlowSplitAB"@ && v@[1].2@ == "A/B"@,
        v@[2].0 == 258 && v@[2].1@ == "HD2_AppDSPFlowSplitXOver"@ && v@[2].2@ == "Crossover"@,
        v@[3].0 == 563 && v@[3].1@ == "HD2_AppDSPFlowSplitDyn"@ && v@[3].2@ == "Dynamic"@,
{
    vec![
        (257, "HD2_AppDSPFlowSplitY", "Y"),
        (256, "HD2_AppDSPFlowSplitAB", "A/B"),
        (258, "HD2_AppDSPFlowSplitXOver", "Crossover"),
        (563, "HD2_AppDSPFlowSplitDyn", "Dynamic"),
    ]
}

/// The synthetic picker category pairing every amp with its suggested cab.
pub const CATEGORY_AMP_CAB: i64 = 100;

/// Category 5 holds only the 3 Osc Synth, which the picker files with the other synths (7).
pub open spec fn canonical_category_spec(id: i64) -> i64 {
    if id == 5 { 7 } else { id }
}

/// Fold the `.models` category ids that the picker presents as one entry.
pub fn canonical_category(id: i64) -> (c: i64)
    ensures
        c == canonical_category_spec(id),
{
    if id == 5 { 7 } else { id }
}

/// The human name of a `.models` category id (after folding), `None` for an unknown id.
pub open spec fn category_name_spec(id: i64) -> Option<Seq<char>> {
    let c = canonical_category_spec(id);
    if c == 1 { Some("Amp"@) }
    else if c == 2 { Some("Cab"@) }
    else if c == 3 { Some("Distortion"@) }
    else if c == 4 { Some("Dynamics"@) }
    else if c == 6 { Some("Filter"@) }
    else if c == 7 { Some("Pitch/Synth"@) }
    else if c == 8 { Some("Modulation"@) }
    else if c == 9 { Some("Delay"@) }
    else if c == 10 { Some("Reverb"@) }
    else if c == 11 { Some("Wah"@) }
    else if c == 12 { Some("Send/Return"@) }
    else if c == 13 { Some("Preamp"@) }
    else if c == 14 { Some("EQ"@) }
    else if c == 15 { Some("Looper"@) }
    else if c == 16 { Some("IR"@) }
    else if c == 17 { Some("Volume/Pan"@) }
    else if c == 19 { Some("Cab (Mic+IR)"@) }
    else if c == CATEGORY_AMP_CAB { Some("Amp+Cab"@) }
    else { None }
}

/// Human name for a `.models` category id — the device's effect-type enum.
pub fn category_name(id: i64) -> (r: Option<&'static str>)
    ensures
        r is None <==> category_name_spec(id) is None,
        r matches Some(s) ==> category_name_spec(id) == Some(s@),
{
    let c = canonical_category(id);
    if c == 1 { Some("Amp") }
    else if c == 2 { Some("Cab") }
    else if c == 3 { Some("Distortion") }
    else if c == 4 { Some("Dynamics") }
    else if c == 6 { Some("Filter") }
    else if c == 7 { Some("Pitch/Synth") }
    else if c == 8 { Some("Modulation") }
    else if c == 9 { Some("Delay") }
    else if c == 10 { Some("Reverb") }
    else if c == 11 { Some("Wah") }
    else if c == 12 { Some("Send/Return") }
    else if c == 13 { Some("Preamp") }
    else if c == 14 { Some("EQ") }
    else if c == 15 { Some("Looper") }
    else if c == 16 { Some("IR") }
    else if c == 17 { Some("Volume/Pan") }
    else if c == 19 { Some("Cab (Mic+IR)") }
    else if c == CATEGORY_AMP_CAB { Some("Amp+Cab") }
    else { None }
}

/// A `symbolicID` without its vendor prefix: what follows the first `_`, or all of it.
pub open spec fn symbol_body(id: Seq<char>) -> Seq<char> {
    if id.contains('_') {
        id.skip(before_first(id, |c: char| c == '_').len() as int + 1)
    } else {
        id
    }
}

/// Position `i` of `body` is a lower-to-upper camelCase boundary.
pub open spec fn camel_break(body: Seq<char>, i: int) -> bool {
    1 <= i < body.len() && is_upper(body[i]) && is_lower(body[i - 1])
}

/// The leading "type" word of a `symbolicID`: its body up to the first camelCase boundary, or
/// the whole body when it has none.
pub open spec fn type_token_spec(id: Seq<char>) -> Seq<char> {
    let b = symbol_body(id);
    if exists|i: int| #[trigger] camel_break(b, i) {
        b.take(choose|i: int| #[trigger] camel_break(b, i) && forall|j: int| 1 <= j < i ==> !camel_break(b, j))
    } else {
        b
    }
}

/// The leading "type" word of a `symbolicID` (`HD2_PreampEVPanamaRed` gives `Preamp`): the body
/// up to its first camelCase boundary, or the whole body when it has none.
pub fn type_token(symbolic_id: &str) -> (t: String)
    ensures
        t@ == type_token_spec(symbolic_id@),
        (exists|i: int| #[trigger] camel_break(symbol_body(symbolic_id@), i)) ==> exists|i: int|
            #[trigger] camel_break(symbol_body(symbolic_id@), i)
            && (forall|j: int| 1 <= j < i ==> !camel_break(symbol_body(symbolic_id@), j))
            && t@ == symbol_body(symbolic_id@).take(i),
        !(exists|i: int| #[trigger] camel_break(symbol_body(symbolic_id@), i)) ==> t@ == symbol_body(symbolic_id@),
{
    let id = chars_of(symbolic_id);
    let mut u: usize = 0;
    while u < id.len() && id[u] != '_'
        invariant
            u <= id@.len(),
            forall|k: int| 0 <= k < u ==> id@[k] != '_',
        decreases id.len() - u,
    {
        u = u + 1;
    }
    let start: usize = if u < id.len() { u + 1 } else { 0 };
    let ghost body = symbol_body(symbolic_id@);
    proof {
        if u < id@.len() {
            lemma_before_first(id@, |c: char| c == '_', u as int);
            assert(id@.contains('_'));
        } else {
            assert(!id@.contains('_'));
        }
        assert(body =~= id@.skip(start as int));
    }
    let mut i: usize = start;
    let mut end: usize = id.len();
    let mut found = false;
    while i < id.len()
        invariant
            body == id@.skip(start as int),
            start <= i <= id@.len(),
            !found ==> end == id@.len(),
            !found ==> forall|j: int| 1 <= j < i - start ==> !camel_break(body, j),
            found ==> start < end < id@.len() && camel_break(body, end - start),
            found ==> forall|j: int| 1 <= j < end - start ==> !camel_break(body, j),
        decreases id.len() - i,
    {
        if i > start && !found {
            let up = 'A' <= id[i] && id[i] <= 'Z';
            let low = 'a' <= id[i - 1] && id[i - 1] <= 'z';
            if up && low {
                end = i;
                found = true;
                assert(camel_break(body, i - start));
            }
        }
        i = i + 1;
    }
    let mut out: Vec<char> = Vec::new();
    let mut k: usize = start;
    while k < end
        invariant
            start <= k <= end,
            end <= id@.len(),
            out@ == id@.subrange(start as int, k as int),
        decreases end - k,
    {
        out.push(id[k]);
        k = k + 1;
        assert(out@ =~= id@.subrange(start as int, k as int));
    }
    proof {
        if end < id@.len() {
            assert(out@ =~= body.take(end - start));
            let e = end - start;
            let c = choose|i: int| #[trigger] camel_break(body, i) && forall|j: int| 1 <= j < i ==> !camel_break(body, j);
            assert(c == e) by {
                if c < e {
                    assert(!camel_break(body, c));
                } else if c > e {
                    assert(!camel_break(body, e as int));
                }
            }
        } else {
            assert(out@ =~= body);
            assert forall|j: int| !camel_break(body, j) by {
            }
        }
    }
    string_of(&out)
}

/// Whether `symbol` is the dual twin of a Cab (Mic+IR) model, which the pedal refuses as an
/// in-place swap target.
pub fn is_dual_cab(symbol: &str) -> (r: bool)
    ensures
        r == (has_prefix(symbol@, "HD2_CabMicIr_"@) && has_suffix(symbol@, "WithPan"@)),
{
    let s = chars_of(symbol);
    starts_with(&s, &chars_of("HD2_CabMicIr_")) && ends_with(&s, &chars_of("WithPan"))
}

/// A device symbol split into its base and its `Mono`/`Stereo` suffix (none on, say, amps).
pub open spec fn split_variant_spec(symbol: Seq<char>) -> (Seq<char>, Option<Seq<char>>) {
    if has_suffix(symbol, "Mono"@) {
        (symbol.take(symbol.len() - 4), Some("Mono"@))
    } else if has_suffix(symbol, "Stereo"@) {
        (symbol.take(symbol.len() - 6), Some("Stereo"@))
    } else {
        (symbol, None)
    }
}

/// Split a device symbol into its `symbolicID` base and `Mono`/`Stereo` variant.
pub fn split_variant(symbol: &str) -> (r: (String, Option<&'static str>))
    ensures
        r.0@ == split_variant_spec(symbol@).0,
        r.1 is None <==> split_variant_spec(symbol@).1 is None,
        r.1 matches Some(v) ==> split_variant_spec(symbol@).1 == Some(v@),
{
    let s = chars_of(symbol);
    if ends_with(&s, &chars_of("Mono")) {
        proof { reveal_strlit("Mono"); }
        (prefix(&s, s.len() - 4), Some("Mono"))
    } else if ends_with(&s, &chars_of("Stereo")) {
        proof { reveal_strlit("Stereo"); }
        (prefix(&s, s.len() - 6), Some("Stereo"))
    } else {
        (owned(symbol), None)
    }
}

/// The first `n` characters of `s`, as a `String`.
fn prefix(s: &Vec<char>, n: usize) -> (out: String)
    requires
        n <= s@.len(),
    ensures
        out@ == s@.take(n as int),
{
    let mut v: Vec<char> = Vec::new();
    let mut k: usize = 0;
    while k < n
        invariant
            k <= n,
            n <= s@.len(),
            v@ == s@.take(k as int),
        decreases n - k,
    {
        v.push(s[k]);
        k = k + 1;
        assert(v@ =~= s@.take(k as int));
    }
    string_of(&v)
}

/// The name of the lone value a model sends past its symbol's listed params: a legacy cab's mic
/// index (categories 2 and 19), otherwise a delay's or reverb's `Trails` switch.
pub fn trailing_extra_name(category: Option<i64>) -> (s: &'static str)
    ensures
        s@ == (if category == Some(2i64) || category == Some(19i64) { "Mic"@ } else { "Trails"@ }),
{
    match category {
        Some(2) | Some(19) => "Mic",
        _ => "Trails",
    }
}

/// How one of a block's values is named and addressed.
pub struct ParamName {
    /// Index in the block's value vector — the wire param selector.
    pub index: usize,
    pub name: String,
    /// Whether a parameter write can reach this value at all.
    pub settable: bool,
    /// For the lone value past the end of the symbol's param list: its index among the block's
    /// extra values (always 0).
    pub extra_index: Option<i64>,
}

/// The `i`-th of `count` values is past the symbol's list of `n` names, and the only one there.
pub open spec fn lone_extra(i: int, n: int, count: int) -> bool {
    i == n && count == n + 1
}

/// The name of value `i` of `count`, against the ordered names `names`: its listed name; the
/// category's trailing-extra name for a lone value past the list; `#i` for any other.
pub open spec fn param_name_spec(i: int, names: Seq<String>, count: int, category: Option<i64>) -> Seq<char> {
    if i < names.len() {
        names[i]@
    } else if lone_extra(i, names.len() as int, count) {
        if category == Some(2i64) || category == Some(19i64) { "Mic"@ } else { "Trails"@ }
    } else {
        seq!['#'] + dec(i as nat)
    }
}

/// `p` is how the `i`-th of `count` values is named and addressed, against the names `names`
/// (`has_list` false when there is no list at all).
pub open spec fn param_named(p: ParamName, i: int, names: Seq<String>, has_list: bool, count: int, category: Option<i64>) -> bool {
    let is_extra = has_list && i >= names.len();
    let extra = is_extra && lone_extra(i, names.len() as int, count);
    &&& p.index == i
    &&& p.name@ == param_name_spec(i, names, count, category)
    &&& p.extra_index == (if extra { Some(0i64) } else { None })
    &&& p.settable == (!is_extra || extra)
}

/// Name `count` values against an ordered name list (`None` when there is no reference data).
/// A value past the list is addressed through the block's extras: the lone one there gets extras
/// index 0; when several are past the list none is addressable. With no list every value keeps
/// the ordinary path.
pub fn name_params(count: usize, order: Option<&Vec<String>>, category: Option<i64>) -> (out: Vec<ParamName>)
    ensures
        out@.len() == count,
        forall|i: int| 0 <= i < count ==> param_named(#[trigger] out@[i], i,
            match order { Some(v) => v@, None => Seq::<String>::empty() }, order is Some, count as int, category),
{
    let empty: Vec<String> = Vec::new();
    let names: &Vec<String> = match order {
        Some(v) => v,
        None => &empty,
    };
    let has_list = order.is_some();
    let n = names.len();
    let mut out: Vec<ParamName> = Vec::new();
    let mut i: usize = 0;
    while i < count
        invariant
            i <= count,
            out@.len() == i,
            n == names@.len(),
            has_list == order is Some,
            names@ == match order { Some(v) => v@, None => Seq::<String>::empty() },
            forall|k: int| 0 <= k < i ==> param_named(#[trigger] out@[k], k, names@, order is Some, count as int, category),
        decreases count - i,
    {
        let is_extra = has_list && i >= n;
        let lone = i == n && count > 0 && count - 1 == n;
        let extra_index: Option<i64> = if is_extra && lone { Some(0) } else { None };
        let settable = !is_extra || extra_index.is_some();
        let name = if i < n {
            names[i].clone()
        } else if lone {
            owned(trailing_extra_name(category))
        } else {
            let mut s = owned("#");
            push_u64(&mut s, i as u64);
            proof {
                reveal_strlit("#");
                assert(s@ =~= seq!['#'] + dec(i as nat));
            }
            s
        };
        let ghost nm = name@;
        proof {
            let is_extra_s = order is Some && i >= names@.len();
            let extra_s = is_extra_s && lone_extra(i as int, names@.len() as int, count as int);
            assert(is_extra == is_extra_s);
            assert(lone == lone_extra(i as int, names@.len() as int, count as int));
            assert(extra_index == (if extra_s { Some(0i64) } else { None }));
            assert(nm == param_name_spec(i as int, names@, count as int, category));
        }
        out.push(ParamName { index: i, name, settable, extra_index });
        i = i + 1;
    }
    out
}

/// Which member of a tempo-sync group a parameter is.
#[derive(Debug, Clone, Copy, PartialEq, Eq, Structural)]
pub enum SyncRole {
    /// The `TempoSync{n}` switch.
    Tempo,
    /// The `SyncSelect{n}` note value.
    Note,
    /// The time/rate/speed parameter the pair governs.
    Governed,
}

/// A tempo-sync group: the switch, the note value and the parameter they take over, shown as one
/// control. Every member carries the same three indices and its own role.
#[derive(Debug, Clone, Copy, PartialEq, Eq, Structural)]
pub struct SyncLink {
    pub role: SyncRole,
    /// Param index of the `TempoSync{n}` switch.
    pub tempo: usize,
    /// Param index of the `SyncSelect{n}` note value.
    pub note: usize,
    /// Param index of the parameter the pair governs.
    pub governed: usize,
}

/// The position of the first of `names` that is `sym`.
pub open spec fn first_pos(names: Seq<String>, sym: Seq<char>) -> Option<int>
    decreases names.len(),
{
    if names.len() == 0 {
        None
    } else if names[0]@ == sym {
        Some(0)
    } else {
        match first_pos(names.drop_first(), sym) {
            Some(k) => Some(k + 1),
            None => None,
        }
    }
}

proof fn lemma_first_pos(names: Seq<String>, sym: Seq<char>, k: int)
    requires
        0 <= k <= names.len(),
        forall|j: int| 0 <= j < k ==> #[trigger] names[j]@ != sym,
    ensures
        k < names.len() && names[k]@ == sym ==> first_pos(names, sym) == Some(k),
        k == names.len() ==> first_pos(names, sym) is None,
    decreases k,
{
    if k > 0 {
        assert forall|j: int| 0 <= j < k - 1 implies #[trigger] names.drop_first()[j]@ != sym by {
            assert(names.drop_first()[j] == names[j + 1]);
        }
        lemma_first_pos(names.drop_first(), sym, k - 1);
    } else if names.len() > 0 {
    }
}

fn find_name(names: &Vec<String>, sym: &String) -> (r: Option<usize>)
    ensures
        r is None <==> first_pos(names@, sym@) is None,
        r matches Some(k) ==> first_pos(names@, sym@) == Some(k as int) && k < names@.len(),
{
    let mut i: usize = 0;
    while i < names.len()
        invariant
            i <= names@.len(),
            forall|j: int| 0 <= j < i ==> #[trigger] names@[j]@ != sym@,
        decreases names.len() - i,
    {
        if names[i] == *sym {
            proof {
                lemma_first_pos(names@, sym@, i as int);
            }
            return Some(i);
        }
        i = i + 1;
    }
    proof {
        lemma_first_pos(names@, sym@, i as int);
    }
    None
}

/// The sync slots after marking one group's members, when all three are among `names`.
pub open spec fn link_group(sync: Seq<Option<SyncLink>>, names: Seq<String>, g: (String, String, String)) -> Seq<Option<SyncLink>> {
    match (first_pos(names, g.0@), first_pos(names, g.1@), first_pos(names, g.2@)) {
        (Some(t), Some(n), Some(v)) => {
            let link = |role: SyncRole| Some(SyncLink { role, tempo: t as usize, note: n as usize, governed: v as usize });
            sync.update(t, link(SyncRole::Tempo)).update(n, link(SyncRole::Note)).update(v, link(SyncRole::Governed))
        },
        _ => sync,
    }
}

/// The sync slots after marking every group in turn.
pub open spec fn link_groups(sync: Seq<Option<SyncLink>>, names: Seq<String>, groups: Seq<(String, String, String)>) -> Seq<Option<SyncLink>>
    decreases groups.len(),
{
    if groups.len() == 0 {
        sync
    } else {
        link_group(link_groups(sync, names, groups.drop_last()), names, groups.last())
    }
}

/// Mark each group's three members: `sync[i]` is the link of the param named `names[i]`. A group
/// whose three symbols are not all among the names is left alone.
pub fn link_sync_groups(names: &Vec<String>, sync: &mut Vec<Option<SyncLink>>, groups: &Vec<(String, String, String)>)
    requires
        old(sync)@.len() == names@.len(),
    ensures
        final(sync)@ == link_groups(old(sync)@, names@, groups@),
{
    let ghost start = sync@;
    let mut gi: usize = 0;
    while gi < groups.len()
        invariant
            gi <= groups@.len(),
            sync@.len() == names@.len(),
            sync@ == link_groups(start, names@, groups@.take(gi as int)),
        decreases groups.len() - gi,
    {
        proof {
            assert(groups@.take(gi + 1).drop_last() =~= groups@.take(gi as int));
            assert(groups@.take(gi + 1).last() == groups@[gi as int]);
        }
        let t = find_name(names, &groups[gi].0);
        let n = find_name(names, &groups[gi].1);
        let v = find_name(names, &groups[gi].2);
        match (t, n, v) {
            (Some(t), Some(n), Some(v)) => {
                proof {
                    let g = groups@[gi as int];
                    assert(first_pos(names@, g.0@) == Some(t as int));
                }
                sync.set(t, Some(SyncLink { role: SyncRole::Tempo, tempo: t, note: n, governed: v }));
                sync.set(n, Some(SyncLink { role: SyncRole::Note, tempo: t, note: n, governed: v }));
                sync.set(v, Some(SyncLink { role: SyncRole::Governed, tempo: t, note: n, governed: v }));
            }
            _ => {}
        }
        gi = gi + 1;
    }
    proof {
        assert(groups@.take(groups@.len() as int) =~= groups@);
    }
}

} // verus!
