//! What the editor reads out of the reference catalog (`HX_ModelCatalog.json` and the controls
//! file): the category colours, the tempo-sync groups of each model, and the label lists of the
//! discrete controls. The files are taken as [`JsonValue`]s; reading them is best-effort, so a
//! shape that does not match is skipped rather than refused.

use vstd::prelude::*;
use crate::json::{get, JsonValue};
use crate::text::{chars_eq, chars_of, has_prefix, starts_with, str_is};
use crate::editor::{category_name, category_name_spec};
use crate::json::as_bool;

verus! {

/// The value of a hexadecimal digit.
pub open spec fn hex_digit_value(c: char) -> Option<nat> {
    if '0' <= c <= '9' {
        Some((c as nat - '0' as nat) as nat)
    } else if 'a' <= c <= 'f' {
        Some((c as nat - 'a' as nat + 10) as nat)
    } else if 'A' <= c <= 'F' {
        Some((c as nat - 'A' as nat + 10) as nat)
    } else {
        None
    }
}

/// Every character is a hexadecimal digit.
pub open spec fn all_hex(s: Seq<char>) -> bool {
    forall|i: int| 0 <= i < s.len() ==> (#[trigger] hex_digit_value(s[i])) is Some
}

/// The number the hexadecimal digits `s` write.
pub open spec fn hex_number(s: Seq<char>) -> nat
    decreases s.len(),
{
    if s.len() == 0 {
        0
    } else {
        hex_number(s.drop_last()) * 16 + hex_digit_value(s.last())->0
    }
}

/// `u32::from_str_radix(s, 16)`: an optional `+`, then at least one hexadecimal digit, for a value
/// that fits 32 bits.
pub open spec fn parse_hex_u32(s: Seq<char>) -> Option<u32> {
    let body = if s.len() > 0 && s[0] == '+' { s.drop_first() } else { s };
    if body.len() > 0 && all_hex(body) && hex_number(body) <= u32::MAX {
        Some(hex_number(body) as u32)
    } else {
        None
    }
}

/// A catalog colour, written `0xRRGGBB` (the `x` in either case).
pub open spec fn color_value(c: Seq<char>) -> Option<u32> {
    if has_prefix(c, "0x"@) || has_prefix(c, "0X"@) {
        parse_hex_u32(c.skip(2))
    } else {
        None
    }
}

/// The colour an object names itself with: a string `name` and a string `color` that reads as
/// one.
pub open spec fn named_color(v: JsonValue) -> Option<(Seq<char>, u32)> {
    match (get(v, "name"@), get(v, "color"@)) {
        (JsonValue::Str(n), JsonValue::Str(c)) => match color_value(c@) {
            Some(rgb) => Some((n@, rgb)),
            None => None,
        },
        _ => None,
    }
}

/// Every named colour in the tree, in document order: an object's own first, then those inside
/// its members.
pub open spec fn colors_in(v: JsonValue) -> Seq<(Seq<char>, u32)>
    decreases v,
{
    match v {
        JsonValue::Object(m) => {
            let here = match named_color(v) {
                Some(p) => seq![p],
                None => Seq::empty(),
            };
            here + colors_in_members(m@)
        },
        JsonValue::Array(a) => colors_in_items(a@),
        _ => Seq::empty(),
    }
}

/// [`colors_in`] over an object's members, in order.
pub open spec fn colors_in_members(m: Seq<(String, JsonValue)>) -> Seq<(Seq<char>, u32)>
    decreases m,
{
    if m.len() == 0 {
        Seq::empty()
    } else {
        colors_in(m[0].1) + colors_in_members(m.subrange(1, m.len() as int))
    }
}

/// [`colors_in`] over an array's items, in order.
pub open spec fn colors_in_items(a: Seq<JsonValue>) -> Seq<(Seq<char>, u32)>
    decreases a,
{
    if a.len() == 0 {
        Seq::empty()
    } else {
        colors_in(a[0]) + colors_in_items(a.subrange(1, a.len() as int))
    }
}

/// The pairs of a colour table, as values.
pub open spec fn color_pairs(v: Seq<(String, u32)>) -> Seq<(Seq<char>, u32)> {
    v.map_values(|p: (String, u32)| (p.0@, p.1))
}

fn hex_digit_of(c: char) -> (r: Option<u32>)
    ensures
        r matches Some(d) ==> hex_digit_value(c) == Some(d as nat) && d < 16,
        r is None ==> hex_digit_value(c) is None,
{
    if '0' <= c && c <= '9' {
        Some((c as u32) - ('0' as u32))
    } else if 'a' <= c && c <= 'f' {
        Some((c as u32) - ('a' as u32) + 10)
    } else if 'A' <= c && c <= 'F' {
        Some((c as u32) - ('A' as u32) + 10)
    } else {
        None
    }
}

/// `u32::from_str_radix` in base 16 over `s[from..]` (exec form of [`parse_hex_u32`]).
fn parse_hex_u32_from(s: &Vec<char>, from: usize) -> (r: Option<u32>)
    requires
        from <= s@.len(),
    ensures
        r == parse_hex_u32(s@.skip(from as int)),
{
    let ghost t = s@.skip(from as int);
    let mut i: usize = from;
    if i < s.len() && s[i] == '+' {
        i = i + 1;
    }
    let ghost body = s@.skip(i as int);
    proof {
        if t.len() > 0 && t[0] == '+' {
            assert(body =~= t.drop_first());
        } else {
            assert(body =~= t);
        }
    }
    if i >= s.len() {
        return None;
    }
    let start = i;
    let mut val: u64 = 0;
    let mut over = false;
    while i < s.len()
        invariant
            start <= i <= s@.len(),
            body == s@.skip(start as int),
            t == s@.skip(from as int),
            body == (if t.len() > 0 && t[0] == '+' { t.drop_first() } else { t }),
            !over ==> val == hex_number(body.take(i - start)) && val <= u32::MAX,
            over ==> hex_number(body.take(i - start)) > u32::MAX,
            all_hex(body.take(i - start)),
        decreases s.len() - i,
    {
        let d = match hex_digit_of(s[i]) {
            Some(d) => d,
            None => {
                proof {
                    let k = (i - start) as int;
                    assert(body[k] == s@[i as int]);
                    assert(hex_digit_value(body[k]) is None);
                    assert(!all_hex(body));
                }
                return None;
            },
        };
        proof {
            let k = i - start;
            assert(body.take(k + 1).drop_last() =~= body.take(k));
            assert(body.take(k + 1).last() == s@[i as int]);
            assert(all_hex(body.take(k + 1))) by {
                assert forall|j: int| 0 <= j < k + 1 implies (#[trigger] hex_digit_value(body.take(k + 1)[j])) is Some by {
                    if j < k {
                        assert(body.take(k + 1)[j] == body.take(k)[j]);
                    }
                }
            }
        }
        if !over {
            val = val * 16 + d as u64;
            if val > 0xffff_ffff {
                over = true;
            }
        }
        i = i + 1;
    }
    proof {
        assert(body.take(i - start) =~= body);
    }
    if over {
        None
    } else {
        Some(val as u32)
    }
}

/// The value of a catalog colour (exec form of [`color_value`]).
fn color_of(c: &str) -> (r: Option<u32>)
    ensures
        r == color_value(c@),
{
    let cs = chars_of(c);
    let lower = chars_of("0x");
    let upper = chars_of("0X");
    proof {
        reveal_strlit("0x");
        reveal_strlit("0X");
    }
    if starts_with(&cs, &lower) || starts_with(&cs, &upper) {
        parse_hex_u32_from(&cs, 2)
    } else {
        None
    }
}

fn named_color_of(v: &JsonValue) -> (r: Option<(String, u32)>)
    ensures
        r is None <==> named_color(*v) is None,
        r matches Some(p) ==> named_color(*v) == Some((p.0@, p.1)),
{
    match (v.get("name"), v.get("color")) {
        (JsonValue::Str(n), JsonValue::Str(c)) => match color_of(c.as_str()) {
            Some(rgb) => Some((n.clone(), rgb)),
            None => None,
        },
        _ => None,
    }
}

fn collect_colors(v: &JsonValue, out: &mut Vec<(String, u32)>)
    ensures
        color_pairs(final(out)@) == color_pairs(old(out)@) + colors_in(*v),
    decreases v,
{
    let ghost start = color_pairs(out@);
    match v {
        JsonValue::Object(m) => {
            match named_color_of(v) {
                Some(p) => {
                    out.push(p);
                },
                None => {},
            }
            let ghost here = match named_color(*v) {
                Some(p) => seq![p],
                None => Seq::<(Seq<char>, u32)>::empty(),
            };
            proof {
                assert(color_pairs(out@) =~= start + here);
                assert(m@.subrange(0, m@.len() as int) =~= m@);
                assert(colors_in(*v) == here + colors_in_members(m@));
            }
            let mut i: usize = 0;
            while i < m.len()
                invariant
                    i <= m@.len(),
                    *v == JsonValue::Object(*m),
                    colors_in(*v) == here + colors_in_members(m@),
                    color_pairs(out@) + colors_in_members(m@.subrange(i as int, m@.len() as int)) == start + colors_in(*v),
                decreases m.len() - i,
            {
                let ghost before = color_pairs(out@);
                let ghost rest = m@.subrange(i as int, m@.len() as int);
                proof {
                    assert(rest[0] == m@[i as int]);
                    assert(rest.subrange(1, rest.len() as int) =~= m@.subrange(i + 1, m@.len() as int));
                }
                collect_colors(&m[i].1, out);
                proof {
                    assert(color_pairs(out@) + colors_in_members(m@.subrange(i + 1, m@.len() as int))
                        =~= before + colors_in_members(rest));
                }
                i = i + 1;
            }
            proof {
                assert(m@.subrange(i as int, m@.len() as int) =~= Seq::<(String, JsonValue)>::empty());
                assert(color_pairs(out@) =~= start + colors_in(*v));
            }
        },
        JsonValue::Array(a) => {
            proof {
                assert(a@.subrange(0, a@.len() as int) =~= a@);
                assert(color_pairs(out@) =~= start);
            }
            let mut i: usize = 0;
            while i < a.len()
                invariant
                    i <= a@.len(),
                    *v == JsonValue::Array(*a),
                    color_pairs(out@) + colors_in_items(a@.subrange(i as int, a@.len() as int)) == start + colors_in(*v),
                decreases a.len() - i,
            {
                let ghost before = color_pairs(out@);
                let ghost rest = a@.subrange(i as int, a@.len() as int);
                proof {
                    assert(rest[0] == a@[i as int]);
                    assert(rest.subrange(1, rest.len() as int) =~= a@.subrange(i + 1, a@.len() as int));
                }
                collect_colors(&a[i], out);
                proof {
                    assert(color_pairs(out@) + colors_in_items(a@.subrange(i + 1, a@.len() as int))
                        =~= before + colors_in_items(rest));
                }
                i = i + 1;
            }
            proof {
                assert(a@.subrange(i as int, a@.len() as int) =~= Seq::<JsonValue>::empty());
                assert(color_pairs(out@) =~= start + colors_in(*v));
            }
        },
        _ => {
            proof {
                assert(color_pairs(out@) =~= start + colors_in(*v));
            }
        },
    }
}

/// Every category colour the catalog names, in document order: each object with a string `name`
/// and a `color` written `0xRRGGBB`. Where a name comes twice, the first one is its colour.
pub fn category_colors_from(root: &JsonValue) -> (v: Vec<(String, u32)>)
    ensures
        color_pairs(v@) == colors_in(*root),
{
    let mut v: Vec<(String, u32)> = Vec::new();
    proof {
        assert(color_pairs(v@) =~= Seq::<(Seq<char>, u32)>::empty());
    }
    collect_colors(root, &mut v);
    proof {
        assert(color_pairs(v@) =~= colors_in(*root));
    }
    v
}

/// The colour a name takes in the table: its first entry.
pub open spec fn first_color(colors: Seq<(Seq<char>, u32)>, name: Seq<char>) -> Option<u32>
    decreases colors.len(),
{
    if colors.len() == 0 {
        None
    } else if colors[0].0 == name {
        Some(colors[0].1)
    } else {
        first_color(colors.drop_first(), name)
    }
}

/// The catalog category a category's colour is filed under: the synthetic Amp+Cab and Cab
/// (Mic+IR) lists take the colours of what they are made of.
pub open spec fn color_category(name: Seq<char>) -> Seq<char> {
    if name == "Amp+Cab"@ {
        "Amp"@
    } else if name == "Cab (Mic+IR)"@ {
        "Cab"@
    } else {
        name
    }
}

/// The colour of category `id` in the table `colors`, `None` for an unnamed category or one the
/// table lacks.
pub fn category_color(colors: &Vec<(String, u32)>, id: i64) -> (r: Option<u32>)
    ensures
        r == match category_name_spec(id) {
            None => None,
            Some(n) => first_color(color_pairs(colors@), color_category(n)),
        },
{
    let name = match category_name(id) {
        Some(n) => n,
        None => {
            return None;
        },
    };
    let key = if str_is(name, "Amp+Cab") {
        chars_of("Amp")
    } else if str_is(name, "Cab (Mic+IR)") {
        chars_of("Cab")
    } else {
        chars_of(name)
    };
    let ghost want = color_category(name@);
    assert(key@ == want);
    assert(color_pairs(colors@).skip(0) =~= color_pairs(colors@));
    let mut i: usize = 0;
    while i < colors.len()
        invariant
            i <= colors@.len(),
            key@ == want,
            category_name_spec(id) == Some(name@),
            want == color_category(name@),
            first_color(color_pairs(colors@), want) == first_color(color_pairs(colors@).skip(i as int), want),
        decreases colors.len() - i,
    {
        proof {
            assert(color_pairs(colors@).skip(i as int).drop_first() =~= color_pairs(colors@).skip(i + 1));
            assert(color_pairs(colors@).skip(i as int)[0] == (colors@[i as int].0@, colors@[i as int].1));
        }
        if chars_eq(&chars_of(colors[i].0.as_str()), &key) {
            return Some(colors[i].1);
        }
        i = i + 1;
    }
    proof {
        assert(color_pairs(colors@).skip(i as int) =~= Seq::<(Seq<char>, u32)>::empty());
    }
    None
}

/// The key of each item of `list` that is an object with a member: its first member's key.
pub open spec fn first_keys(list: Seq<JsonValue>) -> Seq<Seq<char>>
    decreases list.len(),
{
    if list.len() == 0 {
        Seq::empty()
    } else {
        let r = first_keys(list.drop_last());
        match list.last() {
            JsonValue::Object(m) => if m@.len() > 0 { r.push(m@[0].0@) } else { r },
            _ => r,
        }
    }
}

/// A tempo-sync group, as a catalog `params` entry writes it: a list of three one-member objects
/// keyed by the tempo-sync switch (`TempoSync…`), the note division (`SyncSelect…`) and the time
/// it governs.
pub open spec fn sync_group(entry: JsonValue) -> Option<(Seq<char>, Seq<char>, Seq<char>)> {
    match entry {
        JsonValue::Array(list) => {
            let syms = first_keys(list@);
            if syms.len() == 3 && has_prefix(syms[0], "TempoSync"@) && has_prefix(syms[1], "SyncSelect"@) {
                Some((syms[0], syms[1], syms[2]))
            } else {
                None
            }
        },
        _ => None,
    }
}

/// The tempo-sync groups among a model's `params` entries, in order.
pub open spec fn sync_groups_of(params: Seq<JsonValue>) -> Seq<(Seq<char>, Seq<char>, Seq<char>)>
    decreases params.len(),
{
    if params.len() == 0 {
        Seq::empty()
    } else {
        let r = sync_groups_of(params.drop_last());
        match sync_group(params.last()) {
            Some(g) => r.push(g),
            None => r,
        }
    }
}

/// A model's sync groups: an object with a string `id` and a `params` array holding at least one
/// group.
pub open spec fn model_sync(v: JsonValue) -> Option<(Seq<char>, Seq<(Seq<char>, Seq<char>, Seq<char>)>)> {
    match (get(v, "id"@), get(v, "params"@)) {
        (JsonValue::Str(id), JsonValue::Array(ps)) => {
            let g = sync_groups_of(ps@);
            if g.len() > 0 { Some((id@, g)) } else { None }
        },
        _ => None,
    }
}

/// Every model's sync groups in the tree, in document order: an object's own first, then those
/// inside its members.
pub open spec fn syncs_in(v: JsonValue) -> Seq<(Seq<char>, Seq<(Seq<char>, Seq<char>, Seq<char>)>)>
    decreases v,
{
    match v {
        JsonValue::Object(m) => {
            let here = match model_sync(v) {
                Some(p) => seq![p],
                None => Seq::empty(),
            };
            here + syncs_in_members(m@)
        },
        JsonValue::Array(a) => syncs_in_items(a@),
        _ => Seq::empty(),
    }
}

/// [`syncs_in`] over an object's members, in order.
pub open spec fn syncs_in_members(m: Seq<(String, JsonValue)>) -> Seq<(Seq<char>, Seq<(Seq<char>, Seq<char>, Seq<char>)>)>
    decreases m,
{
    if m.len() == 0 {
        Seq::empty()
    } else {
        syncs_in(m[0].1) + syncs_in_members(m.subrange(1, m.len() as int))
    }
}

/// [`syncs_in`] over an array's items, in order.
pub open spec fn syncs_in_items(a: Seq<JsonValue>) -> Seq<(Seq<char>, Seq<(Seq<char>, Seq<char>, Seq<char>)>)>
    decreases a,
{
    if a.len() == 0 {
        Seq::empty()
    } else {
        syncs_in(a[0]) + syncs_in_items(a.subrange(1, a.len() as int))
    }
}

/// A group as values.
pub open spec fn group_view(g: (String, String, String)) -> (Seq<char>, Seq<char>, Seq<char>) {
    (g.0@, g.1@, g.2@)
}

/// A table of models' sync groups, as values.
pub open spec fn sync_table(v: Seq<(String, Vec<(String, String, String)>)>) -> Seq<(Seq<char>, Seq<(Seq<char>, Seq<char>, Seq<char>)>)> {
    v.map_values(|p: (String, Vec<(String, String, String)>)| (p.0@, p.1@.map_values(|g: (String, String, String)| group_view(g))))
}

fn first_keys_of(list: &Vec<JsonValue>) -> (v: Vec<String>)
    ensures
        v@.map_values(|k: String| k@) == first_keys(list@),
{
    let mut v: Vec<String> = Vec::new();
    let mut i: usize = 0;
    while i < list.len()
        invariant
            i <= list@.len(),
            v@.map_values(|k: String| k@) == first_keys(list@.take(i as int)),
        decreases list.len() - i,
    {
        proof {
            assert(list@.take(i + 1).drop_last() =~= list@.take(i as int));
            assert(list@.take(i + 1).last() == list@[i as int]);
        }
        match &list[i] {
            JsonValue::Object(m) => {
                if m.len() > 0 {
                    let ghost before = v@;
                    v.push(m[0].0.clone());
                    proof {
                        assert(v@.map_values(|k: String| k@) =~= before.map_values(|k: String| k@).push(m@[0].0@));
                    }
                }
            },
            _ => {},
        }
        i = i + 1;
    }
    proof {
        assert(list@.take(list@.len() as int) =~= list@);
    }
    v
}

fn sync_group_in(entry: &JsonValue) -> (r: Option<(String, String, String)>)
    ensures
        r is None <==> sync_group(*entry) is None,
        r matches Some(g) ==> sync_group(*entry) == Some(group_view(g)),
{
    match entry {
        JsonValue::Array(list) => {
            let syms = first_keys_of(list);
            proof {
                reveal_strlit("TempoSync");
                reveal_strlit("SyncSelect");
            }
            if syms.len() == 3 {
                proof {
                    assert(syms@[0]@ == first_keys(list@)[0]);
                    assert(syms@[1]@ == first_keys(list@)[1]);
                    assert(syms@[2]@ == first_keys(list@)[2]);
                }
                if starts_with(&chars_of(syms[0].as_str()), &chars_of("TempoSync"))
                    && starts_with(&chars_of(syms[1].as_str()), &chars_of("SyncSelect")) {
                    return Some((syms[0].clone(), syms[1].clone(), syms[2].clone()));
                }
            }
            None
        },
        _ => None,
    }
}

fn model_sync_of(v: &JsonValue) -> (r: Option<(String, Vec<(String, String, String)>)>)
    ensures
        r is None <==> model_sync(*v) is None,
        r matches Some(p) ==> model_sync(*v) == Some((p.0@, p.1@.map_values(|g: (String, String, String)| group_view(g)))),
{
    match (v.get("id"), v.get("params")) {
        (JsonValue::Str(id), JsonValue::Array(ps)) => {
            let mut groups: Vec<(String, String, String)> = Vec::new();
            let mut i: usize = 0;
            while i < ps.len()
                invariant
                    i <= ps@.len(),
                    groups@.map_values(|g: (String, String, String)| group_view(g)) == sync_groups_of(ps@.take(i as int)),
                decreases ps.len() - i,
            {
                proof {
                    assert(ps@.take(i + 1).drop_last() =~= ps@.take(i as int));
                    assert(ps@.take(i + 1).last() == ps@[i as int]);
                }
                match sync_group_in(&ps[i]) {
                    Some(g) => {
                        let ghost before = groups@;
                        groups.push(g);
                        proof {
                            assert(groups@.map_values(|g: (String, String, String)| group_view(g))
                                =~= before.map_values(|g: (String, String, String)| group_view(g)).push(group_view(g)));
                        }
                    },
                    None => {},
                }
                i = i + 1;
            }
            proof {
                assert(ps@.take(ps@.len() as int) =~= ps@);
            }
            if groups.len() > 0 {
                Some((id.clone(), groups))
            } else {
                None
            }
        },
        _ => None,
    }
}

fn collect_syncs(v: &JsonValue, out: &mut Vec<(String, Vec<(String, String, String)>)>)
    ensures
        sync_table(final(out)@) == sync_table(old(out)@) + syncs_in(*v),
    decreases v,
{
    let ghost start = sync_table(out@);
    match v {
        JsonValue::Object(m) => {
            match model_sync_of(v) {
                Some(p) => {
                    out.push(p);
                },
                None => {},
            }
            let ghost here = match model_sync(*v) {
                Some(p) => seq![p],
                None => Seq::<(Seq<char>, Seq<(Seq<char>, Seq<char>, Seq<char>)>)>::empty(),
            };
            proof {
                assert(sync_table(out@) =~= start + here);
                assert(m@.subrange(0, m@.len() as int) =~= m@);
                assert(syncs_in(*v) == here + syncs_in_members(m@));
            }
            let mut i: usize = 0;
            while i < m.len()
                invariant
                    i <= m@.len(),
                    *v == JsonValue::Object(*m),
                    sync_table(out@) + syncs_in_members(m@.subrange(i as int, m@.len() as int)) == start + syncs_in(*v),
                decreases m.len() - i,
            {
                let ghost before = sync_table(out@);
                let ghost rest = m@.subrange(i as int, m@.len() as int);
                proof {
                    assert(rest[0] == m@[i as int]);
                    assert(rest.subrange(1, rest.len() as int) =~= m@.subrange(i + 1, m@.len() as int));
                }
                collect_syncs(&m[i].1, out);
                proof {
                    assert(sync_table(out@) + syncs_in_members(m@.subrange(i + 1, m@.len() as int))
                        =~= before + syncs_in_members(rest));
                }
                i = i + 1;
            }
            proof {
                assert(m@.subrange(i as int, m@.len() as int) =~= Seq::<(String, JsonValue)>::empty());
                assert(sync_table(out@) =~= start + syncs_in(*v));
            }
        },
        JsonValue::Array(a) => {
            proof {
                assert(a@.subrange(0, a@.len() as int) =~= a@);
                assert(sync_table(out@) =~= start);
            }
            let mut i: usize = 0;
            while i < a.len()
                invariant
                    i <= a@.len(),
                    *v == JsonValue::Array(*a),
                    sync_table(out@) + syncs_in_items(a@.subrange(i as int, a@.len() as int)) == start + syncs_in(*v),
                decreases a.len() - i,
            {
                let ghost before = sync_table(out@);
                let ghost rest = a@.subrange(i as int, a@.len() as int);
                proof {
                    assert(rest[0] == a@[i as int]);
                    assert(rest.subrange(1, rest.len() as int) =~= a@.subrange(i + 1, a@.len() as int));
                }
                collect_syncs(&a[i], out);
                proof {
                    assert(sync_table(out@) + syncs_in_items(a@.subrange(i + 1, a@.len() as int))
                        =~= before + syncs_in_items(rest));
                }
                i = i + 1;
            }
            proof {
                assert(a@.subrange(i as int, a@.len() as int) =~= Seq::<JsonValue>::empty());
                assert(sync_table(out@) =~= start + syncs_in(*v));
            }
        },
        _ => {
            proof {
                assert(sync_table(out@) =~= start + syncs_in(*v));
            }
        },
    }
}

/// Every model's tempo-sync groups in the catalog, in document order, keyed by the model's `id`.
/// Where an id comes twice, the last one counts.
pub fn sync_groups_from(root: &JsonValue) -> (v: Vec<(String, Vec<(String, String, String)>)>)
    ensures
        sync_table(v@) == syncs_in(*root),
{
    let mut v: Vec<(String, Vec<(String, String, String)>)> = Vec::new();
    proof {
        assert(sync_table(v@) =~= Seq::<(Seq<char>, Seq<(Seq<char>, Seq<char>, Seq<char>)>)>::empty());
    }
    collect_syncs(root, &mut v);
    proof {
        assert(sync_table(v@) =~= syncs_in(*root));
    }
    v
}

/// The strings among `items`, in order.
pub open spec fn string_items(items: Seq<JsonValue>) -> Seq<Seq<char>>
    decreases items.len(),
{
    if items.len() == 0 {
        Seq::empty()
    } else {
        let r = string_items(items.drop_last());
        match items.last() {
            JsonValue::Str(t) => r.push(t@),
            _ => r,
        }
    }
}

/// The labels of a discrete control: one marked `isDiscrete: true` whose `format` is a non-empty
/// array of strings only.
pub open spec fn control_labels(ctrl: JsonValue) -> Option<Seq<Seq<char>>> {
    if as_bool(get(ctrl, "isDiscrete"@)) == Some(true) {
        match get(ctrl, "format"@) {
            JsonValue::Array(arr) => {
                let labels = string_items(arr@);
                if labels.len() == arr@.len() && labels.len() > 0 { Some(labels) } else { None }
            },
            _ => None,
        }
    } else {
        None
    }
}

/// The discrete controls among the controls file's members, with their labels, in order.
pub open spec fn labels_of_members(m: Seq<(String, JsonValue)>) -> Seq<(Seq<char>, Seq<Seq<char>>)>
    decreases m.len(),
{
    if m.len() == 0 {
        Seq::empty()
    } else {
        let r = labels_of_members(m.drop_last());
        match control_labels(m.last().1) {
            Some(l) => r.push((m.last().0@, l)),
            None => r,
        }
    }
}

/// The discrete controls of the controls file (an object keyed by control name).
pub open spec fn discrete_labels(root: JsonValue) -> Seq<(Seq<char>, Seq<Seq<char>>)> {
    match root {
        JsonValue::Object(m) => labels_of_members(m@),
        _ => Seq::empty(),
    }
}

/// A table of control labels, as values.
pub open spec fn label_table(v: Seq<(String, Vec<String>)>) -> Seq<(Seq<char>, Seq<Seq<char>>)> {
    v.map_values(|p: (String, Vec<String>)| (p.0@, p.1@.map_values(|l: String| l@)))
}

fn control_labels_of(ctrl: &JsonValue) -> (r: Option<Vec<String>>)
    ensures
        r is None <==> control_labels(*ctrl) is None,
        r matches Some(l) ==> control_labels(*ctrl) == Some(l@.map_values(|t: String| t@)),
{
    if ctrl.get("isDiscrete").as_bool() != Some(true) {
        return None;
    }
    match ctrl.get("format") {
        JsonValue::Array(arr) => {
            let mut labels: Vec<String> = Vec::new();
            let mut i: usize = 0;
            while i < arr.len()
                invariant
                    i <= arr@.len(),
                    labels@.map_values(|t: String| t@) == string_items(arr@.take(i as int)),
                decreases arr.len() - i,
            {
                proof {
                    assert(arr@.take(i + 1).drop_last() =~= arr@.take(i as int));
                    assert(arr@.take(i + 1).last() == arr@[i as int]);
                }
                match &arr[i] {
                    JsonValue::Str(t) => {
                        let ghost before = labels@;
                        labels.push(t.clone());
                        proof {
                            assert(labels@.map_values(|t: String| t@) =~= before.map_values(|t: String| t@).push(t@));
                        }
                    },
                    _ => {},
                }
                i = i + 1;
            }
            proof {
                assert(arr@.take(arr@.len() as int) =~= arr@);
            }
            if labels.len() == arr.len() && labels.len() > 0 {
                Some(labels)
            } else {
                None
            }
        },
        _ => None,
    }
}

/// The label lists of the discrete controls in the controls file, by control name, in the file's
/// order: each control marked `isDiscrete` whose `format` is a non-empty list of strings. A
/// control whose `format` is anything else is not an enum and is left out.
pub fn discrete_control_labels(root: &JsonValue) -> (v: Vec<(String, Vec<String>)>)
    ensures
        label_table(v@) == discrete_labels(*root),
{
    let mut v: Vec<(String, Vec<String>)> = Vec::new();
    match root {
        JsonValue::Object(m) => {
            let mut i: usize = 0;
            while i < m.len()
                invariant
                    i <= m@.len(),
                    label_table(v@) == labels_of_members(m@.take(i as int)),
                decreases m.len() - i,
            {
                proof {
                    assert(m@.take(i + 1).drop_last() =~= m@.take(i as int));
                    assert(m@.take(i + 1).last() == m@[i as int]);
                }
                match control_labels_of(&m[i].1) {
                    Some(l) => {
                        let ghost before = v@;
                        v.push((m[i].0.clone(), l));
                        proof {
                            assert(label_table(v@) =~= label_table(before).push(label_table(v@).last()));
                        }
                    },
                    None => {},
                }
                i = i + 1;
            }
            proof {
                assert(m@.take(m@.len() as int) =~= m@);
            }
        },
        _ => {
            proof {
                assert(label_table(v@) =~= Seq::<(Seq<char>, Seq<Seq<char>>)>::empty());
            }
        },
    }
    v
}

} // verus!
