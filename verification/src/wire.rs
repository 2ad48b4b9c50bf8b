//! Reading the device's replies: the transaction id an envelope reply echoes, the model code in an
//! identity reply, and the rules that decide when a paginated stream is whole.

use vstd::prelude::*;

verus! {

/// The byte after a fixmap header at `i` is the positive fixint 102, the transaction key.
pub open spec fn is_txn_header(body: Seq<u8>, i: int) -> bool {
    0x81 <= body[i] <= 0x8f && i + 1 < body.len() && body[i + 1] == 0x66
}

/// The transaction id encoded after a `{102: …` header at `i`: a positive fixint, a uint8 or a
/// big-endian uint16; `None` when the value is another type or cut off.
pub open spec fn txn_value_at(body: Seq<u8>, i: int) -> Option<u16> {
    if i + 2 >= body.len() {
        None
    } else if body[i + 2] <= 0x7f {
        Some(body[i + 2] as u16)
    } else if body[i + 2] == 0xcc {
        if i + 3 < body.len() { Some(body[i + 3] as u16) } else { None }
    } else if body[i + 2] == 0xcd {
        if i + 4 < body.len() { Some((body[i + 3] as int * 256 + body[i + 4] as int) as u16) } else { None }
    } else {
        None
    }
}

/// The transaction id of the first `{102: …}` envelope header found at one of the first 24
/// positions of `body`, scanning from `i`.
pub open spec fn reply_txn_from(body: Seq<u8>, i: int) -> Option<u16>
    decreases 24 - i,
{
    if i >= 24 || i >= body.len() || i < 0 {
        None
    } else if is_txn_header(body, i) {
        txn_value_at(body, i)
    } else {
        reply_txn_from(body, i + 1)
    }
}

/// The transaction id (msgpack key 102) an edit-channel reply echoes: the reply is a TLV header
/// and then a map whose first entry is `102: txn`. Only that entry is read, because a stream-start
/// reply's map is cut off and would not decode whole. `None` for raw stream chunks.
pub fn reply_txn(body: &[u8]) -> (r: Option<u16>)
    ensures
        r == reply_txn_from(body@, 0),
{
    let end: usize = if body.len() < 24 { body.len() } else { 24 };
    let mut i: usize = 0;
    while i < end
        invariant
            i <= end,
            end <= 24,
            end <= body@.len(),
            end == body@.len() || end == 24,
            reply_txn_from(body@, 0) == reply_txn_from(body@, i as int),
        decreases end - i,
    {
        if 0x81 <= body[i] && body[i] <= 0x8f && i + 1 < body.len() && body[i + 1] == 0x66 {
            if i + 2 >= body.len() {
                return None;
            }
            let v = body[i + 2];
            if v <= 0x7f {
                return Some(v as u16);
            } else if v == 0xcc {
                if i + 3 < body.len() {
                    return Some(body[i + 3] as u16);
                }
                return None;
            } else if v == 0xcd {
                if i + 4 < body.len() {
                    let hi = body[i + 3] as u16;
                    let lo = body[i + 4] as u16;
                    return Some(hi * 256 + lo);
                }
                return None;
            }
            return None;
        }
        i = i + 1;
    }
    None
}

/// How many chunk requests a paginated stream of `target` bytes may take: one per 32-byte
/// fragment plus sixteen spare, and 4096 when no length was declared. A loop bound only.
pub fn stream_request_cap(target: Option<usize>) -> (n: usize)
    ensures
        n == match target {
            None => 4096,
            Some(t) => t / 32 + 16,
        },
{
    match target {
        None => 4096,
        Some(t) => t / 32 + 16,
    }
}

/// What to do with one paginated-stream chunk reply.
#[derive(Debug, Clone, Copy, PartialEq, Eq, Structural)]
pub enum ChunkVerdict {
    /// Real payload, and the stream continues.
    Keep,
    /// Real payload, and this reply ends the stream.
    Last,
    /// Not payload — discard it and keep reading.
    Skip,
}

/// The verdict on a chunk reply of `n` bytes, given the size of chunk #0 (`full`), the payload
/// already in hand (`have`) and the declared length (`target`). With a declared length it alone
/// decides "done": an empty reply before it is skipped, anything that reaches it is the last,
/// anything else is kept. Without one, the first chunk shorter than chunk #0 ends the stream.
pub open spec fn chunk_verdict(n: int, full: int, have: int, target: Option<usize>) -> ChunkVerdict {
    match target {
        None => if n < full { ChunkVerdict::Last } else { ChunkVerdict::Keep },
        Some(t) => if n == 0 && have < t {
            ChunkVerdict::Skip
        } else if have + n >= t {
            ChunkVerdict::Last
        } else {
            ChunkVerdict::Keep
        },
    }
}

/// Decide what a chunk reply of `n` bytes means (exec form of [`chunk_verdict`]).
pub fn classify_chunk(n: usize, full: usize, have: usize, target: Option<usize>) -> (v: ChunkVerdict)
    requires
        have + n <= usize::MAX,
    ensures
        v == chunk_verdict(n as int, full as int, have as int, target),
{
    match target {
        None => {
            if n < full {
                ChunkVerdict::Last
            } else {
                ChunkVerdict::Keep
            }
        }
        Some(t) => {
            if n == 0 && have < t {
                ChunkVerdict::Skip
            } else if have + n >= t {
                ChunkVerdict::Last
            } else {
                ChunkVerdict::Keep
            }
        }
    }
}

/// A printable ASCII byte (`u8::is_ascii_graphic`): `!` through `~`.
pub open spec fn graphic(b: u8) -> bool {
    0x21 <= b <= 0x7e
}

/// Every byte of `data[c..d]` is printable.
pub open spec fn all_graphic(data: Seq<u8>, c: int, d: int) -> bool {
    forall|k: int| c <= k < d ==> graphic(#[trigger] data[k])
}

/// A nonempty printable stretch `data[c..d]`.
pub open spec fn graphic_span(data: Seq<u8>, c: int, d: int) -> bool {
    0 <= c < d <= data.len() && all_graphic(data, c, d)
}

/// `data[a..b]` is the first of the longest printable stretches: no stretch is longer, and none
/// wholly before it is as long.
pub open spec fn first_longest_run(data: Seq<u8>, a: int, b: int) -> bool {
    &&& 0 <= a <= b <= data.len()
    &&& all_graphic(data, a, b)
    &&& forall|c: int, d: int| #[trigger] graphic_span(data, c, d) ==> d - c <= b - a
    &&& forall|c: int, d: int| #[trigger] graphic_span(data, c, d) && d <= a ==> d - c < b - a
}

/// Bytes read as the characters with the same code.
pub open spec fn ascii_chars(bytes: Seq<u8>) -> Seq<char> {
    bytes.map_values(|b: u8| b as char)
}

proof fn lemma_span_split(data: Seq<u8>, c: int, d: int, start: int)
    requires
        graphic_span(data, c, d),
        0 < start,
        start <= data.len(),
        !graphic(data[start - 1]),
    ensures
        d <= start - 1 || c >= start,
{
    if c < start && d > start - 1 {
        assert(graphic(data[start - 1]));
    }
}

/// The first run of three or more printable ASCII bytes — the longest, the first of equals — as
/// text: how the model code (`"P33"`, `"P33Main"`) is spotted in an identity reply.
pub fn ascii_run(data: &[u8]) -> (r: Option<String>)
    ensures
        r is None <==> (forall|c: int, d: int| #[trigger] graphic_span(data@, c, d) ==> d - c < 3),
        r matches Some(s) ==> exists|a: int, b: int| first_longest_run(data@, a, b) && b - a >= 3
            && s@ == ascii_chars(data@.subrange(a, b)),
{
    let ghost d = data@;
    let mut ba: usize = 0;
    let mut bb: usize = 0;
    let mut start: usize = 0;
    let mut i: usize = 0;
    while i < data.len()
        invariant
            d == data@,
            start <= i,
            i <= data@.len(),
            all_graphic(d, start as int, i as int),
            start > 0 ==> !graphic(d[start - 1]),
            ba <= bb,
            bb <= start,
            all_graphic(d, ba as int, bb as int),
            forall|c: int, e: int| #[trigger] graphic_span(d, c, e) && e <= start ==> e - c <= bb - ba,
            forall|c: int, e: int| #[trigger] graphic_span(d, c, e) && e <= ba ==> e - c < bb - ba,
        decreases data@.len() - i,
    {
        if !(0x21 <= data[i] && data[i] <= 0x7e) {
            proof {
                assert forall|c: int, e: int| #[trigger] graphic_span(d, c, e) && e <= i + 1 implies
                    (e <= start || (c >= start && e <= i)) by {
                    if start > 0 {
                        lemma_span_split(d, c, e, start as int);
                    }
                    if e > i {
                        assert(graphic(d[i as int]));
                    }
                }
            }
            if i - start > bb - ba {
                ba = start;
                bb = i;
            }
            start = i + 1;
        }
        i = i + 1;
    }
    proof {
        assert forall|c: int, e: int| #[trigger] graphic_span(d, c, e) implies
            (e <= start || c >= start) by {
            if start > 0 {
                lemma_span_split(d, c, e, start as int);
            }
        }
    }
    if i - start > bb - ba {
        ba = start;
        bb = i;
    }
    proof {
        assert(graphic_span(d, ba as int, bb as int) || ba == bb);
    }
    if bb - ba >= 3 {
        let mut s = String::new();
        let mut k: usize = ba;
        while k < bb
            invariant
                d == data@,
                ba <= k <= bb,
                bb <= data@.len(),
                s@ == ascii_chars(d.subrange(ba as int, k as int)),
            decreases bb - k,
        {
            crate::text::push_char(&mut s, data[k] as char);
            proof {
                assert(ascii_chars(d.subrange(ba as int, k + 1)) == ascii_chars(d.subrange(ba as int, k as int)).push(d[k as int] as char));
            }
            k = k + 1;
        }
        proof {
            assert(first_longest_run(d, ba as int, bb as int));
        }
        Some(s)
    } else {
        proof {
            assert forall|c: int, e: int| #[trigger] graphic_span(d, c, e) implies e - c < 3 by {}
        }
        None
    }
}

/// A browse listing's global index `global` as a slot of the bank that starts at `base`; an index
/// below the base counts as slot 0 rather than wrapping.
pub open spec fn bank_slot(global: u16, base: i64) -> u16 {
    (if global - base > 0 { global - base } else { 0 }) as u16
}

/// The listing with every index made bank-relative, in the device's order.
pub open spec fn bank_relative(raw: Seq<(u16, String)>, base: i64) -> Seq<(u16, String)> {
    raw.map_values(|e: (u16, String)| (bank_slot(e.0, base), e.1))
}

/// The entries of a listing at slot `k`, in order.
pub open spec fn at_slot(s: Seq<(u16, String)>, k: u16) -> Seq<(u16, String)> {
    s.filter(|e: (u16, String)| e.0 == k)
}

/// The listing is in slot order.
pub open spec fn slot_sorted(s: Seq<(u16, String)>) -> bool {
    forall|i: int, j: int| 0 <= i < j < s.len() ==> #[trigger] s[i].0 <= #[trigger] s[j].0
}

/// Some entry is followed by one with a lower slot.
pub open spec fn out_of_order(s: Seq<(u16, String)>) -> bool {
    exists|i: int| 0 <= i < s.len() - 1 && #[trigger] s[i].0 > s[i + 1].0
}

proof fn lemma_insert_keeps_slots(s: Seq<(u16, String)>, j: int, e: (u16, String))
    requires
        slot_sorted(s),
        0 <= j <= s.len(),
        forall|x: int| 0 <= x < j ==> #[trigger] s[x].0 <= e.0,
        forall|x: int| j <= x < s.len() ==> #[trigger] s[x].0 > e.0,
    ensures
        slot_sorted(s.insert(j, e)),
        forall|k: u16| #[trigger] at_slot(s.insert(j, e), k) == if k == e.0 {
            at_slot(s, k).push(e)
        } else {
            at_slot(s, k)
        },
{
    let t = s.insert(j, e);
    assert(t =~= s.take(j) + seq![e] + s.skip(j));
    assert(s =~= s.take(j) + s.skip(j));
    assert forall|a: int, b: int| 0 <= a < b < t.len() implies #[trigger] t[a].0 <= #[trigger] t[b].0 by {
        if a < j && b > j {
            assert(t[a] == s[a]);
            assert(t[b] == s[b - 1]);
        } else if a < j && b == j {
        } else if a == j {
            assert(t[b] == s[b - 1]);
        } else if a > j {
            assert(t[a] == s[a - 1]);
            assert(t[b] == s[b - 1]);
        } else {
            assert(t[a] == s[a]);
            assert(t[b] == s[b]);
        }
    }
    assert forall|k: u16| #[trigger] at_slot(t, k) == if k == e.0 { at_slot(s, k).push(e) } else { at_slot(s, k) } by {
        let pred = |x: (u16, String)| x.0 == k;
        Seq::filter_distributes_over_add(s.take(j) + seq![e], s.skip(j), pred);
        Seq::filter_distributes_over_add(s.take(j), seq![e], pred);
        Seq::filter_distributes_over_add(s.take(j), s.skip(j), pred);
        Seq::<(u16, String)>::empty().lemma_filter_push(e, pred);
        assert(seq![e] =~= Seq::<(u16, String)>::empty().push(e));
        reveal(Seq::filter);
        if k == e.0 {
            s.skip(j).lemma_all_neg_filter_empty(pred);
            assert(s.skip(j).filter(pred) =~= Seq::<(u16, String)>::empty());
        }
    }
}

/// A browse listing's global indices turned into slots of the bank starting at `base`, put in
/// slot order, with whether the device's own order needed changing. The sort is stable: entries
/// at one slot keep the order they came in.
pub fn normalise_preset_list(raw: Vec<(u16, String)>, base: i64) -> (r: (Vec<(u16, String)>, bool))
    requires
        forall|i: int| 0 <= i < raw@.len() ==> #[trigger] raw@[i].0 - base <= i64::MAX,
    ensures
        slot_sorted(r.0@),
        forall|k: u16| #[trigger] at_slot(r.0@, k) == at_slot(bank_relative(raw@, base), k),
        r.0@.len() == raw@.len(),
        r.1 == out_of_order(bank_relative(raw@, base)),
{
    let ghost rel = bank_relative(raw@, base);
    let mut listed: Vec<(u16, String)> = Vec::new();
    let mut i: usize = 0;
    while i < raw.len()
        invariant
            i <= raw@.len(),
            rel == bank_relative(raw@, base),
            forall|x: int| 0 <= x < raw@.len() ==> #[trigger] raw@[x].0 - base <= i64::MAX,
            listed@ == rel.take(i as int),
        decreases raw.len() - i,
    {
        let g = raw[i].0 as i64;
        let v = g - base;
        let slot: u16 = if v > 0 { #[verifier::truncate] (v as u16) } else { 0 };
        listed.push((slot, raw[i].1.clone()));
        proof {
            assert(rel.take(i + 1) =~= rel.take(i as int).push(rel[i as int]));
        }
        i = i + 1;
    }
    assert(rel.take(raw@.len() as int) =~= rel);
    let mut reordered = false;
    let mut k: usize = 0;
    while k < listed.len()
        invariant
            listed@ == rel,
            k <= listed@.len(),
            reordered == exists|x: int| 0 <= x < k && x < rel.len() - 1 && #[trigger] rel[x].0 > rel[x + 1].0,
        decreases listed.len() - k,
    {
        if k + 1 < listed.len() && listed[k].0 > listed[k + 1].0 {
            reordered = true;
        }
        k = k + 1;
    }
    let mut out: Vec<(u16, String)> = Vec::new();
    let mut n: usize = 0;
    while n < listed.len()
        invariant
            listed@ == rel,
            n <= listed@.len(),
            out@.len() == n,
            slot_sorted(out@),
            forall|key: u16| #[trigger] at_slot(out@, key) == at_slot(rel.take(n as int), key),
        decreases listed.len() - n,
    {
        let e = (listed[n].0, listed[n].1.clone());
        let mut j: usize = 0;
        while j < out.len() && out[j].0 <= e.0
            invariant
                j <= out@.len(),
                slot_sorted(out@),
                forall|x: int| 0 <= x < j ==> #[trigger] out@[x].0 <= e.0,
            decreases out.len() - j,
        {
            j = j + 1;
        }
        proof {
            assert forall|x: int| j <= x < out@.len() implies #[trigger] out@[x].0 > e.0 by {
                if x > j {
                    assert(out@[j as int].0 <= out@[x].0);
                }
            }
            lemma_insert_keeps_slots(out@, j as int, e);
            assert(rel.take(n + 1) =~= rel.take(n as int).push(e));
            assert forall|key: u16| #[trigger] at_slot(rel.take(n + 1), key) == if key == e.0 {
                at_slot(rel.take(n as int), key).push(e)
            } else {
                at_slot(rel.take(n as int), key)
            } by {
                rel.take(n as int).lemma_filter_push(e, |x: (u16, String)| x.0 == key);
            }
        }
        out.insert(j, e);
        n = n + 1;
    }
    assert(rel.take(listed@.len() as int) =~= rel);
    (out, reordered)
}

} // verus!
