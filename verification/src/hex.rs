//! Hex text for binary blobs: the lowercase encoding a backup file stores preset streams, IRs and
//! records in, its decoder, and the loose form the command line accepts (separators allowed).

use vstd::prelude::*;
use vstd::string::StringSliceAdditionalSpecFns;
use crate::text::{chars_of, dec, digit_char, is_hex_digit, owned, push_char, push_u64};

verus! {

/// The lowercase hex digit for `v < 16`.
pub open spec fn hex_digit(v: int) -> char {
    if v < 10 {
        digit_char(v)
    } else {
        (97 + v - 10) as char
    }
}

/// The lowercase hex text of `bytes`: two digits per byte, high nibble first.
pub open spec fn hex_chars(bytes: Seq<u8>) -> Seq<char> {
    Seq::new(
        2 * bytes.len(),
        |k: int|
            if k % 2 == 0 {
                hex_digit(bytes[k / 2] as int / 16)
            } else {
                hex_digit(bytes[k / 2] as int % 16)
            },
    )
}

/// The value of one ASCII hex digit byte, in either case.
pub open spec fn hex_value(b: u8) -> Option<u8> {
    if 48 <= b <= 57 {
        Some((b - 48) as u8)
    } else if 97 <= b <= 102 {
        Some((b - 87) as u8)
    } else if 65 <= b <= 70 {
        Some((b - 55) as u8)
    } else {
        None
    }
}

/// The byte a two-byte chunk of hex text denotes: exactly two ASCII hex digits, high first.
pub open spec fn chunk_value(b0: u8, b1: u8) -> Option<u8> {
    match (hex_value(b0), hex_value(b1)) {
        (Some(h), Some(l)) => Some((16 * h + l) as u8),
        _ => None,
    }
}

/// How far a decode of the first chunks of a hex text gets.
pub enum HexScan {
    /// Every chunk so far denotes a byte; these are the bytes.
    Decoded(Seq<u8>),
    /// Chunk `i` is not two hex digits.
    Bad(nat),
}

/// The decode of the first `n` two-byte chunks of `bytes`, stopping at the first chunk that fails.
pub open spec fn scan_hex(bytes: Seq<u8>, n: nat) -> HexScan
    decreases n,
{
    if n == 0 {
        HexScan::Decoded(Seq::empty())
    } else {
        let i: int = n - 1;
        match scan_hex(bytes, i as nat) {
            HexScan::Decoded(v) => match chunk_value(bytes[2 * i], bytes[2 * i + 1]) {
                Some(x) => HexScan::Decoded(v.push(x)),
                None => HexScan::Bad(i as nat),
            },
            other => other,
        }
    }
}

/// The whole decode of a hex text given as its UTF-8 bytes.
pub open spec fn scan_all(bytes: Seq<u8>) -> HexScan {
    scan_hex(bytes, (bytes.len() / 2) as nat)
}

/// The message for a chunk that is not hex.
pub open spec fn bad_hex_message(i: nat) -> Seq<char> {
    "bad hex at byte "@ + dec(i)
}

fn hex_digit_of(v: u8) -> (c: char)
    requires
        v < 16,
    ensures
        c == hex_digit(v as int),
{
    if v < 10 {
        (48u8 + v) as char
    } else {
        (87u8 + v) as char
    }
}

/// Lowercase hex, two digits per byte.
pub fn hex_encode(bytes: &[u8]) -> (s: String)
    ensures
        s@ == hex_chars(bytes@),
{
    let mut s = String::new();
    let mut i: usize = 0;
    while i < bytes.len()
        invariant
            i <= bytes.len(),
            s@ == hex_chars(bytes@.take(i as int)),
        decreases bytes.len() - i,
    {
        let b = bytes[i];
        let ghost prev = s@;
        push_char(&mut s, hex_digit_of(b / 16));
        push_char(&mut s, hex_digit_of(b % 16));
        i = i + 1;
        assert(s@ =~= hex_chars(bytes@.take(i as int))) by {
            let t = bytes@.take(i as int);
            assert(t.len() == i);
            assert forall|k: int| 0 <= k < 2 * i implies s@[k] == hex_chars(t)[k] by {
                if k < 2 * (i - 1) {
                    assert(prev[k] == hex_chars(bytes@.take(i - 1))[k]);
                    assert(t[k / 2] == bytes@.take(i - 1)[k / 2]);
                }
            }
        }
    }
    assert(bytes@.take(bytes@.len() as int) =~= bytes@);
    s
}

fn hex_value_of(b: u8) -> (r: Option<u8>)
    ensures
        r == hex_value(b),
{
    if 48 <= b && b <= 57 {
        Some(b - 48)
    } else if 97 <= b && b <= 102 {
        Some(b - 87)
    } else if 65 <= b && b <= 70 {
        Some(b - 55)
    } else {
        None
    }
}

fn chunk_value_of(b0: u8, b1: u8) -> (r: Option<u8>)
    ensures
        r == chunk_value(b0, b1),
{
    match (hex_value_of(b0), hex_value_of(b1)) {
        (Some(h), Some(l)) => Some(16 * h + l),
        _ => None,
    }
}

proof fn lemma_scan_stops(bytes: Seq<u8>, i: nat, n: nat)
    requires
        i <= n,
        !(scan_hex(bytes, i) is Decoded),
    ensures
        scan_hex(bytes, n) == scan_hex(bytes, i),
    decreases n - i,
{
    if i < n {
        lemma_scan_stops(bytes, i, (n - 1) as nat);
    }
}

/// What decoding a hex text comes to: its bytes, or the error it is refused with.
pub enum HexStep {
    Bytes(Seq<u8>),
    Error(Seq<char>),
}

/// The decode of the hex text `s`, as [`hex_decode`] performs it: an even number of bytes, each
/// pair two ASCII hex digits.
pub open spec fn decode_step(s: Seq<char>) -> HexStep {
    let bytes = vstd::utf8::encode_utf8(s);
    if bytes.len() % 2 == 1 {
        HexStep::Error("odd-length hex"@)
    } else {
        match scan_all(bytes) {
            HexScan::Decoded(v) => HexStep::Bytes(v),
            HexScan::Bad(i) => HexStep::Error(bad_hex_message(i)),
        }
    }
}

/// Decode lowercase or uppercase hex text (as a backup file stores it) into bytes. Fails on an
/// odd length, and on the first two-character chunk that is not two ASCII hex digits, naming its
/// byte-pair index. Any other character, a sign or a non-ASCII one, is refused.
pub fn hex_decode(s: &str) -> (r: Result<Vec<u8>, String>)
    ensures
        match decode_step(s@) {
            HexStep::Bytes(v) => r matches Ok(out) && out@ == v,
            HexStep::Error(m) => r matches Err(e) && e@ == m,
        },
{
    let bytes = s.as_bytes();
    let n = bytes.len();
    if n % 2 == 1 {
        return Err(owned("odd-length hex"));
    }
    let ghost bs = s.spec_bytes();
    let mut out: Vec<u8> = Vec::new();
    let mut i: usize = 0;
    while i < n / 2
        invariant
            bytes@ == bs,
            bs == s.spec_bytes(),
            n == bs.len(),
            n % 2 == 0,
            i <= n / 2,
            scan_hex(bs, i as nat) == HexScan::Decoded(out@),
        decreases n / 2 - i,
    {
        match chunk_value_of(bytes[2 * i], bytes[2 * i + 1]) {
            Some(x) => {
                out.push(x);
            },
            None => {
                proof {
                    assert(scan_hex(bs, (i + 1) as nat) == HexScan::Bad(i as nat));
                    lemma_scan_stops(bs, (i + 1) as nat, (n / 2) as nat);
                }
                let mut m = owned("bad hex at byte ");
                push_u64(&mut m, i as u64);
                return Err(m);
            },
        }
        i = i + 1;
    }
    Ok(out)
}

/// The ASCII bytes of a character sequence that is all ASCII.
pub open spec fn ascii_bytes(cs: Seq<char>) -> Seq<u8> {
    Seq::new(cs.len(), |k: int| cs[k] as u8)
}

proof fn lemma_hex_chars_ascii(bytes: Seq<u8>)
    ensures
        vstd::utf8::is_ascii_chars(hex_chars(bytes)),
        vstd::utf8::encode_utf8(hex_chars(bytes)) == ascii_bytes(hex_chars(bytes)),
{
    let h = hex_chars(bytes);
    assert forall|k: int| 0 <= k < h.len() implies '\0' <= #[trigger] h[k] <= '\u{7f}' by {}
    vstd::utf8::is_ascii_chars_encode_utf8(h);
    assert(vstd::utf8::encode_utf8(h) =~= ascii_bytes(h));
}

proof fn lemma_hex_digit_byte(v: u8)
    requires
        v < 16,
    ensures
        hex_value(hex_digit(v as int) as u8) == Some(v),
        (hex_digit(v as int) as u8) < 128,
{
    if v < 10 {
        assert(hex_digit(v as int) as u8 == 48 + v);
    } else {
        assert(hex_digit(v as int) as u8 == 87 + v);
    }
}

proof fn lemma_scan_of_encoding(bytes: Seq<u8>, k: nat)
    requires
        k <= bytes.len(),
    ensures
        scan_hex(ascii_bytes(hex_chars(bytes)), k) == HexScan::Decoded(bytes.take(k as int)),
    decreases k,
{
    let e = ascii_bytes(hex_chars(bytes));
    if k > 0 {
        let i: int = k - 1;
        lemma_scan_of_encoding(bytes, i as nat);
        let b = bytes[i];
        let hi = (b / 16) as u8;
        let lo = (b % 16) as u8;
        assert(hex_chars(bytes)[2 * i] == hex_digit(hi as int));
        assert(hex_chars(bytes)[2 * i + 1] == hex_digit(lo as int));
        lemma_hex_digit_byte(hi);
        lemma_hex_digit_byte(lo);
        assert(e[2 * i] == hex_digit(hi as int) as u8);
        assert(e[2 * i + 1] == hex_digit(lo as int) as u8);
        assert(hex_value(e[2 * i]) == Some(hi));
        assert(hex_value(e[2 * i + 1]) == Some(lo));
        assert(chunk_value(e[2 * i], e[2 * i + 1]) == Some(b));
        assert(bytes.take(i).push(b) =~= bytes.take(k as int));
    } else {
        assert(bytes.take(0) =~= Seq::<u8>::empty());
    }
}

/// Decoding what [`hex_encode`] wrote gives back the bytes it was given: the encoded text's
/// bytes scan, chunk by chunk, to exactly the original blob.
pub proof fn hex_round_trip(bytes: Seq<u8>)
    ensures
        vstd::utf8::encode_utf8(hex_chars(bytes)).len() % 2 == 0,
        scan_all(vstd::utf8::encode_utf8(hex_chars(bytes))) == HexScan::Decoded(bytes),
{
    lemma_hex_chars_ascii(bytes);
    let e = ascii_bytes(hex_chars(bytes));
    assert(e.len() == 2 * bytes.len());
    assert((e.len() / 2) as nat == bytes.len());
    lemma_scan_of_encoding(bytes, bytes.len());
    assert(bytes.take(bytes.len() as int) =~= bytes);
}

/// The characters of `s` that are ASCII hex digits, in order.
pub open spec fn hex_only(s: Seq<char>) -> Seq<char> {
    s.filter(|c: char| is_hex_digit(c))
}

/// Strip everything that is not an ASCII hex digit (spaces, `0x`, commas) from a string.
pub fn strip_hex(s: &str) -> (out: String)
    ensures
        out@ == hex_only(s@),
{
    let cs = chars_of(s);
    let mut out = String::new();
    let mut i: usize = 0;
    while i < cs.len()
        invariant
            cs@ == s@,
            i <= cs.len(),
            out@ == hex_only(cs@.take(i as int)),
        decreases cs.len() - i,
    {
        let c = cs[i];
        let keep = ('0' <= c && c <= '9') || ('a' <= c && c <= 'f') || ('A' <= c && c <= 'F');
        if keep {
            push_char(&mut out, c);
        }
        proof {
            let t = cs@.take(i + 1);
            assert(t.drop_last() =~= cs@.take(i as int));
            reveal(Seq::filter);
        }
        i = i + 1;
    }
    assert(cs@.take(cs.len() as int) =~= cs@);
    out
}

/// The byte two hex digits denote (either case).
pub open spec fn digit_pair(a: char, b: char) -> u8 {
    (16 * (hex_value(a as u8)->0) + (hex_value(b as u8)->0)) as u8
}

/// The bytes a string of hex digits denotes, two digits each.
pub open spec fn hex_pairs(h: Seq<char>) -> Seq<u8> {
    Seq::new(h.len() / 2, |k: int| digit_pair(h[2 * k], h[2 * k + 1]))
}

fn digit_value(c: char) -> (v: u8)
    requires
        is_hex_digit(c),
    ensures
        v == hex_value(c as u8)->0,
        v < 16,
{
    if '0' <= c && c <= '9' {
        (c as u8) - 48
    } else if 'a' <= c && c <= 'f' {
        (c as u8) - 87
    } else {
        (c as u8) - 55
    }
}

/// Parse a loose hex string (spaces and other separators allowed, as pasted from a capture) into
/// bytes. The only failure is an odd number of hex digits once the separators are gone.
pub fn parse_hex(hex: &str) -> (r: Result<Vec<u8>, String>)
    ensures
        hex_only(hex@).len() % 2 == 1 ==> (r matches Err(m) && m@
            == "hex has an odd number of digits"@),
        hex_only(hex@).len() % 2 == 0 ==> (r matches Ok(v) && v@ == hex_pairs(hex_only(hex@))),
{
    let clean = strip_hex(hex);
    let cs = chars_of(clean.as_str());
    if cs.len() % 2 == 1 {
        return Err(owned("hex has an odd number of digits"));
    }
    proof {
        assert forall|k: int| 0 <= k < cs@.len() implies is_hex_digit(#[trigger] cs@[k]) by {
            hex@.lemma_filter_pred(|c: char| is_hex_digit(c), k);
        }
    }
    let mut out: Vec<u8> = Vec::new();
    let mut i: usize = 0;
    while i < cs.len() / 2
        invariant
            cs@ == hex_only(hex@),
            cs.len() % 2 == 0,
            forall|k: int| 0 <= k < cs@.len() ==> is_hex_digit(#[trigger] cs@[k]),
            i <= cs.len() / 2,
            out@ == hex_pairs(cs@).take(i as int),
        decreases cs.len() / 2 - i,
    {
        let hi = digit_value(cs[2 * i]);
        let lo = digit_value(cs[2 * i + 1]);
        out.push(16 * hi + lo);
        i = i + 1;
        assert(out@ =~= hex_pairs(cs@).take(i as int));
    }
    assert(hex_pairs(cs@).take(i as int) =~= hex_pairs(cs@));
    Ok(out)
}

} // verus!
