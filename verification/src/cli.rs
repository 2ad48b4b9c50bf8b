//! What the command-line front end computes rather than does: quoting for a shell script, the
//! names of controller sources and value types, and the udev rule it installs.

use vstd::prelude::*;
use crate::text::{chars_of, dec, dec_signed, owned, push_char, push_i64, push_str, push_u64};

verus! {

/// `s` with every `'` replaced by `'\''` — close the quote, an escaped quote, reopen.
pub open spec fn escape_quotes(s: Seq<char>) -> Seq<char>
    decreases s.len(),
{
    if s.len() == 0 {
        s
    } else {
        escape_quotes(s.drop_last()) + if s.last() == '\'' { seq!['\'', '\\', '\'', '\''] } else { seq![s.last()] }
    }
}

/// Single-quote `s` for a `sh -c` script, so the shell reads it as one literal word.
pub fn shell_quote(s: &str) -> (q: String)
    ensures
        q@ == seq!['\''] + escape_quotes(s@) + seq!['\''],
{
    let cs = chars_of(s);
    let mut q = String::new();
    push_char(&mut q, '\'');
    let mut i: usize = 0;
    while i < cs.len()
        invariant
            i <= cs@.len(),
            cs@ == s@,
            q@ == seq!['\''] + escape_quotes(cs@.take(i as int)),
        decreases cs.len() - i,
    {
        proof {
            assert(cs@.take(i + 1).drop_last() =~= cs@.take(i as int));
        }
        let c = cs[i];
        if c == '\'' {
            push_char(&mut q, '\'');
            push_char(&mut q, '\\');
            push_char(&mut q, '\'');
            push_char(&mut q, '\'');
            proof {
                assert(q@ =~= seq!['\''] + escape_quotes(cs@.take(i + 1)));
            }
        } else {
            push_char(&mut q, c);
            proof {
                assert(q@ =~= seq!['\''] + escape_quotes(cs@.take(i + 1)));
            }
        }
        i = i + 1;
    }
    push_char(&mut q, '\'');
    assert(cs@.take(cs@.len() as int) =~= cs@);
    q
}

/// The name of a controller source ordinal: footswitches 3 to 7 are `FS1` to `FS5`, 1 and 2 the
/// expression inputs, 8 MIDI, 9 snapshots, anything else `controller N`.
pub open spec fn source_name_spec(ordinal: i64) -> Seq<char> {
    if 3 <= ordinal <= 7 {
        "FS"@ + dec((ordinal - 2) as nat)
    } else if ordinal == 1 {
        "EXP1"@
    } else if ordinal == 2 {
        "EXP2"@
    } else if ordinal == 8 {
        "MIDI"@
    } else if ordinal == 9 {
        "Snapshots"@
    } else {
        "controller "@ + dec_signed(ordinal as int)
    }
}

/// Name a controller source ordinal for display.
pub fn source_name(ordinal: i64) -> (s: String)
    ensures
        s@ == source_name_spec(ordinal),
{
    if 3 <= ordinal && ordinal <= 7 {
        let mut s = owned("FS");
        push_u64(&mut s, (ordinal - 2) as u64);
        s
    } else if ordinal == 1 {
        owned("EXP1")
    } else if ordinal == 2 {
        owned("EXP2")
    } else if ordinal == 8 {
        owned("MIDI")
    } else if ordinal == 9 {
        owned("Snapshots")
    } else {
        let mut s = owned("controller ");
        push_i64(&mut s, ordinal);
        s
    }
}

/// The kind of a MessagePack value, as far as naming its type goes: an integer is told apart by
/// whether it fits an `i64`.
#[derive(Debug, Clone, Copy, PartialEq, Eq, Structural)]
pub enum ValueKind {
    Boolean,
    /// An integer that fits an `i64`.
    Int,
    /// An integer above `i64::MAX`.
    UInt,
    F32,
    F64,
    Text,
    Binary,
    ArrayValue,
    MapValue,
    Nil,
    Ext,
}

/// The short type name printed beside a value.
pub fn value_type(v: ValueKind) -> (s: &'static str)
    ensures
        s@ == match v {
            ValueKind::Boolean => "bool"@,
            ValueKind::Int => "int"@,
            ValueKind::UInt => "uint"@,
            ValueKind::F32 => "f32"@,
            ValueKind::F64 => "f64"@,
            ValueKind::Text => "string"@,
            ValueKind::Binary => "bytes"@,
            ValueKind::ArrayValue => "array"@,
            ValueKind::MapValue => "map"@,
            ValueKind::Nil => "nil"@,
            ValueKind::Ext => "ext"@,
        },
{
    match v {
        ValueKind::Boolean => "bool",
        ValueKind::Int => "int",
        ValueKind::UInt => "uint",
        ValueKind::F32 => "f32",
        ValueKind::F64 => "f64",
        ValueKind::Text => "string",
        ValueKind::Binary => "bytes",
        ValueKind::ArrayValue => "array",
        ValueKind::MapValue => "map",
        ValueKind::Nil => "nil",
        ValueKind::Ext => "ext",
    }
}

/// Where the udev rule is installed.
pub const UDEV_RULE_PATH: &'static str = "/etc/udev/rules.d/70-hxstomp.rules";

/// The USB product ids the rule covers, with the device each one is: HX Stomp, Helix Floor,
/// Helix LT, HX Stomp XL, HX Effects, POD Go and Helix Rack.
pub open spec fn udev_products() -> Seq<(Seq<char>, Seq<char>)> {
    seq![
        ("4246"@, "HX Stomp"@),
        ("4248"@, "Helix Floor"@),
        ("424a"@, "Helix LT"@),
        ("4253"@, "HX Stomp XL"@),
        ("4245"@, "HX Effects"@),
        ("4247"@, "POD Go"@),
        ("4249"@, "Helix Rack"@),
    ]
}

/// The rule's line for one product: the Line 6 vendor id in lower case (udev compares the
/// attribute as text), the `uaccess` tag for a desktop seat and the `plugdev` group for a
/// headless login.
pub open spec fn udev_line(pid: Seq<char>, name: Seq<char>) -> Seq<char> {
    "# "@ + name + seq!['\n']
        + "SUBSYSTEM==\"usb\", ATTR{idVendor}==\"0e41\", ATTR{idProduct}==\""@ + pid
        + "\", MODE=\"0660\", GROUP=\"plugdev\", TAG+=\"uaccess\"\n"@
}

/// The rule text from the `k`-th product on.
pub open spec fn udev_lines(products: Seq<(Seq<char>, Seq<char>)>) -> Seq<char>
    decreases products.len(),
{
    if products.len() == 0 {
        Seq::empty()
    } else {
        udev_lines(products.drop_last()) + udev_line(products.last().0, products.last().1)
    }
}

/// The header comment of the rule file.
pub open spec fn udev_header() -> Seq<char> {
    "# Line 6 HX / Helix / POD Go: let fretwire reach the pedal's USB control interface\n# without root.\n"@
}

fn push_udev_line(s: &mut String, pid: &str, name: &str)
    ensures
        final(s)@ == old(s)@ + udev_line(pid@, name@),
{
    push_str(s, "# ");
    push_str(s, name);
    push_char(s, '\n');
    push_str(s, "SUBSYSTEM==\"usb\", ATTR{idVendor}==\"0e41\", ATTR{idProduct}==\"");
    push_str(s, pid);
    push_str(s, "\", MODE=\"0660\", GROUP=\"plugdev\", TAG+=\"uaccess\"\n");
    proof {
        assert(final(s)@ =~= old(s)@ + udev_line(pid@, name@)) by {
            assert(s@ =~= old(s)@ + udev_line(pid@, name@));
        }
    }
}

/// The udev rule `install-udev` writes: one line per supported product.
pub fn udev_rule() -> (s: String)
    ensures
        s@ == udev_header() + udev_lines(udev_products()),
{
    let mut s = owned("# Line 6 HX / Helix / POD Go: let fretwire reach the pedal's USB control interface\n# without root.\n");
    let ghost h = s@;
    let ghost p = udev_products();
    proof {
        assert(p.take(0) =~= Seq::<(Seq<char>, Seq<char>)>::empty());
        assert(s@ =~= h + udev_lines(p.take(0)));
    }
    push_udev_line(&mut s, "4246", "HX Stomp");
    proof {
        assert(p.take(1).drop_last() =~= p.take(0));
        assert(p.take(1).last() == p[0]);
        assert(s@ =~= h + udev_lines(p.take(1)));
    }
    push_udev_line(&mut s, "4248", "Helix Floor");
    proof {
        assert(p.take(2).drop_last() =~= p.take(1));
        assert(p.take(2).last() == p[1]);
        assert(s@ =~= h + udev_lines(p.take(2)));
    }
    push_udev_line(&mut s, "424a", "Helix LT");
    proof {
        assert(p.take(3).drop_last() =~= p.take(2));
        assert(p.take(3).last() == p[2]);
        assert(s@ =~= h + udev_lines(p.take(3)));
    }
    push_udev_line(&mut s, "4253", "HX Stomp XL");
    proof {
        assert(p.take(4).drop_last() =~= p.take(3));
        assert(p.take(4).last() == p[3]);
        assert(s@ =~= h + udev_lines(p.take(4)));
    }
    push_udev_line(&mut s, "4245", "HX Effects");
    proof {
        assert(p.take(5).drop_last() =~= p.take(4));
        assert(p.take(5).last() == p[4]);
        assert(s@ =~= h + udev_lines(p.take(5)));
    }
    push_udev_line(&mut s, "4247", "POD Go");
    proof {
        assert(p.take(6).drop_last() =~= p.take(5));
        assert(p.take(6).last() == p[5]);
        assert(s@ =~= h + udev_lines(p.take(6)));
    }
    push_udev_line(&mut s, "4249", "Helix Rack");
    proof {
        assert(p.take(7).drop_last() =~= p.take(6));
        assert(p.take(7).last() == p[6]);
        assert(s@ =~= h + udev_lines(p.take(7)));
    }
    proof {
        assert(p.take(7) =~= p);
    }
    s
}

} // verus!
