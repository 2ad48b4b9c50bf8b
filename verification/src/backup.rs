//! Backup files: one raw preset stream per setlist slot, and beside them the device's global
//! settings, its user IRs, favorites and user defaults. This module holds the data, the version a
//! file is written as, the lookups, and the report of a restore.

use vstd::prelude::*;
use crate::text::{chars_of, dec_signed, owned, push_i64, push_str};

verus! {

/// One backed-up preset: its setlist, its slot in that setlist, its stored name, and the raw
/// read-stream payload.
#[derive(Debug, Clone, PartialEq, Eq)]
pub struct BackupPreset {
    /// Setlist this came from; `0` on a device with one setlist and in every version-1 file.
    pub bank: i64,
    /// Slot within that setlist.
    pub index: i64,
    /// Preset name at backup time.
    pub name: String,
    /// Raw reassembled preset stream.
    pub raw: Vec<u8>,
}

/// A setting's value in the type the device holds it. A float is kept as the bits of its `f32`,
/// so the value round-trips exactly.
#[derive(Debug, Clone, Copy, PartialEq, Eq, Structural)]
pub enum SettingValue {
    Bool(bool),
    Int(i64),
    /// The bits of an `f32` (`f32::to_bits`).
    F32(u32),
}

impl SettingValue {
    /// The `type` tag a file carries for this value.
    pub fn type_tag(self) -> (s: &'static str)
        ensures
            s@ == match self {
                SettingValue::Bool(_) => "bool"@,
                SettingValue::Int(_) => "int"@,
                SettingValue::F32(_) => "f32"@,
            },
    {
        match self {
            SettingValue::Bool(_) => "bool",
            SettingValue::Int(_) => "int",
            SettingValue::F32(_) => "f32",
        }
    }

    /// Whether `other` holds the same type — what decides if a stored value may be written over
    /// the device's current one.
    pub fn same_type(self, other: SettingValue) -> (r: bool)
        ensures
            r == ((self is Bool && other is Bool) || (self is Int && other is Int) || (self is F32 && other is F32)),
    {
        match (self, other) {
            (SettingValue::Bool(_), SettingValue::Bool(_)) => true,
            (SettingValue::Int(_), SettingValue::Int(_)) => true,
            (SettingValue::F32(_), SettingValue::F32(_)) => true,
            _ => false,
        }
    }
}

/// One global setting as the device answered it at backup time.
#[derive(Debug, Clone, Copy, PartialEq, Eq)]
pub struct BackupSetting {
    pub id: i64,
    pub value: SettingValue,
}

/// One user IR slot: its index, the name the device stores, and the raw sample blob.
#[derive(Debug, Clone, PartialEq, Eq)]
pub struct BackupIr {
    /// Zero-based slot.
    pub slot: i64,
    pub name: String,
    pub blob: Vec<u8>,
}

/// One favorite: its place in the list, its name, the block's model and paired cab, and the
/// record the device answered, as the MessagePack bytes it sent.
#[derive(Debug, Clone, PartialEq, Eq)]
pub struct BackupFavorite {
    pub index: i64,
    pub name: String,
    /// The block's model, a `Helix.sym` index.
    pub model: i64,
    /// The paired cab's `Helix.sym` index, for an amp favorite.
    pub paired_cab: Option<i64>,
    pub record: Vec<u8>,
}

/// One user default: the model it was saved for, the cab form it was asked in, and the record.
#[derive(Debug, Clone, PartialEq, Eq)]
pub struct BackupUserDefault {
    /// The model, a `Helix.sym` index.
    pub model: i64,
    /// `None` for the model on its own; for its amp-with-cab form, the cab kind the ask named.
    pub cab_kind: Option<i64>,
    pub record: Vec<u8>,
}

/// A whole backup file.
#[derive(Debug, Clone, PartialEq)]
pub struct Backup {
    pub device: String,
    /// The setlists the file covers, `(bank, name)`, as the device named them. Display only.
    pub setlists: Vec<(i64, String)>,
    pub presets: Vec<BackupPreset>,
    /// Every global setting that answered, in id order.
    pub settings: Vec<BackupSetting>,
    /// The populated user IR slots, in slot order.
    pub irs: Vec<BackupIr>,
    /// The favorites, in list order.
    pub favorites: Vec<BackupFavorite>,
    /// Every (model, form) that holds a user default.
    pub user_defaults: Vec<BackupUserDefault>,
}

impl Default for Backup {
    fn default() -> (b: Backup)
        ensures
            b.device@ == Seq::<char>::empty(),
            b.setlists@.len() == 0,
            b.presets@.len() == 0,
            b.settings@.len() == 0,
            b.irs@.len() == 0,
            b.favorites@.len() == 0,
            b.user_defaults@.len() == 0,
    {
        Backup {
            device: String::new(),
            setlists: Vec::new(),
            presets: Vec::new(),
            settings: Vec::new(),
            irs: Vec::new(),
            favorites: Vec::new(),
            user_defaults: Vec::new(),
        }
    }
}

/// The format tag every backup file carries.
pub const FORMAT: &'static str = "fretwire-backup";
/// The version a file with favorites or user defaults is written as — the newest one read.
pub const VERSION: i64 = 4;
/// The version a file with settings or IRs but neither of the above is written as.
pub const DEVICE_VERSION: i64 = 3;
/// The version a presets-only file is written as.
pub const PRESETS_ONLY_VERSION: i64 = 2;
/// The oldest version still read.
pub const MIN_VERSION: i64 = 1;

/// The file carries nothing beyond presets.
pub open spec fn presets_only(b: Backup) -> bool {
    b.settings@.len() == 0 && b.irs@.len() == 0 && b.favorites@.len() == 0 && b.user_defaults@.len() == 0
}

/// The oldest version that can carry what `b` holds.
pub open spec fn version_of(b: Backup) -> i64 {
    if presets_only(b) {
        PRESETS_ONLY_VERSION
    } else if b.favorites@.len() == 0 && b.user_defaults@.len() == 0 {
        DEVICE_VERSION
    } else {
        VERSION
    }
}

impl Backup {
    /// Whether the file carries anything beyond presets.
    pub fn is_presets_only(&self) -> (r: bool)
        ensures
            r == presets_only(*self),
    {
        self.settings.len() == 0 && self.irs.len() == 0 && self.favorites.len() == 0
            && self.user_defaults.len() == 0
    }

    /// The version this backup is written as: the oldest one that can carry what it holds, so a
    /// file never claims a version it does not need.
    pub fn version(&self) -> (v: i64)
        ensures
            v == version_of(*self),
    {
        if self.is_presets_only() {
            PRESETS_ONLY_VERSION
        } else if self.favorites.len() == 0 && self.user_defaults.len() == 0 {
            DEVICE_VERSION
        } else {
            VERSION
        }
    }

    /// The entry stored for slot `index` of setlist `bank`, the first if there are several.
    pub fn preset(&self, bank: i64, index: i64) -> (r: Option<&BackupPreset>)
        ensures
            r is None <==> forall|i: int| 0 <= i < self.presets@.len() ==> !(#[trigger] self.presets@[i].bank == bank && self.presets@[i].index == index),
            r matches Some(p) ==> exists|i: int| 0 <= i < self.presets@.len() && *p == #[trigger] self.presets@[i]
                && p.bank == bank && p.index == index
                && forall|j: int| 0 <= j < i ==> !(#[trigger] self.presets@[j].bank == bank && self.presets@[j].index == index),
    {
        let mut i: usize = 0;
        while i < self.presets.len()
            invariant
                i <= self.presets@.len(),
                forall|j: int| 0 <= j < i ==> !(#[trigger] self.presets@[j].bank == bank && self.presets@[j].index == index),
            decreases self.presets.len() - i,
        {
            if self.presets[i].bank == bank && self.presets[i].index == index {
                return Some(&self.presets[i]);
            }
            i = i + 1;
        }
        None
    }

    /// The name this file recorded for setlist `bank` (the first, if several), if it recorded one.
    pub fn setlist_name(&self, bank: i64) -> (r: Option<&str>)
        ensures
            r is None <==> forall|i: int| 0 <= i < self.setlists@.len() ==> #[trigger] self.setlists@[i].0 != bank,
            r matches Some(n) ==> exists|i: int| 0 <= i < self.setlists@.len() && #[trigger] self.setlists@[i].0 == bank
                && n@ == self.setlists@[i].1@
                && forall|j: int| 0 <= j < i ==> #[trigger] self.setlists@[j].0 != bank,
    {
        let mut i: usize = 0;
        while i < self.setlists.len()
            invariant
                i <= self.setlists@.len(),
                forall|j: int| 0 <= j < i ==> #[trigger] self.setlists@[j].0 != bank,
            decreases self.setlists.len() - i,
        {
            if self.setlists[i].0 == bank {
                return Some(self.setlists[i].1.as_str());
            }
            i = i + 1;
        }
        None
    }

    /// Every setlist the file holds presets for, in bank order, each once.
    pub fn banks(&self) -> (v: Vec<i64>)
        ensures
            forall|a: int, b: int| 0 <= a < b < v@.len() ==> #[trigger] v@[a] < #[trigger] v@[b],
            forall|x: i64| v@.contains(x) <==> exists|i: int| 0 <= i < self.presets@.len() && #[trigger] self.presets@[i].bank == x,
    {
        let mut v: Vec<i64> = Vec::new();
        let mut i: usize = 0;
        while i < self.presets.len()
            invariant
                i <= self.presets@.len(),
                forall|a: int, b: int| 0 <= a < b < v@.len() ==> #[trigger] v@[a] < #[trigger] v@[b],
                forall|x: i64| v@.contains(x) <==> exists|k: int| 0 <= k < i && #[trigger] self.presets@[k].bank == x,
            decreases self.presets.len() - i,
        {
            let b = self.presets[i].bank;
            let mut j: usize = 0;
            while j < v.len() && v[j] < b
                invariant
                    j <= v@.len(),
                    forall|a: int, c: int| 0 <= a < c < v@.len() ==> #[trigger] v@[a] < #[trigger] v@[c],
                    forall|a: int| 0 <= a < j ==> #[trigger] v@[a] < b,
                decreases v.len() - j,
            {
                j = j + 1;
            }
            let ghost before = v@;
            if j < v.len() && v[j] == b {
                proof {
                    assert forall|x: i64| v@.contains(x) <==> exists|k: int| 0 <= k < i + 1 && #[trigger] self.presets@[k].bank == x by {
                        if x == b {
                            assert(v@[j as int] == x);
                        }
                    }
                }
            } else {
                v.insert(j, b);
                proof {
                    assert forall|a: int| j < a < v@.len() implies #[trigger] v@[a] > b by {
                        assert(v@[a] == before[a - 1]);
                        if a - 1 > j {
                            assert(before[j as int] < before[a - 1]);
                        }
                    }
                    assert forall|a: int, c: int| 0 <= a < c < v@.len() implies #[trigger] v@[a] < #[trigger] v@[c] by {
                        if a < j && c > j {
                            assert(v@[a] == before[a]);
                        } else if a < j && c < j {
                            assert(v@[a] == before[a]);
                            assert(v@[c] == before[c]);
                        } else if a > j {
                            assert(v@[a] == before[a - 1]);
                            assert(v@[c] == before[c - 1]);
                        } else if a < j {
                            assert(v@[a] == before[a]);
                        }
                    }
                    assert forall|x: i64| v@.contains(x) <==> exists|k: int| 0 <= k < i + 1 && #[trigger] self.presets@[k].bank == x by {
                        if x == b {
                            assert(v@[j as int] == x);
                            assert(self.presets@[i as int].bank == x);
                        } else {
                            if v@.contains(x) {
                                let a = choose|a: int| 0 <= a < v@.len() && v@[a] == x;
                                if a < j {
                                    assert(before[a] == x);
                                } else {
                                    assert(before[a - 1] == x);
                                }
                                assert(before.contains(x));
                            }
                            if exists|k: int| 0 <= k < i + 1 && #[trigger] self.presets@[k].bank == x {
                                let k = choose|k: int| 0 <= k < i + 1 && #[trigger] self.presets@[k].bank == x;
                                assert(k < i);
                                assert(before.contains(x));
                                let a = choose|a: int| 0 <= a < before.len() && before[a] == x;
                                if a < j {
                                    assert(v@[a] == x);
                                } else {
                                    assert(v@[a + 1] == x);
                                }
                            }
                        }
                    }
                }
            }
            i = i + 1;
        }
        v
    }
}

/// Which parts of a backup a restore writes.
#[derive(Debug, Clone, Copy, PartialEq, Eq)]
pub struct RestoreParts {
    pub presets: bool,
    pub irs: bool,
    pub settings: bool,
}

impl RestoreParts {
    /// Everything the file holds.
    pub fn all() -> (p: RestoreParts)
        ensures
            p.presets && p.irs && p.settings,
    {
        RestoreParts { presets: true, irs: true, settings: true }
    }
}

/// What a restore did with one item.
#[derive(Debug, Clone, PartialEq, Eq)]
pub enum RestoreOutcome {
    /// Written to the device.
    Written,
    /// Already held this value, so nothing was written.
    Unchanged,
    /// Deliberately not written, with the reason.
    Skipped(String),
    /// The device refused it or the write failed, with the error.
    Failed(String),
}

/// What a device restore did, item by item: presets keyed `(bank, index)`, IRs by slot,
/// settings by id.
#[derive(Debug, Clone, PartialEq, Eq)]
pub struct RestoreReport {
    pub presets: Vec<((i64, i64), RestoreOutcome)>,
    pub irs: Vec<(i64, RestoreOutcome)>,
    pub settings: Vec<(i64, RestoreOutcome)>,
}

/// How many of `items` ended as `Written`.
pub open spec fn count_written<K>(items: Seq<(K, RestoreOutcome)>) -> nat
    decreases items.len(),
{
    if items.len() == 0 {
        0
    } else {
        count_written(items.drop_last()) + if items.last().1 is Written { 1nat } else { 0nat }
    }
}

/// How many of `items` ended as `Unchanged`.
pub open spec fn count_unchanged<K>(items: Seq<(K, RestoreOutcome)>) -> nat
    decreases items.len(),
{
    if items.len() == 0 {
        0
    } else {
        count_unchanged(items.drop_last()) + if items.last().1 is Unchanged { 1nat } else { 0nat }
    }
}

/// The failures of one section, as (what, error) lines, each item named by `what`.
pub open spec fn failures_of<K>(items: Seq<(K, RestoreOutcome)>, what: spec_fn(K) -> Seq<char>) -> Seq<(Seq<char>, Seq<char>)>
    decreases items.len(),
{
    if items.len() == 0 {
        Seq::empty()
    } else {
        let rest = failures_of(items.drop_last(), what);
        match items.last().1 {
            RestoreOutcome::Failed(e) => rest.push((what(items.last().0), e@)),
            _ => rest,
        }
    }
}

/// How a failed preset is named: `preset BANK:INDEX`.
pub open spec fn preset_label(k: (i64, i64)) -> Seq<char> {
    "preset "@ + dec_signed(k.0 as int) + seq![':'] + dec_signed(k.1 as int)
}

/// How a failed IR is named: `IR slot SLOT`.
pub open spec fn ir_label(k: i64) -> Seq<char> {
    "IR slot "@ + dec_signed(k as int)
}

/// How a failed setting is named: `setting ID`.
pub open spec fn setting_label(k: i64) -> Seq<char> {
    "setting "@ + dec_signed(k as int)
}

/// Pairs of `String`s, as text.
pub open spec fn text_pairs(v: Seq<(String, String)>) -> Seq<(Seq<char>, Seq<char>)> {
    v.map_values(|p: (String, String)| (p.0@, p.1@))
}

impl RestoreReport {
    /// How many of `items` ended as `Written`.
    pub fn written<K>(items: &[(K, RestoreOutcome)]) -> (n: usize)
        ensures
            n == count_written(items@),
    {
        let mut n: usize = 0;
        let mut i: usize = 0;
        while i < items.len()
            invariant
                i <= items@.len(),
                n == count_written(items@.take(i as int)),
                n <= i,
            decreases items.len() - i,
        {
            proof {
                assert(items@.take(i + 1).drop_last() =~= items@.take(i as int));
            }
            match &items[i].1 {
                RestoreOutcome::Written => { n = n + 1; }
                _ => {}
            }
            i = i + 1;
        }
        assert(items@.take(items@.len() as int) =~= items@);
        n
    }

    /// How many of `items` ended as `Unchanged`.
    pub fn unchanged<K>(items: &[(K, RestoreOutcome)]) -> (n: usize)
        ensures
            n == count_unchanged(items@),
    {
        let mut n: usize = 0;
        let mut i: usize = 0;
        while i < items.len()
            invariant
                i <= items@.len(),
                n == count_unchanged(items@.take(i as int)),
                n <= i,
            decreases items.len() - i,
        {
            proof {
                assert(items@.take(i + 1).drop_last() =~= items@.take(i as int));
            }
            match &items[i].1 {
                RestoreOutcome::Unchanged => { n = n + 1; }
                _ => {}
            }
            i = i + 1;
        }
        assert(items@.take(items@.len() as int) =~= items@);
        n
    }

    /// Every failure across the three sections, presets then IRs then settings, as
    /// `(what, error)` lines.
    pub fn failures(&self) -> (out: Vec<(String, String)>)
        ensures
            text_pairs(out@) == failures_of(self.presets@, |k: (i64, i64)| preset_label(k))
                + failures_of(self.irs@, |k: i64| ir_label(k))
                + failures_of(self.settings@, |k: i64| setting_label(k)),
    {
        let mut out: Vec<(String, String)> = Vec::new();
        let mut i: usize = 0;
        while i < self.presets.len()
            invariant
                i <= self.presets@.len(),
                text_pairs(out@) == failures_of(self.presets@.take(i as int), |k: (i64, i64)| preset_label(k)),
            decreases self.presets.len() - i,
        {
            proof {
                assert(self.presets@.take(i + 1).drop_last() =~= self.presets@.take(i as int));
            }
            match &self.presets[i].1 {
                RestoreOutcome::Failed(e) => {
                    let (bank, index) = self.presets[i].0;
                    let mut what = owned("preset ");
                    push_i64(&mut what, bank);
                    push_str(&mut what, ":");
                    push_i64(&mut what, index);
                    proof {
                        reveal_strlit(":");
                        assert(what@ =~= preset_label((bank, index)));
                    }
                    out.push((what, e.clone()));
                    proof {
                        assert(text_pairs(out@) =~= text_pairs(out@.drop_last()).push((what@, e@)));
                    }
                }
                _ => {}
            }
            i = i + 1;
        }
        assert(self.presets@.take(self.presets@.len() as int) =~= self.presets@);
        let ghost after_presets = text_pairs(out@);
        let mut i: usize = 0;
        while i < self.irs.len()
            invariant
                i <= self.irs@.len(),
                text_pairs(out@) == after_presets + failures_of(self.irs@.take(i as int), |k: i64| ir_label(k)),
            decreases self.irs.len() - i,
        {
            proof {
                assert(self.irs@.take(i + 1).drop_last() =~= self.irs@.take(i as int));
            }
            match &self.irs[i].1 {
                RestoreOutcome::Failed(e) => {
                    let slot = self.irs[i].0;
                    let mut what = owned("IR slot ");
                    push_i64(&mut what, slot);
                    assert(what@ =~= ir_label(slot));
                    let ghost prev = failures_of(self.irs@.take(i as int), |k: i64| ir_label(k));
                    out.push((what, e.clone()));
                    proof {
                        assert(text_pairs(out@) =~= text_pairs(out@.drop_last()).push((what@, e@)));
                        assert(failures_of(self.irs@.take(i + 1), |k: i64| ir_label(k)) == prev.push((what@, e@)));
                        assert((after_presets + prev).push((what@, e@)) =~= after_presets + prev.push((what@, e@)));
                    }
                }
                _ => {}
            }
            i = i + 1;
        }
        assert(self.irs@.take(self.irs@.len() as int) =~= self.irs@);
        let ghost after_irs = text_pairs(out@);
        let mut i: usize = 0;
        while i < self.settings.len()
            invariant
                i <= self.settings@.len(),
                text_pairs(out@) == after_irs + failures_of(self.settings@.take(i as int), |k: i64| setting_label(k)),
            decreases self.settings.len() - i,
        {
            proof {
                assert(self.settings@.take(i + 1).drop_last() =~= self.settings@.take(i as int));
            }
            match &self.settings[i].1 {
                RestoreOutcome::Failed(e) => {
                    let id = self.settings[i].0;
                    let mut what = owned("setting ");
                    push_i64(&mut what, id);
                    assert(what@ =~= setting_label(id));
                    let ghost prev = failures_of(self.settings@.take(i as int), |k: i64| setting_label(k));
                    out.push((what, e.clone()));
                    proof {
                        assert(text_pairs(out@) =~= text_pairs(out@.drop_last()).push((what@, e@)));
                        assert(failures_of(self.settings@.take(i + 1), |k: i64| setting_label(k)) == prev.push((what@, e@)));
                        assert((after_irs + prev).push((what@, e@)) =~= after_irs + prev.push((what@, e@)));
                    }
                }
                _ => {}
            }
            i = i + 1;
        }
        assert(self.settings@.take(self.settings@.len() as int) =~= self.settings@);
        out
    }
}

/// The error for a setlist sweep that lost its place.
pub open spec fn desync_message(reported: i64, index: i64) -> Seq<char> {
    "device reports preset "@ + dec_signed(reported as int) + " while backing up slot "@ + dec_signed(index as int)
        + " \u{2014} sweep desynced, aborting"@
}

/// One step of a setlist sweep: after selecting slot `index` (listed as `listed_name`) and
/// reading it, the device reported `info` (its preset index and name, when it reported one). A
/// report of another slot means the sweep lost its place, and it stops; otherwise the preset is
/// stored under the device's name for it, or the listed one when the device gave none.
pub fn sweep_name(index: i64, listed_name: &str, info: Option<(i64, &str)>) -> (r: Result<String, String>)
    ensures
        match info {
            Some((i, n)) => if i != index {
                r matches Err(m) && m@ == desync_message(i, index)
            } else if n@.len() > 0 {
                r matches Ok(name) && name@ == n@
            } else {
                r matches Ok(name) && name@ == listed_name@
            },
            None => r matches Ok(name) && name@ == listed_name@,
        },
{
    match info {
        Some((i, n)) => {
            if i != index {
                let mut m = owned("device reports preset ");
                push_i64(&mut m, i);
                push_str(&mut m, " while backing up slot ");
                push_i64(&mut m, index);
                push_str(&mut m, " \u{2014} sweep desynced, aborting");
                return Err(m);
            }
            if chars_of(n).len() > 0 {
                Ok(owned(n))
            } else {
                Ok(owned(listed_name))
            }
        },
        None => Ok(owned(listed_name)),
    }
}

} // verus!
