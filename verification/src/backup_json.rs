//! A backup as the JSON document its file holds, and back: which members each version carries,
//! what a reader accepts, and the exact error it refuses a file with.

use vstd::prelude::*;
use crate::backup::{
    presets_only, version_of, Backup, BackupFavorite, BackupIr, BackupPreset, BackupSetting,
    BackupUserDefault, SettingValue, FORMAT, MIN_VERSION, VERSION,
};
use crate::hex::{decode_step, hex_decode, HexStep};
use crate::json::{as_array, as_bool, as_f32_bits, as_i64, as_str, get, JsonValue};
use crate::text::{dec, dec_signed, owned, push_i64, push_str, push_u64};

verus! {

/// Why a file is refused, as values.
pub enum ReadErr {
    /// The message as the reader sees it.
    Bad(Seq<char>),
    /// A setting whose value does not go with its `type` tag: its id, the tag, and its position
    /// in `settings`.
    Mistyped(i64, Seq<char>, nat),
}

/// How far reading a part of a file gets: its contents, or the error that refuses it.
pub enum Step<T> {
    Done(T),
    Fail(ReadErr),
}

/// A preset as a file records it: bank, index, name, payload.
pub type PresetText = (i64, i64, Seq<char>, Seq<u8>);
/// An IR: slot, name, samples.
pub type IrText = (i64, Seq<char>, Seq<u8>);
/// A favorite: index, name, model, paired cab, record.
pub type FavoriteText = (i64, Seq<char>, i64, Option<i64>, Seq<u8>);
/// A user default: model, cab kind, record.
pub type UserDefaultText = (i64, Option<i64>, Seq<u8>);

/// What a backup file holds, as values.
pub struct FileContents {
    pub device: Seq<char>,
    pub setlists: Seq<(i64, Seq<char>)>,
    pub presets: Seq<PresetText>,
    pub settings: Seq<(i64, SettingValue)>,
    pub irs: Seq<IrText>,
    pub favorites: Seq<FavoriteText>,
    pub user_defaults: Seq<UserDefaultText>,
}

/// The contents of a [`Backup`], as values.
pub open spec fn contents_of(b: Backup) -> FileContents {
    FileContents {
        device: b.device@,
        setlists: b.setlists@.map_values(|s: (i64, String)| (s.0, s.1@)),
        presets: b.presets@.map_values(|p: BackupPreset| (p.bank, p.index, p.name@, p.raw@)),
        settings: b.settings@.map_values(|s: BackupSetting| (s.id, s.value)),
        irs: b.irs@.map_values(|r: BackupIr| (r.slot, r.name@, r.blob@)),
        favorites: b.favorites@.map_values(|f: BackupFavorite| (f.index, f.name@, f.model, f.paired_cab, f.record@)),
        user_defaults: b.user_defaults@.map_values(|u: BackupUserDefault| (u.model, u.cab_kind, u.record@)),
    }
}

/// A string member's text, or `d`.
pub open spec fn text_or(v: JsonValue, d: Seq<char>) -> Seq<char> {
    match as_str(v) {
        Some(s) => s,
        None => d,
    }
}

/// An integer member's value, or `d`.
pub open spec fn int_or(v: JsonValue, d: i64) -> i64 {
    match as_i64(v) {
        Some(n) => n,
        None => d,
    }
}

/// Reading the first `n` entries of an array with `f`, in order; the first entry that fails
/// decides.
pub open spec fn fold_steps<T>(a: Seq<JsonValue>, n: nat, f: spec_fn(JsonValue, nat) -> Step<T>) -> Step<Seq<T>>
    decreases n,
{
    if n == 0 {
        Step::Done(Seq::empty())
    } else {
        match fold_steps(a, (n - 1) as nat, f) {
            Step::Done(s) => match f(a[n - 1], (n - 1) as nat) {
                Step::Done(x) => Step::Done(s.push(x)),
                Step::Fail(e) => Step::Fail(e),
            },
            Step::Fail(e) => Step::Fail(e),
        }
    }
}

/// An optional array member read entry by entry: absent (or not an array) is empty.
pub open spec fn optional_section<T>(v: JsonValue, f: spec_fn(JsonValue, nat) -> Step<T>) -> Step<Seq<T>> {
    match as_array(v) {
        Some(a) => fold_steps(a, a.len(), f),
        None => Step::Done(Seq::empty()),
    }
}

/// A hex payload read for an entry whose errors are prefixed with `prefix`.
pub open spec fn payload(h: Seq<char>, prefix: Seq<char>) -> Step<Seq<u8>> {
    match decode_step(h) {
        HexStep::Bytes(v) => Step::Done(v),
        HexStep::Error(m) => Step::Fail(ReadErr::Bad(prefix + m)),
    }
}

/// `#i` as the messages number an entry.
pub open spec fn entry_no(what: Seq<char>, i: nat) -> Seq<char> {
    what + " #"@ + dec(i)
}

/// `what #i: missing "key"`.
pub open spec fn missing(what: Seq<char>, i: nat, key: Seq<char>) -> Seq<char> {
    entry_no(what, i) + ": missing \""@ + key + seq!['"']
}

/// `("name"): `, the part of an error naming the entry.
pub open spec fn quoted_name(name: Seq<char>) -> Seq<char> {
    " (\""@ + name + "\"): "@
}

/// Preset entry `i`.
pub open spec fn preset_step(e: JsonValue, i: nat) -> Step<PresetText> {
    match as_i64(get(e, "index"@)) {
        None => Step::Fail(ReadErr::Bad(missing("preset"@, i, "index"@))),
        Some(index) => {
            let bank = int_or(get(e, "bank"@), 0);
            let name = text_or(get(e, "name"@), ""@);
            match as_str(get(e, "raw_hex"@)) {
                None => Step::Fail(ReadErr::Bad(missing("preset"@, i, "raw_hex"@))),
                Some(h) => match payload(h, entry_no("preset"@, i) + quoted_name(name)) {
                    Step::Done(v) => Step::Done((bank, index, name, v)),
                    Step::Fail(x) => Step::Fail(x),
                },
            }
        },
    }
}

/// The typed value a setting entry's `type` tag and `value` give, if they go together.
pub open spec fn typed_value(ty: Seq<char>, v: JsonValue) -> Option<SettingValue> {
    if ty == "bool"@ {
        match as_bool(v) { Some(b) => Some(SettingValue::Bool(b)), None => None }
    } else if ty == "int"@ {
        match as_i64(v) { Some(n) => Some(SettingValue::Int(n)), None => None }
    } else if ty == "f32"@ {
        match as_f32_bits(v) { Some(f) => Some(SettingValue::F32(f)), None => None }
    } else {
        None
    }
}

/// Setting entry `i`.
pub open spec fn setting_step(e: JsonValue, i: nat) -> Step<(i64, SettingValue)> {
    match as_i64(get(e, "id"@)) {
        None => Step::Fail(ReadErr::Bad(missing("setting"@, i, "id"@))),
        Some(id) => {
            let ty = text_or(get(e, "type"@), ""@);
            match typed_value(ty, get(e, "value"@)) {
                Some(v) => Step::Done((id, v)),
                None => Step::Fail(ReadErr::Mistyped(id, ty, i)),
            }
        },
    }
}

/// IR entry `i`.
pub open spec fn ir_step(e: JsonValue, i: nat) -> Step<IrText> {
    match as_i64(get(e, "slot"@)) {
        None => Step::Fail(ReadErr::Bad(missing("IR"@, i, "slot"@))),
        Some(slot) => {
            let name = text_or(get(e, "name"@), ""@);
            match as_str(get(e, "raw_hex"@)) {
                None => Step::Fail(ReadErr::Bad(missing("IR"@, i, "raw_hex"@))),
                Some(h) => match payload(h, "IR slot "@ + dec_signed(slot as int) + quoted_name(name)) {
                    Step::Done(v) => Step::Done((slot, name, v)),
                    Step::Fail(x) => Step::Fail(x),
                },
            }
        },
    }
}

/// Favorite entry `i`.
pub open spec fn favorite_step(e: JsonValue, i: nat) -> Step<FavoriteText> {
    match as_i64(get(e, "index"@)) {
        None => Step::Fail(ReadErr::Bad(missing("favorite"@, i, "index"@))),
        Some(index) => {
            let name = text_or(get(e, "name"@), ""@);
            match as_i64(get(e, "model"@)) {
                None => Step::Fail(ReadErr::Bad(missing("favorite"@, i, "model"@))),
                Some(model) => match as_str(get(e, "record_hex"@)) {
                    None => Step::Fail(ReadErr::Bad(missing("favorite"@, i, "record_hex"@))),
                    Some(h) => match payload(h, "favorite "@ + dec_signed(index as int) + quoted_name(name)) {
                        Step::Done(v) => Step::Done((index, name, model, as_i64(get(e, "paired_cab"@)), v)),
                        Step::Fail(x) => Step::Fail(x),
                    },
                },
            }
        },
    }
}

/// User-default entry `i`.
pub open spec fn user_default_step(e: JsonValue, i: nat) -> Step<UserDefaultText> {
    match as_i64(get(e, "model"@)) {
        None => Step::Fail(ReadErr::Bad(missing("user default"@, i, "model"@))),
        Some(model) => match as_str(get(e, "record_hex"@)) {
            None => Step::Fail(ReadErr::Bad(missing("user default"@, i, "record_hex"@))),
            Some(h) => match payload(h, "user default for model "@ + dec_signed(model as int) + ": "@) {
                Step::Done(v) => Step::Done((model, as_i64(get(e, "cab_kind"@)), v)),
                Step::Fail(x) => Step::Fail(x),
            },
        },
    }
}

pub open spec fn presets_reader() -> spec_fn(JsonValue, nat) -> Step<PresetText> {
    |e: JsonValue, i: nat| preset_step(e, i)
}

pub open spec fn settings_reader() -> spec_fn(JsonValue, nat) -> Step<(i64, SettingValue)> {
    |e: JsonValue, i: nat| setting_step(e, i)
}

pub open spec fn irs_reader() -> spec_fn(JsonValue, nat) -> Step<IrText> {
    |e: JsonValue, i: nat| ir_step(e, i)
}

pub open spec fn favorites_reader() -> spec_fn(JsonValue, nat) -> Step<FavoriteText> {
    |e: JsonValue, i: nat| favorite_step(e, i)
}

pub open spec fn user_defaults_reader() -> spec_fn(JsonValue, nat) -> Step<UserDefaultText> {
    |e: JsonValue, i: nat| user_default_step(e, i)
}

/// The setlists a file names: every entry with an integer `bank`, with its name (empty when it
/// has none); entries without a bank are passed over.
pub open spec fn setlists_of(a: Seq<JsonValue>) -> Seq<(i64, Seq<char>)>
    decreases a.len(),
{
    if a.len() == 0 {
        Seq::empty()
    } else {
        let rest = setlists_of(a.drop_last());
        match as_i64(get(a.last(), "bank"@)) {
            Some(b) => rest.push((b, text_or(get(a.last(), "name"@), ""@))),
            None => rest,
        }
    }
}

/// The message for a file without the format tag.
pub open spec fn wrong_format_message() -> Seq<char> {
    "missing/wrong \"format\" tag — not a fretwire-backup file"@
}

/// The message for a version outside the ones read.
pub open spec fn version_message(v: i64) -> Seq<char> {
    "unsupported backup version "@ + dec_signed(v as int) + " (this build reads 1..=4)"@
}

/// Reading a backup file's document: the format tag and the version are checked first, then the
/// presets (which must be there), then the optional settings, IRs, favorites and user defaults,
/// each entry in turn; the first problem found decides. A missing device name reads as
/// `unknown`, a missing bank as 0, a missing name as empty.
pub open spec fn read_backup(root: JsonValue) -> Step<FileContents> {
    if as_str(get(root, "format"@)) != Some(FORMAT@) {
        Step::Fail(ReadErr::Bad(wrong_format_message()))
    } else if !(MIN_VERSION <= int_or(get(root, "version"@), 0) <= VERSION) {
        Step::Fail(ReadErr::Bad(version_message(int_or(get(root, "version"@), 0))))
    } else {
        match as_array(get(root, "presets"@)) {
            None => Step::Fail(ReadErr::Bad("missing \"presets\" array"@)),
            Some(pa) => match fold_steps(pa, pa.len(), presets_reader()) {
                Step::Fail(e) => Step::Fail(e),
                Step::Done(ps) => match optional_section(get(root, "settings"@), settings_reader()) {
                    Step::Fail(e) => Step::Fail(e),
                    Step::Done(ss) => match optional_section(get(root, "irs"@), irs_reader()) {
                        Step::Fail(e) => Step::Fail(e),
                        Step::Done(rs) => match optional_section(get(root, "favorites"@), favorites_reader()) {
                            Step::Fail(e) => Step::Fail(e),
                            Step::Done(fs) => match optional_section(get(root, "user_defaults"@), user_defaults_reader()) {
                                Step::Fail(e) => Step::Fail(e),
                                Step::Done(us) => Step::Done(FileContents {
                                    device: text_or(get(root, "device"@), "unknown"@),
                                    setlists: match as_array(get(root, "setlists"@)) {
                                        Some(a) => setlists_of(a),
                                        None => Seq::empty(),
                                    },
                                    presets: ps,
                                    settings: ss,
                                    irs: rs,
                                    favorites: fs,
                                    user_defaults: us,
                                }),
                            },
                        },
                    },
                },
            },
        }
    }
}

proof fn lemma_fold_stops<T>(a: Seq<JsonValue>, i: nat, n: nat, f: spec_fn(JsonValue, nat) -> Step<T>)
    requires
        i <= n,
        !(fold_steps(a, i, f) is Done),
    ensures
        fold_steps(a, n, f) == fold_steps(a, i, f),
    decreases n - i,
{
    if i < n {
        lemma_fold_stops(a, i, (n - 1) as nat, f);
    }
}

/// Why a backup file is refused.
pub enum BackupError {
    /// The message as the file's reader sees it.
    Bad(String),
    /// A setting whose value does not go with its `type` tag: its id, the tag, and the position
    /// of its entry in `settings` (whose `value` member is the value in question).
    Mistyped { id: i64, ty: String, entry: usize },
}

/// A refusal as values.
pub open spec fn err_view(e: BackupError) -> ReadErr {
    match e {
        BackupError::Bad(m) => ReadErr::Bad(m@),
        BackupError::Mistyped { id, ty, entry } => ReadErr::Mistyped(id, ty@, entry as nat),
    }
}

/// What reading one section with the exec readers gives: its entries, the refusal, or `None`
/// for a payload that reading would have panicked on.
pub open spec fn section_result<T, V>(r: Result<Vec<V>, BackupError>, s: Step<Seq<T>>, view: spec_fn(V) -> T) -> bool {
    match s {
        Step::Done(xs) => r matches Ok(v) && v@.map_values(view) == xs,
        Step::Fail(e) => r matches Err(x) && err_view(x) == e,
    }
}

/// The text of `v`, or `d` (exec).
fn text_member(v: &JsonValue, d: &str) -> (s: String)
    ensures
        s@ == text_or(*v, d@),
{
    match v.as_str() {
        Some(t) => owned(t),
        None => owned(d),
    }
}

/// `what #i`.
fn entry_label(what: &str, i: usize) -> (s: String)
    ensures
        s@ == entry_no(what@, i as nat),
{
    let mut s = owned(what);
    push_str(&mut s, " #");
    push_u64(&mut s, i as u64);
    s
}

/// `what #i: missing "key"`.
fn missing_message(what: &str, i: usize, key: &str) -> (s: String)
    ensures
        s@ == missing(what@, i as nat, key@),
{
    let mut s = entry_label(what, i);
    push_str(&mut s, ": missing \"");
    push_str(&mut s, key);
    push_str(&mut s, "\"");
    proof {
        reveal_strlit("\"");
        assert(s@ =~= missing(what@, i as nat, key@));
    }
    s
}

/// `prefix ("name"): `.
fn with_quoted_name(prefix: String, name: &String) -> (s: String)
    ensures
        s@ == prefix@ + quoted_name(name@),
{
    let mut s = prefix;
    push_str(&mut s, " (\"");
    push_str(&mut s, name.as_str());
    push_str(&mut s, "\"): ");
    proof {
        assert(s@ =~= prefix@ + quoted_name(name@));
    }
    s
}

/// Decode a payload whose errors carry `prefix`.
fn read_payload(h: &str, prefix: String) -> (r: Result<Vec<u8>, BackupError>)
    ensures
        match payload(h@, prefix@) {
            Step::Done(v) => r matches Ok(out) && out@ == v,
            Step::Fail(e) => r matches Err(x) && err_view(x) == e,
        },
{
    match hex_decode(h) {
        Ok(v) => Ok(v),
        Err(m) => {
            let mut s = prefix;
            push_str(&mut s, m.as_str());
            Err(BackupError::Bad(s))
        }
    }
}

fn read_preset(e: &JsonValue, i: usize) -> (r: Result<BackupPreset, BackupError>)
    ensures
        match preset_step(*e, i as nat) {
            Step::Done(p) => r matches Ok(x) && (x.bank, x.index, x.name@, x.raw@) == p,
            Step::Fail(err) => r matches Err(x) && err_view(x) == err,
        },
{
    let index = match e.get("index").as_i64() {
        Some(n) => n,
        None => {
            return Err(BackupError::Bad(missing_message("preset", i, "index")));
        }
    };
    let bank = match e.get("bank").as_i64() {
        Some(b) => b,
        None => 0,
    };
    let name = text_member(e.get("name"), "");
    let hex = match e.get("raw_hex").as_str() {
        Some(h) => h,
        None => {
            return Err(BackupError::Bad(missing_message("preset", i, "raw_hex")));
        }
    };
    let prefix = with_quoted_name(entry_label("preset", i), &name);
    match read_payload(hex, prefix) {
        Ok(raw) => Ok(BackupPreset { bank, index, name, raw }),
        Err(x) => Err(x),
    }
}

fn read_setting(e: &JsonValue, i: usize) -> (r: Result<BackupSetting, BackupError>)
    ensures
        match setting_step(*e, i as nat) {
            Step::Done(p) => r matches Ok(x) && (x.id, x.value) == p,
            Step::Fail(err) => r matches Err(x) && err_view(x) == err,
        },
{
    let id = match e.get("id").as_i64() {
        Some(n) => n,
        None => {
            return Err(BackupError::Bad(missing_message("setting", i, "id")));
        }
    };
    let ty = text_member(e.get("type"), "");
    let v = e.get("value");
    let tc = crate::text::chars_of(ty.as_str());
    let value: Option<SettingValue> = if crate::text::str_is(ty.as_str(), "bool") {
        match v.as_bool() { Some(b) => Some(SettingValue::Bool(b)), None => None }
    } else if crate::text::str_is(ty.as_str(), "int") {
        match v.as_i64() { Some(n) => Some(SettingValue::Int(n)), None => None }
    } else if crate::text::str_is(ty.as_str(), "f32") {
        match v.as_f32_bits() { Some(f) => Some(SettingValue::F32(f)), None => None }
    } else {
        None
    };
    match value {
        Some(value) => Ok(BackupSetting { id, value }),
        None => Err(BackupError::Mistyped { id, ty, entry: i }),
    }
}

fn read_ir(e: &JsonValue, i: usize) -> (r: Result<BackupIr, BackupError>)
    ensures
        match ir_step(*e, i as nat) {
            Step::Done(p) => r matches Ok(x) && (x.slot, x.name@, x.blob@) == p,
            Step::Fail(err) => r matches Err(x) && err_view(x) == err,
        },
{
    let slot = match e.get("slot").as_i64() {
        Some(n) => n,
        None => {
            return Err(BackupError::Bad(missing_message("IR", i, "slot")));
        }
    };
    let name = text_member(e.get("name"), "");
    let hex = match e.get("raw_hex").as_str() {
        Some(h) => h,
        None => {
            return Err(BackupError::Bad(missing_message("IR", i, "raw_hex")));
        }
    };
    let mut p = owned("IR slot ");
    push_i64(&mut p, slot);
    let prefix = with_quoted_name(p, &name);
    match read_payload(hex, prefix) {
        Ok(blob) => Ok(BackupIr { slot, name, blob }),
        Err(x) => Err(x),
    }
}

fn read_favorite(e: &JsonValue, i: usize) -> (r: Result<BackupFavorite, BackupError>)
    ensures
        match favorite_step(*e, i as nat) {
            Step::Done(p) => r matches Ok(x) && (x.index, x.name@, x.model, x.paired_cab, x.record@) == p,
            Step::Fail(err) => r matches Err(x) && err_view(x) == err,
        },
{
    let index = match e.get("index").as_i64() {
        Some(n) => n,
        None => {
            return Err(BackupError::Bad(missing_message("favorite", i, "index")));
        }
    };
    let name = text_member(e.get("name"), "");
    let model = match e.get("model").as_i64() {
        Some(n) => n,
        None => {
            return Err(BackupError::Bad(missing_message("favorite", i, "model")));
        }
    };
    let hex = match e.get("record_hex").as_str() {
        Some(h) => h,
        None => {
            return Err(BackupError::Bad(missing_message("favorite", i, "record_hex")));
        }
    };
    let mut p = owned("favorite ");
    push_i64(&mut p, index);
    let prefix = with_quoted_name(p, &name);
    match read_payload(hex, prefix) {
        Ok(record) => Ok(BackupFavorite { index, name, model, paired_cab: e.get("paired_cab").as_i64(), record }),
        Err(x) => Err(x),
    }
}

fn read_user_default(e: &JsonValue, i: usize) -> (r: Result<BackupUserDefault, BackupError>)
    ensures
        match user_default_step(*e, i as nat) {
            Step::Done(p) => r matches Ok(x) && (x.model, x.cab_kind, x.record@) == p,
            Step::Fail(err) => r matches Err(x) && err_view(x) == err,
        },
{
    let model = match e.get("model").as_i64() {
        Some(n) => n,
        None => {
            return Err(BackupError::Bad(missing_message("user default", i, "model")));
        }
    };
    let hex = match e.get("record_hex").as_str() {
        Some(h) => h,
        None => {
            return Err(BackupError::Bad(missing_message("user default", i, "record_hex")));
        }
    };
    let mut prefix = owned("user default for model ");
    push_i64(&mut prefix, model);
    push_str(&mut prefix, ": ");
    match read_payload(hex, prefix) {
        Ok(record) => Ok(BackupUserDefault { model, cab_kind: e.get("cab_kind").as_i64(), record }),
        Err(x) => Err(x),
    }
}

/// Read every presets entry of `a`, in order, stopping at the first refusal.
fn read_presets(a: &Vec<JsonValue>) -> (r: Result<Vec<BackupPreset>, BackupError>)
    ensures
        section_result(r, fold_steps(a@, a@.len(), presets_reader()), |p: BackupPreset| (p.bank, p.index, p.name@, p.raw@)),
{
    let mut out: Vec<BackupPreset> = Vec::new();
    let mut i: usize = 0;
    proof {
        assert(out@.map_values(|p: BackupPreset| (p.bank, p.index, p.name@, p.raw@)) =~= Seq::empty());
    }
    while i < a.len()
        invariant
            i <= a@.len(),
            fold_steps(a@, i as nat, presets_reader()) == Step::Done(out@.map_values(|p: BackupPreset| (p.bank, p.index, p.name@, p.raw@))),
        decreases a.len() - i,
    {
        let ghost before = out@.map_values(|p: BackupPreset| (p.bank, p.index, p.name@, p.raw@));
        match read_preset(&a[i], i) {
            Ok(x) => {
                out.push(x);
                proof {
                    assert(out@.map_values(|p: BackupPreset| (p.bank, p.index, p.name@, p.raw@)) =~= before.push((x.bank, x.index, x.name@, x.raw@)));
                }
            }
            Err(e) => {
                proof {
                    lemma_fold_stops(a@, (i + 1) as nat, a@.len(), presets_reader());
                }
                return Err(e);
            }
        }
        i = i + 1;
    }
    Ok(out)
}

/// Read every settings entry of `a`, in order, stopping at the first refusal.
fn read_settings(a: &Vec<JsonValue>) -> (r: Result<Vec<BackupSetting>, BackupError>)
    ensures
        section_result(r, fold_steps(a@, a@.len(), settings_reader()), |p: BackupSetting| (p.id, p.value)),
{
    let mut out: Vec<BackupSetting> = Vec::new();
    let mut i: usize = 0;
    proof {
        assert(out@.map_values(|p: BackupSetting| (p.id, p.value)) =~= Seq::empty());
    }
    while i < a.len()
        invariant
            i <= a@.len(),
            fold_steps(a@, i as nat, settings_reader()) == Step::Done(out@.map_values(|p: BackupSetting| (p.id, p.value))),
        decreases a.len() - i,
    {
        let ghost before = out@.map_values(|p: BackupSetting| (p.id, p.value));
        match read_setting(&a[i], i) {
            Ok(x) => {
                out.push(x);
                proof {
                    assert(out@.map_values(|p: BackupSetting| (p.id, p.value)) =~= before.push((x.id, x.value)));
                }
            }
            Err(e) => {
                proof {
                    lemma_fold_stops(a@, (i + 1) as nat, a@.len(), settings_reader());
                }
                return Err(e);
            }
        }
        i = i + 1;
    }
    Ok(out)
}

/// Read every irs entry of `a`, in order, stopping at the first refusal.
fn read_irs(a: &Vec<JsonValue>) -> (r: Result<Vec<BackupIr>, BackupError>)
    ensures
        section_result(r, fold_steps(a@, a@.len(), irs_reader()), |p: BackupIr| (p.slot, p.name@, p.blob@)),
{
    let mut out: Vec<BackupIr> = Vec::new();
    let mut i: usize = 0;
    proof {
        assert(out@.map_values(|p: BackupIr| (p.slot, p.name@, p.blob@)) =~= Seq::empty());
    }
    while i < a.len()
        invariant
            i <= a@.len(),
            fold_steps(a@, i as nat, irs_reader()) == Step::Done(out@.map_values(|p: BackupIr| (p.slot, p.name@, p.blob@))),
        decreases a.len() - i,
    {
        let ghost before = out@.map_values(|p: BackupIr| (p.slot, p.name@, p.blob@));
        match read_ir(&a[i], i) {
            Ok(x) => {
                out.push(x);
                proof {
                    assert(out@.map_values(|p: BackupIr| (p.slot, p.name@, p.blob@)) =~= before.push((x.slot, x.name@, x.blob@)));
                }
            }
            Err(e) => {
                proof {
                    lemma_fold_stops(a@, (i + 1) as nat, a@.len(), irs_reader());
                }
                return Err(e);
            }
        }
        i = i + 1;
    }
    Ok(out)
}

/// Read every favorites entry of `a`, in order, stopping at the first refusal.
fn read_favorites(a: &Vec<JsonValue>) -> (r: Result<Vec<BackupFavorite>, BackupError>)
    ensures
        section_result(r, fold_steps(a@, a@.len(), favorites_reader()), |p: BackupFavorite| (p.index, p.name@, p.model, p.paired_cab, p.record@)),
{
    let mut out: Vec<BackupFavorite> = Vec::new();
    let mut i: usize = 0;
    proof {
        assert(out@.map_values(|p: BackupFavorite| (p.index, p.name@, p.model, p.paired_cab, p.record@)) =~= Seq::empty());
    }
    while i < a.len()
        invariant
            i <= a@.len(),
            fold_steps(a@, i as nat, favorites_reader()) == Step::Done(out@.map_values(|p: BackupFavorite| (p.index, p.name@, p.model, p.paired_cab, p.record@))),
        decreases a.len() - i,
    {
        let ghost before = out@.map_values(|p: BackupFavorite| (p.index, p.name@, p.model, p.paired_cab, p.record@));
        match read_favorite(&a[i], i) {
            Ok(x) => {
                out.push(x);
                proof {
                    assert(out@.map_values(|p: BackupFavorite| (p.index, p.name@, p.model, p.paired_cab, p.record@)) =~= before.push((x.index, x.name@, x.model, x.paired_cab, x.record@)));
                }
            }
            Err(e) => {
                proof {
                    lemma_fold_stops(a@, (i + 1) as nat, a@.len(), favorites_reader());
                }
                return Err(e);
            }
        }
        i = i + 1;
    }
    Ok(out)
}

/// Read every user defaults entry of `a`, in order, stopping at the first refusal.
fn read_user_defaults(a: &Vec<JsonValue>) -> (r: Result<Vec<BackupUserDefault>, BackupError>)
    ensures
        section_result(r, fold_steps(a@, a@.len(), user_defaults_reader()), |p: BackupUserDefault| (p.model, p.cab_kind, p.record@)),
{
    let mut out: Vec<BackupUserDefault> = Vec::new();
    let mut i: usize = 0;
    proof {
        assert(out@.map_values(|p: BackupUserDefault| (p.model, p.cab_kind, p.record@)) =~= Seq::empty());
    }
    while i < a.len()
        invariant
            i <= a@.len(),
            fold_steps(a@, i as nat, user_defaults_reader()) == Step::Done(out@.map_values(|p: BackupUserDefault| (p.model, p.cab_kind, p.record@))),
        decreases a.len() - i,
    {
        let ghost before = out@.map_values(|p: BackupUserDefault| (p.model, p.cab_kind, p.record@));
        match read_user_default(&a[i], i) {
            Ok(x) => {
                out.push(x);
                proof {
                    assert(out@.map_values(|p: BackupUserDefault| (p.model, p.cab_kind, p.record@)) =~= before.push((x.model, x.cab_kind, x.record@)));
                }
            }
            Err(e) => {
                proof {
                    lemma_fold_stops(a@, (i + 1) as nat, a@.len(), user_defaults_reader());
                }
                return Err(e);
            }
        }
        i = i + 1;
    }
    Ok(out)
}

/// An optional section: read it when it is an array, else empty.
fn optional_settings(v: &JsonValue) -> (r: Result<Vec<BackupSetting>, BackupError>)
    ensures
        section_result(r, optional_section(*v, settings_reader()), |p: BackupSetting| (p.id, p.value)),
{
    match v.as_array() {
        Some(a) => read_settings(a),
        None => {
            let out: Vec<BackupSetting> = Vec::new();
            proof {
                assert(out@.map_values(|p: BackupSetting| (p.id, p.value)) =~= Seq::<(i64, SettingValue)>::empty());
            }
            Ok(out)
        }
    }
}

fn optional_irs(v: &JsonValue) -> (r: Result<Vec<BackupIr>, BackupError>)
    ensures
        section_result(r, optional_section(*v, irs_reader()), |p: BackupIr| (p.slot, p.name@, p.blob@)),
{
    match v.as_array() {
        Some(a) => read_irs(a),
        None => {
            let out: Vec<BackupIr> = Vec::new();
            proof {
                assert(out@.map_values(|p: BackupIr| (p.slot, p.name@, p.blob@)) =~= Seq::<IrText>::empty());
            }
            Ok(out)
        }
    }
}

fn optional_favorites(v: &JsonValue) -> (r: Result<Vec<BackupFavorite>, BackupError>)
    ensures
        section_result(r, optional_section(*v, favorites_reader()), |p: BackupFavorite| (p.index, p.name@, p.model, p.paired_cab, p.record@)),
{
    match v.as_array() {
        Some(a) => read_favorites(a),
        None => {
            let out: Vec<BackupFavorite> = Vec::new();
            proof {
                assert(out@.map_values(|p: BackupFavorite| (p.index, p.name@, p.model, p.paired_cab, p.record@)) =~= Seq::<FavoriteText>::empty());
            }
            Ok(out)
        }
    }
}

fn optional_user_defaults(v: &JsonValue) -> (r: Result<Vec<BackupUserDefault>, BackupError>)
    ensures
        section_result(r, optional_section(*v, user_defaults_reader()), |p: BackupUserDefault| (p.model, p.cab_kind, p.record@)),
{
    match v.as_array() {
        Some(a) => read_user_defaults(a),
        None => {
            let out: Vec<BackupUserDefault> = Vec::new();
            proof {
                assert(out@.map_values(|p: BackupUserDefault| (p.model, p.cab_kind, p.record@)) =~= Seq::<UserDefaultText>::empty());
            }
            Ok(out)
        }
    }
}

/// The setlists of `v`, read as [`setlists_of`] reads them.
fn read_setlists(v: &JsonValue) -> (r: Vec<(i64, String)>)
    ensures
        r@.map_values(|s: (i64, String)| (s.0, s.1@)) == match as_array(*v) {
            Some(a) => setlists_of(a),
            None => Seq::empty(),
        },
{
    let mut out: Vec<(i64, String)> = Vec::new();
    match v.as_array() {
        Some(a) => {
            let mut i: usize = 0;
            while i < a.len()
                invariant
                    i <= a@.len(),
                    out@.map_values(|s: (i64, String)| (s.0, s.1@)) == setlists_of(a@.take(i as int)),
                decreases a.len() - i,
            {
                proof {
                    assert(a@.take(i + 1).drop_last() =~= a@.take(i as int));
                    assert(a@.take(i + 1).last() == a@[i as int]);
                }
                let ghost before = out@.map_values(|s: (i64, String)| (s.0, s.1@));
                match a[i].get("bank").as_i64() {
                    Some(b) => {
                        let name = text_member(a[i].get("name"), "");
                        let ghost nv = name@;
                        out.push((b, name));
                        proof {
                            assert(out@.map_values(|s: (i64, String)| (s.0, s.1@)) =~= before.push((b, nv)));
                        }
                    }
                    None => {}
                }
                i = i + 1;
            }
            proof {
                assert(a@.take(a@.len() as int) =~= a@);
            }
        }
        None => {
            proof {
                assert(out@.map_values(|s: (i64, String)| (s.0, s.1@)) =~= Seq::<(i64, Seq<char>)>::empty());
            }
        }
    }
    out
}

impl Backup {
    /// Read a backup file's document: checks the format tag and version, then reads every
    /// section in order, hex payloads included; the first problem found is the error.
    pub fn from_json(root: &JsonValue) -> (r: Result<Backup, BackupError>)
        ensures
            match read_backup(*root) {
                Step::Done(c) => r matches Ok(b) && contents_of(b) == c,
                Step::Fail(e) => r matches Err(x) && err_view(x) == e,
            },
    {
        let fmt_ok = match root.get("format").as_str() {
            Some(f) => crate::text::str_is(f, FORMAT),
            None => false,
        };
        if !fmt_ok {
            return Err(BackupError::Bad(owned("missing/wrong \"format\" tag — not a fretwire-backup file")));
        }
        let version = match root.get("version").as_i64() {
            Some(v) => v,
            None => 0,
        };
        if !(MIN_VERSION <= version && version <= VERSION) {
            let mut m = owned("unsupported backup version ");
            push_i64(&mut m, version);
            push_str(&mut m, " (this build reads 1..=4)");
            return Err(BackupError::Bad(m));
        }
        let device = text_member(root.get("device"), "unknown");
        let setlists = read_setlists(root.get("setlists"));
        let entries = match root.get("presets").as_array() {
            Some(a) => a,
            None => {
                return Err(BackupError::Bad(owned("missing \"presets\" array")));
            }
        };
        let presets = match read_presets(entries) {
            Ok(v) => v,
            Err(e) => { return Err(e); }
        };
        let settings = match optional_settings(root.get("settings")) {
            Ok(v) => v,
            Err(e) => { return Err(e); }
        };
        let irs = match optional_irs(root.get("irs")) {
            Ok(v) => v,
            Err(e) => { return Err(e); }
        };
        let favorites = match optional_favorites(root.get("favorites")) {
            Ok(v) => v,
            Err(e) => { return Err(e); }
        };
        let user_defaults = match optional_user_defaults(root.get("user_defaults")) {
            Ok(v) => v,
            Err(e) => { return Err(e); }
        };
        let b = Backup { device, setlists, presets, settings, irs, favorites, user_defaults };
        proof {
            let c = contents_of(b);
            assert(c.presets =~= b.presets@.map_values(|p: BackupPreset| (p.bank, p.index, p.name@, p.raw@)));
            assert(c.settings =~= b.settings@.map_values(|p: BackupSetting| (p.id, p.value)));
            assert(c.irs =~= b.irs@.map_values(|p: BackupIr| (p.slot, p.name@, p.blob@)));
            assert(c.favorites =~= b.favorites@.map_values(|p: BackupFavorite| (p.index, p.name@, p.model, p.paired_cab, p.record@)));
            assert(c.user_defaults =~= b.user_defaults@.map_values(|p: BackupUserDefault| (p.model, p.cab_kind, p.record@)));
            assert(c.setlists =~= b.setlists@.map_values(|s: (i64, String)| (s.0, s.1@)));
        }
        Ok(b)
    }


}

/// The keys of an object's members, in order.
pub open spec fn member_keys(m: Seq<(String, JsonValue)>) -> Seq<Seq<char>> {
    m.map_values(|x: (String, JsonValue)| x.0@)
}

/// An integer as the file writes it.
pub open spec fn int_json(n: i64) -> JsonValue {
    JsonValue::Number(crate::json::integer_number(n))
}

/// The name the settings table `names` gives `id` — its first entry for it.
pub open spec fn setting_name_of(names: Seq<(i64, String)>, id: i64) -> Option<Seq<char>>
    decreases names.len(),
{
    if names.len() == 0 {
        None
    } else if names[0].0 == id {
        Some(names[0].1@)
    } else {
        setting_name_of(names.drop_first(), id)
    }
}

proof fn lemma_keys_differ(a: Seq<char>, b: Seq<char>, k: int)
    requires
        0 <= k < a.len(),
        k < b.len(),
        a[k] != b[k],
    ensures
        a != b,
{
}

proof fn lemma_member_at(m: Seq<(String, JsonValue)>, key: Seq<char>, k: int)
    requires
        0 <= k < m.len(),
        m[k].0@ == key,
        forall|j: int| 0 <= j < k ==> #[trigger] m[j].0@ != key,
    ensures
        crate::json::member(m, key) == m[k].1,
    decreases k,
{
    if k > 0 {
        assert forall|j: int| 0 <= j < k - 1 implies #[trigger] m.drop_first()[j].0@ != key by {
            assert(m.drop_first()[j] == m[j + 1]);
        }
        lemma_member_at(m.drop_first(), key, k - 1);
    }
}

fn int_member(key: &str, n: i64) -> (m: (String, JsonValue))
    ensures
        m.0@ == key@,
        m.1 == int_json(n),
{
    (owned(key), JsonValue::Number(crate::json::integer(n)))
}

fn text_member_of(key: &str, t: String) -> (m: (String, JsonValue))
    ensures
        m.0@ == key@,
        m.1 == JsonValue::Str(t),
{
    (owned(key), JsonValue::Str(t))
}

fn opt_int_member(key: &str, n: Option<i64>) -> (m: (String, JsonValue))
    ensures
        m.0@ == key@,
        n is None ==> m.1 == JsonValue::Null,
        n matches Some(x) ==> m.1 == int_json(x),
{
    match n {
        Some(x) => int_member(key, x),
        None => (owned(key), JsonValue::Null),
    }
}

proof fn lemma_payload_round_trip(raw: Seq<u8>, prefix: Seq<char>)
    ensures
        payload(crate::hex::hex_chars(raw), prefix) == Step::<Seq<u8>>::Done(raw),
{
    crate::hex::hex_round_trip(raw);
}

/// The member `key` of a written entry holds `bytes` as lowercase hex, two digits per byte.
pub open spec fn hex_written(e: JsonValue, key: Seq<char>, bytes: Seq<u8>) -> bool {
    as_str(get(e, key)) == Some(crate::hex::hex_chars(bytes))
}

/// A written preset entry: `bank`, `index`, `name` and `raw_hex`, in that order.
pub open spec fn preset_shape(e: JsonValue, p: BackupPreset) -> bool {
    &&& e matches JsonValue::Object(m) && member_keys(m@) == seq!["bank"@, "index"@, "name"@, "raw_hex"@]
    &&& hex_written(e, "raw_hex"@, p.raw@)
}

/// A written IR entry: `slot`, `name` and `raw_hex`, in that order.
pub open spec fn ir_shape(e: JsonValue, r: BackupIr) -> bool {
    &&& e matches JsonValue::Object(m) && member_keys(m@) == seq!["slot"@, "name"@, "raw_hex"@]
    &&& hex_written(e, "raw_hex"@, r.blob@)
}

/// A written favorite entry: `index`, `name`, `model`, `paired_cab` and `record_hex`, in that
/// order.
pub open spec fn favorite_shape(e: JsonValue, f: BackupFavorite) -> bool {
    &&& e matches JsonValue::Object(m) && member_keys(m@) == seq!["index"@, "name"@, "model"@, "paired_cab"@, "record_hex"@]
    &&& hex_written(e, "record_hex"@, f.record@)
}

/// A written user-default entry: `model`, `cab_kind` and `record_hex`, in that order.
pub open spec fn user_default_shape(e: JsonValue, u: BackupUserDefault) -> bool {
    &&& e matches JsonValue::Object(m) && member_keys(m@) == seq!["model"@, "cab_kind"@, "record_hex"@]
    &&& hex_written(e, "record_hex"@, u.record@)
}

fn preset_entry(p: &BackupPreset) -> (e: JsonValue)
    ensures
        forall|i: nat| #[trigger] preset_step(e, i) == Step::Done((p.bank, p.index, p.name@, p.raw@)),
        preset_shape(e, *p),
{
    let mut m: Vec<(String, JsonValue)> = Vec::new();
    m.push(int_member("bank", p.bank));
    m.push(int_member("index", p.index));
    m.push(text_member_of("name", p.name.clone()));
    m.push(text_member_of("raw_hex", crate::hex::hex_encode(p.raw.as_slice())));
    let e = JsonValue::Object(m);
    proof {
        reveal_strlit("bank");
        reveal_strlit("index");
        reveal_strlit("name");
        reveal_strlit("raw_hex");
        reveal_with_fuel(crate::json::member, 5);
        assert(member_keys(m@) =~= seq!["bank"@, "index"@, "name"@, "raw_hex"@]);
        assert(m@[0].0@ == "bank"@);
        assert("bank"@.len() != "index"@.len());
        lemma_member_at(m@, "index"@, 1);
        assert(get(e, "index"@) == int_json(p.index));
        lemma_member_at(m@, "bank"@, 0);
        assert(get(e, "bank"@) == int_json(p.bank));
        assert(m@[0].0@ == "bank"@);
        lemma_keys_differ("bank"@, "name"@, 0);
        assert(m@[1].0@ == "index"@);
        assert("index"@.len() != "name"@.len());
        lemma_member_at(m@, "name"@, 2);
        assert(get(e, "name"@) == m@[2].1);
        assert(m@[0].0@ == "bank"@);
        assert("bank"@.len() != "raw_hex"@.len());
        assert(m@[1].0@ == "index"@);
        assert("index"@.len() != "raw_hex"@.len());
        assert(m@[2].0@ == "name"@);
        assert("name"@.len() != "raw_hex"@.len());
        lemma_member_at(m@, "raw_hex"@, 3);
        assert(get(e, "raw_hex"@) == m@[3].1);
        assert forall|i: nat| #[trigger] preset_step(e, i) == Step::Done((p.bank, p.index, p.name@, p.raw@)) by {
            lemma_payload_round_trip(p.raw@, entry_no("preset"@, i) + quoted_name(p.name@));
        }
    }
    e
}

/// A written setting entry carries the advisory `name` member exactly when the settings table
/// names its id, after `id`, `type` and `value`, holding that name.
pub open spec fn setting_named(e: JsonValue, names: Seq<(i64, String)>, id: i64) -> bool {
    &&& e matches JsonValue::Object(m) && member_keys(m@) == (match setting_name_of(names, id) {
        Some(_) => seq!["id"@, "type"@, "value"@, "name"@],
        None => seq!["id"@, "type"@, "value"@],
    })
    &&& setting_name_of(names, id) matches Some(n) ==> as_str(get(e, "name"@)) == Some(n)
}

fn setting_entry(s: &BackupSetting, names: &Vec<(i64, String)>) -> (e: JsonValue)
    ensures
        forall|i: nat| #[trigger] setting_step(e, i) == Step::Done((s.id, s.value)),
        e matches JsonValue::Object(m) && member_keys(m@) == (match setting_name_of(names@, s.id) {
            Some(_) => seq!["id"@, "type"@, "value"@, "name"@],
            None => seq!["id"@, "type"@, "value"@],
        }),
        setting_name_of(names@, s.id) matches Some(n) ==> as_str(get(e, "name"@)) == Some(n),
{
    let mut m: Vec<(String, JsonValue)> = Vec::new();
    m.push(int_member("id", s.id));
    m.push(text_member_of("type", owned(s.value.type_tag())));
    let value = match s.value {
        SettingValue::Bool(b) => JsonValue::Bool(b),
        SettingValue::Int(n) => JsonValue::Number(crate::json::integer(n)),
        SettingValue::F32(f) => JsonValue::Number(crate::json::JsonNumber { int: None, uint: None, float: Some(f) }),
    };
    m.push((owned("value"), value));
    let mut k: usize = 0;
    let mut found: Option<&String> = None;
    assert(names@.skip(0) =~= names@);
    while k < names.len()
        invariant
            k <= names@.len(),
            found is None ==> setting_name_of(names@, s.id) == setting_name_of(names@.skip(k as int), s.id),
            found matches Some(n) ==> setting_name_of(names@, s.id) == Some(n@),
        decreases names.len() - k,
    {
        proof {
            assert(names@.skip(k as int).drop_first() =~= names@.skip(k + 1));
            assert(names@.skip(k as int)[0] == names@[k as int]);
        }
        if found.is_none() && names[k].0 == s.id {
            found = Some(&names[k].1);
        }
        k = k + 1;
    }
    proof {
        if found is None {
            assert(names@.skip(k as int) =~= Seq::<(i64, String)>::empty());
        }
    }
    match found {
        Some(n) => {
            m.push(text_member_of("name", n.clone()));
        }
        None => {}
    }
    let e = JsonValue::Object(m);
    proof {
        reveal_strlit("id");
        reveal_strlit("type");
        reveal_strlit("value");
        reveal_strlit("name");
        reveal_strlit("bool");
        reveal_strlit("int");
        reveal_strlit("f32");
        reveal_with_fuel(crate::json::member, 5);
        match setting_name_of(names@, s.id) {
            Some(_) => { assert(member_keys(m@) =~= seq!["id"@, "type"@, "value"@, "name"@]); }
            None => { assert(member_keys(m@) =~= seq!["id"@, "type"@, "value"@]); }
        }
        lemma_member_at(m@, "id"@, 0);
        assert(get(e, "id"@) == int_json(s.id));
        assert(m@[0].0@ == "id"@);
        assert("id"@.len() != "type"@.len());
        lemma_member_at(m@, "type"@, 1);
        assert(get(e, "type"@) == m@[1].1);
        assert(m@[0].0@ == "id"@);
        assert("id"@.len() != "value"@.len());
        assert(m@[1].0@ == "type"@);
        assert("type"@.len() != "value"@.len());
        lemma_member_at(m@, "value"@, 2);
        assert(get(e, "value"@) == value);
        assert("int"@.len() != "bool"@.len());
        assert("f32"@.len() != "bool"@.len());
        lemma_keys_differ("f32"@, "int"@, 0);
        assert(typed_value(text_or(get(e, "type"@), ""@), get(e, "value"@)) == Some(s.value));
        match setting_name_of(names@, s.id) {
            Some(_) => {
                assert(m@[0].0@ == "id"@);
                assert(m@[1].0@ == "type"@);
                assert(m@[2].0@ == "value"@);
                assert("id"@.len() != "name"@.len());
                lemma_keys_differ("type"@, "name"@, 0);
                assert("value"@.len() != "name"@.len());
                lemma_member_at(m@, "name"@, 3);
            }
            None => {}
        }
    }
    e
}

fn ir_entry(r: &BackupIr) -> (e: JsonValue)
    ensures
        forall|i: nat| #[trigger] ir_step(e, i) == Step::Done((r.slot, r.name@, r.blob@)),
        ir_shape(e, *r),
{
    let mut m: Vec<(String, JsonValue)> = Vec::new();
    m.push(int_member("slot", r.slot));
    m.push(text_member_of("name", r.name.clone()));
    m.push(text_member_of("raw_hex", crate::hex::hex_encode(r.blob.as_slice())));
    let e = JsonValue::Object(m);
    proof {
        reveal_strlit("slot");
        reveal_strlit("name");
        reveal_strlit("raw_hex");
        reveal_with_fuel(crate::json::member, 4);
        assert(member_keys(m@) =~= seq!["slot"@, "name"@, "raw_hex"@]);
        lemma_member_at(m@, "slot"@, 0);
        assert(get(e, "slot"@) == int_json(r.slot));
        assert(m@[0].0@ == "slot"@);
        lemma_keys_differ("slot"@, "name"@, 0);
        lemma_member_at(m@, "name"@, 1);
        assert(get(e, "name"@) == m@[1].1);
        assert(m@[0].0@ == "slot"@);
        assert("slot"@.len() != "raw_hex"@.len());
        assert(m@[1].0@ == "name"@);
        assert("name"@.len() != "raw_hex"@.len());
        lemma_member_at(m@, "raw_hex"@, 2);
        assert(get(e, "raw_hex"@) == m@[2].1);
        assert forall|i: nat| #[trigger] ir_step(e, i) == Step::Done((r.slot, r.name@, r.blob@)) by {
            lemma_payload_round_trip(r.blob@, "IR slot "@ + dec_signed(r.slot as int) + quoted_name(r.name@));
        }
    }
    e
}

fn favorite_entry(f: &BackupFavorite) -> (e: JsonValue)
    ensures
        forall|i: nat| #[trigger] favorite_step(e, i) == Step::Done((f.index, f.name@, f.model, f.paired_cab, f.record@)),
        favorite_shape(e, *f),
{
    let mut m: Vec<(String, JsonValue)> = Vec::new();
    m.push(int_member("index", f.index));
    m.push(text_member_of("name", f.name.clone()));
    m.push(int_member("model", f.model));
    m.push(opt_int_member("paired_cab", f.paired_cab));
    m.push(text_member_of("record_hex", crate::hex::hex_encode(f.record.as_slice())));
    let e = JsonValue::Object(m);
    proof {
        reveal_strlit("index");
        reveal_strlit("name");
        reveal_strlit("model");
        reveal_strlit("paired_cab");
        reveal_strlit("record_hex");
        reveal_with_fuel(crate::json::member, 6);
        assert(member_keys(m@) =~= seq!["index"@, "name"@, "model"@, "paired_cab"@, "record_hex"@]);
        lemma_member_at(m@, "index"@, 0);
        assert(get(e, "index"@) == int_json(f.index));
        assert(m@[0].0@ == "index"@);
        assert("index"@.len() != "name"@.len());
        lemma_member_at(m@, "name"@, 1);
        assert(get(e, "name"@) == m@[1].1);
        assert(m@[0].0@ == "index"@);
        lemma_keys_differ("index"@, "model"@, 0);
        assert(m@[1].0@ == "name"@);
        assert("name"@.len() != "model"@.len());
        lemma_member_at(m@, "model"@, 2);
        assert(get(e, "model"@) == int_json(f.model));
        assert(m@[0].0@ == "index"@);
        assert("index"@.len() != "paired_cab"@.len());
        assert(m@[1].0@ == "name"@);
        assert("name"@.len() != "paired_cab"@.len());
        assert(m@[2].0@ == "model"@);
        assert("model"@.len() != "paired_cab"@.len());
        lemma_member_at(m@, "paired_cab"@, 3);
        assert(get(e, "paired_cab"@) == m@[3].1);
        assert(as_i64(get(e, "paired_cab"@)) == f.paired_cab);
        assert(m@[0].0@ == "index"@);
        assert("index"@.len() != "record_hex"@.len());
        assert(m@[1].0@ == "name"@);
        assert("name"@.len() != "record_hex"@.len());
        assert(m@[2].0@ == "model"@);
        assert("model"@.len() != "record_hex"@.len());
        assert(m@[3].0@ == "paired_cab"@);
        lemma_keys_differ("paired_cab"@, "record_hex"@, 0);
        lemma_member_at(m@, "record_hex"@, 4);
        assert(get(e, "record_hex"@) == m@[4].1);
        assert forall|i: nat| #[trigger] favorite_step(e, i) == Step::Done((f.index, f.name@, f.model, f.paired_cab, f.record@)) by {
            lemma_payload_round_trip(f.record@, "favorite "@ + dec_signed(f.index as int) + quoted_name(f.name@));
        }
    }
    e
}

fn user_default_entry(u: &BackupUserDefault) -> (e: JsonValue)
    ensures
        forall|i: nat| #[trigger] user_default_step(e, i) == Step::Done((u.model, u.cab_kind, u.record@)),
        user_default_shape(e, *u),
{
    let mut m: Vec<(String, JsonValue)> = Vec::new();
    m.push(int_member("model", u.model));
    m.push(opt_int_member("cab_kind", u.cab_kind));
    m.push(text_member_of("record_hex", crate::hex::hex_encode(u.record.as_slice())));
    let e = JsonValue::Object(m);
    proof {
        reveal_strlit("model");
        reveal_strlit("cab_kind");
        reveal_strlit("record_hex");
        reveal_with_fuel(crate::json::member, 4);
        assert(member_keys(m@) =~= seq!["model"@, "cab_kind"@, "record_hex"@]);
        lemma_member_at(m@, "model"@, 0);
        assert(get(e, "model"@) == int_json(u.model));
        assert(m@[0].0@ == "model"@);
        assert("model"@.len() != "cab_kind"@.len());
        lemma_member_at(m@, "cab_kind"@, 1);
        assert(get(e, "cab_kind"@) == m@[1].1);
        assert(as_i64(get(e, "cab_kind"@)) == u.cab_kind);
        assert(m@[0].0@ == "model"@);
        assert("model"@.len() != "record_hex"@.len());
        assert(m@[1].0@ == "cab_kind"@);
        assert("cab_kind"@.len() != "record_hex"@.len());
        lemma_member_at(m@, "record_hex"@, 2);
        assert(get(e, "record_hex"@) == m@[2].1);
        assert forall|i: nat| #[trigger] user_default_step(e, i) == Step::Done((u.model, u.cab_kind, u.record@)) by {
            lemma_payload_round_trip(u.record@, "user default for model "@ + dec_signed(u.model as int) + ": "@);
        }
    }
    e
}

fn setlist_entry(s: &(i64, String)) -> (e: JsonValue)
    ensures
        as_i64(get(e, "bank"@)) == Some(s.0),
        text_or(get(e, "name"@), ""@) == s.1@,
        e matches JsonValue::Object(m) && member_keys(m@) == seq!["bank"@, "name"@],
{
    let mut m: Vec<(String, JsonValue)> = Vec::new();
    m.push(int_member("bank", s.0));
    m.push(text_member_of("name", s.1.clone()));
    let e = JsonValue::Object(m);
    proof {
        reveal_strlit("bank");
        reveal_strlit("name");
        reveal_with_fuel(crate::json::member, 3);
        assert(member_keys(m@) =~= seq!["bank"@, "name"@]);
        lemma_member_at(m@, "bank"@, 0);
        assert(get(e, "bank"@) == int_json(s.0));
        assert(m@[0].0@ == "bank"@);
        lemma_keys_differ("bank"@, "name"@, 0);
        lemma_member_at(m@, "name"@, 1);
        assert(get(e, "name"@) == m@[1].1);
    }
    e
}

proof fn lemma_fold_all_done<T>(a: Seq<JsonValue>, n: nat, f: spec_fn(JsonValue, nat) -> Step<T>, xs: Seq<T>)
    requires
        n <= a.len(),
        n <= xs.len(),
        forall|k: int| 0 <= k < n ==> #[trigger] f(a[k], k as nat) == Step::Done(xs[k]),
    ensures
        fold_steps(a, n, f) == Step::Done(xs.take(n as int)),
    decreases n,
{
    if n == 0 {
        assert(xs.take(0) =~= Seq::<T>::empty());
    } else {
        lemma_fold_all_done(a, (n - 1) as nat, f, xs);
        assert(f(a[n - 1], (n - 1) as nat) == Step::Done(xs[n - 1]));
        assert(xs.take(n - 1).push(xs[n - 1]) =~= xs.take(n as int));
    }
}

proof fn lemma_member_absent(m: Seq<(String, JsonValue)>, key: Seq<char>)
    requires
        forall|j: int| 0 <= j < m.len() ==> #[trigger] m[j].0@ != key,
    ensures
        crate::json::member(m, key) == JsonValue::Null,
    decreases m.len(),
{
    if m.len() > 0 {
        assert forall|j: int| 0 <= j < m.drop_first().len() implies #[trigger] m.drop_first()[j].0@ != key by {
            assert(m.drop_first()[j] == m[j + 1]);
        }
        lemma_member_absent(m.drop_first(), key);
    }
}

/// The `presets` array: one entry per item, each reading back as that item.
fn presets_array(self_: &Backup) -> (a: Vec<JsonValue>)
    ensures
        fold_steps(a@, a@.len(), presets_reader()) == Step::Done(self_.presets@.map_values(|p: BackupPreset| (p.bank, p.index, p.name@, p.raw@))),
        a@.len() == self_.presets@.len(),
        forall|k: int| 0 <= k < a@.len() ==> preset_shape(#[trigger] a@[k], self_.presets@[k]),
{
    let mut a: Vec<JsonValue> = Vec::new();
    let mut i: usize = 0;
    while i < self_.presets.len()
        invariant
            i <= self_.presets@.len(),
            a@.len() == i,
            forall|k: int| 0 <= k < i ==> #[trigger] preset_step(a@[k], k as nat) == Step::Done(self_.presets@.map_values(|p: BackupPreset| (p.bank, p.index, p.name@, p.raw@))[k]),
            forall|k: int| 0 <= k < i ==> preset_shape(#[trigger] a@[k], self_.presets@[k]),
        decreases self_.presets.len() - i,
    {
        a.push(preset_entry(&self_.presets[i]));
        i = i + 1;
    }
    proof {
        let xs = self_.presets@.map_values(|p: BackupPreset| (p.bank, p.index, p.name@, p.raw@));
        assert forall|k: int| 0 <= k < a@.len() implies #[trigger] presets_reader()(a@[k], k as nat) == Step::Done(xs[k]) by {
            assert(preset_step(a@[k], k as nat) == Step::Done(xs[k]));
        }
        lemma_fold_all_done(a@, a@.len(), presets_reader(), xs);
        assert(xs.take(a@.len() as int) =~= xs);
    }
    a
}

/// The `settings` array: one entry per item, each reading back as that item.
fn settings_array(self_: &Backup, names: &Vec<(i64, String)>) -> (a: Vec<JsonValue>)
    ensures
        fold_steps(a@, a@.len(), settings_reader()) == Step::Done(self_.settings@.map_values(|p: BackupSetting| (p.id, p.value))),
        a@.len() == self_.settings@.len(),
        forall|k: int| 0 <= k < a@.len() ==> setting_named(#[trigger] a@[k], names@, self_.settings@[k].id),
{
    let mut a: Vec<JsonValue> = Vec::new();
    let mut i: usize = 0;
    while i < self_.settings.len()
        invariant
            i <= self_.settings@.len(),
            a@.len() == i,
            forall|k: int| 0 <= k < i ==> #[trigger] setting_step(a@[k], k as nat) == Step::Done(self_.settings@.map_values(|p: BackupSetting| (p.id, p.value))[k]),
            forall|k: int| 0 <= k < i ==> setting_named(#[trigger] a@[k], names@, self_.settings@[k].id),
        decreases self_.settings.len() - i,
    {
        a.push(setting_entry(&self_.settings[i], names));
        i = i + 1;
    }
    proof {
        let xs = self_.settings@.map_values(|p: BackupSetting| (p.id, p.value));
        assert forall|k: int| 0 <= k < a@.len() implies #[trigger] settings_reader()(a@[k], k as nat) == Step::Done(xs[k]) by {
            assert(setting_step(a@[k], k as nat) == Step::Done(xs[k]));
        }
        lemma_fold_all_done(a@, a@.len(), settings_reader(), xs);
        assert(xs.take(a@.len() as int) =~= xs);
    }
    a
}

/// The `irs` array: one entry per item, each reading back as that item.
fn irs_array(self_: &Backup) -> (a: Vec<JsonValue>)
    ensures
        fold_steps(a@, a@.len(), irs_reader()) == Step::Done(self_.irs@.map_values(|p: BackupIr| (p.slot, p.name@, p.blob@))),
        a@.len() == self_.irs@.len(),
        forall|k: int| 0 <= k < a@.len() ==> ir_shape(#[trigger] a@[k], self_.irs@[k]),
{
    let mut a: Vec<JsonValue> = Vec::new();
    let mut i: usize = 0;
    while i < self_.irs.len()
        invariant
            i <= self_.irs@.len(),
            a@.len() == i,
            forall|k: int| 0 <= k < i ==> #[trigger] ir_step(a@[k], k as nat) == Step::Done(self_.irs@.map_values(|p: BackupIr| (p.slot, p.name@, p.blob@))[k]),
            forall|k: int| 0 <= k < i ==> ir_shape(#[trigger] a@[k], self_.irs@[k]),
        decreases self_.irs.len() - i,
    {
        a.push(ir_entry(&self_.irs[i]));
        i = i + 1;
    }
    proof {
        let xs = self_.irs@.map_values(|p: BackupIr| (p.slot, p.name@, p.blob@));
        assert forall|k: int| 0 <= k < a@.len() implies #[trigger] irs_reader()(a@[k], k as nat) == Step::Done(xs[k]) by {
            assert(ir_step(a@[k], k as nat) == Step::Done(xs[k]));
        }
        lemma_fold_all_done(a@, a@.len(), irs_reader(), xs);
        assert(xs.take(a@.len() as int) =~= xs);
    }
    a
}

/// The `favorites` array: one entry per item, each reading back as that item.
fn favorites_array(self_: &Backup) -> (a: Vec<JsonValue>)
    ensures
        fold_steps(a@, a@.len(), favorites_reader()) == Step::Done(self_.favorites@.map_values(|p: BackupFavorite| (p.index, p.name@, p.model, p.paired_cab, p.record@))),
        a@.len() == self_.favorites@.len(),
        forall|k: int| 0 <= k < a@.len() ==> favorite_shape(#[trigger] a@[k], self_.favorites@[k]),
{
    let mut a: Vec<JsonValue> = Vec::new();
    let mut i: usize = 0;
    while i < self_.favorites.len()
        invariant
            i <= self_.favorites@.len(),
            a@.len() == i,
            forall|k: int| 0 <= k < i ==> #[trigger] favorite_step(a@[k], k as nat) == Step::Done(self_.favorites@.map_values(|p: BackupFavorite| (p.index, p.name@, p.model, p.paired_cab, p.record@))[k]),
            forall|k: int| 0 <= k < i ==> favorite_shape(#[trigger] a@[k], self_.favorites@[k]),
        decreases self_.favorites.len() - i,
    {
        a.push(favorite_entry(&self_.favorites[i]));
        i = i + 1;
    }
    proof {
        let xs = self_.favorites@.map_values(|p: BackupFavorite| (p.index, p.name@, p.model, p.paired_cab, p.record@));
        assert forall|k: int| 0 <= k < a@.len() implies #[trigger] favorites_reader()(a@[k], k as nat) == Step::Done(xs[k]) by {
            assert(favorite_step(a@[k], k as nat) == Step::Done(xs[k]));
        }
        lemma_fold_all_done(a@, a@.len(), favorites_reader(), xs);
        assert(xs.take(a@.len() as int) =~= xs);
    }
    a
}

/// The `user_defaults` array: one entry per item, each reading back as that item.
fn user_defaults_array(self_: &Backup) -> (a: Vec<JsonValue>)
    ensures
        fold_steps(a@, a@.len(), user_defaults_reader()) == Step::Done(self_.user_defaults@.map_values(|p: BackupUserDefault| (p.model, p.cab_kind, p.record@))),
        a@.len() == self_.user_defaults@.len(),
        forall|k: int| 0 <= k < a@.len() ==> user_default_shape(#[trigger] a@[k], self_.user_defaults@[k]),
{
    let mut a: Vec<JsonValue> = Vec::new();
    let mut i: usize = 0;
    while i < self_.user_defaults.len()
        invariant
            i <= self_.user_defaults@.len(),
            a@.len() == i,
            forall|k: int| 0 <= k < i ==> #[trigger] user_default_step(a@[k], k as nat) == Step::Done(self_.user_defaults@.map_values(|p: BackupUserDefault| (p.model, p.cab_kind, p.record@))[k]),
            forall|k: int| 0 <= k < i ==> user_default_shape(#[trigger] a@[k], self_.user_defaults@[k]),
        decreases self_.user_defaults.len() - i,
    {
        a.push(user_default_entry(&self_.user_defaults[i]));
        i = i + 1;
    }
    proof {
        let xs = self_.user_defaults@.map_values(|p: BackupUserDefault| (p.model, p.cab_kind, p.record@));
        assert forall|k: int| 0 <= k < a@.len() implies #[trigger] user_defaults_reader()(a@[k], k as nat) == Step::Done(xs[k]) by {
            assert(user_default_step(a@[k], k as nat) == Step::Done(xs[k]));
        }
        lemma_fold_all_done(a@, a@.len(), user_defaults_reader(), xs);
        assert(xs.take(a@.len() as int) =~= xs);
    }
    a
}

fn setlists_array(b: &Backup) -> (a: Vec<JsonValue>)
    ensures
        setlists_of(a@) == b.setlists@.map_values(|s: (i64, String)| (s.0, s.1@)),
{
    let mut a: Vec<JsonValue> = Vec::new();
    let mut i: usize = 0;
    while i < b.setlists.len()
        invariant
            i <= b.setlists@.len(),
            a@.len() == i,
            setlists_of(a@) == b.setlists@.take(i as int).map_values(|s: (i64, String)| (s.0, s.1@)),
        decreases b.setlists.len() - i,
    {
        let ghost before = a@;
        a.push(setlist_entry(&b.setlists[i]));
        proof {
            assert(a@.drop_last() =~= before);
            assert(b.setlists@.take(i + 1).map_values(|s: (i64, String)| (s.0, s.1@))
                =~= b.setlists@.take(i as int).map_values(|s: (i64, String)| (s.0, s.1@)).push((b.setlists@[i as int].0, b.setlists@[i as int].1@)));
        }
        i = i + 1;
    }
    proof {
        assert(b.setlists@.take(b.setlists@.len() as int) =~= b.setlists@);
    }
    a
}

impl Backup {
    /// The document this backup's file holds: the format tag, the version it needs, the device,
    /// setlists and presets; settings and IRs when it holds anything beyond presets; favorites
    /// and user defaults from version 4. Each setting carries the name the settings table
    /// `names` gives its id, where it gives one; every preset, IR, favorite and user-default entry
    /// lists its members in a fixed order and carries its bytes as lowercase hex. Reading the
    /// document back gives exactly this backup.
    #[verifier::rlimit(60)]
    #[verifier::spinoff_prover]
    pub fn to_json(&self, names: &Vec<(i64, String)>) -> (root: JsonValue)
        ensures
            read_backup(root) == Step::Done(contents_of(*self)),
            root matches JsonValue::Object(m) && member_keys(m@) == (if presets_only(*self) {
                seq!["format"@, "version"@, "device"@, "setlists"@, "presets"@]
            } else if version_of(*self) < VERSION {
                seq!["format"@, "version"@, "device"@, "setlists"@, "presets"@, "settings"@, "irs"@]
            } else {
                seq!["format"@, "version"@, "device"@, "setlists"@, "presets"@, "settings"@, "irs"@, "favorites"@, "user_defaults"@]
            }),
            as_i64(get(root, "version"@)) == Some(version_of(*self)),
            !presets_only(*self) ==> (get(root, "settings"@) matches JsonValue::Array(a) && a@.len() == self.settings@.len()
                && forall|k: int| 0 <= k < a@.len() ==> setting_named(#[trigger] a@[k], names@, self.settings@[k].id)),
            get(root, "presets"@) matches JsonValue::Array(a) && a@.len() == self.presets@.len()
                && forall|k: int| 0 <= k < a@.len() ==> preset_shape(#[trigger] a@[k], self.presets@[k]),
            !presets_only(*self) ==> (get(root, "irs"@) matches JsonValue::Array(a) && a@.len() == self.irs@.len()
                && forall|k: int| 0 <= k < a@.len() ==> ir_shape(#[trigger] a@[k], self.irs@[k])),
            !presets_only(*self) && version_of(*self) >= VERSION ==> (get(root, "favorites"@) matches JsonValue::Array(a)
                && a@.len() == self.favorites@.len()
                && forall|k: int| 0 <= k < a@.len() ==> favorite_shape(#[trigger] a@[k], self.favorites@[k])),
            !presets_only(*self) && version_of(*self) >= VERSION ==> (get(root, "user_defaults"@) matches JsonValue::Array(a)
                && a@.len() == self.user_defaults@.len()
                && forall|k: int| 0 <= k < a@.len() ==> user_default_shape(#[trigger] a@[k], self.user_defaults@[k])),
    {
        let mut m: Vec<(String, JsonValue)> = Vec::new();
        m.push(text_member_of("format", owned(FORMAT)));
        m.push(int_member("version", self.version()));
        m.push(text_member_of("device", self.device.clone()));
        let setlists = setlists_array(self);
        m.push((owned("setlists"), JsonValue::Array(setlists)));
        let presets = presets_array(self);
        m.push((owned("presets"), JsonValue::Array(presets)));
        if !self.is_presets_only() {
            let settings = settings_array(self, names);
            m.push((owned("settings"), JsonValue::Array(settings)));
            let irs = irs_array(self);
            m.push((owned("irs"), JsonValue::Array(irs)));
        }
        if self.version() >= VERSION {
            let favorites = favorites_array(self);
            m.push((owned("favorites"), JsonValue::Array(favorites)));
            let user_defaults = user_defaults_array(self);
            m.push((owned("user_defaults"), JsonValue::Array(user_defaults)));
        }
        let root = JsonValue::Object(m);
        proof {
            reveal_strlit("format");
            reveal_strlit("version");
            reveal_strlit("device");
            reveal_strlit("setlists");
            reveal_strlit("presets");
            reveal_strlit("settings");
            reveal_strlit("irs");
            reveal_strlit("favorites");
            reveal_strlit("user_defaults");
            if presets_only(*self) {
            assert(member_keys(m@) =~= seq!["format"@, "version"@, "device"@, "setlists"@, "presets"@]);
            assert(m@[0].0@ == "format"@);
            assert(m@[1].0@ == "version"@);
            assert(m@[2].0@ == "device"@);
            assert(m@[3].0@ == "setlists"@);
            assert(m@[4].0@ == "presets"@);
            lemma_member_at(m@, "format"@, 0);
            assert("format"@.len() != "version"@.len());
            lemma_member_at(m@, "version"@, 1);
            lemma_keys_differ("format"@, "device"@, 0);
            assert("version"@.len() != "device"@.len());
            lemma_member_at(m@, "device"@, 2);
            assert("format"@.len() != "setlists"@.len());
            assert("version"@.len() != "setlists"@.len());
            assert("device"@.len() != "setlists"@.len());
            lemma_member_at(m@, "setlists"@, 3);
            assert("format"@.len() != "presets"@.len());
            lemma_keys_differ("version"@, "presets"@, 0);
            assert("device"@.len() != "presets"@.len());
            assert("setlists"@.len() != "presets"@.len());
            lemma_member_at(m@, "presets"@, 4);
            assert("format"@.len() != "settings"@.len());
            assert("version"@.len() != "settings"@.len());
            assert("device"@.len() != "settings"@.len());
            lemma_keys_differ("setlists"@, "settings"@, 3);
            assert("presets"@.len() != "settings"@.len());
            lemma_member_absent(m@, "settings"@);
            assert("format"@.len() != "irs"@.len());
            assert("version"@.len() != "irs"@.len());
            assert("device"@.len() != "irs"@.len());
            assert("setlists"@.len() != "irs"@.len());
            assert("presets"@.len() != "irs"@.len());
            lemma_member_absent(m@, "irs"@);
            assert("format"@.len() != "favorites"@.len());
            assert("version"@.len() != "favorites"@.len());
            assert("device"@.len() != "favorites"@.len());
            assert("setlists"@.len() != "favorites"@.len());
            assert("presets"@.len() != "favorites"@.len());
            lemma_member_absent(m@, "favorites"@);
            assert("format"@.len() != "user_defaults"@.len());
            assert("version"@.len() != "user_defaults"@.len());
            assert("device"@.len() != "user_defaults"@.len());
            assert("setlists"@.len() != "user_defaults"@.len());
            assert("presets"@.len() != "user_defaults"@.len());
            lemma_member_absent(m@, "user_defaults"@);
            } else if version_of(*self) < VERSION {
            assert(member_keys(m@) =~= seq!["format"@, "version"@, "device"@, "setlists"@, "presets"@, "settings"@, "irs"@]);
            assert(m@[0].0@ == "format"@);
            assert(m@[1].0@ == "version"@);
            assert(m@[2].0@ == "device"@);
            assert(m@[3].0@ == "setlists"@);
            assert(m@[4].0@ == "presets"@);
            assert(m@[5].0@ == "settings"@);
            assert(m@[6].0@ == "irs"@);
            lemma_member_at(m@, "format"@, 0);
            assert("format"@.len() != "version"@.len());
            lemma_member_at(m@, "version"@, 1);
            lemma_keys_differ("format"@, "device"@, 0);
            assert("version"@.len() != "device"@.len());
            lemma_member_at(m@, "device"@, 2);
            assert("format"@.len() != "setlists"@.len());
            assert("version"@.len() != "setlists"@.len());
            assert("device"@.len() != "setlists"@.len());
            lemma_member_at(m@, "setlists"@, 3);
            assert("format"@.len() != "presets"@.len());
            lemma_keys_differ("version"@, "presets"@, 0);
            assert("device"@.len() != "presets"@.len());
            assert("setlists"@.len() != "presets"@.len());
            lemma_member_at(m@, "presets"@, 4);
            assert("format"@.len() != "settings"@.len());
            assert("version"@.len() != "settings"@.len());
            assert("device"@.len() != "settings"@.len());
            lemma_keys_differ("setlists"@, "settings"@, 3);
            assert("presets"@.len() != "settings"@.len());
            lemma_member_at(m@, "settings"@, 5);
            assert("format"@.len() != "irs"@.len());
            assert("version"@.len() != "irs"@.len());
            assert("device"@.len() != "irs"@.len());
            assert("setlists"@.len() != "irs"@.len());
            assert("presets"@.len() != "irs"@.len());
            assert("settings"@.len() != "irs"@.len());
            lemma_member_at(m@, "irs"@, 6);
            assert("format"@.len() != "favorites"@.len());
            assert("version"@.len() != "favorites"@.len());
            assert("device"@.len() != "favorites"@.len());
            assert("setlists"@.len() != "favorites"@.len());
            assert("presets"@.len() != "favorites"@.len());
            assert("settings"@.len() != "favorites"@.len());
            assert("irs"@.len() != "favorites"@.len());
            lemma_member_absent(m@, "favorites"@);
            assert("format"@.len() != "user_defaults"@.len());
            assert("version"@.len() != "user_defaults"@.len());
            assert("device"@.len() != "user_defaults"@.len());
            assert("setlists"@.len() != "user_defaults"@.len());
            assert("presets"@.len() != "user_defaults"@.len());
            assert("settings"@.len() != "user_defaults"@.len());
            assert("irs"@.len() != "user_defaults"@.len());
            lemma_member_absent(m@, "user_defaults"@);
            } else {
            assert(member_keys(m@) =~= seq!["format"@, "version"@, "device"@, "setlists"@, "presets"@, "settings"@, "irs"@, "favorites"@, "user_defaults"@]);
            assert(m@[0].0@ == "format"@);
            assert(m@[1].0@ == "version"@);
            assert(m@[2].0@ == "device"@);
            assert(m@[3].0@ == "setlists"@);
            assert(m@[4].0@ == "presets"@);
            assert(m@[5].0@ == "settings"@);
            assert(m@[6].0@ == "irs"@);
            assert(m@[7].0@ == "favorites"@);
            assert(m@[8].0@ == "user_defaults"@);
            lemma_member_at(m@, "format"@, 0);
            assert("format"@.len() != "version"@.len());
            lemma_member_at(m@, "version"@, 1);
            lemma_keys_differ("format"@, "device"@, 0);
            assert("version"@.len() != "device"@.len());
            lemma_member_at(m@, "device"@, 2);
            assert("format"@.len() != "setlists"@.len());
            assert("version"@.len() != "setlists"@.len());
            assert("device"@.len() != "setlists"@.len());
            lemma_member_at(m@, "setlists"@, 3);
            assert("format"@.len() != "presets"@.len());
            lemma_keys_differ("version"@, "presets"@, 0);
            assert("device"@.len() != "presets"@.len());
            assert("setlists"@.len() != "presets"@.len());
            lemma_member_at(m@, "presets"@, 4);
            assert("format"@.len() != "settings"@.len());
            assert("version"@.len() != "settings"@.len());
            assert("device"@.len() != "settings"@.len());
            lemma_keys_differ("setlists"@, "settings"@, 3);
            assert("presets"@.len() != "settings"@.len());
            lemma_member_at(m@, "settings"@, 5);
            assert("format"@.len() != "irs"@.len());
            assert("version"@.len() != "irs"@.len());
            assert("device"@.len() != "irs"@.len());
            assert("setlists"@.len() != "irs"@.len());
            assert("presets"@.len() != "irs"@.len());
            assert("settings"@.len() != "irs"@.len());
            lemma_member_at(m@, "irs"@, 6);
            assert("format"@.len() != "favorites"@.len());
            assert("version"@.len() != "favorites"@.len());
            assert("device"@.len() != "favorites"@.len());
            assert("setlists"@.len() != "favorites"@.len());
            assert("presets"@.len() != "favorites"@.len());
            assert("settings"@.len() != "favorites"@.len());
            assert("irs"@.len() != "favorites"@.len());
            lemma_member_at(m@, "favorites"@, 7);
            assert("format"@.len() != "user_defaults"@.len());
            assert("version"@.len() != "user_defaults"@.len());
            assert("device"@.len() != "user_defaults"@.len());
            assert("setlists"@.len() != "user_defaults"@.len());
            assert("presets"@.len() != "user_defaults"@.len());
            assert("settings"@.len() != "user_defaults"@.len());
            assert("irs"@.len() != "user_defaults"@.len());
            assert("favorites"@.len() != "user_defaults"@.len());
            lemma_member_at(m@, "user_defaults"@, 8);
            }
            let c = contents_of(*self);
            assert(c.settings.len() == 0 ==> c.settings =~= Seq::<(i64, SettingValue)>::empty());
            assert(c.irs.len() == 0 ==> c.irs =~= Seq::<IrText>::empty());
            assert(c.favorites.len() == 0 ==> c.favorites =~= Seq::<FavoriteText>::empty());
            assert(c.user_defaults.len() == 0 ==> c.user_defaults =~= Seq::<UserDefaultText>::empty());
        }
        root
    }
}

} // verus!
