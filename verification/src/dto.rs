//! The shapes the graphical front end is handed, as plain data, and the projections onto them
//! that carry no device types. Command names arrive in either case and are matched in snake case.

use vstd::prelude::*;
use crate::text::{chars_of, is_upper, owned, push_char, push_str, str_is};
use crate::json::{lookup, JsonValue};
use crate::import::{DataStatus, ImportSummary};

verus! {

/// One cell of a DSP's routing grid.
pub struct GridCellDto {
    /// Which DSP this cell belongs to.
    pub dsp: usize,
    /// Wire slot — global across DSPs, and the drop-target address.
    pub slot: i64,
    /// Row within this DSP: 0 = path A, 1 = path B.
    pub row: u8,
    pub column: i64,
    pub occupied: bool,
}

/// One picker category: its id, its name and the colour HX Edit paints it (`"#rrggbb"`).
pub struct CategoryDto {
    pub id: i64,
    pub name: String,
    pub color: Option<String>,
}

/// One entry of a preset listing.
pub struct PresetListItem {
    pub index: i64,
    pub name: String,
    /// Which setlist the entry belongs to.
    pub bank: i64,
    /// The setlist's name where the export file recorded one.
    pub setlist: Option<String>,
    /// How the pedal's own screen writes this slot (`09A`), where that is known.
    pub label: Option<String>,
}

/// One split-node type the front end offers.
pub struct SplitTypeDto {
    /// `Helix.sym` index to pass to `set_split_type`.
    pub index: i64,
    pub symbolic_id: String,
    pub label: String,
}

/// Whether the reference data has been imported — drives the first-run screen.
pub struct DataStatusDto {
    pub present: bool,
    /// Which device families are imported, by label.
    pub families: Vec<String>,
    /// Where the tool looks.
    pub dir: String,
    /// How many reference files are cached there.
    pub files: i64,
}

/// The outcome of a first-run import.
pub struct ImportResultDto {
    pub family: String,
    pub copied: i64,
    pub dest: String,
    /// Essential files the source did not contain.
    pub missing: Vec<String>,
}

/// One device seen on the bus, with how far its support goes.
pub struct DetectedDeviceDto {
    pub name: String,
    pub caveat: Option<String>,
}

/// An IR as a file, for the front end to save itself.
pub struct IrFileDto {
    pub name: String,
    /// The 32-bit float, 48 kHz mono WAV, base64.
    pub wav_base64: String,
}

/// An export file handed back instead of written.
pub struct BackupFileDto {
    /// Presets in the file.
    pub count: i64,
    /// The file's text.
    pub json: String,
}

/// One user IR slot, as the IR panel renders it.
pub struct IrSlotDto {
    /// Zero-based slot index.
    pub index: i64,
    /// The stored name, empty for an unused slot.
    pub name: String,
    /// What to print: the name, or a stand-in for the nameless and the empty.
    pub display_name: String,
    /// Whether the slot holds an IR.
    pub used: bool,
    /// Samples stored here, `0` for an empty slot.
    pub samples: i64,
    pub checksum: Option<u32>,
    pub md5: Option<String>,
}

/// Owned copies of the labels `v`.
fn owned_all(v: &Vec<&'static str>) -> (out: Vec<String>)
    ensures
        out@.len() == v@.len(),
        forall|i: int| 0 <= i < v@.len() ==> #[trigger] out@[i]@ == v@[i]@,
{
    let mut out: Vec<String> = Vec::new();
    let mut i: usize = 0;
    while i < v.len()
        invariant
            i <= v@.len(),
            out@.len() == i,
            forall|k: int| 0 <= k < i ==> #[trigger] out@[k]@ == v@[k]@,
        decreases v.len() - i,
    {
        out.push(owned(v[i]));
        i = i + 1;
    }
    out
}

impl DataStatusDto {
    /// The wire form of a data-directory status.
    pub fn from_status(s: DataStatus) -> (d: DataStatusDto)
        ensures
            d.present == s.present,
            d.families@.len() == s.families@.len(),
            forall|i: int| 0 <= i < s.families@.len() ==> #[trigger] d.families@[i]@ == s.families@[i]@,
            d.dir@ == s.dir@,
            d.files == s.files as i64,
    {
        DataStatusDto {
            present: s.present,
            families: owned_all(&s.families),
            dir: s.dir,
            files: s.files as i64,
        }
    }
}

impl ImportResultDto {
    /// The wire form of an import's summary.
    pub fn from_summary(s: ImportSummary) -> (d: ImportResultDto)
        ensures
            d.family@ == s.family@,
            d.copied == s.copied as i64,
            d.dest@ == s.dest@,
            d.missing@ == s.missing@,
    {
        ImportResultDto {
            family: owned(s.family),
            copied: s.copied as i64,
            dest: s.dest,
            missing: s.missing,
        }
    }
}

/// How a parameter's wire value is typed.
#[derive(Debug, Clone, Copy, PartialEq, Eq, Structural)]
pub enum ParamKind {
    Float,
    Int,
    Bool,
}

/// The `kind` tag the front end reads to interpret a parameter's number.
pub fn param_kind(k: ParamKind) -> (s: &'static str)
    ensures
        s@ == match k {
            ParamKind::Float => "float"@,
            ParamKind::Int => "int"@,
            ParamKind::Bool => "bool"@,
        },
{
    match k {
        ParamKind::Float => "float",
        ParamKind::Int => "int",
        ParamKind::Bool => "bool",
    }
}

/// `name` in snake case: every ASCII capital becomes `_` and its lower-case letter.
pub open spec fn snake_case(name: Seq<char>) -> Seq<char>
    decreases name.len(),
{
    if name.len() == 0 {
        name
    } else {
        snake_case(name.drop_last()) + if is_upper(name.last()) {
            seq!['_', ((name.last() as u32) + 32) as char]
        } else {
            seq![name.last()]
        }
    }
}

/// A command argument's camelCase name in the snake case the commands declare.
pub fn camel_to_snake(name: &str) -> (out: String)
    ensures
        out@ == snake_case(name@),
{
    let cs = chars_of(name);
    let mut out = String::new();
    let mut i: usize = 0;
    while i < cs.len()
        invariant
            i <= cs@.len(),
            cs@ == name@,
            out@ == snake_case(cs@.take(i as int)),
        decreases cs.len() - i,
    {
        proof {
            assert(cs@.take(i + 1).drop_last() =~= cs@.take(i as int));
        }
        let c = cs[i];
        if 'A' <= c && c <= 'Z' {
            push_char(&mut out, '_');
            let lower = ((c as u32) + 32) as u8 as char;
            proof {
                assert(lower == ((c as u32) + 32) as char);
            }
            push_char(&mut out, lower);
            proof {
                assert(out@ =~= snake_case(cs@.take(i + 1)));
            }
        } else {
            push_char(&mut out, c);
            proof {
                assert(out@ =~= snake_case(cs@.take(i + 1)));
            }
        }
        i = i + 1;
    }
    assert(cs@.take(cs@.len() as int) =~= cs@);
    out
}

/// Every command the dispatcher answers, one name per arm, in registry order.
pub open spec fn command_names_spec() -> Seq<Seq<char>> {
    seq![
        "data_status"@,
        "update_status"@,
        "update_check"@,
        "update_pref"@,
        "device_numbering"@,
        "settings_read"@,
        "settings_write"@,
        "ir_list"@,
        "ir_scan"@,
        "ir_export"@,
        "ir_upload"@,
        "ir_export_inline"@,
        "ir_upload_inline"@,
        "ir_delete"@,
        "ir_rename"@,
        "import_data"@,
        "detect"@,
        "is_connected"@,
        "connect"@,
        "disconnect"@,
        "read_preset"@,
        "undo"@,
        "redo"@,
        "history_jump"@,
        "preview_param"@,
        "preview_paired_param"@,
        "set_bypass"@,
        "set_param"@,
        "set_paired_param"@,
        "set_param_enum"@,
        "swap_model"@,
        "add_block"@,
        "add_block_at"@,
        "delete_block"@,
        "clear_preset"@,
        "reorder_block"@,
        "move_block_to_row"@,
        "move_before_split"@,
        "place_block"@,
        "insert_block"@,
        "set_node_pos"@,
        "set_split_type"@,
        "assign_bypass"@,
        "unassign_bypass"@,
        "set_switch_label"@,
        "set_switch_color"@,
        "set_switch_momentary"@,
        "revert_preset"@,
        "assign_param"@,
        "set_assign_travel"@,
        "set_snapshot"@,
        "goto_preset"@,
        "save_preset"@,
        "rename_preset"@,
        "rename_snapshot"@,
        "list_presets"@,
        "setlists"@,
        "cross_setlist_write_allowed"@,
        "export_setlists"@,
        "cancel_export"@,
        "backup_show"@,
        "restore_preset"@,
        "export_setlists_inline"@,
        "backup_show_inline"@,
        "restore_preset_inline"@,
        "backup_device"@,
        "backup_device_inline"@,
        "backup_info"@,
        "backup_info_inline"@,
        "restore_device"@,
        "restore_device_inline"@,
        "split_types"@,
        "categories"@,
        "models_in_category"@,
        "copy_preset"@,
        "paste_preset"@,
        "clipboard_preset"@,
        "copy_block"@,
        "paste_block"@,
        "clipboard_block"@
    ]
}

/// Every command the dispatcher answers.
pub fn command_names() -> (v: Vec<&'static str>)
    ensures
        v@.len() == command_names_spec().len(),
        forall|i: int| 0 <= i < v@.len() ==> #[trigger] v@[i]@ == command_names_spec()[i],
{
    let v: Vec<&'static str> = vec![
        "data_status",
        "update_status",
        "update_check",
        "update_pref",
        "device_numbering",
        "settings_read",
        "settings_write",
        "ir_list",
        "ir_scan",
        "ir_export",
        "ir_upload",
        "ir_export_inline",
        "ir_upload_inline",
        "ir_delete",
        "ir_rename",
        "import_data",
        "detect",
        "is_connected",
        "connect",
        "disconnect",
        "read_preset",
        "undo",
        "redo",
        "history_jump",
        "preview_param",
        "preview_paired_param",
        "set_bypass",
        "set_param",
        "set_paired_param",
        "set_param_enum",
        "swap_model",
        "add_block",
        "add_block_at",
        "delete_block",
        "clear_preset",
        "reorder_block",
        "move_block_to_row",
        "move_before_split",
        "place_block",
        "insert_block",
        "set_node_pos",
        "set_split_type",
        "assign_bypass",
        "unassign_bypass",
        "set_switch_label",
        "set_switch_color",
        "set_switch_momentary",
        "revert_preset",
        "assign_param",
        "set_assign_travel",
        "set_snapshot",
        "goto_preset",
        "save_preset",
        "rename_preset",
        "rename_snapshot",
        "list_presets",
        "setlists",
        "cross_setlist_write_allowed",
        "export_setlists",
        "cancel_export",
        "backup_show",
        "restore_preset",
        "export_setlists_inline",
        "backup_show_inline",
        "restore_preset_inline",
        "backup_device",
        "backup_device_inline",
        "backup_info",
        "backup_info_inline",
        "restore_device",
        "restore_device_inline",
        "split_types",
        "categories",
        "models_in_category",
        "copy_preset",
        "paste_preset",
        "clipboard_preset",
        "copy_block",
        "paste_block",
        "clipboard_block"
    ];
    proof {
        assert(v@.len() == 80);
        assert forall|i: int| 0 <= i < v@.len() implies #[trigger] v@[i]@ == command_names_spec()[i] by {
        }
    }
    v
}

/// A command argument by the name the front end uses (camelCase), falling back to the snake
/// case the commands declare when that differs.
pub open spec fn arg_spec(args: JsonValue, name: Seq<char>) -> Option<JsonValue> {
    match lookup(args, name) {
        Some(v) => Some(v),
        None => if snake_case(name) != name { lookup(args, snake_case(name)) } else { None },
    }
}

/// The argument `name` of a command's JSON arguments (exec form of [`arg_spec`]).
pub fn arg_value<'a>(args: &'a JsonValue, name: &str) -> (r: Option<&'a JsonValue>)
    ensures
        r is None <==> arg_spec(*args, name@) is None,
        r matches Some(x) ==> arg_spec(*args, name@) == Some(*x),
{
    match args.lookup(name) {
        Some(v) => Some(v),
        None => {
            let snake = camel_to_snake(name);
            if str_is(snake.as_str(), name) {
                None
            } else {
                args.lookup(snake.as_str())
            }
        },
    }
}

/// The error for a required argument that is not there.
pub open spec fn missing_arg_message(name: Seq<char>) -> Seq<char> {
    "missing argument `"@ + name + "`"@
}

/// A required argument: missing is an error naming it.
pub fn required_arg<'a>(args: &'a JsonValue, name: &str) -> (r: Result<&'a JsonValue, String>)
    ensures
        arg_spec(*args, name@) matches Some(v) ==> r == Ok::<&JsonValue, String>(&v),
        arg_spec(*args, name@) is None ==> (r matches Err(m) && m@ == missing_arg_message(name@)),
{
    match arg_value(args, name) {
        Some(v) => Ok(v),
        None => {
            let mut m = owned("missing argument `");
            push_str(&mut m, name);
            push_str(&mut m, "`");
            Err(m)
        },
    }
}

/// An optional argument: absent or `null` is `None`.
pub fn optional_arg<'a>(args: &'a JsonValue, name: &str) -> (r: Option<&'a JsonValue>)
    ensures
        match arg_spec(*args, name@) {
            Some(v) => if v is Null { r is None } else { r == Some(&v) },
            None => r is None,
        },
{
    match arg_value(args, name) {
        Some(v) => match v {
            JsonValue::Null => None,
            _ => Some(v),
        },
        None => None,
    }
}

} // verus!
