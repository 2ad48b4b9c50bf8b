//! Command routing: from a command's name and its JSON arguments to the arguments it reads.
//!
//! Each command names its arguments in a fixed order, each required or optional. Routing looks
//! every one of them up (camelCase first, then snake_case) and stops at the first required one
//! that is missing; decoding each value into its type is the command's own business.

use vstd::prelude::*;
use crate::text::{owned, push_str, str_is};
use crate::json::JsonValue;
use crate::dto::{arg_spec, arg_value, command_names_spec, missing_arg_message};

verus! {

/// The arguments of each command the dispatcher answers, in the order it reads them, each with
/// whether it is required; `None` for a name no command has.
pub open spec fn command_args(command: Seq<char>) -> Option<Seq<(&'static str, bool)>> {
    if command == "data_status"@ {
        Some(Seq::empty())
    } else if command == "update_status"@ {
        Some(Seq::empty())
    } else if command == "update_check"@ {
        Some(seq![("force", false)])
    } else if command == "update_pref"@ {
        Some(seq![("enabled", true)])
    } else if command == "device_numbering"@ {
        Some(Seq::empty())
    } else if command == "settings_read"@ {
        Some(seq![("all", true)])
    } else if command == "settings_write"@ {
        Some(seq![("id", true), ("value", true)])
    } else if command == "ir_list"@ {
        Some(Seq::empty())
    } else if command == "ir_scan"@ {
        Some(Seq::empty())
    } else if command == "ir_export"@ {
        Some(seq![("slot", true), ("path", true)])
    } else if command == "ir_upload"@ {
        Some(seq![("slot", true), ("path", true), ("name", false), ("overwrite", true), ("force", true)])
    } else if command == "ir_export_inline"@ {
        Some(seq![("slot", true)])
    } else if command == "ir_upload_inline"@ {
        Some(seq![("slot", true), ("wavBase64", true), ("name", true), ("overwrite", true), ("force", true)])
    } else if command == "ir_delete"@ {
        Some(seq![("slot", true)])
    } else if command == "ir_rename"@ {
        Some(seq![("slot", true), ("name", true)])
    } else if command == "import_data"@ {
        Some(seq![("source", true)])
    } else if command == "detect"@ {
        Some(Seq::empty())
    } else if command == "is_connected"@ {
        Some(Seq::empty())
    } else if command == "connect"@ {
        Some(Seq::empty())
    } else if command == "disconnect"@ {
        Some(Seq::empty())
    } else if command == "read_preset"@ {
        Some(Seq::empty())
    } else if command == "undo"@ {
        Some(Seq::empty())
    } else if command == "redo"@ {
        Some(Seq::empty())
    } else if command == "history_jump"@ {
        Some(seq![("index", true)])
    } else if command == "preview_param"@ {
        Some(seq![("slot", true), ("paramIndex", true), ("value", true)])
    } else if command == "preview_paired_param"@ {
        Some(seq![("slot", true), ("paramIndex", true), ("value", true)])
    } else if command == "set_bypass"@ {
        Some(seq![("slot", true), ("bypassed", true)])
    } else if command == "set_param"@ {
        Some(seq![("slot", true), ("paramIndex", true), ("value", true)])
    } else if command == "set_paired_param"@ {
        Some(seq![("slot", true), ("paramIndex", true), ("value", true)])
    } else if command == "set_param_enum"@ {
        Some(seq![("slot", true), ("paired", true), ("paramIndex", true), ("value", true)])
    } else if command == "swap_model"@ {
        Some(seq![("slot", true), ("modelIndex", true), ("pairedIndex", true)])
    } else if command == "add_block"@ {
        Some(seq![("modelIndex", true), ("pairedIndex", true)])
    } else if command == "add_block_at"@ {
        Some(seq![("slot", true), ("modelIndex", true), ("pairedIndex", true)])
    } else if command == "delete_block"@ {
        Some(seq![("slot", true)])
    } else if command == "clear_preset"@ {
        Some(Seq::empty())
    } else if command == "reorder_block"@ {
        Some(seq![("srcSlot", true), ("gap", true)])
    } else if command == "move_block_to_row"@ {
        Some(seq![("srcSlot", true), ("parallel", true), ("pos", true)])
    } else if command == "move_before_split"@ {
        Some(seq![("srcSlot", true)])
    } else if command == "place_block"@ {
        Some(seq![("srcSlot", true), ("dstSlot", true)])
    } else if command == "insert_block"@ {
        Some(seq![("srcSlot", true), ("dstSlot", true), ("before", true)])
    } else if command == "set_node_pos"@ {
        Some(seq![("node", true), ("pos", true), ("dsp", true)])
    } else if command == "set_split_type"@ {
        Some(seq![("splitSlot", true), ("modelIndex", true)])
    } else if command == "assign_bypass"@ {
        Some(seq![("slot", true), ("switch", true)])
    } else if command == "unassign_bypass"@ {
        Some(seq![("slot", true), ("switch", true)])
    } else if command == "set_switch_label"@ {
        Some(seq![("switch", true), ("label", false)])
    } else if command == "set_switch_color"@ {
        Some(seq![("switch", true), ("color", false)])
    } else if command == "set_switch_momentary"@ {
        Some(seq![("switch", true), ("momentary", true)])
    } else if command == "revert_preset"@ {
        Some(Seq::empty())
    } else if command == "assign_param"@ {
        Some(seq![("slot", true), ("paramIndex", true), ("source", true), ("paired", true)])
    } else if command == "set_assign_travel"@ {
        Some(seq![("slot", true), ("paramIndex", true), ("max", true), ("value", true), ("paired", true)])
    } else if command == "set_snapshot"@ {
        Some(seq![("index", true)])
    } else if command == "goto_preset"@ {
        Some(seq![("bank", true), ("preset", true)])
    } else if command == "save_preset"@ {
        Some(seq![("bank", true), ("slot", true), ("name", true)])
    } else if command == "rename_preset"@ {
        Some(seq![("bank", true), ("slot", true), ("name", true)])
    } else if command == "rename_snapshot"@ {
        Some(seq![("index", true), ("name", true)])
    } else if command == "list_presets"@ {
        Some(seq![("bank", false)])
    } else if command == "setlists"@ {
        Some(Seq::empty())
    } else if command == "cross_setlist_write_allowed"@ {
        Some(Seq::empty())
    } else if command == "export_setlists"@ {
        Some(seq![("path", true), ("banks", true)])
    } else if command == "cancel_export"@ {
        Some(Seq::empty())
    } else if command == "backup_show"@ {
        Some(seq![("path", true)])
    } else if command == "restore_preset"@ {
        Some(seq![("path", true), ("index", true), ("slot", true), ("bank", true)])
    } else if command == "export_setlists_inline"@ {
        Some(seq![("banks", true)])
    } else if command == "backup_show_inline"@ {
        Some(seq![("json", true)])
    } else if command == "restore_preset_inline"@ {
        Some(seq![("json", true), ("index", true), ("slot", true), ("bank", true)])
    } else if command == "backup_device"@ {
        Some(seq![("path", true), ("banks", true), ("irs", true), ("settings", true)])
    } else if command == "backup_device_inline"@ {
        Some(seq![("banks", true), ("irs", true), ("settings", true)])
    } else if command == "backup_info"@ {
        Some(seq![("path", true)])
    } else if command == "backup_info_inline"@ {
        Some(seq![("json", true)])
    } else if command == "restore_device"@ {
        Some(seq![("path", true), ("presets", true), ("irs", true), ("settings", true)])
    } else if command == "restore_device_inline"@ {
        Some(seq![("json", true), ("presets", true), ("irs", true), ("settings", true)])
    } else if command == "split_types"@ {
        Some(Seq::empty())
    } else if command == "categories"@ {
        Some(Seq::empty())
    } else if command == "models_in_category"@ {
        Some(seq![("category", true), ("variant", false)])
    } else if command == "copy_preset"@ {
        Some(Seq::empty())
    } else if command == "paste_preset"@ {
        Some(Seq::empty())
    } else if command == "clipboard_preset"@ {
        Some(Seq::empty())
    } else if command == "copy_block"@ {
        Some(seq![("slot", true)])
    } else if command == "paste_block"@ {
        Some(seq![("slot", true)])
    } else if command == "clipboard_block"@ {
        Some(Seq::empty())
    } else {
        None
    }
}

/// The argument list of `command` (exec form of [`command_args`]).
pub fn command_arg_list(command: &str) -> (r: Option<Vec<(&'static str, bool)>>)
    ensures
        r is None <==> command_args(command@) is None,
        r matches Some(v) ==> command_args(command@) == Some(v@),
{
    if str_is(command, "data_status") {
        return Some(Vec::new());
    }
    if str_is(command, "update_status") {
        return Some(Vec::new());
    }
    if str_is(command, "update_check") {
        return Some(vec![("force", false)]);
    }
    if str_is(command, "update_pref") {
        return Some(vec![("enabled", true)]);
    }
    if str_is(command, "device_numbering") {
        return Some(Vec::new());
    }
    if str_is(command, "settings_read") {
        return Some(vec![("all", true)]);
    }
    if str_is(command, "settings_write") {
        return Some(vec![("id", true), ("value", true)]);
    }
    if str_is(command, "ir_list") {
        return Some(Vec::new());
    }
    if str_is(command, "ir_scan") {
        return Some(Vec::new());
    }
    if str_is(command, "ir_export") {
        return Some(vec![("slot", true), ("path", true)]);
    }
    if str_is(command, "ir_upload") {
        return Some(vec![("slot", true), ("path", true), ("name", false), ("overwrite", true), ("force", true)]);
    }
    if str_is(command, "ir_export_inline") {
        return Some(vec![("slot", true)]);
    }
    if str_is(command, "ir_upload_inline") {
        return Some(vec![("slot", true), ("wavBase64", true), ("name", true), ("overwrite", true), ("force", true)]);
    }
    if str_is(command, "ir_delete") {
        return Some(vec![("slot", true)]);
    }
    if str_is(command, "ir_rename") {
        return Some(vec![("slot", true), ("name", true)]);
    }
    if str_is(command, "import_data") {
        return Some(vec![("source", true)]);
    }
    if str_is(command, "detect") {
        return Some(Vec::new());
    }
    if str_is(command, "is_connected") {
        return Some(Vec::new());
    }
    if str_is(command, "connect") {
        return Some(Vec::new());
    }
    if str_is(command, "disconnect") {
        return Some(Vec::new());
    }
    if str_is(command, "read_preset") {
        return Some(Vec::new());
    }
    if str_is(command, "undo") {
        return Some(Vec::new());
    }
    if str_is(command, "redo") {
        return Some(Vec::new());
    }
    if str_is(command, "history_jump") {
        return Some(vec![("index", true)]);
    }
    if str_is(command, "preview_param") {
        return Some(vec![("slot", true), ("paramIndex", true), ("value", true)]);
    }
    if str_is(command, "preview_paired_param") {
        return Some(vec![("slot", true), ("paramIndex", true), ("value", true)]);
    }
    if str_is(command, "set_bypass") {
        return Some(vec![("slot", true), ("bypassed", true)]);
    }
    if str_is(command, "set_param") {
        return Some(vec![("slot", true), ("paramIndex", true), ("value", true)]);
    }
    if str_is(command, "set_paired_param") {
        return Some(vec![("slot", true), ("paramIndex", true), ("value", true)]);
    }
    if str_is(command, "set_param_enum") {
        return Some(vec![("slot", true), ("paired", true), ("paramIndex", true), ("value", true)]);
    }
    if str_is(command, "swap_model") {
        return Some(vec![("slot", true), ("modelIndex", true), ("pairedIndex", true)]);
    }
    if str_is(command, "add_block") {
        return Some(vec![("modelIndex", true), ("pairedIndex", true)]);
    }
    if str_is(command, "add_block_at") {
        return Some(vec![("slot", true), ("modelIndex", true), ("pairedIndex", true)]);
    }
    if str_is(command, "delete_block") {
        return Some(vec![("slot", true)]);
    }
    if str_is(command, "clear_preset") {
        return Some(Vec::new());
    }
    if str_is(command, "reorder_block") {
        return Some(vec![("srcSlot", true), ("gap", true)]);
    }
    if str_is(command, "move_block_to_row") {
        return Some(vec![("srcSlot", true), ("parallel", true), ("pos", true)]);
    }
    if str_is(command, "move_before_split") {
        return Some(vec![("srcSlot", true)]);
    }
    if str_is(command, "place_block") {
        return Some(vec![("srcSlot", true), ("dstSlot", true)]);
    }
    if str_is(command, "insert_block") {
        return Some(vec![("srcSlot", true), ("dstSlot", true), ("before", true)]);
    }
    if str_is(command, "set_node_pos") {
        return Some(vec![("node", true), ("pos", true), ("dsp", true)]);
    }
    if str_is(command, "set_split_type") {
        return Some(vec![("splitSlot", true), ("modelIndex", true)]);
    }
    if str_is(command, "assign_bypass") {
        return Some(vec![("slot", true), ("switch", true)]);
    }
    if str_is(command, "unassign_bypass") {
        return Some(vec![("slot", true), ("switch", true)]);
    }
    if str_is(command, "set_switch_label") {
        return Some(vec![("switch", true), ("label", false)]);
    }
    if str_is(command, "set_switch_color") {
        return Some(vec![("switch", true), ("color", false)]);
    }
    if str_is(command, "set_switch_momentary") {
        return Some(vec![("switch", true), ("momentary", true)]);
    }
    if str_is(command, "revert_preset") {
        return Some(Vec::new());
    }
    if str_is(command, "assign_param") {
        return Some(vec![("slot", true), ("paramIndex", true), ("source", true), ("paired", true)]);
    }
    if str_is(command, "set_assign_travel") {
        return Some(vec![("slot", true), ("paramIndex", true), ("max", true), ("value", true), ("paired", true)]);
    }
    if str_is(command, "set_snapshot") {
        return Some(vec![("index", true)]);
    }
    if str_is(command, "goto_preset") {
        return Some(vec![("bank", true), ("preset", true)]);
    }
    if str_is(command, "save_preset") {
        return Some(vec![("bank", true), ("slot", true), ("name", true)]);
    }
    if str_is(command, "rename_preset") {
        return Some(vec![("bank", true), ("slot", true), ("name", true)]);
    }
    if str_is(command, "rename_snapshot") {
        return Some(vec![("index", true), ("name", true)]);
    }
    if str_is(command, "list_presets") {
        return Some(vec![("bank", false)]);
    }
    if str_is(command, "setlists") {
        return Some(Vec::new());
    }
    if str_is(command, "cross_setlist_write_allowed") {
        return Some(Vec::new());
    }
    if str_is(command, "export_setlists") {
        return Some(vec![("path", true), ("banks", true)]);
    }
    if str_is(command, "cancel_export") {
        return Some(Vec::new());
    }
    if str_is(command, "backup_show") {
        return Some(vec![("path", true)]);
    }
    if str_is(command, "restore_preset") {
        return Some(vec![("path", true), ("index", true), ("slot", true), ("bank", true)]);
    }
    if str_is(command, "export_setlists_inline") {
        return Some(vec![("banks", true)]);
    }
    if str_is(command, "backup_show_inline") {
        return Some(vec![("json", true)]);
    }
    if str_is(command, "restore_preset_inline") {
        return Some(vec![("json", true), ("index", true), ("slot", true), ("bank", true)]);
    }
    if str_is(command, "backup_device") {
        return Some(vec![("path", true), ("banks", true), ("irs", true), ("settings", true)]);
    }
    if str_is(command, "backup_device_inline") {
        return Some(vec![("banks", true), ("irs", true), ("settings", true)]);
    }
    if str_is(command, "backup_info") {
        return Some(vec![("path", true)]);
    }
    if str_is(command, "backup_info_inline") {
        return Some(vec![("json", true)]);
    }
    if str_is(command, "restore_device") {
        return Some(vec![("path", true), ("presets", true), ("irs", true), ("settings", true)]);
    }
    if str_is(command, "restore_device_inline") {
        return Some(vec![("json", true), ("presets", true), ("irs", true), ("settings", true)]);
    }
    if str_is(command, "split_types") {
        return Some(Vec::new());
    }
    if str_is(command, "categories") {
        return Some(Vec::new());
    }
    if str_is(command, "models_in_category") {
        return Some(vec![("category", true), ("variant", false)]);
    }
    if str_is(command, "copy_preset") {
        return Some(Vec::new());
    }
    if str_is(command, "paste_preset") {
        return Some(Vec::new());
    }
    if str_is(command, "clipboard_preset") {
        return Some(Vec::new());
    }
    if str_is(command, "copy_block") {
        return Some(vec![("slot", true)]);
    }
    if str_is(command, "paste_block") {
        return Some(vec![("slot", true)]);
    }
    if str_is(command, "clipboard_block") {
        return Some(Vec::new());
    }
    None
}

/// The values the first `n` arguments of `list` give in `args`: a required one that is missing
/// stops routing with its error; an optional one that is missing or `null` reads as `None`.
pub open spec fn route_prefix(args: JsonValue, list: Seq<(&'static str, bool)>, n: nat) -> Result<
    Seq<Option<JsonValue>>,
    Seq<char>,
>
    decreases n,
{
    if n == 0 {
        Ok(Seq::empty())
    } else {
        match route_prefix(args, list, (n - 1) as nat) {
            Err(m) => Err(m),
            Ok(done) => {
                let name = list[n - 1].0;
                let required = list[n - 1].1;
                match arg_spec(args, name@) {
                    None => if required {
                        Err(missing_arg_message(name@))
                    } else {
                        Ok(done.push(None))
                    },
                    Some(v) => if !required && v is Null {
                        Ok(done.push(None))
                    } else {
                        Ok(done.push(Some(v)))
                    },
                }
            },
        }
    }
}

/// The error for a name that no command has.
pub open spec fn unknown_command_message(command: Seq<char>) -> Seq<char> {
    "unknown command: "@ + command
}

/// What routing `command` with `args` gives: the error for an unknown name, else the values of
/// its arguments in order, or the error for the first required one that is missing.
pub open spec fn route_spec(command: Seq<char>, args: JsonValue) -> Result<Seq<Option<JsonValue>>, Seq<char>> {
    match command_args(command) {
        None => Err(unknown_command_message(command)),
        Some(list) => route_prefix(args, list, list.len()),
    }
}

/// `found` holds the values of `spec`, one for one.
pub open spec fn values_match(found: Seq<Option<&JsonValue>>, spec: Seq<Option<JsonValue>>) -> bool {
    &&& found.len() == spec.len()
    &&& forall|i: int|
        0 <= i < found.len() ==> match #[trigger] found[i] {
            None => spec[i] is None,
            Some(x) => spec[i] == Some(*x),
        }
}

/// Looks up each argument of `list` in `args`, in order (see [`route_prefix`]).
pub fn route_args<'a>(args: &'a JsonValue, list: &Vec<(&'static str, bool)>) -> (r: Result<
    Vec<Option<&'a JsonValue>>,
    String,
>)
    ensures
        match r {
            Ok(found) => route_prefix(*args, list@, list@.len()) matches Ok(s) && values_match(found@, s),
            Err(m) => route_prefix(*args, list@, list@.len()) == Err::<Seq<Option<JsonValue>>, Seq<char>>(m@),
        },
{
    let mut found: Vec<Option<&'a JsonValue>> = Vec::new();
    let mut i: usize = 0;
    while i < list.len()
        invariant
            i <= list@.len(),
            route_prefix(*args, list@, i as nat) matches Ok(s) && values_match(found@, s),
        decreases list@.len() - i,
    {
        let (name, required) = list[i];
        let ghost before = found@;
        match arg_value(args, name) {
            None => {
                if required {
                    let mut m = owned("missing argument `");
                    push_str(&mut m, name);
                    push_str(&mut m, "`");
                    proof {
                        lemma_route_stops(*args, list@, i as nat, list@.len());
                    }
                    return Err(m);
                }
                found.push(None);
            },
            Some(v) => {
                let null = match v {
                    JsonValue::Null => true,
                    _ => false,
                };
                if !required && null {
                    found.push(None);
                } else {
                    found.push(Some(v));
                }
            },
        }
        proof {
            let s = route_prefix(*args, list@, i as nat)->Ok_0;
            let t = route_prefix(*args, list@, (i + 1) as nat)->Ok_0;
            assert forall|k: int| 0 <= k < found@.len() implies match #[trigger] found@[k] {
                None => t[k] is None,
                Some(x) => t[k] == Some(*x),
            } by {
                if k < before.len() {
                    assert(found@[k] == before[k]);
                }
            }
        }
        i = i + 1;
    }
    Ok(found)
}

/// Once a prefix fails, every longer prefix fails the same way.
proof fn lemma_route_stops(args: JsonValue, list: Seq<(&'static str, bool)>, n: nat, m: nat)
    requires
        n < m,
        route_prefix(args, list, n) is Ok,
        n < list.len(),
        arg_spec(args, list[n as int].0@) is None,
        list[n as int].1,
    ensures
        route_prefix(args, list, m) == Err::<Seq<Option<JsonValue>>, Seq<char>>(
            missing_arg_message(list[n as int].0@),
        ),
    decreases m - n,
{
    if m > n + 1 {
        lemma_route_stops(args, list, n, (m - 1) as nat);
    }
}

/// Routes `command` with `args`: the name picks the command and its argument list, and each
/// argument is looked up in order (see [`route_spec`]).
pub fn route<'a>(command: &str, args: &'a JsonValue) -> (r: Result<Vec<Option<&'a JsonValue>>, String>)
    ensures
        match r {
            Ok(found) => route_spec(command@, *args) matches Ok(s) && values_match(found@, s),
            Err(m) => route_spec(command@, *args) == Err::<Seq<Option<JsonValue>>, Seq<char>>(m@),
        },
{
    match command_arg_list(command) {
        None => {
            let mut m = owned("unknown command: ");
            push_str(&mut m, command);
            Err(m)
        },
        Some(list) => route_args(args, &list),
    }
}

/// Every name the dispatcher lists routes to a command.
#[verifier::rlimit(60)]
pub proof fn every_name_routes()
    ensures
        forall|i: int|
            0 <= i < command_names_spec().len() ==> #[trigger] command_args(command_names_spec()[i]) is Some,
{
    let names = command_names_spec();
    assert(command_args(names[0]) is Some) by {}
    assert(command_args(names[1]) is Some) by {}
    assert(command_args(names[2]) is Some) by {}
    assert(command_args(names[3]) is Some) by {}
    assert(command_args(names[4]) is Some) by {}
    assert(command_args(names[5]) is Some) by {}
    assert(command_args(names[6]) is Some) by {}
    assert(command_args(names[7]) is Some) by {}
    assert(command_args(names[8]) is Some) by {}
    assert(command_args(names[9]) is Some) by {}
    assert(command_args(names[10]) is Some) by {}
    assert(command_args(names[11]) is Some) by {}
    assert(command_args(names[12]) is Some) by {}
    assert(command_args(names[13]) is Some) by {}
    assert(command_args(names[14]) is Some) by {}
    assert(command_args(names[15]) is Some) by {}
    assert(command_args(names[16]) is Some) by {}
    assert(command_args(names[17]) is Some) by {}
    assert(command_args(names[18]) is Some) by {}
    assert(command_args(names[19]) is Some) by {}
    assert(command_args(names[20]) is Some) by {}
    assert(command_args(names[21]) is Some) by {}
    assert(command_args(names[22]) is Some) by {}
    assert(command_args(names[23]) is Some) by {}
    assert(command_args(names[24]) is Some) by {}
    assert(command_args(names[25]) is Some) by {}
    assert(command_args(names[26]) is Some) by {}
    assert(command_args(names[27]) is Some) by {}
    assert(command_args(names[28]) is Some) by {}
    assert(command_args(names[29]) is Some) by {}
    assert(command_args(names[30]) is Some) by {}
    assert(command_args(names[31]) is Some) by {}
    assert(command_args(names[32]) is Some) by {}
    assert(command_args(names[33]) is Some) by {}
    assert(command_args(names[34]) is Some) by {}
    assert(command_args(names[35]) is Some) by {}
    assert(command_args(names[36]) is Some) by {}
    assert(command_args(names[37]) is Some) by {}
    assert(command_args(names[38]) is Some) by {}
    assert(command_args(names[39]) is Some) by {}
    assert(command_args(names[40]) is Some) by {}
    assert(command_args(names[41]) is Some) by {}
    assert(command_args(names[42]) is Some) by {}
    assert(command_args(names[43]) is Some) by {}
    assert(command_args(names[44]) is Some) by {}
    assert(command_args(names[45]) is Some) by {}
    assert(command_args(names[46]) is Some) by {}
    assert(command_args(names[47]) is Some) by {}
    assert(command_args(names[48]) is Some) by {}
    assert(command_args(names[49]) is Some) by {}
    assert(command_args(names[50]) is Some) by {}
    assert(command_args(names[51]) is Some) by {}
    assert(command_args(names[52]) is Some) by {}
    assert(command_args(names[53]) is Some) by {}
    assert(command_args(names[54]) is Some) by {}
    assert(command_args(names[55]) is Some) by {}
    assert(command_args(names[56]) is Some) by {}
    assert(command_args(names[57]) is Some) by {}
    assert(command_args(names[58]) is Some) by {}
    assert(command_args(names[59]) is Some) by {}
    assert(command_args(names[60]) is Some) by {}
    assert(command_args(names[61]) is Some) by {}
    assert(command_args(names[62]) is Some) by {}
    assert(command_args(names[63]) is Some) by {}
    assert(command_args(names[64]) is Some) by {}
    assert(command_args(names[65]) is Some) by {}
    assert(command_args(names[66]) is Some) by {}
    assert(command_args(names[67]) is Some) by {}
    assert(command_args(names[68]) is Some) by {}
    assert(command_args(names[69]) is Some) by {}
    assert(command_args(names[70]) is Some) by {}
    assert(command_args(names[71]) is Some) by {}
    assert(command_args(names[72]) is Some) by {}
    assert(command_args(names[73]) is Some) by {}
    assert(command_args(names[74]) is Some) by {}
    assert(command_args(names[75]) is Some) by {}
    assert(command_args(names[76]) is Some) by {}
    assert(command_args(names[77]) is Some) by {}
    assert(command_args(names[78]) is Some) by {}
    assert(command_args(names[79]) is Some) by {}
}

/// A name the dispatcher does not list is answered with the unknown-command error, whatever the
/// arguments.
#[verifier::rlimit(60)]
pub proof fn unlisted_names_are_unknown(command: Seq<char>, args: JsonValue)
    requires
        !command_names_spec().contains(command),
    ensures
        route_spec(command, args) == Err::<Seq<Option<JsonValue>>, Seq<char>>(unknown_command_message(command)),
{
    let names = command_names_spec();
    if command == "data_status"@ {
        assert(names[0] == command);
    } else if command == "update_status"@ {
        assert(names[1] == command);
    } else if command == "update_check"@ {
        assert(names[2] == command);
    } else if command == "update_pref"@ {
        assert(names[3] == command);
    } else if command == "device_numbering"@ {
        assert(names[4] == command);
    } else if command == "settings_read"@ {
        assert(names[5] == command);
    } else if command == "settings_write"@ {
        assert(names[6] == command);
    } else if command == "ir_list"@ {
        assert(names[7] == command);
    } else if command == "ir_scan"@ {
        assert(names[8] == command);
    } else if command == "ir_export"@ {
        assert(names[9] == command);
    } else if command == "ir_upload"@ {
        assert(names[10] == command);
    } else if command == "ir_export_inline"@ {
        assert(names[11] == command);
    } else if command == "ir_upload_inline"@ {
        assert(names[12] == command);
    } else if command == "ir_delete"@ {
        assert(names[13] == command);
    } else if command == "ir_rename"@ {
        assert(names[14] == command);
    } else if command == "import_data"@ {
        assert(names[15] == command);
    } else if command == "detect"@ {
        assert(names[16] == command);
    } else if command == "is_connected"@ {
        assert(names[17] == command);
    } else if command == "connect"@ {
        assert(names[18] == command);
    } else if command == "disconnect"@ {
        assert(names[19] == command);
    } else if command == "read_preset"@ {
        assert(names[20] == command);
    } else if command == "undo"@ {
        assert(names[21] == command);
    } else if command == "redo"@ {
        assert(names[22] == command);
    } else if command == "history_jump"@ {
        assert(names[23] == command);
    } else if command == "preview_param"@ {
        assert(names[24] == command);
    } else if command == "preview_paired_param"@ {
        assert(names[25] == command);
    } else if command == "set_bypass"@ {
        assert(names[26] == command);
    } else if command == "set_param"@ {
        assert(names[27] == command);
    } else if command == "set_paired_param"@ {
        assert(names[28] == command);
    } else if command == "set_param_enum"@ {
        assert(names[29] == command);
    } else if command == "swap_model"@ {
        assert(names[30] == command);
    } else if command == "add_block"@ {
        assert(names[31] == command);
    } else if command == "add_block_at"@ {
        assert(names[32] == command);
    } else if command == "delete_block"@ {
        assert(names[33] == command);
    } else if command == "clear_preset"@ {
        assert(names[34] == command);
    } else if command == "reorder_block"@ {
        assert(names[35] == command);
    } else if command == "move_block_to_row"@ {
        assert(names[36] == command);
    } else if command == "move_before_split"@ {
        assert(names[37] == command);
    } else if command == "place_block"@ {
        assert(names[38] == command);
    } else if command == "insert_block"@ {
        assert(names[39] == command);
    } else if command == "set_node_pos"@ {
        assert(names[40] == command);
    } else if command == "set_split_type"@ {
        assert(names[41] == command);
    } else if command == "assign_bypass"@ {
        assert(names[42] == command);
    } else if command == "unassign_bypass"@ {
        assert(names[43] == command);
    } else if command == "set_switch_label"@ {
        assert(names[44] == command);
    } else if command == "set_switch_color"@ {
        assert(names[45] == command);
    } else if command == "set_switch_momentary"@ {
        assert(names[46] == command);
    } else if command == "revert_preset"@ {
        assert(names[47] == command);
    } else if command == "assign_param"@ {
        assert(names[48] == command);
    } else if command == "set_assign_travel"@ {
        assert(names[49] == command);
    } else if command == "set_snapshot"@ {
        assert(names[50] == command);
    } else if command == "goto_preset"@ {
        assert(names[51] == command);
    } else if command == "save_preset"@ {
        assert(names[52] == command);
    } else if command == "rename_preset"@ {
        assert(names[53] == command);
    } else if command == "rename_snapshot"@ {
        assert(names[54] == command);
    } else if command == "list_presets"@ {
        assert(names[55] == command);
    } else if command == "setlists"@ {
        assert(names[56] == command);
    } else if command == "cross_setlist_write_allowed"@ {
        assert(names[57] == command);
    } else if command == "export_setlists"@ {
        assert(names[58] == command);
    } else if command == "cancel_export"@ {
        assert(names[59] == command);
    } else if command == "backup_show"@ {
        assert(names[60] == command);
    } else if command == "restore_preset"@ {
        assert(names[61] == command);
    } else if command == "export_setlists_inline"@ {
        assert(names[62] == command);
    } else if command == "backup_show_inline"@ {
        assert(names[63] == command);
    } else if command == "restore_preset_inline"@ {
        assert(names[64] == command);
    } else if command == "backup_device"@ {
        assert(names[65] == command);
    } else if command == "backup_device_inline"@ {
        assert(names[66] == command);
    } else if command == "backup_info"@ {
        assert(names[67] == command);
    } else if command == "backup_info_inline"@ {
        assert(names[68] == command);
    } else if command == "restore_device"@ {
        assert(names[69] == command);
    } else if command == "restore_device_inline"@ {
        assert(names[70] == command);
    } else if command == "split_types"@ {
        assert(names[71] == command);
    } else if command == "categories"@ {
        assert(names[72] == command);
    } else if command == "models_in_category"@ {
        assert(names[73] == command);
    } else if command == "copy_preset"@ {
        assert(names[74] == command);
    } else if command == "paste_preset"@ {
        assert(names[75] == command);
    } else if command == "clipboard_preset"@ {
        assert(names[76] == command);
    } else if command == "copy_block"@ {
        assert(names[77] == command);
    } else if command == "paste_block"@ {
        assert(names[78] == command);
    } else if command == "clipboard_block"@ {
        assert(names[79] == command);
    }
}

/// The arguments the dispatcher reads for `update_check`.
proof fn lemma_args_update_check()
    ensures
        command_args("update_check"@) == Some(seq![("force", false)]),
{
    reveal_strlit("update_check");
    reveal_strlit("data_status");
    assert("update_check"@.len() != "data_status"@.len());
    reveal_strlit("update_status");
    assert("update_check"@.len() != "update_status"@.len());
}

/// The arguments the dispatcher reads for `ir_upload`.
proof fn lemma_args_ir_upload()
    ensures
        command_args("ir_upload"@) == Some(seq![("slot", true), ("path", true), ("name", false), ("overwrite", true), ("force", true)]),
{
    reveal_strlit("ir_upload");
    reveal_strlit("data_status");
    assert("ir_upload"@.len() != "data_status"@.len());
    reveal_strlit("update_status");
    assert("ir_upload"@.len() != "update_status"@.len());
    reveal_strlit("update_check");
    assert("ir_upload"@.len() != "update_check"@.len());
    reveal_strlit("update_pref");
    assert("ir_upload"@.len() != "update_pref"@.len());
    reveal_strlit("device_numbering");
    assert("ir_upload"@.len() != "device_numbering"@.len());
    reveal_strlit("settings_read");
    assert("ir_upload"@.len() != "settings_read"@.len());
    reveal_strlit("settings_write");
    assert("ir_upload"@.len() != "settings_write"@.len());
    reveal_strlit("ir_list");
    assert("ir_upload"@.len() != "ir_list"@.len());
    reveal_strlit("ir_scan");
    assert("ir_upload"@.len() != "ir_scan"@.len());
    reveal_strlit("ir_export");
    assert("ir_upload"@[3] != "ir_export"@[3]);
}

/// The arguments the dispatcher reads for `set_switch_label`.
proof fn lemma_args_set_switch_label()
    ensures
        command_args("set_switch_label"@) == Some(seq![("switch", true), ("label", false)]),
{
    reveal_strlit("set_switch_label");
    reveal_strlit("data_status");
    assert("set_switch_label"@.len() != "data_status"@.len());
    reveal_strlit("update_status");
    assert("set_switch_label"@.len() != "update_status"@.len());
    reveal_strlit("update_check");
    assert("set_switch_label"@.len() != "update_check"@.len());
    reveal_strlit("update_pref");
    assert("set_switch_label"@.len() != "update_pref"@.len());
    reveal_strlit("device_numbering");
    assert("set_switch_label"@[0] != "device_numbering"@[0]);
    reveal_strlit("settings_read");
    assert("set_switch_label"@.len() != "settings_read"@.len());
    reveal_strlit("settings_write");
    assert("set_switch_label"@.len() != "settings_write"@.len());
    reveal_strlit("ir_list");
    assert("set_switch_label"@.len() != "ir_list"@.len());
    reveal_strlit("ir_scan");
    assert("set_switch_label"@.len() != "ir_scan"@.len());
    reveal_strlit("ir_export");
    assert("set_switch_label"@.len() != "ir_export"@.len());
    reveal_strlit("ir_upload");
    assert("set_switch_label"@.len() != "ir_upload"@.len());
    reveal_strlit("ir_export_inline");
    assert("set_switch_label"@[0] != "ir_export_inline"@[0]);
    reveal_strlit("ir_upload_inline");
    assert("set_switch_label"@[0] != "ir_upload_inline"@[0]);
    reveal_strlit("ir_delete");
    assert("set_switch_label"@.len() != "ir_delete"@.len());
    reveal_strlit("ir_rename");
    assert("set_switch_label"@.len() != "ir_rename"@.len());
    reveal_strlit("import_data");
    assert("set_switch_label"@.len() != "import_data"@.len());
    reveal_strlit("detect");
    assert("set_switch_label"@.len() != "detect"@.len());
    reveal_strlit("is_connected");
    assert("set_switch_label"@.len() != "is_connected"@.len());
    reveal_strlit("connect");
    assert("set_switch_label"@.len() != "connect"@.len());
    reveal_strlit("disconnect");
    assert("set_switch_label"@.len() != "disconnect"@.len());
    reveal_strlit("read_preset");
    assert("set_switch_label"@.len() != "read_preset"@.len());
    reveal_strlit("undo");
    assert("set_switch_label"@.len() != "undo"@.len());
    reveal_strlit("redo");
    assert("set_switch_label"@.len() != "redo"@.len());
    reveal_strlit("history_jump");
    assert("set_switch_label"@.len() != "history_jump"@.len());
    reveal_strlit("preview_param");
    assert("set_switch_label"@.len() != "preview_param"@.len());
    reveal_strlit("preview_paired_param");
    assert("set_switch_label"@.len() != "preview_paired_param"@.len());
    reveal_strlit("set_bypass");
    assert("set_switch_label"@.len() != "set_bypass"@.len());
    reveal_strlit("set_param");
    assert("set_switch_label"@.len() != "set_param"@.len());
    reveal_strlit("set_paired_param");
    assert("set_switch_label"@[4] != "set_paired_param"@[4]);
    reveal_strlit("set_param_enum");
    assert("set_switch_label"@.len() != "set_param_enum"@.len());
    reveal_strlit("swap_model");
    assert("set_switch_label"@.len() != "swap_model"@.len());
    reveal_strlit("add_block");
    assert("set_switch_label"@.len() != "add_block"@.len());
    reveal_strlit("add_block_at");
    assert("set_switch_label"@.len() != "add_block_at"@.len());
    reveal_strlit("delete_block");
    assert("set_switch_label"@.len() != "delete_block"@.len());
    reveal_strlit("clear_preset");
    assert("set_switch_label"@.len() != "clear_preset"@.len());
    reveal_strlit("reorder_block");
    assert("set_switch_label"@.len() != "reorder_block"@.len());
    reveal_strlit("move_block_to_row");
    assert("set_switch_label"@.len() != "move_block_to_row"@.len());
    reveal_strlit("move_before_split");
    assert("set_switch_label"@.len() != "move_before_split"@.len());
    reveal_strlit("place_block");
    assert("set_switch_label"@.len() != "place_block"@.len());
    reveal_strlit("insert_block");
    assert("set_switch_label"@.len() != "insert_block"@.len());
    reveal_strlit("set_node_pos");
    assert("set_switch_label"@.len() != "set_node_pos"@.len());
    reveal_strlit("set_split_type");
    assert("set_switch_label"@.len() != "set_split_type"@.len());
    reveal_strlit("assign_bypass");
    assert("set_switch_label"@.len() != "assign_bypass"@.len());
    reveal_strlit("unassign_bypass");
    assert("set_switch_label"@.len() != "unassign_bypass"@.len());
}

/// The arguments the dispatcher reads for `set_switch_color`.
proof fn lemma_args_set_switch_color()
    ensures
        command_args("set_switch_color"@) == Some(seq![("switch", true), ("color", false)]),
{
    reveal_strlit("set_switch_color");
    reveal_strlit("data_status");
    assert("set_switch_color"@.len() != "data_status"@.len());
    reveal_strlit("update_status");
    assert("set_switch_color"@.len() != "update_status"@.len());
    reveal_strlit("update_check");
    assert("set_switch_color"@.len() != "update_check"@.len());
    reveal_strlit("update_pref");
    assert("set_switch_color"@.len() != "update_pref"@.len());
    reveal_strlit("device_numbering");
    assert("set_switch_color"@[0] != "device_numbering"@[0]);
    reveal_strlit("settings_read");
    assert("set_switch_color"@.len() != "settings_read"@.len());
    reveal_strlit("settings_write");
    assert("set_switch_color"@.len() != "settings_write"@.len());
    reveal_strlit("ir_list");
    assert("set_switch_color"@.len() != "ir_list"@.len());
    reveal_strlit("ir_scan");
    assert("set_switch_color"@.len() != "ir_scan"@.len());
    reveal_strlit("ir_export");
    assert("set_switch_color"@.len() != "ir_export"@.len());
    reveal_strlit("ir_upload");
    assert("set_switch_color"@.len() != "ir_upload"@.len());
    reveal_strlit("ir_export_inline");
    assert("set_switch_color"@[0] != "ir_export_inline"@[0]);
    reveal_strlit("ir_upload_inline");
    assert("set_switch_color"@[0] != "ir_upload_inline"@[0]);
    reveal_strlit("ir_delete");
    assert("set_switch_color"@.len() != "ir_delete"@.len());
    reveal_strlit("ir_rename");
    assert("set_switch_color"@.len() != "ir_rename"@.len());
    reveal_strlit("import_data");
    assert("set_switch_color"@.len() != "import_data"@.len());
    reveal_strlit("detect");
    assert("set_switch_color"@.len() != "detect"@.len());
    reveal_strlit("is_connected");
    assert("set_switch_color"@.len() != "is_connected"@.len());
    reveal_strlit("connect");
    assert("set_switch_color"@.len() != "connect"@.len());
    reveal_strlit("disconnect");
    assert("set_switch_color"@.len() != "disconnect"@.len());
    reveal_strlit("read_preset");
    assert("set_switch_color"@.len() != "read_preset"@.len());
    reveal_strlit("undo");
    assert("set_switch_color"@.len() != "undo"@.len());
    reveal_strlit("redo");
    assert("set_switch_color"@.len() != "redo"@.len());
    reveal_strlit("history_jump");
    assert("set_switch_color"@.len() != "history_jump"@.len());
    reveal_strlit("preview_param");
    assert("set_switch_color"@.len() != "preview_param"@.len());
    reveal_strlit("preview_paired_param");
    assert("set_switch_color"@.len() != "preview_paired_param"@.len());
    reveal_strlit("set_bypass");
    assert("set_switch_color"@.len() != "set_bypass"@.len());
    reveal_strlit("set_param");
    assert("set_switch_color"@.len() != "set_param"@.len());
    reveal_strlit("set_paired_param");
    assert("set_switch_color"@[4] != "set_paired_param"@[4]);
    reveal_strlit("set_param_enum");
    assert("set_switch_color"@.len() != "set_param_enum"@.len());
    reveal_strlit("swap_model");
    assert("set_switch_color"@.len() != "swap_model"@.len());
    reveal_strlit("add_block");
    assert("set_switch_color"@.len() != "add_block"@.len());
    reveal_strlit("add_block_at");
    assert("set_switch_color"@.len() != "add_block_at"@.len());
    reveal_strlit("delete_block");
    assert("set_switch_color"@.len() != "delete_block"@.len());
    reveal_strlit("clear_preset");
    assert("set_switch_color"@.len() != "clear_preset"@.len());
    reveal_strlit("reorder_block");
    assert("set_switch_color"@.len() != "reorder_block"@.len());
    reveal_strlit("move_block_to_row");
    assert("set_switch_color"@.len() != "move_block_to_row"@.len());
    reveal_strlit("move_before_split");
    assert("set_switch_color"@.len() != "move_before_split"@.len());
    reveal_strlit("place_block");
    assert("set_switch_color"@.len() != "place_block"@.len());
    reveal_strlit("insert_block");
    assert("set_switch_color"@.len() != "insert_block"@.len());
    reveal_strlit("set_node_pos");
    assert("set_switch_color"@.len() != "set_node_pos"@.len());
    reveal_strlit("set_split_type");
    assert("set_switch_color"@.len() != "set_split_type"@.len());
    reveal_strlit("assign_bypass");
    assert("set_switch_color"@.len() != "assign_bypass"@.len());
    reveal_strlit("unassign_bypass");
    assert("set_switch_color"@.len() != "unassign_bypass"@.len());
    reveal_strlit("set_switch_label");
    assert("set_switch_color"@[11] != "set_switch_label"@[11]);
}

/// The arguments the dispatcher reads for `list_presets`.
proof fn lemma_args_list_presets()
    ensures
        command_args("list_presets"@) == Some(seq![("bank", false)]),
{
    reveal_strlit("list_presets");
    reveal_strlit("data_status");
    assert("list_presets"@.len() != "data_status"@.len());
    reveal_strlit("update_status");
    assert("list_presets"@.len() != "update_status"@.len());
    reveal_strlit("update_check");
    assert("list_presets"@[0] != "update_check"@[0]);
    reveal_strlit("update_pref");
    assert("list_presets"@.len() != "update_pref"@.len());
    reveal_strlit("device_numbering");
    assert("list_presets"@.len() != "device_numbering"@.len());
    reveal_strlit("settings_read");
    assert("list_presets"@.len() != "settings_read"@.len());
    reveal_strlit("settings_write");
    assert("list_presets"@.len() != "settings_write"@.len());
    reveal_strlit("ir_list");
    assert("list_presets"@.len() != "ir_list"@.len());
    reveal_strlit("ir_scan");
    assert("list_presets"@.len() != "ir_scan"@.len());
    reveal_strlit("ir_export");
    assert("list_presets"@.len() != "ir_export"@.len());
    reveal_strlit("ir_upload");
    assert("list_presets"@.len() != "ir_upload"@.len());
    reveal_strlit("ir_export_inline");
    assert("list_presets"@.len() != "ir_export_inline"@.len());
    reveal_strlit("ir_upload_inline");
    assert("list_presets"@.len() != "ir_upload_inline"@.len());
    reveal_strlit("ir_delete");
    assert("list_presets"@.len() != "ir_delete"@.len());
    reveal_strlit("ir_rename");
    assert("list_presets"@.len() != "ir_rename"@.len());
    reveal_strlit("import_data");
    assert("list_presets"@.len() != "import_data"@.len());
    reveal_strlit("detect");
    assert("list_presets"@.len() != "detect"@.len());
    reveal_strlit("is_connected");
    assert("list_presets"@[0] != "is_connected"@[0]);
    reveal_strlit("connect");
    assert("list_presets"@.len() != "connect"@.len());
    reveal_strlit("disconnect");
    assert("list_presets"@.len() != "disconnect"@.len());
    reveal_strlit("read_preset");
    assert("list_presets"@.len() != "read_preset"@.len());
    reveal_strlit("undo");
    assert("list_presets"@.len() != "undo"@.len());
    reveal_strlit("redo");
    assert("list_presets"@.len() != "redo"@.len());
    reveal_strlit("history_jump");
    assert("list_presets"@[0] != "history_jump"@[0]);
    reveal_strlit("preview_param");
    assert("list_presets"@.len() != "preview_param"@.len());
    reveal_strlit("preview_paired_param");
    assert("list_presets"@.len() != "preview_paired_param"@.len());
    reveal_strlit("set_bypass");
    assert("list_presets"@.len() != "set_bypass"@.len());
    reveal_strlit("set_param");
    assert("list_presets"@.len() != "set_param"@.len());
    reveal_strlit("set_paired_param");
    assert("list_presets"@.len() != "set_paired_param"@.len());
    reveal_strlit("set_param_enum");
    assert("list_presets"@.len() != "set_param_enum"@.len());
    reveal_strlit("swap_model");
    assert("list_presets"@.len() != "swap_model"@.len());
    reveal_strlit("add_block");
    assert("list_presets"@.len() != "add_block"@.len());
    reveal_strlit("add_block_at");
    assert("list_presets"@[0] != "add_block_at"@[0]);
    reveal_strlit("delete_block");
    assert("list_presets"@[0] != "delete_block"@[0]);
    reveal_strlit("clear_preset");
    assert("list_presets"@[0] != "clear_preset"@[0]);
    reveal_strlit("reorder_block");
    assert("list_presets"@.len() != "reorder_block"@.len());
    reveal_strlit("move_block_to_row");
    assert("list_presets"@.len() != "move_block_to_row"@.len());
    reveal_strlit("move_before_split");
    assert("list_presets"@.len() != "move_before_split"@.len());
    reveal_strlit("place_block");
    assert("list_presets"@.len() != "place_block"@.len());
    reveal_strlit("insert_block");
    assert("list_presets"@[0] != "insert_block"@[0]);
    reveal_strlit("set_node_pos");
    assert("list_presets"@[0] != "set_node_pos"@[0]);
    reveal_strlit("set_split_type");
    assert("list_presets"@.len() != "set_split_type"@.len());
    reveal_strlit("assign_bypass");
    assert("list_presets"@.len() != "assign_bypass"@.len());
    reveal_strlit("unassign_bypass");
    assert("list_presets"@.len() != "unassign_bypass"@.len());
    reveal_strlit("set_switch_label");
    assert("list_presets"@.len() != "set_switch_label"@.len());
    reveal_strlit("set_switch_color");
    assert("list_presets"@.len() != "set_switch_color"@.len());
    reveal_strlit("set_switch_momentary");
    assert("list_presets"@.len() != "set_switch_momentary"@.len());
    reveal_strlit("revert_preset");
    assert("list_presets"@.len() != "revert_preset"@.len());
    reveal_strlit("assign_param");
    assert("list_presets"@[0] != "assign_param"@[0]);
    reveal_strlit("set_assign_travel");
    assert("list_presets"@.len() != "set_assign_travel"@.len());
    reveal_strlit("set_snapshot");
    assert("list_presets"@[0] != "set_snapshot"@[0]);
    reveal_strlit("goto_preset");
    assert("list_presets"@.len() != "goto_preset"@.len());
    reveal_strlit("save_preset");
    assert("list_presets"@.len() != "save_preset"@.len());
    reveal_strlit("rename_preset");
    assert("list_presets"@.len() != "rename_preset"@.len());
    reveal_strlit("rename_snapshot");
    assert("list_presets"@.len() != "rename_snapshot"@.len());
}

/// The arguments the dispatcher reads for `models_in_category`.
proof fn lemma_args_models_in_category()
    ensures
        command_args("models_in_category"@) == Some(seq![("category", true), ("variant", false)]),
{
    reveal_strlit("models_in_category");
    reveal_strlit("data_status");
    assert("models_in_category"@.len() != "data_status"@.len());
    reveal_strlit("update_status");
    assert("models_in_category"@.len() != "update_status"@.len());
    reveal_strlit("update_check");
    assert("models_in_category"@.len() != "update_check"@.len());
    reveal_strlit("update_pref");
    assert("models_in_category"@.len() != "update_pref"@.len());
    reveal_strlit("device_numbering");
    assert("models_in_category"@.len() != "device_numbering"@.len());
    reveal_strlit("settings_read");
    assert("models_in_category"@.len() != "settings_read"@.len());
    reveal_strlit("settings_write");
    assert("models_in_category"@.len() != "settings_write"@.len());
    reveal_strlit("ir_list");
    assert("models_in_category"@.len() != "ir_list"@.len());
    reveal_strlit("ir_scan");
    assert("models_in_category"@.len() != "ir_scan"@.len());
    reveal_strlit("ir_export");
    assert("models_in_category"@.len() != "ir_export"@.len());
    reveal_strlit("ir_upload");
    assert("models_in_category"@.len() != "ir_upload"@.len());
    reveal_strlit("ir_export_inline");
    assert("models_in_category"@.len() != "ir_export_inline"@.len());
    reveal_strlit("ir_upload_inline");
    assert("models_in_category"@.len() != "ir_upload_inline"@.len());
    reveal_strlit("ir_delete");
    assert("models_in_category"@.len() != "ir_delete"@.len());
    reveal_strlit("ir_rename");
    assert("models_in_category"@.len() != "ir_rename"@.len());
    reveal_strlit("import_data");
    assert("models_in_category"@.len() != "import_data"@.len());
    reveal_strlit("detect");
    assert("models_in_category"@.len() != "detect"@.len());
    reveal_strlit("is_connected");
    assert("models_in_category"@.len() != "is_connected"@.len());
    reveal_strlit("connect");
    assert("models_in_category"@.len() != "connect"@.len());
    reveal_strlit("disconnect");
    assert("models_in_category"@.len() != "disconnect"@.len());
    reveal_strlit("read_preset");
    assert("models_in_category"@.len() != "read_preset"@.len());
    reveal_strlit("undo");
    assert("models_in_category"@.len() != "undo"@.len());
    reveal_strlit("redo");
    assert("models_in_category"@.len() != "redo"@.len());
    reveal_strlit("history_jump");
    assert("models_in_category"@.len() != "history_jump"@.len());
    reveal_strlit("preview_param");
    assert("models_in_category"@.len() != "preview_param"@.len());
    reveal_strlit("preview_paired_param");
    assert("models_in_category"@.len() != "preview_paired_param"@.len());
    reveal_strlit("set_bypass");
    assert("models_in_category"@.len() != "set_bypass"@.len());
    reveal_strlit("set_param");
    assert("models_in_category"@.len() != "set_param"@.len());
    reveal_strlit("set_paired_param");
    assert("models_in_category"@.len() != "set_paired_param"@.len());
    reveal_strlit("set_param_enum");
    assert("models_in_category"@.len() != "set_param_enum"@.len());
    reveal_strlit("swap_model");
    assert("models_in_category"@.len() != "swap_model"@.len());
    reveal_strlit("add_block");
    assert("models_in_category"@.len() != "add_block"@.len());
    reveal_strlit("add_block_at");
    assert("models_in_category"@.len() != "add_block_at"@.len());
    reveal_strlit("delete_block");
    assert("models_in_category"@.len() != "delete_block"@.len());
    reveal_strlit("clear_preset");
    assert("models_in_category"@.len() != "clear_preset"@.len());
    reveal_strlit("reorder_block");
    assert("models_in_category"@.len() != "reorder_block"@.len());
    reveal_strlit("move_block_to_row");
    assert("models_in_category"@.len() != "move_block_to_row"@.len());
    reveal_strlit("move_before_split");
    assert("models_in_category"@.len() != "move_before_split"@.len());
    reveal_strlit("place_block");
    assert("models_in_category"@.len() != "place_block"@.len());
    reveal_strlit("insert_block");
    assert("models_in_category"@.len() != "insert_block"@.len());
    reveal_strlit("set_node_pos");
    assert("models_in_category"@.len() != "set_node_pos"@.len());
    reveal_strlit("set_split_type");
    assert("models_in_category"@.len() != "set_split_type"@.len());
    reveal_strlit("assign_bypass");
    assert("models_in_category"@.len() != "assign_bypass"@.len());
    reveal_strlit("unassign_bypass");
    assert("models_in_category"@.len() != "unassign_bypass"@.len());
    reveal_strlit("set_switch_label");
    assert("models_in_category"@.len() != "set_switch_label"@.len());
    reveal_strlit("set_switch_color");
    assert("models_in_category"@.len() != "set_switch_color"@.len());
    reveal_strlit("set_switch_momentary");
    assert("models_in_category"@.len() != "set_switch_momentary"@.len());
    reveal_strlit("revert_preset");
    assert("models_in_category"@.len() != "revert_preset"@.len());
    reveal_strlit("assign_param");
    assert("models_in_category"@.len() != "assign_param"@.len());
    reveal_strlit("set_assign_travel");
    assert("models_in_category"@.len() != "set_assign_travel"@.len());
    reveal_strlit("set_snapshot");
    assert("models_in_category"@.len() != "set_snapshot"@.len());
    reveal_strlit("goto_preset");
    assert("models_in_category"@.len() != "goto_preset"@.len());
    reveal_strlit("save_preset");
    assert("models_in_category"@.len() != "save_preset"@.len());
    reveal_strlit("rename_preset");
    assert("models_in_category"@.len() != "rename_preset"@.len());
    reveal_strlit("rename_snapshot");
    assert("models_in_category"@.len() != "rename_snapshot"@.len());
    reveal_strlit("list_presets");
    assert("models_in_category"@.len() != "list_presets"@.len());
    reveal_strlit("setlists");
    assert("models_in_category"@.len() != "setlists"@.len());
    reveal_strlit("cross_setlist_write_allowed");
    assert("models_in_category"@.len() != "cross_setlist_write_allowed"@.len());
    reveal_strlit("export_setlists");
    assert("models_in_category"@.len() != "export_setlists"@.len());
    reveal_strlit("cancel_export");
    assert("models_in_category"@.len() != "cancel_export"@.len());
    reveal_strlit("backup_show");
    assert("models_in_category"@.len() != "backup_show"@.len());
    reveal_strlit("restore_preset");
    assert("models_in_category"@.len() != "restore_preset"@.len());
    reveal_strlit("export_setlists_inline");
    assert("models_in_category"@.len() != "export_setlists_inline"@.len());
    reveal_strlit("backup_show_inline");
    assert("models_in_category"@[0] != "backup_show_inline"@[0]);
    reveal_strlit("restore_preset_inline");
    assert("models_in_category"@.len() != "restore_preset_inline"@.len());
    reveal_strlit("backup_device");
    assert("models_in_category"@.len() != "backup_device"@.len());
    reveal_strlit("backup_device_inline");
    assert("models_in_category"@.len() != "backup_device_inline"@.len());
    reveal_strlit("backup_info");
    assert("models_in_category"@.len() != "backup_info"@.len());
    reveal_strlit("backup_info_inline");
    assert("models_in_category"@[0] != "backup_info_inline"@[0]);
    reveal_strlit("restore_device");
    assert("models_in_category"@.len() != "restore_device"@.len());
    reveal_strlit("restore_device_inline");
    assert("models_in_category"@.len() != "restore_device_inline"@.len());
    reveal_strlit("split_types");
    assert("models_in_category"@.len() != "split_types"@.len());
    reveal_strlit("categories");
    assert("models_in_category"@.len() != "categories"@.len());
}

/// The optional arguments are optional: each command that reads one routes whenever its required
/// arguments are there, whatever the optional one holds or whether it is there at all — an IR
/// upload without a name, a switch label or colour cleared, the update check without `force`,
/// the preset list without a bank, the model list without a variant.
pub proof fn optional_arguments_are_optional(args: JsonValue)
    ensures
        route_spec("update_check"@, args) is Ok,
        arg_spec(args, "slot"@) is Some && arg_spec(args, "path"@) is Some && arg_spec(args, "overwrite"@) is Some
            && arg_spec(args, "force"@) is Some ==> route_spec("ir_upload"@, args) is Ok,
        arg_spec(args, "switch"@) is Some ==> route_spec("set_switch_label"@, args) is Ok,
        arg_spec(args, "switch"@) is Some ==> route_spec("set_switch_color"@, args) is Ok,
        route_spec("list_presets"@, args) is Ok,
        arg_spec(args, "category"@) is Some ==> route_spec("models_in_category"@, args) is Ok,
{
    lemma_args_update_check();
    lemma_args_ir_upload();
    lemma_args_set_switch_label();
    lemma_args_set_switch_color();
    lemma_args_list_presets();
    lemma_args_models_in_category();
    reveal_with_fuel(route_prefix, 6);
}

} // verus!
