use fretwire::dto::{arg_value, optional_arg, required_arg};
use fretwire::error::Error;
use fretwire::json::{JsonNumber, JsonValue};
use fretwire::route::{command_arg_list, route};
use fretwire::dto::command_names;
use fretwire::update::UpdateError;

fn integer(n: i64) -> JsonValue {
    JsonValue::Number(JsonNumber { int: Some(n), uint: if n >= 0 { Some(n as u64) } else { None }, float: Some((n as f32).to_bits()) })
}

fn args(members: Vec<(&str, JsonValue)>) -> JsonValue {
    JsonValue::Object(members.into_iter().map(|(k, v)| (k.to_string(), v)).collect())
}

#[test]
fn camel_case_is_looked_up_first_then_snake_case() {
    let a = args(vec![("param_index", integer(3)), ("slot", integer(4))]);
    assert_eq!(arg_value(&a, "paramIndex").and_then(|v| v.as_i64()), Some(3));
    assert_eq!(arg_value(&a, "slot").and_then(|v| v.as_i64()), Some(4));
    let both = args(vec![("param_index", integer(1)), ("paramIndex", integer(2))]);
    assert_eq!(arg_value(&both, "paramIndex").and_then(|v| v.as_i64()), Some(2));
    assert!(arg_value(&a, "modelIndex").is_none());
    assert!(arg_value(&JsonValue::Null, "slot").is_none());
}

#[test]
fn a_missing_argument_names_itself() {
    let value = JsonValue::Number(JsonNumber { int: None, uint: None, float: Some(0.5f32.to_bits()) });
    let a = args(vec![("slot", integer(1)), ("value", value)]);
    assert_eq!(required_arg(&a, "paramIndex").err().unwrap(), "missing argument `paramIndex`");
    assert!(required_arg(&a, "slot").is_ok());
    assert!(required_arg(&a, "value").is_ok());
    assert_eq!(route("set_param", &a).err().unwrap(), "missing argument `paramIndex`");
}

#[test]
fn an_absent_or_null_optional_argument_is_none() {
    let a = args(vec![("bank", JsonValue::Null), ("slot", integer(4))]);
    assert!(optional_arg(&a, "bank").is_none());
    assert!(optional_arg(&a, "preset").is_none());
    assert_eq!(optional_arg(&a, "slot").and_then(|v| v.as_i64()), Some(4));
}

#[test]
fn errors_read_as_the_user_sees_them() {
    assert_eq!(Error::Rejected("model swap".to_string()).message(), "the pedal refused the model swap");
    assert_eq!(Error::Invalid("bad slot".to_string()).message(), "bad slot");
    assert_eq!(Error::WriteStalled("x".to_string()).message(), "preset write stalled: x");
    assert_eq!(Error::Backup("y".to_string()).message(), "backup file: y");
    assert_eq!(Error::MissingData("z".to_string()).message(), "reference data: z");
    assert_eq!(Error::Import("w".to_string()).message(), "importing reference data: w");
}

#[test]
fn update_failures_read_as_the_user_sees_them() {
    assert_eq!(UpdateError::Http("timeout".to_string()).message(), "update check failed: timeout");
    assert_eq!(
        UpdateError::NotRedirected(404).message(),
        "update check: expected a redirect to the latest release, got HTTP 404"
    );
    assert_eq!(
        UpdateError::BadLocation("/x".to_string()).message(),
        "update check: cannot read a version out of the redirect target `/x`"
    );
    assert_eq!(UpdateError::Io("disk full".to_string()).message(), "update check: disk full");
}

#[test]
fn every_name_dispatches() {
    assert_eq!(command_names().len(), 80, "the surface was 80 commands");
    for name in command_names() {
        assert!(command_arg_list(name).is_some(), "`{name}` has no argument list");
        if let Err(e) = route(name, &args(vec![])) {
            assert!(!e.starts_with("unknown command"), "`{name}` is listed but not routed");
        }
    }
}

#[test]
fn unknown_commands_fail_loudly() {
    assert_eq!(route("frobnicate", &args(vec![])).err().unwrap(), "unknown command: frobnicate");
    assert!(command_arg_list("frobnicate").is_none());
}

#[test]
fn camel_and_snake_case_args_both_resolve() {
    let half = || JsonValue::Number(JsonNumber { int: None, uint: None, float: Some(0.5f32.to_bits()) });
    for a in [
        args(vec![("slot", integer(1)), ("paramIndex", integer(2)), ("value", half())]),
        args(vec![("slot", integer(1)), ("param_index", integer(2)), ("value", half())]),
    ] {
        let found = route("set_param", &a).unwrap();
        assert_eq!(found.len(), 3);
        assert_eq!(found[0].and_then(|v| v.as_i64()), Some(1));
        assert_eq!(found[1].and_then(|v| v.as_i64()), Some(2));
        assert!(matches!(found[2], Some(JsonValue::Number(n)) if n.float == Some(0.5f32.to_bits()) && n.int.is_none()));
    }
}

#[test]
fn optional_args_default() {
    for a in [args(vec![]), args(vec![("bank", JsonValue::Null)])] {
        let found = route("list_presets", &a).unwrap();
        assert_eq!(found.len(), 1);
        assert!(found[0].is_none());
    }
    let a = args(vec![("bank", integer(2))]);
    assert_eq!(route("list_presets", &a).unwrap()[0].and_then(|v| v.as_i64()), Some(2));
}

#[test]
fn the_first_missing_required_argument_is_the_one_reported() {
    assert_eq!(route("set_param", &args(vec![])).err().unwrap(), "missing argument `slot`");
    let a = args(vec![("slot", integer(1)), ("paramIndex", JsonValue::Null), ("value", integer(0))]);
    assert!(matches!(route("set_param", &a).unwrap()[1], Some(JsonValue::Null)));
    assert!(route("cancel_export", &JsonValue::Null).unwrap().is_empty());
}
