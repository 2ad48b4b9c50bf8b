use fretwire::cli::{shell_quote, source_name, udev_rule, value_type, ValueKind};
use fretwire::dto::{camel_to_snake, command_names, param_kind, ParamKind};

#[test]
fn embedded_udev_rule_covers_both_devices() {
    let rule = udev_rule();
    assert!(rule.contains(r#"ATTR{idVendor}=="0e41""#));
    assert!(rule.contains(r#"ATTR{idProduct}=="4246""#)); // HX Stomp
    assert!(rule.contains(r#"ATTR{idProduct}=="4253""#)); // HX Stomp XL
    assert!(rule.contains(r#"TAG+="uaccess""#));
}

#[test]
fn shell_quote_escapes_single_quotes() {
    assert_eq!(shell_quote("/tmp/plain"), "'/tmp/plain'");
    assert_eq!(shell_quote("a'b"), r"'a'\''b'");
}

#[test]
fn connect_is_matched_without_running() {
    assert!(command_names().contains(&"connect"));
    assert_eq!(command_names().len(), 80);
}

#[test]
fn sources_are_named_as_the_pedal_names_them() {
    assert_eq!(source_name(3), "FS1");
    assert_eq!(source_name(7), "FS5");
    assert_eq!(source_name(1), "EXP1");
    assert_eq!(source_name(2), "EXP2");
    assert_eq!(source_name(8), "MIDI");
    assert_eq!(source_name(9), "Snapshots");
    assert_eq!(source_name(12), "controller 12");
    assert_eq!(source_name(-1), "controller -1");
}

#[test]
fn value_types_and_argument_names() {
    assert_eq!(value_type(ValueKind::Int), "int");
    assert_eq!(value_type(ValueKind::UInt), "uint");
    assert_eq!(value_type(ValueKind::Binary), "bytes");
    assert_eq!(param_kind(ParamKind::Float), "float");
    assert_eq!(camel_to_snake("paramIndex"), "param_index");
    assert_eq!(camel_to_snake("slot"), "slot");
    assert_eq!(camel_to_snake("modelIndexX"), "model_index_x");
}
