use mirascript_vm::globals::{GlobalData, Globals};
use mirascript_vm::value::MiraValue;

fn number(value: f64) -> MiraValue {
    MiraValue::number_from_bits(value.to_bits())
}

fn with_std() -> Globals {
    let mut globals = Globals::new();
    globals.insert_std("sin".into(), MiraValue::Function(1));
    globals.insert_std("cos".into(), MiraValue::Function(2));
    globals
}

#[test]
fn add_global() {
    let mut globals = with_std();
    assert!(!globals.contains_key("foo"));

    globals.insert("foo".into(), number(42.0));
    assert_eq!(globals.get("foo"), Some(number(42.0)));

    let removed = globals.remove("foo");
    assert_eq!(removed, Some(number(42.0)));
    assert!(globals.get("foo").is_none());
    assert!(!globals.contains_key("foo"));
    assert!(globals.contains_key("sin"));

    globals.insert("foo".into(), MiraValue::String(7));
    assert_eq!(globals.get("foo"), Some(MiraValue::String(7)));
}

#[test]
fn add_std_global() {
    let mut globals = with_std();
    assert!(globals.contains_key("sin"));

    globals.insert("sin".into(), number(42.0));
    assert_eq!(globals.get("sin"), Some(number(42.0)));

    let removed = globals.remove("sin");
    assert_eq!(removed, Some(number(42.0)));
    assert!(globals.get("sin").is_none());

    globals.insert("sin".into(), MiraValue::String(7));
    assert_eq!(globals.get("sin"), Some(MiraValue::String(7)));
    assert_eq!(globals.std_slot("sin"), Some(0));
}

#[test]
fn remove_std() {
    let mut globals = with_std();
    assert!(globals.contains_key("sin"));

    let removed = globals.remove("sin");
    assert!(removed.unwrap().is_function());
    assert!(globals.get("sin").is_none());
    assert!(!globals.contains_key("sin"));
    assert_eq!(globals.remove("sin"), None);

    globals.insert("sin".into(), removed.unwrap());
    assert!(globals.get("sin").unwrap().is_function());
    assert_eq!(globals.get_hint("sin", Some(0)), Some(MiraValue::Function(1)));
}

#[test]
fn remove_nonexistent() {
    let mut globals = with_std();
    assert!(!globals.contains_key("nonexistent"));

    let removed = globals.remove("nonexistent");
    assert!(removed.is_none());
    assert!(!globals.contains_key("nonexistent"));
}

#[test]
fn iter_global_names() {
    let mut globals = with_std();

    let names = globals.keys();
    assert!(names.contains(&"sin".to_string()));
    assert!(names.contains(&"cos".to_string()));

    globals.insert("foo".into(), number(42.0));
    globals.insert("bar".into(), MiraValue::String(3));

    let names = globals.keys();
    assert_eq!(names, ["sin", "cos", "foo", "bar"]);
}

#[test]
fn standard_slots_follow_installation_order() {
    let globals = with_std();
    assert_eq!(globals.std_slot("sin"), Some(0));
    assert_eq!(globals.std_slot("cos"), Some(1));
    assert_eq!(globals.std_slot("tan"), None);
    assert_eq!(globals.get_hint("cos", Some(1)), Some(MiraValue::Function(2)));
    assert_eq!(globals.get_hint("cos", None), Some(MiraValue::Function(2)));
}

#[test]
fn host_globals_keep_insertion_order_and_report_previous_values() {
    let mut data = GlobalData::new();
    assert_eq!(data.insert("a".into(), number(1.0)), None);
    assert_eq!(data.insert("b".into(), number(2.0)), None);
    assert_eq!(data.insert("a".into(), number(3.0)), Some(number(1.0)));
    assert_eq!(data.keys(), ["a", "b"]);
    assert_eq!(data.len(), 2);
    assert_eq!(data.get("a"), Some(number(3.0)));
    assert!(data.contains_key("b"));
    assert!(!data.contains_key("c"));
    assert_eq!(data.insert("b".into(), MiraValue::Uninitialized), Some(number(2.0)));
    assert_eq!(data.get("b"), None);
    assert!(data.contains_key("b"));
}
