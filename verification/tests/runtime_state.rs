use mirascript_vm::frame::{FrameArena, FrameId};
use mirascript_vm::globals::Globals;
use mirascript_vm::register::{MiraAny, RegisterId};
use mirascript_vm::value::MiraValue;

fn number(value: f64) -> MiraValue {
    MiraValue::number_from_bits(value.to_bits())
}

#[test]
fn reuses_frames_without_leaking_register_values_between_runs() {
    let mut arena = FrameArena::new(20);
    arena
        .get_mut(FrameId::root())
        .registers
        .get_mut(RegisterId::new(1))
        .replace(number(1.0));
    let child = arena.push(20, Some(FrameId::root()));
    arena
        .get_mut(child)
        .registers
        .get_mut(RegisterId::new(20))
        .replace(number(2.0));

    arena.begin_run(2);
    assert!(arena
        .get(FrameId::root())
        .registers
        .read(RegisterId::new(1))
        .is_uninitialized());

    let reused = arena.push(2, Some(FrameId::root()));
    assert_eq!(reused, child);
    assert!(arena
        .get_mut(reused)
        .registers
        .read(RegisterId::new(1))
        .is_uninitialized());
}

#[test]
fn std_slot_returns_none_for_nonexistent_name() {
    let globals = Globals::new();
    let index = globals.std_slot("nonexistent");
    assert!(index.is_none());
}

#[test]
fn uninitialized_is_distinct_from_nil() {
    assert!(MiraAny::uninitialized().check().is_err());
    assert_eq!(
        MiraAny::from(MiraValue::nil()).check().unwrap(),
        MiraValue::nil()
    );
}
