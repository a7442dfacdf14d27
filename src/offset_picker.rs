//! The keyboard rules of the offset picker: arrows move the offset by half
//! an hour (ten minutes with Shift held), Enter confirms, Escape cancels.
use vstd::prelude::*;

verus! {

/// The keys the picker reacts to; any other key is `Other`.
#[derive(Clone, Copy, Debug, PartialEq, Eq, Structural)]
pub enum PickerKey {
    ArrowLeft,
    ArrowRight,
    Escape,
    Enter,
    Other,
}

/// What the picker does in answer to a key.
#[derive(Clone, Copy, Debug, PartialEq, Eq, Structural)]
pub enum PickerStep {
    /// Show this offset instead.
    Move(i64),
    /// Close without choosing.
    Cancel,
    /// Close, choosing this offset.
    Confirm(i64),
    /// Nothing changes.
    Stay,
}

/// The step of one arrow press in seconds.
pub open spec fn arrow_step(shift: bool) -> int {
    if shift { 600 } else { 1800 }
}

/// The picker's answer to `key` while it shows `offset`. An arrow press that
/// would leave the range of `i64` leaves the offset where it is.
pub fn picker_step(offset: i64, key: PickerKey, shift: bool) -> (r: PickerStep)
    ensures
        key == PickerKey::ArrowLeft ==> r == if offset - arrow_step(shift) >= i64::MIN {
            PickerStep::Move((offset - arrow_step(shift)) as i64)
        } else {
            PickerStep::Stay
        },
        key == PickerKey::ArrowRight ==> r == if offset + arrow_step(shift) <= i64::MAX {
            PickerStep::Move((offset + arrow_step(shift)) as i64)
        } else {
            PickerStep::Stay
        },
        key == PickerKey::Escape ==> r == PickerStep::Cancel,
        key == PickerKey::Enter ==> r == PickerStep::Confirm(offset),
        key == PickerKey::Other ==> r == PickerStep::Stay,
{
    let step: i64 = if shift { 600 } else { 1800 };
    match key {
        PickerKey::ArrowLeft => match offset.checked_sub(step) {
            Some(o) => PickerStep::Move(o),
            None => PickerStep::Stay,
        },
        PickerKey::ArrowRight => match offset.checked_add(step) {
            Some(o) => PickerStep::Move(o),
            None => PickerStep::Stay,
        },
        PickerKey::Escape => PickerStep::Cancel,
        PickerKey::Enter => PickerStep::Confirm(offset),
        PickerKey::Other => PickerStep::Stay,
    }
}

} // verus!
