//! Per-leaf-path editable state.

use vstd::prelude::*;

verus! {

/// The editable state of one leaf field: the text under edit, its baseline
/// value, a dirty mark, and the current validity with its message.
/// A valid field never carries a message.
pub struct FormField {
    pub name: String,
    pub value: String,
    pub initial: String,
    pub message: String,
    pub valid: bool,
    pub dirty: bool,
}

impl FormField {
    /// A fresh record: current and baseline text both `value`, clean and
    /// valid with no message.
    pub fn new(name: String, value: String) -> (r: FormField)
        ensures
            r.name == name,
            r.value == value,
            r.initial == value,
            r.message@ == Seq::<char>::empty(),
            r.valid,
            !r.dirty,
    {
        let initial = value.clone();
        FormField { name, value, initial, message: String::new(), valid: true, dirty: false }
    }

    pub fn name(&self) -> (r: &String)
        ensures
            *r == self.name,
    {
        &self.name
    }

    pub fn value(&self) -> (r: &String)
        ensures
            *r == self.value,
    {
        &self.value
    }

    pub fn initial_value(&self) -> (r: &String)
        ensures
            *r == self.initial,
    {
        &self.initial
    }

    pub fn message(&self) -> (r: &String)
        ensures
            *r == self.message,
    {
        &self.message
    }

    pub fn dirty(&self) -> (r: bool)
        ensures
            r == self.dirty,
    {
        self.dirty
    }

    pub fn valid(&self) -> (r: bool)
        ensures
            r == self.valid,
    {
        self.valid
    }
}

} // verus!
