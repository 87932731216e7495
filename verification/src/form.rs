//! The handle layer around the owned form state: the same operations, plus
//! a generation counter used for cheap change detection. A mutation that
//! changed observable state bumps the generation; an observer that kept an
//! earlier generation value re-reads exactly when the numbers differ. The
//! host runtime dispatches one event at a time, so a single owner mutates
//! the form; shared ownership around it is the host's concern.

use vstd::prelude::*;
use crate::model::{FormValue, Model, conversion_failure_message};
use crate::record::FormField;
use crate::state::{FormStateOwned, validation_flag, validation_message, trigger_q};

verus! {

/// The generation value after one bump.
pub open spec fn next_generation(g: u64) -> u64 {
    if g == u64::MAX {
        0
    } else {
        (g + 1) as u64
    }
}

/// A form: one owned form state and the generation counter observers use
/// for change detection.
pub struct Form<M: Model> {
    pub state: FormStateOwned<M>,
    pub generation: u64,
}

impl<M: Model> Form<M> {
    pub open spec fn wf(&self) -> bool {
        self.state.wf()
    }

    /// Builds a form over `model` with generation zero.
    pub fn new(model: M) -> (r: Form<M>)
        ensures
            r.wf(),
            r.generation == 0,
            r.state.model == model,
            r.state.paths() == model.leaf_paths(),
            forall|q: Seq<char>|
                r.state.has_path(q) ==> {
                    &&& (#[trigger] r.state.rec(q)).value@ == model.leaf_value(q)
                    &&& r.state.rec(q).initial@ == model.leaf_value(q)
                    &&& r.state.rec(q).valid
                    &&& !r.state.rec(q).dirty
                    &&& r.state.rec(q).message@ == Seq::<char>::empty()
                },
    {
        Form { state: FormStateOwned::new(model), generation: 0 }
    }

    fn inc_generation(&mut self)
        ensures
            final(self).state == old(self).state,
            final(self).generation == next_generation(old(self).generation),
    {
        self.generation = self.generation.wrapping_add(1);
    }

    /// The generation counter: unchanged exactly when no observable state
    /// has changed since it was last read.
    pub fn generation(&self) -> (g: u64)
        ensures
            g == self.generation,
    {
        self.generation
    }

    /// The current text of the field at `field`.
    pub fn value<'a>(&'a self, field: &str) -> (r: &'a String)
        requires
            self.wf(),
            self.state.has_path(field@),
        ensures
            *r == self.state.rec(field@).value,
    {
        self.state.field(field).value()
    }

    /// The current text of the field at `field` when it is dirty, and
    /// `None` otherwise.
    pub fn dirty_value<'a>(&'a self, field: &str) -> (r: Option<&'a String>)
        requires
            self.wf(),
            self.state.has_path(field@),
        ensures
            r is Some <==> self.state.rec(field@).dirty,
            r matches Some(v) ==> *v == self.state.rec(field@).value,
    {
        let f = self.state.field(field);
        if f.dirty() {
            Some(f.value())
        } else {
            None
        }
    }

    /// The record of the field at `field`.
    pub fn field<'a>(&'a self, field: &str) -> (r: &'a FormField)
        requires
            self.wf(),
            self.state.has_path(field@),
        ensures
            *r == self.state.rec(field@),
    {
        self.state.field(field)
    }

    /// Writes `value` at `field` as `FormStateOwned::set_value` does, and
    /// bumps the generation exactly when something changed. Writing a
    /// field's current text a second time changes neither the state nor the
    /// generation, so observers are not notified again.
    pub fn set_value(&mut self, field: &str, value: &str)
        requires
            old(self).wf(),
            old(self).state.has_path(field@),
        ensures
            final(self).wf(),
            final(self).state.paths() == old(self).state.paths(),
            final(self).state.rec(field@).value@ == value@,
            old(self).state.rec(field@).value@ == value@ ==> *final(self) == *old(self),
            old(self).state.rec(field@).value@ != value@ ==> {
                &&& final(self).generation == next_generation(old(self).generation)
                &&& final(self).state.rec(field@).dirty
                &&& final(self).state.rec(field@).initial == old(self).state.rec(field@).initial
            },
            forall|q: Seq<char>|
                old(self).state.has_path(q) && q != field@
                    ==> #[trigger] final(self).state.rec(q) == old(self).state.rec(q),
            old(self).state.rec(field@).value@ != value@ && M::accepts(field@, value@) ==> {
                &&& final(self).state.model.leaf_value(field@) == M::converted(field@, value@)
                &&& forall|q: Seq<char>|
                    old(self).state.has_path(q) && q != field@
                        ==> #[trigger] final(self).state.model.leaf_value(q) == old(
                        self,
                    ).state.model.leaf_value(q)
                &&& final(self).state.rec(field@).valid == validation_flag(
                    final(self).state.model,
                    field@,
                )
                &&& final(self).state.rec(field@).message@ == validation_message(
                    final(self).state.model,
                    field@,
                )
            },
            old(self).state.rec(field@).value@ != value@ && !M::accepts(field@, value@) ==> {
                &&& forall|q: Seq<char>|
                    old(self).state.has_path(q)
                        ==> #[trigger] final(self).state.model.leaf_value(q) == old(
                        self,
                    ).state.model.leaf_value(q)
                &&& !final(self).state.rec(field@).valid
                &&& final(self).state.rec(field@).message@ == conversion_failure_message()
            },
    {
        let changed = self.state.set_value(field, value);
        if changed {
            self.inc_generation();
        }
    }

    /// Marks every field dirty, redistributes full validation, bumps the
    /// generation, and reports whether every field is valid.
    pub fn validate(&mut self) -> (r: bool)
        requires
            old(self).wf(),
        ensures
            final(self).wf(),
            final(self).state.model == old(self).state.model,
            final(self).generation == next_generation(old(self).generation),
            forall|q: Seq<char>|
                old(self).state.has_path(q) ==> {
                    &&& (#[trigger] final(self).state.rec(q)).dirty
                    &&& final(self).state.rec(q).value == old(self).state.rec(q).value
                    &&& final(self).state.rec(q).initial == old(self).state.rec(q).initial
                    &&& final(self).state.rec(q).valid == validation_flag(old(self).state.model, q)
                    &&& final(self).state.rec(q).message@ == validation_message(
                        old(self).state.model,
                        q,
                    )
                },
            r == (forall|q: Seq<char>|
                old(self).state.has_path(q) ==> validation_flag(
                    old(self).state.model,
                    #[trigger] trigger_q(q),
                )),
    {
        let r = self.state.validate();
        self.inc_generation();
        r
    }

    /// True when every field is valid.
    pub fn valid(&self) -> (r: bool)
        requires
            self.wf(),
        ensures
            r == (forall|q: Seq<char>|
                self.state.has_path(q) ==> (#[trigger] self.state.rec(q)).valid),
    {
        self.state.valid()
    }

    /// True when any field is dirty.
    pub fn dirty(&self) -> (r: bool)
        requires
            self.wf(),
        ensures
            r == (exists|q: Seq<char>|
                self.state.has_path(q) && (#[trigger] self.state.rec(q)).dirty),
    {
        self.state.dirty()
    }

    /// Whether the field at `field_path` is currently valid.
    pub fn field_valid(&self, field_path: &str) -> (r: bool)
        requires
            self.wf(),
            self.state.has_path(field_path@),
        ensures
            r == self.state.rec(field_path@).valid,
    {
        self.state.field_valid(field_path)
    }

    /// The message displayed for the field at `field_path`.
    pub fn field_message<'a>(&'a self, field_path: &str) -> (r: &'a str)
        requires
            self.wf(),
            self.state.has_path(field_path@),
        ensures
            r@ == self.state.rec(field_path@).message@,
    {
        self.state.field_message(field_path)
    }

    /// The committed model.
    pub fn model(&self) -> (r: &M)
        ensures
            *r == self.state.model,
    {
        self.state.model()
    }

    /// Takes over the committed values of `model` as
    /// `FormStateOwned::update` does, keeping baselines, and bumps the
    /// generation.
    pub fn update(&mut self, model: M)
        requires
            old(self).wf(),
            model.leaf_paths() == old(self).state.paths(),
        ensures
            final(self).wf(),
            final(self).state.paths() == old(self).state.paths(),
            final(self).generation == next_generation(old(self).generation),
            forall|q: Seq<char>|
                old(self).state.has_path(q) ==> {
                    &&& (#[trigger] final(self).state.rec(q)).value@ == model.leaf_value(q)
                    &&& final(self).state.rec(q).initial == old(self).state.rec(q).initial
                },
    {
        self.state.update(model);
        self.inc_generation();
    }

    /// Replaces the model and resets every field, as a fresh form would,
    /// and bumps the generation.
    pub fn replace(&mut self, model: M)
        requires
            old(self).wf(),
        ensures
            final(self).wf(),
            final(self).state.model == model,
            final(self).generation == next_generation(old(self).generation),
            forall|q: Seq<char>|
                final(self).state.has_path(q) ==> {
                    &&& (#[trigger] final(self).state.rec(q)).value@ == model.leaf_value(q)
                    &&& final(self).state.rec(q).initial@ == model.leaf_value(q)
                    &&& final(self).state.rec(q).valid
                    &&& !final(self).state.rec(q).dirty
                },
    {
        self.state.replace(model);
        self.inc_generation();
    }
}

} // verus!
