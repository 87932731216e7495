//! The form state: one model instance plus a table of per-leaf-path field
//! records, kept in sync by the write / validate protocol.
//!
//! The model is the single source of truth for committed values; each
//! record holds the provisional text the user is editing, which is pushed
//! into the model only on a successful conversion.

use vstd::prelude::*;
use crate::errors::{
    ErrorEntry,
    ValidationErrorsKind,
    entries_pairs,
    entry_pairs,
    error_pairs,
    find_message,
    last_message,
    leaf_message,
    leaf_message_text,
    lemma_entries_pairs_concat,
    lemma_last_message_addressed,
    lemma_last_message_concat,
    lemma_last_message_none,
};
use crate::model::{FormValue, Model, conversion_failure_message, distinct_seqs};
use crate::path::{join_field_path, str_eq};
use crate::record::FormField;

verus! {

/// The validity that full error distribution for model `m` leaves at leaf
/// `q`: valid exactly when no error addresses `q`.
pub open spec fn validation_flag<M: Model>(m: M, q: Seq<char>) -> bool {
    match m.spec_validate() {
        Ok(_) => true,
        Err(e) => last_message(error_pairs(e), q) is None,
    }
}

/// The message that full error distribution for model `m` leaves at `q`.
pub open spec fn validation_message<M: Model>(m: M, q: Seq<char>) -> Seq<char> {
    match m.spec_validate() {
        Ok(_) => Seq::empty(),
        Err(e) => match last_message(error_pairs(e), q) {
            Some(msg) => msg,
            None => Seq::empty(),
        },
    }
}

/// Full validation flags a field invalid exactly when the oracle reported
/// an error addressed to that field's path.
pub proof fn lemma_validation_flag_addressed<M: Model>(m: M, q: Seq<char>)
    ensures
        !validation_flag(m, q) <==> match m.spec_validate() {
            Ok(_) => false,
            Err(e) => exists|k: int|
                0 <= k < error_pairs(e).len() && (#[trigger] error_pairs(e)[k]).0 == q,
        },
{
    match m.spec_validate() {
        Ok(_) => {},
        Err(e) => {
            lemma_last_message_addressed(error_pairs(e), q);
        },
    }
}

/// An identity marker used to pick quantifier triggers over leaf paths.
pub open spec fn trigger_q(q: Seq<char>) -> Seq<char> {
    q
}

/// The parts of a record that error distribution never touches.
pub open spec fn same_text_state(a: FormField, b: FormField) -> bool {
    &&& a.name == b.name
    &&& a.value == b.value
    &&& a.initial == b.initial
    &&& a.dirty == b.dirty
}

/// One model instance together with the field records of exactly its leaf
/// paths, in enumeration order.
pub struct FormStateOwned<M: Model> {
    pub model: M,
    pub fields: Vec<FormField>,
}

impl<M: Model> FormStateOwned<M> {
    /// The leaf paths of the model, which the field table mirrors.
    pub open spec fn paths(&self) -> Seq<Seq<char>> {
        self.model.leaf_paths()
    }

    pub open spec fn has_path(&self, q: Seq<char>) -> bool {
        self.paths().contains(q)
    }

    /// The position of leaf `q` in the table.
    pub open spec fn idx(&self, q: Seq<char>) -> int {
        self.paths().index_of(q)
    }

    /// The field record at leaf `q`.
    pub open spec fn rec(&self, q: Seq<char>) -> FormField {
        self.fields@[self.idx(q)]
    }

    /// Well-formed: one record per leaf path, in order; paths never repeat;
    /// a valid record carries no message.
    pub open spec fn wf(&self) -> bool {
        &&& self.fields@.len() == self.paths().len()
        &&& forall|i: int|
            0 <= i < self.fields@.len() ==> (#[trigger] self.fields@[i]).name@ == self.paths()[i]
        &&& distinct_seqs(self.paths())
        &&& forall|i: int|
            0 <= i < self.fields@.len() ==> ((#[trigger] self.fields@[i]).valid ==> self
                .fields@[i].message@ == Seq::<char>::empty())
    }

    /// Under `wf`, `idx` inverts the path list, uniquely.
    pub proof fn lemma_idx(&self, q: Seq<char>)
        requires
            self.wf(),
            self.has_path(q),
        ensures
            0 <= self.idx(q) < self.fields@.len(),
            self.paths()[self.idx(q)] == q,
            self.fields@[self.idx(q)].name@ == q,
            forall|i: int| 0 <= i < self.paths().len() && self.paths()[i] == q ==> i == self.idx(q),
    {
        let k = self.idx(q);
        assert(0 <= k < self.paths().len() && self.paths()[k] == q);
    }

    /// Looks up the record position of `name` in the table.
    fn field_index(&self, name: &str) -> (r: usize)
        requires
            self.wf(),
            self.has_path(name@),
        ensures
            r as int == self.idx(name@),
    {
        let mut i: usize = 0;
        while i < self.fields.len()
            invariant
                0 <= i <= self.fields@.len(),
                forall|j: int| 0 <= j < i ==> (#[trigger] self.fields@[j]).name@ != name@,
                self.wf(),
                self.has_path(name@),
            decreases self.fields@.len() - i,
        {
            if str_eq(self.fields[i].name.as_str(), name) {
                proof {
                    self.lemma_idx(name@);
                    if self.idx(name@) < i {
                        assert(self.fields@[self.idx(name@)].name@ != name@);
                    }
                    if self.idx(name@) > i {
                        assert(self.paths()[i as int] == name@);
                    }
                }
                return i;
            }
            i += 1;
        }
        proof {
            self.lemma_idx(name@);
            assert(self.fields@[self.idx(name@)].name@ == name@);
            assert(false);
        }
        vstd::pervasive::unreached()
    }

    /// Builds the field table for `model`: one fresh record per leaf path,
    /// seeded with the model's canonical text. Structural validation is not
    /// run here; call `validate` for that.
    pub fn new(model: M) -> (r: FormStateOwned<M>)
        ensures
            r.wf(),
            r.model == model,
            r.paths() == model.leaf_paths(),
            forall|q: Seq<char>|
                r.has_path(q) ==> {
                    &&& (#[trigger] r.rec(q)).value@ == model.leaf_value(q)
                    &&& r.rec(q).initial@ == model.leaf_value(q)
                    &&& r.rec(q).valid
                    &&& !r.rec(q).dirty
                    &&& r.rec(q).message@ == Seq::<char>::empty()
                },
    {
        let mut path_texts: Vec<String> = Vec::new();
        model.fields("", &mut path_texts);
        proof {
            reveal_strlit("");
            assert(path_texts.deep_view() =~~= model.leaf_paths());
            model.lemma_leaf_paths_distinct();
        }
        let mut fields: Vec<FormField> = Vec::new();
        let mut i: usize = 0;
        while i < path_texts.len()
            invariant
                0 <= i <= path_texts@.len(),
                path_texts.deep_view() == model.leaf_paths(),
                path_texts@.len() == model.leaf_paths().len(),
                fields@.len() == i,
                forall|j: int|
                    0 <= j < i ==> {
                        &&& (#[trigger] fields@[j]).name@ == model.leaf_paths()[j]
                        &&& fields@[j].value@ == model.leaf_value(model.leaf_paths()[j])
                        &&& fields@[j].initial@ == model.leaf_value(model.leaf_paths()[j])
                        &&& fields@[j].valid
                        &&& !fields@[j].dirty
                        &&& fields@[j].message@ == Seq::<char>::empty()
                    },
            decreases path_texts@.len() - i,
        {
            let p = &path_texts[i];
            proof {
                assert(model.leaf_paths()[i as int] == p@);
            }
            let text = model.value(p.as_str());
            fields.push(FormField::new(p.clone(), text));
            i += 1;
        }
        let r = FormStateOwned { model, fields };
        proof {
            assert(r.wf());
            assert forall|q: Seq<char>| r.has_path(q) implies {
                &&& (#[trigger] r.rec(q)).value@ == r.model.leaf_value(q)
                &&& r.rec(q).initial@ == r.model.leaf_value(q)
                &&& r.rec(q).valid
                &&& !r.rec(q).dirty
                &&& r.rec(q).message@ == Seq::<char>::empty()
            } by {
                r.lemma_idx(q);
            }
        }
        r
    }

    /// The committed model.
    pub fn model(&self) -> (r: &M)
        ensures
            *r == self.model,
    {
        &self.model
    }

    /// The record of leaf `field_path`.
    pub fn field(&self, name: &str) -> (r: &FormField)
        requires
            self.wf(),
            self.has_path(name@),
        ensures
            *r == self.rec(name@),
    {
        let i = self.field_index(name);
        &self.fields[i]
    }

    /// True when every field is valid.
    pub fn valid(&self) -> (r: bool)
        requires
            self.wf(),
        ensures
            r == (forall|q: Seq<char>| self.has_path(q) ==> (#[trigger] self.rec(q)).valid),
    {
        let mut i: usize = 0;
        while i < self.fields.len()
            invariant
                0 <= i <= self.fields@.len(),
                self.wf(),
                forall|j: int| 0 <= j < i ==> (#[trigger] self.fields@[j]).valid,
            decreases self.fields@.len() - i,
        {
            if !self.fields[i].valid {
                proof {
                    let q = self.paths()[i as int];
                    self.lemma_idx(q);
                    assert(self.has_path(q));
                    assert(!self.rec(q).valid);
                }
                return false;
            }
            i += 1;
        }
        proof {
            assert forall|q: Seq<char>| self.has_path(q) implies (#[trigger] self.rec(q)).valid by {
                self.lemma_idx(q);
            }
        }
        true
    }

    /// True when any field is dirty.
    pub fn dirty(&self) -> (r: bool)
        requires
            self.wf(),
        ensures
            r == (exists|q: Seq<char>| self.has_path(q) && (#[trigger] self.rec(q)).dirty),
    {
        let mut i: usize = 0;
        while i < self.fields.len()
            invariant
                0 <= i <= self.fields@.len(),
                self.wf(),
                forall|j: int| 0 <= j < i ==> !(#[trigger] self.fields@[j]).dirty,
            decreases self.fields@.len() - i,
        {
            if self.fields[i].dirty {
                proof {
                    let q = self.paths()[i as int];
                    self.lemma_idx(q);
                    assert(self.has_path(q) && self.rec(q).dirty);
                }
                return true;
            }
            i += 1;
        }
        proof {
            if exists|q: Seq<char>| self.has_path(q) && (#[trigger] self.rec(q)).dirty {
                let q = choose|q: Seq<char>|
                    self.has_path(q) && (#[trigger] self.rec(q)).dirty;
                self.lemma_idx(q);
            }
        }
        false
    }

    /// Resets validity state: for `Some(f)` only that field, for `None`
    /// every field. Text, baseline and dirty marks stay as they are.
    fn clear_errors(&mut self, field: Option<&str>)
        requires
            old(self).wf(),
            field matches Some(f) ==> old(self).has_path(f@),
        ensures
            final(self).wf(),
            final(self).model == old(self).model,
            forall|q: Seq<char>|
                old(self).has_path(q) ==> same_text_state(
                    #[trigger] final(self).rec(q),
                    old(self).rec(q),
                ),
            match field {
                Some(f) => {
                    &&& final(self).rec(f@).valid
                    &&& final(self).rec(f@).message@ == Seq::<char>::empty()
                    &&& forall|q: Seq<char>|
                        old(self).has_path(q) && q != f@
                            ==> #[trigger] final(self).rec(q) == old(self).rec(q)
                },
                None => forall|q: Seq<char>|
                    old(self).has_path(q) ==> ((#[trigger] final(self).rec(q)).valid
                        && final(self).rec(q).message@ == Seq::<char>::empty()),
            },
    {
        match field {
            Some(f) => {
                let i = self.field_index(f);
                let rf = &mut self.fields[i];
                rf.valid = true;
                rf.message = String::new();
                proof {
                    old(self).lemma_idx(f@);
                    assert forall|q: Seq<char>| old(self).has_path(q) implies same_text_state(
                        #[trigger] self.rec(q),
                        old(self).rec(q),
                    ) by {
                        old(self).lemma_idx(q);
                    }
                    assert forall|q: Seq<char>|
                        old(self).has_path(q) && q != f@ implies #[trigger] self.rec(q)
                        == old(self).rec(q) by {
                        old(self).lemma_idx(q);
                        old(self).lemma_idx(f@);
                    }
                }
            },
            None => {
                let mut i: usize = 0;
                while i < self.fields.len()
                    invariant
                        0 <= i <= self.fields@.len(),
                        self.model == old(self).model,
                        self.fields@.len() == old(self).fields@.len(),
                        forall|j: int|
                            0 <= j < i ==> {
                                &&& same_text_state(
                                    #[trigger] self.fields@[j],
                                    old(self).fields@[j],
                                )
                                &&& self.fields@[j].valid
                                &&& self.fields@[j].message@ == Seq::<char>::empty()
                            },
                        forall|j: int|
                            i <= j < self.fields@.len() ==> #[trigger] self.fields@[j] == old(
                                self,
                            ).fields@[j],
                        old(self).wf(),
                    decreases self.fields@.len() - i,
                {
                    let rf = &mut self.fields[i];
                    rf.valid = true;
                    rf.message = String::new();
                    i += 1;
                }
                proof {
                    assert(self.wf());
                    assert forall|q: Seq<char>| old(self).has_path(q) implies {
                        &&& same_text_state(#[trigger] self.rec(q), old(self).rec(q))
                        &&& self.rec(q).valid
                        &&& self.rec(q).message@ == Seq::<char>::empty()
                    } by {
                        old(self).lemma_idx(q);
                    }
                }
            },
        }
    }

    /// Distributes the flattened (path, message) pairs of `entries` under
    /// `prefix` over the field table, in order: each addressed field is
    /// marked invalid with the message, so the last message addressed to a
    /// field wins; fields no pair addresses keep their state.
    #[verifier::rlimit(100)]
    #[verifier::spinoff_prover]
    fn add_errors(&mut self, prefix: &str, entries: &Vec<ErrorEntry>)
        requires
            old(self).wf(),
            forall|k: int|
                0 <= k < entries_pairs(prefix@, entries@).len() ==> old(self).has_path(
                    (#[trigger] entries_pairs(prefix@, entries@)[k]).0,
                ),
        ensures
            final(self).wf(),
            final(self).model == old(self).model,
            forall|q: Seq<char>|
                old(self).has_path(q) ==> same_text_state(
                    #[trigger] final(self).rec(q),
                    old(self).rec(q),
                ),
            forall|q: Seq<char>|
                old(self).has_path(q) ==> match last_message(
                    entries_pairs(prefix@, entries@),
                    q,
                ) {
                    Some(m) => !(#[trigger] final(self).rec(q)).valid
                        && final(self).rec(q).message@ == m,
                    None => final(self).rec(q).valid == old(self).rec(q).valid
                        && final(self).rec(q).message == old(self).rec(q).message,
                },
        decreases entries@,
    {
        let mut i: usize = 0;
        while i < entries.len()
            invariant
                0 <= i <= entries@.len(),
                self.wf(),
                self.model == old(self).model,
                old(self).wf(),
                forall|k: int|
                    0 <= k < entries_pairs(prefix@, entries@).len() ==> old(self).has_path(
                        (#[trigger] entries_pairs(prefix@, entries@)[k]).0,
                    ),
                forall|q: Seq<char>|
                    old(self).has_path(q) ==> same_text_state(
                        #[trigger] self.rec(q),
                        old(self).rec(q),
                    ),
                forall|q: Seq<char>|
                    old(self).has_path(q) ==> match last_message(
                        entries_pairs(prefix@, entries@.subrange(0, i as int)),
                        q,
                    ) {
                        Some(m) => !(#[trigger] self.rec(q)).valid && self.rec(q).message@ == m,
                        None => self.rec(q).valid == old(self).rec(q).valid && self.rec(q).message
                            == old(self).rec(q).message,
                    },
            decreases entries@.len() - i,
        {
            let ghost prev = entries_pairs(prefix@, entries@.subrange(0, i as int));
            let ghost here = entry_pairs(prefix@, entries@[i as int]);
            let ghost mid = *self;
            let entry = &entries[i];
            proof {
                let s = entries@;
                let suf = s.subrange(i as int, s.len() as int);
                assert(s =~= s.subrange(0, i as int) + suf);
                lemma_entries_pairs_concat(prefix@, s.subrange(0, i as int), suf);
                assert(suf =~= seq![s[i as int]] + s.subrange(i + 1, s.len() as int));
                lemma_entries_pairs_concat(
                    prefix@,
                    seq![s[i as int]],
                    s.subrange(i + 1, s.len() as int),
                );
                let single = seq![s[i as int]];
                assert(single.len() == 1);
                assert(single.drop_last() =~= Seq::<ErrorEntry>::empty());
                assert(single.last() == s[i as int]);
                assert(entries_pairs(prefix@, single) == entries_pairs(prefix@, single.drop_last())
                    + entry_pairs(prefix@, single.last()));
                assert(entries_pairs(prefix@, single.drop_last())
                    == Seq::<(Seq<char>, Seq<char>)>::empty());
                assert(entries_pairs(prefix@, single) =~= here);
                assert forall|k: int| 0 <= k < here.len() implies old(self).has_path(
                    (#[trigger] here[k]).0,
                ) by {
                    assert(entries_pairs(prefix@, s)[prev.len() + k] == here[k]);
                }
            }
            match &entry.kind {
                ValidationErrorsKind::Struct(sub) => {
                    let child_prefix = join_field_path(prefix, entry.name.as_str());
                    proof {
                        assert(decreases_to!(entries@ => entries@[i as int]));
                        assert(decreases_to!(entries@[i as int] => entries@[i as int].kind));
                        assert(decreases_to!(entries@[i as int].kind => sub@));
                        assert(here == entries_pairs(child_prefix@, sub@));
                    }
                    self.add_errors(child_prefix.as_str(), sub);
                },
                ValidationErrorsKind::List => {
                    proof {
                        assert(here =~= Seq::<(Seq<char>, Seq<char>)>::empty());
                        assert forall|q: Seq<char>| last_message(here, q) is None by {
                            lemma_last_message_none(here, q);
                        }
                    }
                },
                ValidationErrorsKind::Field(errs) => {
                    let full = join_field_path(prefix, entry.name.as_str());
                    proof {
                        assert(here =~= seq![(full@, leaf_message(errs@))]);
                        assert(here[0].0 == full@);
                        assert(old(self).has_path(full@));
                    }
                    let msg = leaf_message_text(errs);
                    let i2 = self.field_index(full.as_str());
                    let rf = &mut self.fields[i2];
                    rf.valid = false;
                    rf.message = msg;
                    proof {
                        mid.lemma_idx(full@);
                        assert(here.last() == (full@, leaf_message(errs@)));
                        assert(last_message(here, full@) == Some(leaf_message(errs@)));
                        assert forall|q: Seq<char>| q != full@ implies last_message(here, q)
                            is None by {
                            lemma_last_message_none(here, q);
                        }
                        assert forall|q: Seq<char>| old(self).has_path(q) implies {
                            &&& same_text_state(#[trigger] self.rec(q), mid.rec(q))
                            &&& (q == full@ ==> !self.rec(q).valid && self.rec(q).message@
                                == leaf_message(errs@))
                            &&& (q != full@ ==> self.rec(q) == mid.rec(q))
                        } by {
                            mid.lemma_idx(q);
                        }
                    }
                },
            }
            proof {
                let sub1 = entries@.subrange(0, i + 1 as int);
                assert(sub1.drop_last() =~= entries@.subrange(0, i as int));
                assert(sub1.last() == entries@[i as int]);
                assert(entries_pairs(prefix@, sub1) == prev + here);
                assert forall|q: Seq<char>| old(self).has_path(q) implies {
                    &&& same_text_state(#[trigger] self.rec(q), old(self).rec(q))
                    &&& match last_message(entries_pairs(prefix@, sub1), q) {
                        Some(m) => !self.rec(q).valid && self.rec(q).message@ == m,
                        None => self.rec(q).valid == old(self).rec(q).valid && self.rec(q).message
                            == old(self).rec(q).message,
                    }
                } by {
                    lemma_last_message_concat(prev, here, q);
                }
            }
            i += 1;
        }
        proof {
            assert(entries@.subrange(0, entries@.len() as int) =~= entries@);
        }
    }

    /// Clears every field's validity state, then distributes the whole
    /// model's validation errors over the table.
    fn update_validation(&mut self)
        requires
            old(self).wf(),
        ensures
            final(self).wf(),
            final(self).model == old(self).model,
            forall|q: Seq<char>|
                old(self).has_path(q) ==> same_text_state(
                    #[trigger] final(self).rec(q),
                    old(self).rec(q),
                ),
            forall|q: Seq<char>|
                old(self).has_path(q) ==> (#[trigger] final(self).rec(q)).valid
                    == validation_flag(old(self).model, q),
            forall|q: Seq<char>|
                old(self).has_path(q) ==> (#[trigger] final(self).rec(q)).message@
                    == validation_message(old(self).model, q),
    {
        self.clear_errors(None);
        let ghost mid = *self;
        let result = self.model.validate();
        match result {
            Ok(_) => {},
            Err(errors) => {
                proof {
                    reveal_strlit("");
                    assert(""@ =~= Seq::<char>::empty());
                    assert(entries_pairs(""@, errors.entries@) == error_pairs(errors));
                }
                self.add_errors("", &errors.entries);
                proof {
                    assert forall|q: Seq<char>| old(self).has_path(q) implies {
                        &&& same_text_state(#[trigger] self.rec(q), old(self).rec(q))
                        &&& self.rec(q).valid == validation_flag(old(self).model, q)
                        &&& self.rec(q).message@ == validation_message(old(self).model, q)
                    } by {
                        assert(mid.has_path(q));
                    }
                }
            },
        }
    }

    /// Scoped revalidation: clears only the state of the field at
    /// `field_name`, runs structural validation on the whole model, and
    /// applies to this one field the message addressed to it, if any. No
    /// other field is touched.
    fn update_validation_field(&mut self, field_name: &str)
        requires
            old(self).wf(),
            old(self).has_path(field_name@),
        ensures
            final(self).wf(),
            final(self).model == old(self).model,
            forall|q: Seq<char>|
                old(self).has_path(q) && q != field_name@
                    ==> #[trigger] final(self).rec(q) == old(self).rec(q),
            same_text_state(final(self).rec(field_name@), old(self).rec(field_name@)),
            final(self).rec(field_name@).valid == validation_flag(old(self).model, field_name@),
            final(self).rec(field_name@).message@ == validation_message(
                old(self).model,
                field_name@,
            ),
    {
        self.clear_errors(Some(field_name));
        let ghost mid = *self;
        let result = self.model.validate();
        match result {
            Ok(_) => {},
            Err(errors) => {
                proof {
                    reveal_strlit("");
                    assert(""@ =~= Seq::<char>::empty());
                    assert(entries_pairs(""@, errors.entries@) == error_pairs(errors));
                }
                let msg = find_message(&errors.entries, "", field_name);
                match msg {
                    Some(m) => {
                        let i = self.field_index(field_name);
                        let rf = &mut self.fields[i];
                        rf.valid = false;
                        rf.message = m;
                        proof {
                            mid.lemma_idx(field_name@);
                            assert forall|q: Seq<char>|
                                old(self).has_path(q) && q != field_name@
                                implies #[trigger] self.rec(q) == old(self).rec(q) by {
                                mid.lemma_idx(q);
                                assert(mid.has_path(q));
                                assert(mid.rec(q) == old(self).rec(q));
                                assert(self.idx(q) == mid.idx(q));
                                assert(mid.paths()[i as int] == field_name@);
                                assert(self.idx(q) != i as int);
                                assert(self.rec(q) == mid.rec(q));
                            }
                        }
                    },
                    None => {},
                }
            },
        }
    }

    /// The core write algorithm. When `value` equals the field's current
    /// text this is a no-op returning `false`. Otherwise the record takes
    /// the typed text and is marked dirty; a successful conversion commits
    /// the value into the model and reruns validation scoped to this field,
    /// while a conversion failure leaves the model and every other field
    /// untouched and marks only this field invalid. Returns whether
    /// anything changed.
    pub fn set_value(&mut self, field_name: &str, value: &str) -> (changed: bool)
        requires
            old(self).wf(),
            old(self).has_path(field_name@),
        ensures
            final(self).wf(),
            final(self).paths() == old(self).paths(),
            changed == (old(self).rec(field_name@).value@ != value@),
            !changed ==> *final(self) == *old(self),
            changed ==> final(self).rec(field_name@).value@ == value@,
            changed ==> final(self).rec(field_name@).dirty,
            changed ==> final(self).rec(field_name@).initial == old(self).rec(field_name@).initial,
            changed ==> final(self).rec(field_name@).name == old(self).rec(field_name@).name,
            forall|q: Seq<char>|
                old(self).has_path(q) && q != field_name@
                    ==> #[trigger] final(self).rec(q) == old(self).rec(q),
            changed && M::accepts(field_name@, value@) ==> {
                &&& final(self).model.leaf_value(field_name@) == M::converted(field_name@, value@)
                &&& forall|q: Seq<char>|
                    old(self).has_path(q) && q != field_name@
                        ==> #[trigger] final(self).model.leaf_value(q) == old(
                        self,
                    ).model.leaf_value(q)
                &&& final(self).rec(field_name@).valid == validation_flag(
                    final(self).model,
                    field_name@,
                )
                &&& final(self).rec(field_name@).message@ == validation_message(
                    final(self).model,
                    field_name@,
                )
            },
            changed && !M::accepts(field_name@, value@) ==> {
                &&& forall|q: Seq<char>|
                    old(self).has_path(q) ==> #[trigger] final(self).model.leaf_value(q) == old(
                        self,
                    ).model.leaf_value(q)
                &&& !final(self).rec(field_name@).valid
                &&& final(self).rec(field_name@).message@ == conversion_failure_message()
            },
    {
        let i = self.field_index(field_name);
        if str_eq(self.fields[i].value.as_str(), value) {
            return false;
        }
        let result = self.model.set_value(field_name, value);
        {
            let rf = &mut self.fields[i];
            rf.value = String::from_str(value);
            rf.dirty = true;
        }
        proof {
            old(self).lemma_idx(field_name@);
            assert forall|q: Seq<char>|
                old(self).has_path(q) && q != field_name@ implies #[trigger] self.rec(q) == old(
                self,
            ).rec(q) by {
                old(self).lemma_idx(q);
            }
        }
        match result {
            Ok(_) => {
                let ghost mid = *self;
                self.update_validation_field(field_name);
                proof {
                    assert forall|q: Seq<char>|
                        old(self).has_path(q) && q != field_name@
                        implies #[trigger] self.rec(q) == old(self).rec(q) by {
                        assert(mid.rec(q) == old(self).rec(q));
                    }
                }
            },
            Err(e) => {
                let rf = &mut self.fields[i];
                rf.valid = false;
                rf.message = e;
                proof {
                    assert forall|q: Seq<char>|
                        old(self).has_path(q) && q != field_name@
                        implies #[trigger] self.rec(q) == old(self).rec(q) by {
                        old(self).lemma_idx(q);
                    }
                }
            },
        }
        true
    }

    /// Marks every field dirty, distributes full validation over the
    /// table, and reports whether every field is then valid. Surfacing all
    /// errors even for untouched fields is what submitting a form needs.
    pub fn validate(&mut self) -> (r: bool)
        requires
            old(self).wf(),
        ensures
            final(self).wf(),
            final(self).model == old(self).model,
            forall|q: Seq<char>|
                old(self).has_path(q) ==> {
                    &&& (#[trigger] final(self).rec(q)).dirty
                    &&& final(self).rec(q).name == old(self).rec(q).name
                    &&& final(self).rec(q).value == old(self).rec(q).value
                    &&& final(self).rec(q).initial == old(self).rec(q).initial
                    &&& final(self).rec(q).valid == validation_flag(old(self).model, q)
                    &&& final(self).rec(q).message@ == validation_message(old(self).model, q)
                },
            r == (forall|q: Seq<char>|
                old(self).has_path(q) ==> validation_flag(old(self).model, #[trigger] trigger_q(
                    q,
                ))),
    {
        let mut i: usize = 0;
        while i < self.fields.len()
            invariant
                0 <= i <= self.fields@.len(),
                self.model == old(self).model,
                self.fields@.len() == old(self).fields@.len(),
                forall|j: int|
                    0 <= j < i ==> {
                        &&& (#[trigger] self.fields@[j]).name == old(self).fields@[j].name
                        &&& self.fields@[j].value == old(self).fields@[j].value
                        &&& self.fields@[j].initial == old(self).fields@[j].initial
                        &&& self.fields@[j].valid == old(self).fields@[j].valid
                        &&& self.fields@[j].message == old(self).fields@[j].message
                        &&& self.fields@[j].dirty
                    },
                forall|j: int|
                    i <= j < self.fields@.len() ==> #[trigger] self.fields@[j] == old(
                        self,
                    ).fields@[j],
                old(self).wf(),
            decreases self.fields@.len() - i,
        {
            let rf = &mut self.fields[i];
            rf.dirty = true;
            i += 1;
        }
        proof {
            assert(self.wf());
        }
        let ghost marked = *self;
        self.update_validation();
        proof {
            assert forall|q: Seq<char>| old(self).has_path(q) implies {
                &&& (#[trigger] self.rec(q)).dirty
                &&& self.rec(q).name == old(self).rec(q).name
                &&& self.rec(q).value == old(self).rec(q).value
                &&& self.rec(q).initial == old(self).rec(q).initial
                &&& self.rec(q).valid == validation_flag(old(self).model, q)
                &&& self.rec(q).message@ == validation_message(old(self).model, q)
            } by {
                old(self).lemma_idx(q);
                assert(marked.has_path(q));
            }
        }
        let r = self.valid();
        proof {
            if r {
                assert forall|q: Seq<char>| old(self).has_path(q) implies validation_flag(
                    old(self).model,
                    #[trigger] trigger_q(q),
                ) by {
                    assert(self.rec(q).valid);
                }
            } else {
                let q = choose|q: Seq<char>| self.has_path(q) && !(#[trigger] self.rec(q)).valid;
                assert(!validation_flag(old(self).model, trigger_q(q)));
            }
        }
        r
    }

    /// Takes over the committed values of `model`, which must have the same
    /// leaf structure, while keeping every field's baseline: differences
    /// surface as dirty fields and are revalidated as they are written.
    /// Fields whose text already matched are untouched, and the committed
    /// model is only replaced when some text differed. The validity of a
    /// rewritten field comes from the revalidation pass its write ran, as
    /// under `set_value`.
    pub fn update(&mut self, model: M)
        requires
            old(self).wf(),
            model.leaf_paths() == old(self).paths(),
        ensures
            final(self).wf(),
            final(self).paths() == old(self).paths(),
            forall|q: Seq<char>|
                old(self).has_path(q) ==> {
                    &&& (#[trigger] final(self).rec(q)).value@ == model.leaf_value(q)
                    &&& final(self).rec(q).initial == old(self).rec(q).initial
                    &&& final(self).rec(q).name == old(self).rec(q).name
                },
            forall|q: Seq<char>|
                old(self).has_path(q) && old(self).rec(q).value@ == model.leaf_value(q)
                    ==> #[trigger] final(self).rec(q) == old(self).rec(q),
            (exists|q: Seq<char>|
                old(self).has_path(q) && (#[trigger] old(self).rec(q)).value@ != model.leaf_value(
                    q,
                )) ==> final(self).model == model,
            (forall|q: Seq<char>|
                old(self).has_path(q) ==> (#[trigger] old(self).rec(q)).value@ == model.leaf_value(
                    q,
                )) ==> *final(self) == *old(self),
    {
        let mut path_texts: Vec<String> = Vec::new();
        model.fields("", &mut path_texts);
        proof {
            reveal_strlit("");
            assert(path_texts.deep_view() =~~= model.leaf_paths());
            model.lemma_leaf_paths_distinct();
        }
        let mut any = false;
        let mut i: usize = 0;
        while i < path_texts.len()
            invariant
                0 <= i <= path_texts@.len(),
                path_texts.deep_view() == model.leaf_paths(),
                path_texts@.len() == model.leaf_paths().len(),
                self.wf(),
                self.paths() == old(self).paths(),
                model.leaf_paths() == old(self).paths(),
                old(self).wf(),
                forall|j: int|
                    0 <= j < i ==> {
                        &&& (#[trigger] self.rec(model.leaf_paths()[j])).value@
                            == model.leaf_value(model.leaf_paths()[j])
                        &&& self.rec(model.leaf_paths()[j]).initial == old(self).rec(
                            model.leaf_paths()[j],
                        ).initial
                        &&& self.rec(model.leaf_paths()[j]).name == old(self).rec(
                            model.leaf_paths()[j],
                        ).name
                    },
                forall|j: int|
                    0 <= j < i && old(self).rec(model.leaf_paths()[j]).value@ == model.leaf_value(
                        model.leaf_paths()[j],
                    ) ==> #[trigger] self.rec(model.leaf_paths()[j]) == old(self).rec(
                        model.leaf_paths()[j],
                    ),
                forall|j: int|
                    i <= j < model.leaf_paths().len() ==> #[trigger] self.rec(
                        model.leaf_paths()[j],
                    ) == old(self).rec(model.leaf_paths()[j]),
                any == (exists|j: int|
                    0 <= j < i && (#[trigger] old(self).rec(model.leaf_paths()[j])).value@
                        != model.leaf_value(model.leaf_paths()[j])),
                !any ==> *self == *old(self),
            decreases path_texts@.len() - i,
        {
            let p = &path_texts[i];
            proof {
                assert(model.leaf_paths()[i as int] == p@);
                assert(self.has_path(p@));
                self.lemma_idx(p@);
            }
            let text = model.value(p.as_str());
            let ghost before = *self;
            let changed = self.set_value(p.as_str(), text.as_str());
            any = any || changed;
            proof {
                assert forall|j: int|
                    0 <= j < i + 1 && old(self).rec(model.leaf_paths()[j]).value@
                        == model.leaf_value(model.leaf_paths()[j])
                    implies #[trigger] self.rec(model.leaf_paths()[j]) == old(self).rec(
                    model.leaf_paths()[j],
                ) by {
                    if model.leaf_paths()[j] != p@ {
                        assert(self.rec(model.leaf_paths()[j]) == before.rec(
                            model.leaf_paths()[j],
                        ));
                    }
                }
                assert forall|j: int|
                    i + 1 <= j < model.leaf_paths().len() implies #[trigger] self.rec(
                    model.leaf_paths()[j],
                ) == old(self).rec(model.leaf_paths()[j]) by {
                    before.lemma_idx(model.leaf_paths()[j]);
                    before.lemma_idx(p@);
                    assert(model.leaf_paths()[j] != p@);
                }
            }
            i += 1;
        }
        if any {
            let ghost done = *self;
            self.model = model;
            proof {
                assert(self.fields == done.fields);
                assert(self.paths() == done.paths());
                assert forall|q: Seq<char>| old(self).has_path(q) implies {
                    &&& (#[trigger] self.rec(q)).value@ == model.leaf_value(q)
                    &&& self.rec(q).initial == old(self).rec(q).initial
                    &&& self.rec(q).name == old(self).rec(q).name
                    &&& (old(self).rec(q).value@ == model.leaf_value(q) ==> self.rec(q) == old(
                        self,
                    ).rec(q))
                } by {
                    old(self).lemma_idx(q);
                    let j = old(self).idx(q);
                    assert(model.leaf_paths()[j] == q);
                    assert(done.rec(model.leaf_paths()[j]) == done.rec(q));
                    assert(old(self).rec(model.leaf_paths()[j]) == old(self).rec(q));
                    assert(self.idx(q) == done.idx(q));
                    assert(self.rec(q) == done.rec(q));
                }
            }
        } else {
            proof {
                assert forall|q: Seq<char>| old(self).has_path(q) implies {
                    &&& (#[trigger] self.rec(q)).value@ == model.leaf_value(q)
                    &&& self.rec(q).initial == old(self).rec(q).initial
                    &&& self.rec(q).name == old(self).rec(q).name
                } by {
                    old(self).lemma_idx(q);
                    let j = old(self).idx(q);
                    assert(model.leaf_paths()[j] == q);
                    assert(!(old(self).rec(model.leaf_paths()[j]).value@ != model.leaf_value(
                        model.leaf_paths()[j],
                    )));
                    assert(self.rec(q) == old(self).rec(q));
                }
            }
        }
    }

    /// Replaces the model and resets every field's state, as a fresh
    /// construction would.
    pub fn replace(&mut self, model: M)
        ensures
            final(self).wf(),
            final(self).model == model,
            final(self).paths() == model.leaf_paths(),
            forall|q: Seq<char>|
                final(self).has_path(q) ==> {
                    &&& (#[trigger] final(self).rec(q)).value@ == model.leaf_value(q)
                    &&& final(self).rec(q).initial@ == model.leaf_value(q)
                    &&& final(self).rec(q).valid
                    &&& !final(self).rec(q).dirty
                    &&& final(self).rec(q).message@ == Seq::<char>::empty()
                },
    {
        *self = Self::new(model);
    }

    /// Whether the field at `field_path` is currently valid.
    pub fn field_valid(&self, field_path: &str) -> (r: bool)
        requires
            self.wf(),
            self.has_path(field_path@),
        ensures
            r == self.rec(field_path@).valid,
    {
        self.field(field_path).valid
    }

    /// The message displayed for the field at `field_path`; empty when the
    /// field is valid.
    pub fn field_message<'a>(&'a self, field_path: &str) -> (r: &'a str)
        requires
            self.wf(),
            self.has_path(field_path@),
        ensures
            r@ == self.rec(field_path@).message@,
    {
        self.field(field_path).message.as_str()
    }
}

} // verus!
