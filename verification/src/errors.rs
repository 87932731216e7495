//! The validation-error tree a model's structural validation oracle hands
//! back: per-field errors keyed by field name, mirroring the model's own
//! composite nesting. The form state flattens the tree by string-joining
//! names as it walks it.

use vstd::prelude::*;
use crate::path::{spec_join, join_field_path, str_eq};

verus! {

/// One structural validation failure, with an optional human-readable
/// message.
pub struct ValidationError {
    pub message: Option<String>,
}

/// The errors recorded under one field name.
pub enum ValidationErrorsKind {
    /// Errors of a nested composite member, keyed by its own field names.
    Struct(Vec<ErrorEntry>),
    /// Errors of a sequence member; error distribution ignores these
    /// (a documented limitation).
    List,
    /// Errors at a leaf field.
    Field(Vec<ValidationError>),
}

/// A field name together with the errors recorded under it.
pub struct ErrorEntry {
    pub name: String,
    pub kind: ValidationErrorsKind,
}

/// A validation-error tree: the detail behind "the model is invalid".
pub struct ValidationErrors {
    pub entries: Vec<ErrorEntry>,
}

/// The message displayed for a leaf error list: the first error's message,
/// or a fixed fallback when it carries none.
pub open spec fn leaf_message(errs: Seq<ValidationError>) -> Seq<char> {
    if errs.len() > 0 && errs[0].message is Some {
        errs[0].message->0@
    } else {
        "Error"@
    }
}

/// The flattened (path, message) pairs of one entry, under `prefix`.
pub open spec fn entry_pairs(prefix: Seq<char>, e: ErrorEntry) -> Seq<(Seq<char>, Seq<char>)>
    decreases e,
{
    match e.kind {
        ValidationErrorsKind::Struct(sub) => entries_pairs(spec_join(prefix, e.name@), sub@),
        ValidationErrorsKind::List => Seq::empty(),
        ValidationErrorsKind::Field(errs) => seq![
            (spec_join(prefix, e.name@), leaf_message(errs@)),
        ],
    }
}

/// The flattened (path, message) pairs of a list of entries, in order.
pub open spec fn entries_pairs(prefix: Seq<char>, s: Seq<ErrorEntry>) -> Seq<
    (Seq<char>, Seq<char>),
>
    decreases s,
{
    if s.len() == 0 {
        Seq::empty()
    } else {
        entries_pairs(prefix, s.drop_last()) + entry_pairs(prefix, s.last())
    }
}

/// The flattened pairs of a whole error tree.
pub open spec fn error_pairs(e: ValidationErrors) -> Seq<(Seq<char>, Seq<char>)> {
    entries_pairs(Seq::empty(), e.entries@)
}

/// Every flattened error path of `e` occurs among `paths`.
pub open spec fn error_paths_within(e: ValidationErrors, paths: Seq<Seq<char>>) -> bool {
    forall|k: int|
        0 <= k < error_pairs(e).len() ==> paths.contains((#[trigger] error_pairs(e)[k]).0)
}

/// The message that distributing `pairs` in order leaves at `q`: the last
/// pair addressed to `q`, if any.
pub open spec fn last_message(pairs: Seq<(Seq<char>, Seq<char>)>, q: Seq<char>) -> Option<
    Seq<char>,
>
    decreases pairs.len(),
{
    if pairs.len() == 0 {
        None
    } else if pairs.last().0 == q {
        Some(pairs.last().1)
    } else {
        last_message(pairs.drop_last(), q)
    }
}

pub proof fn lemma_last_message_concat(
    a: Seq<(Seq<char>, Seq<char>)>,
    b: Seq<(Seq<char>, Seq<char>)>,
    q: Seq<char>,
)
    ensures
        last_message(a + b, q) == (if last_message(b, q) is Some {
            last_message(b, q)
        } else {
            last_message(a, q)
        }),
    decreases b.len(),
{
    if b.len() == 0 {
        assert(a + b =~= a);
    } else {
        assert((a + b).last() == b.last());
        assert((a + b).drop_last() =~= a + b.drop_last());
        lemma_last_message_concat(a, b.drop_last(), q);
    }
}

/// Flattening distributes over concatenation of entry lists.
pub proof fn lemma_entries_pairs_concat(prefix: Seq<char>, a: Seq<ErrorEntry>, b: Seq<ErrorEntry>)
    ensures
        entries_pairs(prefix, a + b) == entries_pairs(prefix, a) + entries_pairs(prefix, b),
    decreases b.len(),
{
    if b.len() == 0 {
        assert(a + b =~= a);
        assert(entries_pairs(prefix, b) == Seq::<(Seq<char>, Seq<char>)>::empty());
        assert(entries_pairs(prefix, a) + entries_pairs(prefix, b) =~= entries_pairs(prefix, a));
    } else {
        assert((a + b).last() == b.last());
        assert((a + b).drop_last() =~= a + b.drop_last());
        lemma_entries_pairs_concat(prefix, a, b.drop_last());
        assert(entries_pairs(prefix, a + b) == entries_pairs(prefix, a) + entries_pairs(
            prefix,
            b.drop_last(),
        ) + entry_pairs(prefix, b.last()));
        assert(entries_pairs(prefix, a) + entries_pairs(prefix, b.drop_last()) + entry_pairs(
            prefix,
            b.last(),
        ) =~= entries_pairs(prefix, a) + (entries_pairs(prefix, b.drop_last()) + entry_pairs(
            prefix,
            b.last(),
        )));
    }
}

/// A path no pair addresses receives no message.
pub proof fn lemma_last_message_none(pairs: Seq<(Seq<char>, Seq<char>)>, q: Seq<char>)
    requires
        forall|k: int| 0 <= k < pairs.len() ==> (#[trigger] pairs[k]).0 != q,
    ensures
        last_message(pairs, q) is None,
    decreases pairs.len(),
{
    if pairs.len() > 0 {
        lemma_last_message_none(pairs.drop_last(), q);
    }
}

/// A message is left at `q` exactly when some pair addresses `q`.
pub proof fn lemma_last_message_addressed(pairs: Seq<(Seq<char>, Seq<char>)>, q: Seq<char>)
    ensures
        last_message(pairs, q) is Some <==> exists|k: int|
            0 <= k < pairs.len() && (#[trigger] pairs[k]).0 == q,
    decreases pairs.len(),
{
    if pairs.len() == 0 {
    } else if pairs.last().0 == q {
        assert(pairs[pairs.len() - 1].0 == q);
    } else {
        lemma_last_message_addressed(pairs.drop_last(), q);
        if last_message(pairs, q) is Some {
            let k = choose|k: int|
                0 <= k < pairs.drop_last().len() && (#[trigger] pairs.drop_last()[k]).0 == q;
            assert(pairs[k].0 == q);
        }
        if exists|k: int| 0 <= k < pairs.len() && (#[trigger] pairs[k]).0 == q {
            let k = choose|k: int| 0 <= k < pairs.len() && (#[trigger] pairs[k]).0 == q;
            assert(k < pairs.len() - 1);
            assert(pairs.drop_last()[k].0 == q);
        }
    }
}

/// The display text for a leaf error list.
pub(crate) fn leaf_message_text(errs: &Vec<ValidationError>) -> (r: String)
    ensures
        r@ == leaf_message(errs@),
{
    if errs.len() > 0 {
        match &errs[0].message {
            Some(m) => m.clone(),
            None => String::from_str("Error"),
        }
    } else {
        String::from_str("Error")
    }
}

/// Searches the error tree for the message that error distribution under
/// `prefix` would leave at leaf `target`: the last matching entry wins.
pub fn find_message(entries: &Vec<ErrorEntry>, prefix: &str, target: &str) -> (r: Option<
    String,
>)
    ensures
        r is Some <==> last_message(entries_pairs(prefix@, entries@), target@) is Some,
        r matches Some(m) ==> Some(m@) == last_message(entries_pairs(prefix@, entries@), target@),
    decreases entries@,
{
    let mut found: Option<String> = None;
    let mut i: usize = 0;
    while i < entries.len()
        invariant
            0 <= i <= entries@.len(),
            found is Some <==> last_message(entries_pairs(prefix@, entries@.subrange(0, i as int)), target@) is Some,
            found matches Some(m) ==> Some(m@) == last_message(
                entries_pairs(prefix@, entries@.subrange(0, i as int)),
                target@,
            ),
        decreases entries@.len() - i,
    {
        let ghost prev = entries_pairs(prefix@, entries@.subrange(0, i as int));
        let ghost here = entry_pairs(prefix@, entries@[i as int]);
        let entry = &entries[i];
        match &entry.kind {
            ValidationErrorsKind::Struct(sub) => {
                let child_prefix = join_field_path(prefix, entry.name.as_str());
                proof {
                    assert(decreases_to!(entries@ => entries@[i as int]));
                    assert(decreases_to!(entries@[i as int] => entries@[i as int].kind));
                    assert(decreases_to!(entries@[i as int].kind => sub@));
                }
                let sub_found = find_message(sub, child_prefix.as_str(), target);
                proof {
                    assert(here == entries_pairs(child_prefix@, sub@));
                }
                if sub_found.is_some() {
                    found = sub_found;
                }
            },
            ValidationErrorsKind::List => {
                proof {
                    assert(here =~= Seq::<(Seq<char>, Seq<char>)>::empty());
                    lemma_last_message_none(here, target@);
                }
            },
            ValidationErrorsKind::Field(errs) => {
                let full = join_field_path(prefix, entry.name.as_str());
                proof {
                    assert(here =~= seq![(full@, leaf_message(errs@))]);
                }
                if str_eq(full.as_str(), target) {
                    found = Some(leaf_message_text(errs));
                    proof {
                        assert(here.last() == (full@, leaf_message(errs@)));
                        assert(last_message(here, target@) == Some(leaf_message(errs@)));
                    }
                } else {
                    proof {
                        assert(forall|k: int|
                            0 <= k < here.len() ==> (#[trigger] here[k]).0 != target@);
                        lemma_last_message_none(here, target@);
                    }
                }
            },
        }
        proof {
            let sub1 = entries@.subrange(0, i + 1 as int);
            assert(sub1.drop_last() =~= entries@.subrange(0, i as int));
            assert(sub1.last() == entries@[i as int]);
            assert(entries_pairs(prefix@, sub1) == entries_pairs(prefix@, sub1.drop_last())
                + entry_pairs(prefix@, sub1.last()));
            assert(entries_pairs(prefix@, sub1) == prev + here);
            lemma_last_message_concat(prev, here, target@);
        }
        i += 1;
    }
    proof {
        assert(entries@.subrange(0, entries@.len() as int) =~= entries@);
    }
    found
}

} // verus!
