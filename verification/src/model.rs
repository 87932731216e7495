//! The model capability: the contract a data type satisfies to take part in
//! a form. A value enumerates its addressable leaf paths, renders the text
//! at a leaf, and attempts to write text at a leaf, reporting conversion
//! failure. Scalars are single leaves; composites delegate along the path.
//!
//! Implementations for the scalar primitives, optional values and
//! homogeneous sequences live here; user-defined composite types implement
//! the same contract by delegating to their members field by field.

use vstd::prelude::*;
use crate::path::spec_join;
use crate::path::str_eq;
use crate::digits::{all_digits, dec_of, str_to_int, parse_decimal, render_decimal,
    signed_digits, signed_dec_of, signed_str_to_int, parse_signed, render_signed};
use crate::errors::{ValidationErrors, error_paths_within};

verus! {

/// No two entries of `ps` are equal.
pub open spec fn distinct_seqs(ps: Seq<Seq<char>>) -> bool {
    forall|i: int, j: int| 0 <= i < j < ps.len() ==> #[trigger] ps[i] != #[trigger] ps[j]
}

/// The message recorded when a typed text cannot be converted to the
/// addressed field's type.
pub open spec fn conversion_failure_message() -> Seq<char> {
    "Could not convert value to type"@
}

fn conversion_failure_text() -> (r: String)
    ensures
        r@ == conversion_failure_message(),
{
    String::from_str("Could not convert value to type")
}

/// The capability a type needs to participate in a form: enumerate its leaf
/// paths, read the canonical text at a leaf, and attempt to write text at a
/// leaf. Writes never change the leaf-path structure, never touch other
/// leaves, and leave the value untouched on conversion failure.
pub trait FormValue: Sized {
    /// The leaf paths of this value, relative to the value itself. The
    /// default announces a single leaf, as a scalar has.
    open spec fn leaf_paths(&self) -> Seq<Seq<char>> {
        seq![Seq::<char>::empty()]
    }

    /// The canonical text at a leaf path.
    open spec fn leaf_value(&self, path: Seq<char>) -> Seq<char> {
        Seq::empty()
    }

    /// Whether `value` converts to the type addressed by `path`.
    open spec fn accepts(path: Seq<char>, value: Seq<char>) -> bool {
        true
    }

    /// The canonical text stored at `path` once `value` has converted.
    open spec fn converted(path: Seq<char>, value: Seq<char>) -> Seq<char> {
        value
    }

    /// Leaf paths never repeat.
    proof fn lemma_leaf_paths_distinct(&self)
        ensures
            distinct_seqs(self.leaf_paths()),
    ;

    /// Appends to `out` every leaf path of this value, each joined under
    /// `prefix`.
    fn fields(&self, prefix: &str, out: &mut Vec<String>)
        ensures
            final(out).deep_view() == old(out).deep_view() + self.leaf_paths().map_values(
                |p: Seq<char>| spec_join(prefix@, p),
            ),
    ;

    /// Reads the canonical text at `field_path`.
    fn value(&self, field_path: &str) -> (r: String)
        requires
            self.leaf_paths().contains(field_path@),
        ensures
            r@ == self.leaf_value(field_path@),
    ;

    /// Attempts to write `value` at `field_path`. On success the addressed
    /// leaf holds the converted text; on conversion failure the value is
    /// left untouched and the error message is returned.
    fn set_value(&mut self, field_path: &str, value: &str) -> (r: Result<(), String>)
        requires
            old(self).leaf_paths().contains(field_path@),
        ensures
            final(self).leaf_paths() == old(self).leaf_paths(),
            r is Ok <==> Self::accepts(field_path@, value@),
            r is Ok ==> final(self).leaf_value(field_path@) == Self::converted(
                field_path@,
                value@,
            ),
            forall|q: Seq<char>|
                old(self).leaf_paths().contains(q) && q != field_path@
                    ==> #[trigger] final(self).leaf_value(q) == old(self).leaf_value(q),
            r is Err ==> final(self).leaf_value(field_path@) == old(self).leaf_value(
                field_path@,
            ),
            r matches Err(m) ==> m@ == conversion_failure_message(),
    ;
}

/// A scalar form value: the value is itself a single leaf, addressed by the
/// empty path. `blank` is the value an absent optional entry starts from
/// before a write.
pub trait ScalarValue: FormValue {
    proof fn lemma_scalar(&self)
        ensures
            self.leaf_paths() == seq![Seq::<char>::empty()],
    ;

    fn blank() -> Self;
}

/// A form model: a form value with a structural validation oracle. The
/// oracle judges the whole model and reports failures as an error tree
/// mirroring the model's nesting; its outcome is a function of the model
/// value, and every error it reports addresses an existing leaf path.
pub trait Model: FormValue {
    /// The validation outcome for this model value.
    open spec fn spec_validate(&self) -> Result<(), ValidationErrors> {
        Ok(())
    }

    /// Runs structural validation on the whole model.
    fn validate(&self) -> (r: Result<(), ValidationErrors>)
        ensures
            r == self.spec_validate(),
            r matches Err(e) ==> error_paths_within(e, self.leaf_paths()),
    ;
}

impl FormValue for String {
    open spec fn leaf_paths(&self) -> Seq<Seq<char>> {
        seq![Seq::<char>::empty()]
    }

    open spec fn leaf_value(&self, path: Seq<char>) -> Seq<char> {
        self@
    }

    open spec fn accepts(path: Seq<char>, value: Seq<char>) -> bool {
        true
    }

    open spec fn converted(path: Seq<char>, value: Seq<char>) -> Seq<char> {
        value
    }

    proof fn lemma_leaf_paths_distinct(&self) {
    }

    fn fields(&self, prefix: &str, out: &mut Vec<String>) {
        out.push(String::from_str(prefix));
        proof {
            assert(out.deep_view() =~~= old(out).deep_view() + self.leaf_paths().map_values(
                |p: Seq<char>| spec_join(prefix@, p),
            ));
        }
    }

    fn value(&self, field_path: &str) -> (r: String) {
        self.clone()
    }

    fn set_value(&mut self, field_path: &str, value: &str) -> (r: Result<(), String>) {
        *self = String::from_str(value);
        Ok(())
    }
}

impl ScalarValue for String {
    proof fn lemma_scalar(&self) {
    }

    fn blank() -> Self {
        String::new()
    }
}

impl FormValue for bool {
    open spec fn leaf_paths(&self) -> Seq<Seq<char>> {
        seq![Seq::<char>::empty()]
    }

    open spec fn leaf_value(&self, path: Seq<char>) -> Seq<char> {
        if *self {
            "true"@
        } else {
            "false"@
        }
    }

    open spec fn accepts(path: Seq<char>, value: Seq<char>) -> bool {
        value == "true"@ || value == "false"@
    }

    open spec fn converted(path: Seq<char>, value: Seq<char>) -> Seq<char> {
        value
    }

    proof fn lemma_leaf_paths_distinct(&self) {
    }

    fn fields(&self, prefix: &str, out: &mut Vec<String>) {
        out.push(String::from_str(prefix));
        proof {
            assert(out.deep_view() =~~= old(out).deep_view() + self.leaf_paths().map_values(
                |p: Seq<char>| spec_join(prefix@, p),
            ));
        }
    }

    fn value(&self, field_path: &str) -> (r: String) {
        if *self {
            String::from_str("true")
        } else {
            String::from_str("false")
        }
    }

    fn set_value(&mut self, field_path: &str, value: &str) -> (r: Result<(), String>) {
        if str_eq(value, "true") {
            *self = true;
            Ok(())
        } else if str_eq(value, "false") {
            *self = false;
            Ok(())
        } else {
            Err(conversion_failure_text())
        }
    }
}

impl ScalarValue for bool {
    proof fn lemma_scalar(&self) {
    }

    fn blank() -> Self {
        false
    }
}

impl FormValue for u32 {
    open spec fn leaf_paths(&self) -> Seq<Seq<char>> {
        seq![Seq::<char>::empty()]
    }

    open spec fn leaf_value(&self, path: Seq<char>) -> Seq<char> {
        dec_of(*self as int)
    }

    open spec fn accepts(path: Seq<char>, value: Seq<char>) -> bool {
        value.len() > 0 && all_digits(value) && str_to_int(value) <= u32::MAX
    }

    open spec fn converted(path: Seq<char>, value: Seq<char>) -> Seq<char> {
        dec_of(str_to_int(value))
    }

    proof fn lemma_leaf_paths_distinct(&self) {
    }

    fn fields(&self, prefix: &str, out: &mut Vec<String>) {
        out.push(String::from_str(prefix));
        proof {
            assert(out.deep_view() =~~= old(out).deep_view() + self.leaf_paths().map_values(
                |p: Seq<char>| spec_join(prefix@, p),
            ));
        }
    }

    fn value(&self, field_path: &str) -> (r: String) {
        render_decimal(*self as u64)
    }

    fn set_value(&mut self, field_path: &str, value: &str) -> (r: Result<(), String>) {
        match parse_decimal(value) {
            Some(v) => {
                if v <= u32::MAX as u64 {
                    *self = v as u32;
                    Ok(())
                } else {
                    Err(conversion_failure_text())
                }
            },
            None => Err(conversion_failure_text()),
        }
    }
}

impl ScalarValue for u32 {
    proof fn lemma_scalar(&self) {
    }

    fn blank() -> Self {
        0
    }
}

impl FormValue for u64 {
    open spec fn leaf_paths(&self) -> Seq<Seq<char>> {
        seq![Seq::<char>::empty()]
    }

    open spec fn leaf_value(&self, path: Seq<char>) -> Seq<char> {
        dec_of(*self as int)
    }

    open spec fn accepts(path: Seq<char>, value: Seq<char>) -> bool {
        value.len() > 0 && all_digits(value) && str_to_int(value) <= u64::MAX
    }

    open spec fn converted(path: Seq<char>, value: Seq<char>) -> Seq<char> {
        dec_of(str_to_int(value))
    }

    proof fn lemma_leaf_paths_distinct(&self) {
    }

    fn fields(&self, prefix: &str, out: &mut Vec<String>) {
        out.push(String::from_str(prefix));
        proof {
            assert(out.deep_view() =~~= old(out).deep_view() + self.leaf_paths().map_values(
                |p: Seq<char>| spec_join(prefix@, p),
            ));
        }
    }

    fn value(&self, field_path: &str) -> (r: String) {
        render_decimal(*self)
    }

    fn set_value(&mut self, field_path: &str, value: &str) -> (r: Result<(), String>) {
        match parse_decimal(value) {
            Some(v) => {
                *self = v;
                Ok(())
            },
            None => Err(conversion_failure_text()),
        }
    }
}

impl ScalarValue for u64 {
    proof fn lemma_scalar(&self) {
    }

    fn blank() -> Self {
        0
    }
}

impl<T: ScalarValue> FormValue for Option<T> {
    open spec fn leaf_paths(&self) -> Seq<Seq<char>> {
        seq![Seq::<char>::empty()]
    }

    open spec fn leaf_value(&self, path: Seq<char>) -> Seq<char> {
        match *self {
            Some(v) => v.leaf_value(Seq::empty()),
            None => Seq::empty(),
        }
    }

    open spec fn accepts(path: Seq<char>, value: Seq<char>) -> bool {
        value.len() == 0 || T::accepts(Seq::empty(), value)
    }

    open spec fn converted(path: Seq<char>, value: Seq<char>) -> Seq<char> {
        if value.len() == 0 {
            Seq::empty()
        } else {
            T::converted(Seq::empty(), value)
        }
    }

    proof fn lemma_leaf_paths_distinct(&self) {
    }

    fn fields(&self, prefix: &str, out: &mut Vec<String>) {
        out.push(String::from_str(prefix));
        proof {
            assert(out.deep_view() =~~= old(out).deep_view() + self.leaf_paths().map_values(
                |p: Seq<char>| spec_join(prefix@, p),
            ));
        }
    }

    fn value(&self, field_path: &str) -> (r: String) {
        match self {
            Some(v) => {
                proof {
                    v.lemma_scalar();
                }
                v.value(field_path)
            },
            None => String::new(),
        }
    }

    fn set_value(&mut self, field_path: &str, value: &str) -> (r: Result<(), String>) {
        if value.is_empty() {
            *self = None;
            Ok(())
        } else {
            match self {
                Some(v) => {
                    proof {
                        v.lemma_scalar();
                    }
                    v.set_value(field_path, value)
                },
                None => {
                    let mut fresh = T::blank();
                    proof {
                        fresh.lemma_scalar();
                    }
                    let r = fresh.set_value(field_path, value);
                    match r {
                        Ok(_) => {
                            *self = Some(fresh);
                            Ok(())
                        },
                        Err(e) => Err(e),
                    }
                },
            }
        }
    }
}

impl<T: ScalarValue> ScalarValue for Option<T> {
    proof fn lemma_scalar(&self) {
    }

    fn blank() -> Self {
        None
    }
}


impl FormValue for u8 {
    open spec fn leaf_paths(&self) -> Seq<Seq<char>> {
        seq![Seq::<char>::empty()]
    }

    open spec fn leaf_value(&self, path: Seq<char>) -> Seq<char> {
        dec_of(*self as int)
    }

    open spec fn accepts(path: Seq<char>, value: Seq<char>) -> bool {
        value.len() > 0 && all_digits(value) && str_to_int(value) <= u8::MAX
    }

    open spec fn converted(path: Seq<char>, value: Seq<char>) -> Seq<char> {
        dec_of(str_to_int(value))
    }

    proof fn lemma_leaf_paths_distinct(&self) {
    }

    fn fields(&self, prefix: &str, out: &mut Vec<String>) {
        out.push(String::from_str(prefix));
        proof {
            assert(out.deep_view() =~~= old(out).deep_view() + self.leaf_paths().map_values(
                |p: Seq<char>| spec_join(prefix@, p),
            ));
        }
    }

    fn value(&self, field_path: &str) -> (r: String) {
        render_decimal(*self as u64)
    }

    fn set_value(&mut self, field_path: &str, value: &str) -> (r: Result<(), String>) {
        match parse_decimal(value) {
            Some(v) => {
                if v <= u8::MAX as u64 {
                    *self = v as u8;
                    Ok(())
                } else {
                    Err(conversion_failure_text())
                }
            },
            None => Err(conversion_failure_text()),
        }
    }
}

impl ScalarValue for u8 {
    proof fn lemma_scalar(&self) {
    }

    fn blank() -> Self {
        0
    }
}

impl FormValue for u16 {
    open spec fn leaf_paths(&self) -> Seq<Seq<char>> {
        seq![Seq::<char>::empty()]
    }

    open spec fn leaf_value(&self, path: Seq<char>) -> Seq<char> {
        dec_of(*self as int)
    }

    open spec fn accepts(path: Seq<char>, value: Seq<char>) -> bool {
        value.len() > 0 && all_digits(value) && str_to_int(value) <= u16::MAX
    }

    open spec fn converted(path: Seq<char>, value: Seq<char>) -> Seq<char> {
        dec_of(str_to_int(value))
    }

    proof fn lemma_leaf_paths_distinct(&self) {
    }

    fn fields(&self, prefix: &str, out: &mut Vec<String>) {
        out.push(String::from_str(prefix));
        proof {
            assert(out.deep_view() =~~= old(out).deep_view() + self.leaf_paths().map_values(
                |p: Seq<char>| spec_join(prefix@, p),
            ));
        }
    }

    fn value(&self, field_path: &str) -> (r: String) {
        render_decimal(*self as u64)
    }

    fn set_value(&mut self, field_path: &str, value: &str) -> (r: Result<(), String>) {
        match parse_decimal(value) {
            Some(v) => {
                if v <= u16::MAX as u64 {
                    *self = v as u16;
                    Ok(())
                } else {
                    Err(conversion_failure_text())
                }
            },
            None => Err(conversion_failure_text()),
        }
    }
}

impl ScalarValue for u16 {
    proof fn lemma_scalar(&self) {
    }

    fn blank() -> Self {
        0
    }
}

impl FormValue for usize {
    open spec fn leaf_paths(&self) -> Seq<Seq<char>> {
        seq![Seq::<char>::empty()]
    }

    open spec fn leaf_value(&self, path: Seq<char>) -> Seq<char> {
        dec_of(*self as int)
    }

    open spec fn accepts(path: Seq<char>, value: Seq<char>) -> bool {
        value.len() > 0 && all_digits(value) && str_to_int(value) <= usize::MAX
    }

    open spec fn converted(path: Seq<char>, value: Seq<char>) -> Seq<char> {
        dec_of(str_to_int(value))
    }

    proof fn lemma_leaf_paths_distinct(&self) {
    }

    fn fields(&self, prefix: &str, out: &mut Vec<String>) {
        out.push(String::from_str(prefix));
        proof {
            assert(out.deep_view() =~~= old(out).deep_view() + self.leaf_paths().map_values(
                |p: Seq<char>| spec_join(prefix@, p),
            ));
        }
    }

    fn value(&self, field_path: &str) -> (r: String) {
        render_decimal(*self as u64)
    }

    fn set_value(&mut self, field_path: &str, value: &str) -> (r: Result<(), String>) {
        match parse_decimal(value) {
            Some(v) => {
                if v <= usize::MAX as u64 {
                    *self = v as usize;
                    Ok(())
                } else {
                    Err(conversion_failure_text())
                }
            },
            None => Err(conversion_failure_text()),
        }
    }
}

impl ScalarValue for usize {
    proof fn lemma_scalar(&self) {
    }

    fn blank() -> Self {
        0
    }
}

impl FormValue for char {
    open spec fn leaf_paths(&self) -> Seq<Seq<char>> {
        seq![Seq::<char>::empty()]
    }

    open spec fn leaf_value(&self, path: Seq<char>) -> Seq<char> {
        seq![*self]
    }

    open spec fn accepts(path: Seq<char>, value: Seq<char>) -> bool {
        value.len() == 1
    }

    open spec fn converted(path: Seq<char>, value: Seq<char>) -> Seq<char> {
        value
    }

    proof fn lemma_leaf_paths_distinct(&self) {
    }

    fn fields(&self, prefix: &str, out: &mut Vec<String>) {
        out.push(String::from_str(prefix));
        proof {
            assert(out.deep_view() =~~= old(out).deep_view() + self.leaf_paths().map_values(
                |p: Seq<char>| spec_join(prefix@, p),
            ));
        }
    }

    fn value(&self, field_path: &str) -> (r: String) {
        let mut s = String::new();
        let text = char_text(*self);
        s.append(text.as_str());
        proof {
            assert(s@ =~= seq![*self]);
        }
        s
    }

    fn set_value(&mut self, field_path: &str, value: &str) -> (r: Result<(), String>) {
        if value.unicode_len() == 1 {
            *self = value.get_char(0);
            proof {
                assert(self.leaf_value(field_path@) =~= value@);
            }
            Ok(())
        } else {
            Err(conversion_failure_text())
        }
    }
}

/// The one-character string holding `c`.
fn char_text(c: char) -> (r: String)
    ensures
        r@ == seq![c],
{
    let mut buf: Vec<u8> = vec![0; 4];
    let encoded = char_encode_utf8(c, &mut buf);
    String::from_str(encoded)
}

/// Relies on char::encode_utf8: the returned slice spells exactly the one
/// encoded character.
#[verifier::external_body]
fn char_encode_utf8<'a>(c: char, buf: &'a mut Vec<u8>) -> (r: &'a str)
    requires
        old(buf)@.len() >= 4,
    ensures
        r@ == seq![c],
{
    &*c.encode_utf8(&mut buf[..])
}

impl ScalarValue for char {
    proof fn lemma_scalar(&self) {
    }

    fn blank() -> Self {
        ' '
    }
}


impl FormValue for i64 {
    open spec fn leaf_paths(&self) -> Seq<Seq<char>> {
        seq![Seq::<char>::empty()]
    }

    open spec fn leaf_value(&self, path: Seq<char>) -> Seq<char> {
        signed_dec_of(*self as int)
    }

    open spec fn accepts(path: Seq<char>, value: Seq<char>) -> bool {
        signed_digits(value) && i64::MIN <= signed_str_to_int(value) <= i64::MAX
    }

    open spec fn converted(path: Seq<char>, value: Seq<char>) -> Seq<char> {
        signed_dec_of(signed_str_to_int(value))
    }

    proof fn lemma_leaf_paths_distinct(&self) {
    }

    fn fields(&self, prefix: &str, out: &mut Vec<String>) {
        out.push(String::from_str(prefix));
        proof {
            assert(out.deep_view() =~~= old(out).deep_view() + self.leaf_paths().map_values(
                |p: Seq<char>| spec_join(prefix@, p),
            ));
        }
    }

    fn value(&self, field_path: &str) -> (r: String) {
        render_signed(*self)
    }

    fn set_value(&mut self, field_path: &str, value: &str) -> (r: Result<(), String>) {
        match parse_signed(value) {
            Some(v) => {
                *self = v;
                Ok(())
            },
            None => Err(conversion_failure_text()),
        }
    }
}

impl ScalarValue for i64 {
    proof fn lemma_scalar(&self) {
    }

    fn blank() -> Self {
        0
    }
}

impl FormValue for i32 {
    open spec fn leaf_paths(&self) -> Seq<Seq<char>> {
        seq![Seq::<char>::empty()]
    }

    open spec fn leaf_value(&self, path: Seq<char>) -> Seq<char> {
        signed_dec_of(*self as int)
    }

    open spec fn accepts(path: Seq<char>, value: Seq<char>) -> bool {
        signed_digits(value) && i32::MIN <= signed_str_to_int(value) <= i32::MAX
    }

    open spec fn converted(path: Seq<char>, value: Seq<char>) -> Seq<char> {
        signed_dec_of(signed_str_to_int(value))
    }

    proof fn lemma_leaf_paths_distinct(&self) {
    }

    fn fields(&self, prefix: &str, out: &mut Vec<String>) {
        out.push(String::from_str(prefix));
        proof {
            assert(out.deep_view() =~~= old(out).deep_view() + self.leaf_paths().map_values(
                |p: Seq<char>| spec_join(prefix@, p),
            ));
        }
    }

    fn value(&self, field_path: &str) -> (r: String) {
        render_signed(*self as i64)
    }

    fn set_value(&mut self, field_path: &str, value: &str) -> (r: Result<(), String>) {
        match parse_signed(value) {
            Some(v) => {
                if i32::MIN as i64 <= v && v <= i32::MAX as i64 {
                    *self = v as i32;
                    Ok(())
                } else {
                    Err(conversion_failure_text())
                }
            },
            None => Err(conversion_failure_text()),
        }
    }
}

impl ScalarValue for i32 {
    proof fn lemma_scalar(&self) {
    }

    fn blank() -> Self {
        0
    }
}

/// A newtype that takes part in a form exactly as its inner value does.
#[verifier::ext_equal]
pub struct FormValueWrapper<T>(pub T);

impl<T: FormValue> FormValue for FormValueWrapper<T> {
    open spec fn leaf_paths(&self) -> Seq<Seq<char>> {
        self.0.leaf_paths()
    }

    open spec fn leaf_value(&self, path: Seq<char>) -> Seq<char> {
        self.0.leaf_value(path)
    }

    open spec fn accepts(path: Seq<char>, value: Seq<char>) -> bool {
        T::accepts(path, value)
    }

    open spec fn converted(path: Seq<char>, value: Seq<char>) -> Seq<char> {
        T::converted(path, value)
    }

    proof fn lemma_leaf_paths_distinct(&self) {
        self.0.lemma_leaf_paths_distinct();
    }

    fn fields(&self, prefix: &str, out: &mut Vec<String>) {
        self.0.fields(prefix, out);
    }

    fn value(&self, field_path: &str) -> (r: String) {
        self.0.value(field_path)
    }

    fn set_value(&mut self, field_path: &str, value: &str) -> (r: Result<(), String>) {
        self.0.set_value(field_path, value)
    }
}

impl<T: ScalarValue> ScalarValue for FormValueWrapper<T> {
    proof fn lemma_scalar(&self) {
        self.0.lemma_scalar();
    }

    fn blank() -> Self {
        FormValueWrapper(T::blank())
    }
}

} // verus!
