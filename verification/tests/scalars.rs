//! The scalar form values: canonical rendering, conversion, and delegation
//! through a hand-written composite.

use form_core::model::{FormValue, FormValueWrapper};

#[test]
fn string_reads_and_writes() {
    let mut s = String::from("a");
    assert_eq!(s.value(""), "a");
    assert_eq!(s.set_value("", "hello"), Ok(()));
    assert_eq!(s.value(""), "hello");
}

#[test]
fn u32_parses_and_renders() {
    let mut n: u32 = 1;
    assert_eq!(n.value(""), "1");
    assert_eq!(n.set_value("", "2"), Ok(()));
    assert_eq!(n, 2);
    assert!(n.set_value("", "not-a-number").is_err());
    assert_eq!(n, 2);
    assert!(n.set_value("", "").is_err());
    assert!(n.set_value("", "-1").is_err());
    assert!(n.set_value("", "4294967296").is_err());
    assert_eq!(n.set_value("", "4294967295"), Ok(()));
    assert_eq!(n.value(""), "4294967295");
}

#[test]
fn u32_canonicalizes_leading_zeros() {
    let mut n: u32 = 0;
    assert_eq!(n.set_value("", "042"), Ok(()));
    assert_eq!(n, 42);
    assert_eq!(n.value(""), "42");
}

#[test]
fn u64_handles_large_values() {
    let mut n: u64 = 0;
    assert_eq!(n.set_value("", "18446744073709551615"), Ok(()));
    assert_eq!(n.value(""), "18446744073709551615");
    assert!(n.set_value("", "18446744073709551616").is_err());
    assert_eq!(n, u64::MAX);
}

#[test]
fn narrow_unsigned_types_enforce_their_bounds() {
    let mut small: u8 = 0;
    assert_eq!(small.set_value("", "255"), Ok(()));
    assert_eq!(small, 255);
    assert!(small.set_value("", "256").is_err());
    assert_eq!(small, 255);

    let mut mid: u16 = 0;
    assert_eq!(mid.set_value("", "65535"), Ok(()));
    assert!(mid.set_value("", "65536").is_err());

    let mut size: usize = 7;
    assert_eq!(size.value(""), "7");
    assert_eq!(size.set_value("", "123"), Ok(()));
    assert_eq!(size, 123);
}

#[test]
fn signed_types_parse_the_minus_sign() {
    let mut n: i64 = 0;
    assert_eq!(n.set_value("", "-42"), Ok(()));
    assert_eq!(n, -42);
    assert_eq!(n.value(""), "-42");
    assert_eq!(n.set_value("", "-9223372036854775808"), Ok(()));
    assert_eq!(n, i64::MIN);
    assert_eq!(n.value(""), "-9223372036854775808");
    assert!(n.set_value("", "-9223372036854775809").is_err());
    assert!(n.set_value("", "-").is_err());
    assert!(n.set_value("", "--1").is_err());
    assert_eq!(n.set_value("", "-0"), Ok(()));
    assert_eq!(n.value(""), "0");

    let mut m: i32 = 7;
    assert_eq!(m.value(""), "7");
    assert_eq!(m.set_value("", "-2147483648"), Ok(()));
    assert_eq!(m, i32::MIN);
    assert!(m.set_value("", "-2147483649").is_err());
    assert!(m.set_value("", "2147483648").is_err());
    assert_eq!(m, i32::MIN);
}

#[test]
fn char_accepts_exactly_one_character() {
    let mut c = 'a';
    assert_eq!(c.value(""), "a");
    assert_eq!(c.set_value("", "z"), Ok(()));
    assert_eq!(c, 'z');
    assert!(c.set_value("", "").is_err());
    assert!(c.set_value("", "ab").is_err());
    assert_eq!(c, 'z');
    assert_eq!(c.set_value("", "é"), Ok(()));
    assert_eq!(c.value(""), "é");
}

#[test]
fn bool_accepts_true_and_false_only() {
    let mut b = false;
    assert_eq!(b.value(""), "false");
    assert_eq!(b.set_value("", "true"), Ok(()));
    assert!(b);
    assert_eq!(
        b.set_value("", "yes"),
        Err(String::from("Could not convert value to type"))
    );
    assert!(b);
}

#[test]
fn option_empty_text_means_absent() {
    let mut o: Option<u32> = Some(42);
    assert_eq!(o.value(""), "42");
    assert_eq!(o.set_value("", ""), Ok(()));
    assert_eq!(o, None);
    assert_eq!(o.value(""), "");
    assert_eq!(o.set_value("", "7"), Ok(()));
    assert_eq!(o, Some(7));
    assert!(o.set_value("", "x").is_err());
    assert_eq!(o, Some(7));
}

#[test]
fn option_write_failure_keeps_absence() {
    let mut o: Option<u32> = None;
    assert!(o.set_value("", "x").is_err());
    assert_eq!(o, None);
}

#[test]
fn wrapper_delegates() {
    let mut w: FormValueWrapper<u32> = FormValueWrapper(7);
    assert_eq!(w.value(""), "7");
    assert_eq!(w.set_value("", "9"), Ok(()));
    assert_eq!(w.0, 9);
}

struct Child {
    name: String,
}

impl FormValue for Child {
    // Ghost members never run; the library's verified code is checked
    // against their contracts, not these stand-in bodies.
    fn lemma_leaf_paths_distinct(&self) {
        unreachable!()
    }

    fn fields(&self, prefix: &str, out: &mut Vec<String>) {
        let p = form_core::path::join_field_path(prefix, "name");
        self.name.fields(&p, out);
    }

    fn value(&self, field_path: &str) -> String {
        let (head, rest) = form_core::split_field_path(field_path);
        match head {
            "name" => self.name.value(rest),
            _ => panic!("Field {} does not exist", field_path),
        }
    }

    fn set_value(&mut self, field_path: &str, value: &str) -> Result<(), String> {
        let (head, rest) = form_core::split_field_path(field_path);
        match head {
            "name" => self.name.set_value(rest, value),
            _ => panic!("Field {} does not exist", field_path),
        }
    }
}

#[test]
fn composite_delegates_by_field_name() {
    let mut c = Child {
        name: String::from("x"),
    };
    let mut out = Vec::new();
    c.fields("", &mut out);
    assert_eq!(out, vec![String::from("name")]);
    assert_eq!(c.value("name"), "x");
    assert_eq!(c.set_value("name", "y"), Ok(()));
    assert_eq!(c.name, "y");
}

#[test]
fn sequences_address_elements_by_index() {
    let mut v: Vec<u32> = vec![0, 1];
    let mut out = Vec::new();
    v.fields("ids", &mut out);
    assert_eq!(out, vec![String::from("ids.0"), String::from("ids.1")]);
    assert_eq!(v.value("0"), "0");
    assert_eq!(v.value("1"), "1");
    assert_eq!(v.set_value("0", "5"), Ok(()));
    assert_eq!(v, vec![5, 1]);
    assert!(v.set_value("1", "x").is_err());
    assert_eq!(v, vec![5, 1]);
}

#[test]
fn nested_sequences_address_through_indices() {
    let mut v: Vec<Vec<u32>> = vec![vec![1, 2], vec![3]];
    let mut out = Vec::new();
    v.fields("", &mut out);
    assert_eq!(
        out,
        vec![String::from("0.0"), String::from("0.1"), String::from("1.0")]
    );
    assert_eq!(v.value("1.0"), "3");
    assert_eq!(v.set_value("0.1", "9"), Ok(()));
    assert_eq!(v, vec![vec![1, 9], vec![3]]);
}
