//! Field-path splitting and joining.

use form_core::{join_field_path, split_field_path};

#[test]
fn split_leaf_has_empty_remainder() {
    let (field, suffix) = split_field_path("field");
    assert_eq!(field, "field");
    assert_eq!(suffix, "");
}

#[test]
fn split_takes_first_segment() {
    let (field, suffix) = split_field_path("field.sub");
    assert_eq!(field, "field");
    assert_eq!(suffix, "sub");

    let (field, suffix) = split_field_path("field.sub.subsub");
    assert_eq!(field, "field");
    assert_eq!(suffix, "sub.subsub");
}

#[test]
fn split_empty_path() {
    let (field, suffix) = split_field_path("");
    assert_eq!(field, "");
    assert_eq!(suffix, "");
}

#[test]
fn join_with_empty_sides() {
    assert_eq!(join_field_path("", "leaf"), "leaf");
    assert_eq!(join_field_path("parent", ""), "parent");
    assert_eq!(join_field_path("parent", "child"), "parent.child");
    assert_eq!(join_field_path("parent.child", "0"), "parent.child.0");
}

fn rejoin(path: &str) -> String {
    let (head, rest) = split_field_path(path);
    if rest.is_empty() {
        head.to_string()
    } else {
        join_field_path(head, &rejoin(rest))
    }
}

#[test]
fn split_then_join_round_trips() {
    for p in ["leaf", "parent.child", "parent.child.0.leaf", "a.b.c.d.e"] {
        assert_eq!(rejoin(p), p);
    }
}
