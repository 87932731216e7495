//! Nested models: dirty propagation to leaf paths, error distribution
//! through nested error trees, and index-addressed sequence fields.

use form_core::errors::{ErrorEntry, ValidationError, ValidationErrors, ValidationErrorsKind};
use form_core::model::{FormValue, Model};
use form_core::FormStateOwned;

struct Child {
    name: String,
}

impl FormValue for Child {
    fn lemma_leaf_paths_distinct(&self) {
        unreachable!()
    }

    fn fields(&self, prefix: &str, out: &mut Vec<String>) {
        self.name
            .fields(&form_core::join_field_path(prefix, "name"), out);
    }

    fn value(&self, field_path: &str) -> String {
        let (head, rest) = form_core::split_field_path(field_path);
        match head {
            "name" => self.name.value(rest),
            _ => panic!("Field {} does not exist", field_path),
        }
    }

    fn set_value(&mut self, field_path: &str, value: &str) -> Result<(), String> {
        let (head, rest) = form_core::split_field_path(field_path);
        match head {
            "name" => self.name.set_value(rest, value),
            _ => panic!("Field {} does not exist", field_path),
        }
    }
}

struct Parent {
    id: u32,
    child: Child,
}

impl FormValue for Parent {
    fn lemma_leaf_paths_distinct(&self) {
        unreachable!()
    }

    fn fields(&self, prefix: &str, out: &mut Vec<String>) {
        self.id
            .fields(&form_core::join_field_path(prefix, "id"), out);
        self.child
            .fields(&form_core::join_field_path(prefix, "child"), out);
    }

    fn value(&self, field_path: &str) -> String {
        let (head, rest) = form_core::split_field_path(field_path);
        match head {
            "id" => self.id.value(rest),
            "child" => self.child.value(rest),
            _ => panic!("Field {} does not exist", field_path),
        }
    }

    fn set_value(&mut self, field_path: &str, value: &str) -> Result<(), String> {
        let (head, rest) = form_core::split_field_path(field_path);
        match head {
            "id" => self.id.set_value(rest, value),
            "child" => self.child.set_value(rest, value),
            _ => panic!("Field {} does not exist", field_path),
        }
    }
}

impl Model for Parent {
    /// The child's name must be nonempty; the error tree mirrors the
    /// nesting, so the failure is reported as `child` -> `name`.
    fn validate(&self) -> Result<(), ValidationErrors> {
        if self.child.name.is_empty() {
            Err(ValidationErrors {
                entries: vec![ErrorEntry {
                    name: String::from("child"),
                    kind: ValidationErrorsKind::Struct(vec![ErrorEntry {
                        name: String::from("name"),
                        kind: ValidationErrorsKind::Field(vec![ValidationError {
                            message: Some(String::from("child name required")),
                        }]),
                    }]),
                }],
            })
        } else {
            Ok(())
        }
    }
}

#[test]
fn nested_paths_enumerate_dot_joined() {
    let parent = Parent {
        id: 1,
        child: Child {
            name: String::from("a"),
        },
    };
    let mut out = Vec::new();
    parent.fields("", &mut out);
    assert_eq!(out, vec![String::from("id"), String::from("child.name")]);
}

#[test]
fn editing_a_nested_leaf_dirties_only_that_path() {
    let mut state = FormStateOwned::new(Parent {
        id: 1,
        child: Child {
            name: String::from("a"),
        },
    });
    state.set_value("child.name", "x");
    assert!(state.field("child.name").dirty());
    assert!(!state.field("id").dirty());
    assert_eq!(state.model().child.name, "x");
    assert_eq!(state.model().id, 1);
}

#[test]
fn nested_errors_flatten_to_dotted_paths() {
    let mut state = FormStateOwned::new(Parent {
        id: 1,
        child: Child {
            name: String::new(),
        },
    });
    let ok = state.validate();
    assert!(!ok);
    assert!(!state.field_valid("child.name"));
    assert_eq!(state.field_message("child.name"), "child name required");
    assert!(state.field_valid("id"));
}

#[test]
fn scoped_revalidation_reaches_nested_fields() {
    let mut state = FormStateOwned::new(Parent {
        id: 1,
        child: Child {
            name: String::from("a"),
        },
    });
    // Emptying the nested name is a successful write whose scoped
    // revalidation must pick up the nested error for this very field.
    state.set_value("child.name", "");
    assert!(!state.field_valid("child.name"));
    assert_eq!(state.field_message("child.name"), "child name required");
    // Restoring it clears the error again.
    state.set_value("child.name", "b");
    assert!(state.field_valid("child.name"));
    assert_eq!(state.field_message("child.name"), "");
}

struct Registry {
    ids: Vec<u32>,
}

impl FormValue for Registry {
    fn lemma_leaf_paths_distinct(&self) {
        unreachable!()
    }

    fn fields(&self, prefix: &str, out: &mut Vec<String>) {
        self.ids
            .fields(&form_core::join_field_path(prefix, "ids"), out);
    }

    fn value(&self, field_path: &str) -> String {
        let (head, rest) = form_core::split_field_path(field_path);
        match head {
            "ids" => self.ids.value(rest),
            _ => panic!("Field {} does not exist", field_path),
        }
    }

    fn set_value(&mut self, field_path: &str, value: &str) -> Result<(), String> {
        let (head, rest) = form_core::split_field_path(field_path);
        match head {
            "ids" => self.ids.set_value(rest, value),
            _ => panic!("Field {} does not exist", field_path),
        }
    }
}

impl Model for Registry {
    fn validate(&self) -> Result<(), ValidationErrors> {
        Ok(())
    }
}

#[test]
fn sequence_fields_enumerate_and_update_by_index() {
    let mut state = FormStateOwned::new(Registry { ids: vec![0, 1] });
    let mut out = Vec::new();
    state.model().ids.fields("ids", &mut out);
    assert_eq!(out, vec![String::from("ids.0"), String::from("ids.1")]);

    state.set_value("ids.0", "5");
    assert_eq!(state.field("ids.0").value(), "5");
    assert_eq!(state.field("ids.1").value(), "1");
    assert_eq!(state.model().ids, vec![5, 1]);
    assert!(state.field("ids.0").dirty());
    assert!(!state.field("ids.1").dirty());
}
