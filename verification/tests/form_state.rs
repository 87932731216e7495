//! The form state protocol: construction, the write algorithm, scoped and
//! full validation, and the change-detection handle.

use form_core::errors::{ErrorEntry, ValidationError, ValidationErrors, ValidationErrorsKind};
use form_core::model::{FormValue, Model};
use form_core::{Form, FormStateOwned};

fn field_error(name: &str, message: Option<&str>) -> ErrorEntry {
    ErrorEntry {
        name: String::from(name),
        kind: ValidationErrorsKind::Field(vec![ValidationError {
            message: message.map(String::from),
        }]),
    }
}

/// A flat model of one number and one text, with no structural rules.
struct IdName {
    id: u32,
    name: String,
}

impl FormValue for IdName {
    fn lemma_leaf_paths_distinct(&self) {
        unreachable!()
    }

    fn fields(&self, prefix: &str, out: &mut Vec<String>) {
        self.id
            .fields(&form_core::join_field_path(prefix, "id"), out);
        self.name
            .fields(&form_core::join_field_path(prefix, "name"), out);
    }

    fn value(&self, field_path: &str) -> String {
        let (head, rest) = form_core::split_field_path(field_path);
        match head {
            "id" => self.id.value(rest),
            "name" => self.name.value(rest),
            _ => panic!("Field {} does not exist", field_path),
        }
    }

    fn set_value(&mut self, field_path: &str, value: &str) -> Result<(), String> {
        let (head, rest) = form_core::split_field_path(field_path);
        match head {
            "id" => self.id.set_value(rest, value),
            "name" => self.name.set_value(rest, value),
            _ => panic!("Field {} does not exist", field_path),
        }
    }
}

impl Model for IdName {
    fn validate(&self) -> Result<(), ValidationErrors> {
        Ok(())
    }
}

/// Two texts that must both be nonempty.
struct Tagged {
    name: String,
    tag: String,
}

impl FormValue for Tagged {
    fn lemma_leaf_paths_distinct(&self) {
        unreachable!()
    }

    fn fields(&self, prefix: &str, out: &mut Vec<String>) {
        self.name
            .fields(&form_core::join_field_path(prefix, "name"), out);
        self.tag
            .fields(&form_core::join_field_path(prefix, "tag"), out);
    }

    fn value(&self, field_path: &str) -> String {
        let (head, rest) = form_core::split_field_path(field_path);
        match head {
            "name" => self.name.value(rest),
            "tag" => self.tag.value(rest),
            _ => panic!("Field {} does not exist", field_path),
        }
    }

    fn set_value(&mut self, field_path: &str, value: &str) -> Result<(), String> {
        let (head, rest) = form_core::split_field_path(field_path);
        match head {
            "name" => self.name.set_value(rest, value),
            "tag" => self.tag.set_value(rest, value),
            _ => panic!("Field {} does not exist", field_path),
        }
    }
}

impl Model for Tagged {
    fn validate(&self) -> Result<(), ValidationErrors> {
        let mut entries = Vec::new();
        if self.name.is_empty() {
            entries.push(field_error("name", Some("name required")));
        }
        if self.tag.is_empty() {
            entries.push(field_error("tag", Some("tag required")));
        }
        if entries.is_empty() {
            Ok(())
        } else {
            Err(ValidationErrors { entries })
        }
    }
}

#[test]
fn new_seeds_records_from_model() {
    let state = FormStateOwned::new(IdName {
        id: 1,
        name: String::from("a"),
    });
    assert!(state.valid());
    assert!(!state.dirty());
    assert!(state.field_valid("id"));
    assert_eq!(state.field_message("id"), "");
}

#[test]
fn set_value_commits_or_records_failure() {
    // Writing an unparsable value keeps the committed model and marks only
    // the field; a later good write commits.
    let mut state = FormStateOwned::new(IdName {
        id: 1,
        name: String::from("a"),
    });
    let changed = state.set_value("id", "not-a-number");
    assert!(changed);
    assert!(!state.field_valid("id"));
    assert_eq!(state.field_message("id"), "Could not convert value to type");
    assert_eq!(state.field("id").value(), "not-a-number");
    assert_eq!(state.model().id, 1);

    let changed = state.set_value("id", "2");
    assert!(changed);
    assert!(state.field_valid("id"));
    assert_eq!(state.model().id, 2);
}

#[test]
fn conversion_failure_leaves_other_fields_alone() {
    let mut state = FormStateOwned::new(IdName {
        id: 1,
        name: String::from("a"),
    });
    state.set_value("id", "garbage");
    assert!(state.field_valid("name"));
    assert_eq!(state.field_message("name"), "");
    assert!(!state.field("name").dirty());
    assert_eq!(state.model().name, "a");
    assert_eq!(state.model().id, 1);
}

#[test]
fn validate_surfaces_all_errors_and_marks_dirty() {
    let mut state = FormStateOwned::new(Tagged {
        name: String::new(),
        tag: String::new(),
    });
    assert!(state.valid());
    let ok = state.validate();
    assert!(!ok);
    assert!(!state.valid());
    assert!(!state.field_valid("name"));
    assert_eq!(state.field_message("name"), "name required");
    assert!(!state.field_valid("tag"));
    assert_eq!(state.field_message("tag"), "tag required");
    assert!(state.field("name").dirty());
    assert!(state.field("tag").dirty());
    assert!(state.dirty());
}

#[test]
fn aggregate_validity_follows_every_field() {
    let mut state = FormStateOwned::new(Tagged {
        name: String::new(),
        tag: String::new(),
    });
    state.validate();
    assert!(!state.valid());
    state.set_value("name", "n");
    assert!(!state.valid());
    state.set_value("tag", "t");
    assert!(state.valid());
    assert!(state.field_valid("name") && state.field_valid("tag"));
}

#[test]
fn scoped_revalidation_leaves_unrelated_errors() {
    // Both fields invalid; a good edit of one must not clear or alter the
    // error displayed on the other.
    let mut state = FormStateOwned::new(Tagged {
        name: String::new(),
        tag: String::new(),
    });
    state.validate();
    assert!(!state.field_valid("name"));
    assert!(!state.field_valid("tag"));
    state.set_value("name", "x");
    assert!(state.field_valid("name"));
    assert_eq!(state.field_message("name"), "");
    assert!(!state.field_valid("tag"));
    assert_eq!(state.field_message("tag"), "tag required");
}

#[test]
fn update_keeps_baselines_and_replace_resets() {
    let mut state = FormStateOwned::new(IdName {
        id: 1,
        name: String::from("a"),
    });
    state.update(IdName {
        id: 5,
        name: String::from("a"),
    });
    assert_eq!(state.field("id").value(), "5");
    assert_eq!(state.field("id").initial_value(), "1");
    assert!(state.field("id").dirty());
    assert!(!state.field("name").dirty());
    assert_eq!(state.model().id, 5);

    state.replace(IdName {
        id: 9,
        name: String::from("b"),
    });
    assert_eq!(state.field("id").value(), "9");
    assert_eq!(state.field("id").initial_value(), "9");
    assert!(!state.dirty());
}

#[test]
fn handle_bumps_generation_once_per_change() {
    // Setting the same value twice notifies observers at most once: the
    // second call is a no-op and does not re-run validation.
    let mut form = Form::new(Tagged {
        name: String::new(),
        tag: String::new(),
    });
    let g0 = form.generation();
    form.set_value("name", "x");
    let g1 = form.generation();
    assert_ne!(g0, g1);
    form.set_value("name", "x");
    assert_eq!(form.generation(), g1);
    form.set_value("name", "y");
    assert_ne!(form.generation(), g1);
}

#[test]
fn handle_exposes_field_state() {
    let mut form = Form::new(IdName {
        id: 1,
        name: String::from("a"),
    });
    assert_eq!(form.value("id"), "1");
    assert_eq!(form.dirty_value("id"), None);
    form.set_value("id", "3");
    assert_eq!(form.dirty_value("id"), Some(&String::from("3")));
    assert_eq!(form.field("id").name().as_str(), "id");
    assert!(form.valid());
    assert!(form.dirty());
    assert_eq!(form.model().id, 3);
}

#[test]
fn handle_validate_always_bumps() {
    let mut form = Form::new(IdName {
        id: 1,
        name: String::from("a"),
    });
    let g0 = form.generation();
    assert!(form.validate());
    assert_ne!(form.generation(), g0);
}

/// A model whose oracle reports an error without a message.
struct Silent {
    flag: String,
}

impl FormValue for Silent {
    fn lemma_leaf_paths_distinct(&self) {
        unreachable!()
    }

    fn fields(&self, prefix: &str, out: &mut Vec<String>) {
        self.flag
            .fields(&form_core::join_field_path(prefix, "flag"), out);
    }

    fn value(&self, field_path: &str) -> String {
        let (head, rest) = form_core::split_field_path(field_path);
        match head {
            "flag" => self.flag.value(rest),
            _ => panic!("Field {} does not exist", field_path),
        }
    }

    fn set_value(&mut self, field_path: &str, value: &str) -> Result<(), String> {
        let (head, rest) = form_core::split_field_path(field_path);
        match head {
            "flag" => self.flag.set_value(rest, value),
            _ => panic!("Field {} does not exist", field_path),
        }
    }
}

impl Model for Silent {
    fn validate(&self) -> Result<(), ValidationErrors> {
        Err(ValidationErrors {
            entries: vec![field_error("flag", None)],
        })
    }
}

#[test]
fn missing_error_message_falls_back() {
    let mut state = FormStateOwned::new(Silent {
        flag: String::new(),
    });
    state.validate();
    assert!(!state.field_valid("flag"));
    assert_eq!(state.field_message("flag"), "Error");
}

/// A model whose oracle reports only sequence errors, which distribution
/// ignores.
struct Listy {
    items: String,
}

impl FormValue for Listy {
    fn lemma_leaf_paths_distinct(&self) {
        unreachable!()
    }

    fn fields(&self, prefix: &str, out: &mut Vec<String>) {
        self.items
            .fields(&form_core::join_field_path(prefix, "items"), out);
    }

    fn value(&self, field_path: &str) -> String {
        let (head, rest) = form_core::split_field_path(field_path);
        match head {
            "items" => self.items.value(rest),
            _ => panic!("Field {} does not exist", field_path),
        }
    }

    fn set_value(&mut self, field_path: &str, value: &str) -> Result<(), String> {
        let (head, rest) = form_core::split_field_path(field_path);
        match head {
            "items" => self.items.set_value(rest, value),
            _ => panic!("Field {} does not exist", field_path),
        }
    }
}

impl Model for Listy {
    fn validate(&self) -> Result<(), ValidationErrors> {
        Err(ValidationErrors {
            entries: vec![ErrorEntry {
                name: String::from("items"),
                kind: ValidationErrorsKind::List,
            }],
        })
    }
}

#[test]
fn sequence_errors_are_ignored() {
    let mut state = FormStateOwned::new(Listy {
        items: String::new(),
    });
    let ok = state.validate();
    assert!(ok);
    assert!(state.field_valid("items"));
    assert_eq!(state.field_message("items"), "");
}
