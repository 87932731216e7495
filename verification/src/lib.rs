//! A form-state management core: given a structured data model, possibly
//! nested, it tracks, per leaf field, a current text value, a dirty flag, a
//! validity flag and an error message, and keeps these in sync with
//! structural validation results for the whole model.
//!
//! Models take part through the [`model::FormValue`] capability — enumerate
//! leaf paths, read the text at a leaf, attempt to write text at a leaf —
//! and supply a structural validation oracle through [`model::Model`].
//! [`state::FormStateOwned`] owns one model and the per-leaf field records;
//! [`form::Form`] adds the generation counter observers use for cheap
//! change detection. Rendering and event capture stay outside this crate.

pub mod digits;
pub mod errors;
pub mod form;
pub mod model;
pub mod path;
pub mod record;
pub mod sequences;
pub mod state;

pub use form::Form;
pub use model::{FormValue, FormValueWrapper, Model, ScalarValue};
pub use path::{join_field_path, split_field_path};
pub use record::FormField;
pub use state::FormStateOwned;
