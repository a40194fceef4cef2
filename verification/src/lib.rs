//! A persistent property store: named string properties that outlive the
//! process, kept either in one container file or in one flat file each.
//!
//! The crate performs no input or output. A caller begins an operation with
//! one of [`store::persist_get_prop`], [`store::persist_get_props`],
//! [`store::persist_set_prop`] and [`store::persist_delete_prop`], performs
//! each [`store::Action`] that it asks for, and hands what came of it to
//! [`store::Operation::step`] as a [`store::Event`], until the action is
//! [`store::Action::Finish`].
//!
//! - [`order`] and [`record`]: the byte-lexicographic order of names.
//! - [`index`]: the sorted index of a container, with binary search.
//! - [`laws`]: what holds of the index whatever is written to it.
//! - [`store`]: the operations, as a machine from state and event to state
//!   and action.
//! - [`disk`]: a model of the files, for proofs only.
//! - [`guarantees`]: atomicity and the exclusion of the two layouts, proved
//!   of every run of an operation on the model.
//! - [`paths`]: where the files are.

pub mod disk;
pub mod error;
pub mod guarantees;
pub mod index;
pub mod laws;
pub mod order;
pub mod paths;
pub mod record;
pub mod store;
