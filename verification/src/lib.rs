//! Interpreter for a JSON-shaped loot-table script dialect.
//!
//! A script owns a set of drop pools keyed by namespaced identifiers,
//! may extend a base script resolved through a pluggable store, and may
//! list pool entries to remove.  Scripts are decoded from an untyped
//! shape, compiled (inheritance resolved), merged in order, and pruned.

pub mod drops;
pub mod extension;
pub mod namespace;
pub mod payload;
pub mod script;
pub mod table;

pub use crate::drops::{DropFormat, DropType, DropTypeError, MeguDrop};
pub use crate::extension::{Extension, ExtensionError, ExtensionStore};
pub use crate::namespace::{DecodeError, Namespace};
pub use crate::script::{merge, MeguError, MeguScript, ReadError, ScriptFormat, ScriptFormatError};
