//! The core of a visual block-programming editor: the document tree of
//! blocks with its operations, and the coordinator that turns pointer events
//! of a drag into changes of the document. Everything here is verified with
//! Verus; what it trusts of other crates is marked as such where it stands.

pub mod components;
pub mod ids;
pub mod logic;
pub mod util;
