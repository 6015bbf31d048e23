use vstd::prelude::*;

verus! {

/// What the controller asks the editor to publish again.
#[derive(Clone, Copy, Debug, PartialEq, Eq)]
pub enum DotEveryEditorCommand {
    /// The document has changed.
    Update,
    /// The palette has changed.
    UpdatePalette,
}

} // verus!
