//! What stands between the interface and the document: the registry of
//! rendered blocks, the drag session, and the dispatcher of changes.

pub mod dotevery_editor_agent;
pub mod drag_module_agent;
pub mod handle_map;
pub mod hovering_index;
pub mod topology;
