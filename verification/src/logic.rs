//! The document model: blocks, the document around them, their mathematical
//! snapshots, and the laws that their operations obey.

pub mod dotevery_editor;
pub mod dotevery_editor_controller;
pub mod laws;
pub mod model;
pub mod program_module;
pub mod unique_ids;
