//! Managing skills from the web administration: moving them to the trash
//! and back, deleting them for good, switching them on and off.
pub mod service;
pub mod skill_ops;
