//! Local state of an encrypted note manager: the session flag, the per-repository
//! registry of password hints, and the decisions of the note flows that keep the
//! registry and the files on disk coherent.

pub mod flow;
pub mod notes;
pub mod prompt;
pub mod state;
pub mod status;
pub mod text;
