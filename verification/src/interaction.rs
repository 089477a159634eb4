//! The command vocabulary of the interactive session layer.
//!
//! The session manager itself holds shared research state and decodes
//! command arguments from JSON documents; that plumbing lives outside
//! the library. The library states which commands exist and which of
//! them the manager can execute.

use vstd::prelude::*;

verus! {

/// Every command the interactive session layer understands.
#[derive(Debug, Clone, Copy, PartialEq, Eq, Structural)]
pub enum CommandType {
    // Research commands
    AddPaper,
    AnalyzePaper,
    SearchPapers,
    // Experiment commands
    CreateExperiment,
    RunExperiment,
    RecordResults,
    // Note commands
    AddSystemNote,
    AddUserNote,
    UpdateNote,
    // Progress commands
    AddTask,
    CompleteTask,
    AddMilestone,
    UpdateProgress,
    // State commands
    SaveState,
    LoadState,
    ExportResults,
}

impl CommandType {
    /// Whether the session manager has an implementation for this
    /// command; every other command is answered with a not-implemented
    /// failure.
    pub fn is_implemented(&self) -> (r: bool)
        ensures
            r == (self is AddPaper || self is AddSystemNote || self is AddUserNote
                || self is SaveState),
    {
        match self {
            CommandType::AddPaper => true,
            CommandType::AddSystemNote => true,
            CommandType::AddUserNote => true,
            CommandType::SaveState => true,
            _ => false,
        }
    }
}

} // verus!
