use vstd::prelude::*;

verus! {

/// The failures the library reports. Errors of the file system and of JSON handling are
/// carried as their message.
#[derive(Debug)]
pub enum MiniClawError {
    Config(String),
    PiExecution(String),
    PiNotAuthenticated,
    Session(String),
    Workspace(String),
    Io(String),
    Json(String),
    Timeout(u64),
}

} // verus!
