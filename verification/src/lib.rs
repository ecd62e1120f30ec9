//! A snapshot, restore and container engine for desktop configuration files.
//!
//! The engine works on an in-memory mirror of the user's configuration tree:
//! a [`model::DirSet`] maps component names to directories, and a directory
//! maps relative file paths to text content.  Snapshots and containers are
//! named, timestamped captures of a fixed component set, held in a
//! [`store::CaptureStore`] and persisted through the metadata codec in
//! [`meta`].  The surrounding process performs the actual disk and process
//! I/O and hands the engine plain values.

use vstd::prelude::*;

pub mod clock;
pub mod container;
pub mod editor;
pub mod meta;
pub mod model;
pub mod snapshot;
pub mod system;
pub mod paths;
pub mod registry;
pub mod store;
pub mod text;

verus! {

/// The errors an engine operation can report.
#[derive(Debug)]
pub enum EngineError {
    /// A named snapshot, container, component or file is absent.
    NotFound,
    /// A capture with the given name already exists.
    AlreadyExists,
    /// A component name outside the editor registry.
    UnknownComponent,
    /// A capture name that cannot serve as a directory name.
    InvalidName,
    /// Malformed metadata text.
    ParseFailure,
    /// An external tool exited with a failure; holds its error output.
    Subprocess(String),
}

impl EngineError {
    /// The error as a display string, as the command boundary reports it;
    /// a subprocess failure surfaces the tool's own error output verbatim.
    pub fn message(&self) -> (r: String)
        ensures
            self matches EngineError::NotFound ==> r@ == "not found"@,
            self matches EngineError::AlreadyExists ==> r@ == "already exists"@,
            self matches EngineError::UnknownComponent ==> r@ == "unknown component"@,
            self matches EngineError::InvalidName ==> r@ == "invalid name"@,
            self matches EngineError::ParseFailure ==> r@ == "malformed metadata"@,
            self matches EngineError::Subprocess(m) ==> r@ == m@,
    {
        match self {
            EngineError::NotFound => String::from_str("not found"),
            EngineError::AlreadyExists => String::from_str("already exists"),
            EngineError::UnknownComponent => String::from_str("unknown component"),
            EngineError::InvalidName => String::from_str("invalid name"),
            EngineError::ParseFailure => String::from_str("malformed metadata"),
            EngineError::Subprocess(m) => m.clone(),
        }
    }
}

} // verus!
