//! The decision core of watch mode.  The surrounding program owns the
//! file-system watcher and its event loop; it hands each event's kind and
//! the time since the last rebuild to the decision functions here and
//! performs the rebuild they call for.

use vstd::prelude::*;

use crate::config::JenPackConfig;

verus! {

/// The kind of a file-system event, as the watch loop classifies it.
#[derive(Debug, Clone, Copy, PartialEq, Eq, Structural)]
pub enum WatchEventKind {
    Access,
    Create,
    Modify,
    Remove,
    Error,
    Other,
}

/// Whether an event of this kind should trigger a rebuild: creations,
/// modifications and removals do; accesses, errors and anything else do
/// not.
pub fn should_rebuild(kind: WatchEventKind) -> (r: bool)
    ensures
        r == (kind == WatchEventKind::Create || kind == WatchEventKind::Modify || kind
            == WatchEventKind::Remove),
{
    match kind {
        WatchEventKind::Create => true,
        WatchEventKind::Modify => true,
        WatchEventKind::Remove => true,
        _ => false,
    }
}

/// The full rebuild decision of the watch loop: rebuild only when the
/// debounce window has passed and the event's kind calls for it.
pub fn rebuild_decision(kind: WatchEventKind, elapsed_ms: u64, debounce_ms: u64) -> (r: bool)
    ensures
        r == (elapsed_ms > debounce_ms && (kind == WatchEventKind::Create || kind
            == WatchEventKind::Modify || kind == WatchEventKind::Remove)),
{
    elapsed_ms > debounce_ms && should_rebuild(kind)
}

/// The watcher that debounces rapid changes before rebuilding.
#[derive(Debug)]
pub struct FileWatcher {
    pub config: JenPackConfig,
}

impl FileWatcher {
    pub fn new(config: JenPackConfig) -> (r: Result<FileWatcher, crate::parser::ScssError>)
        ensures
            r matches Result::Ok(w) && w.config == config,
    {
        Result::Ok(FileWatcher { config })
    }
}

/// The watcher that also follows the entry files' directories.
#[derive(Debug)]
pub struct Watcher {
    pub config: JenPackConfig,
}

impl Watcher {
    pub fn new(config: JenPackConfig) -> (r: Result<Watcher, crate::parser::ScssError>)
        ensures
            r matches Result::Ok(w) && w.config == config,
    {
        Result::Ok(Watcher { config })
    }
}

} // verus!
