//! What to ask the user, and where to write.

use vstd::prelude::*;

verus! {

/// How the program talks to its user.
#[derive(Debug, Clone, Copy, PartialEq, Eq, Structural)]
pub struct Session {
    /// Whether the user can be asked.
    pub interactive: bool,
    /// Whether progress is displayed.
    pub progress: bool,
}

impl Session {
    /// A session with the given flags, which are implicitly set if no terminal is connected.
    pub fn new(no_interactive: bool, no_progress: bool, terminal: bool) -> (session: Session)
        ensures
            session.interactive == (!no_interactive && terminal),
            session.progress == (!no_interactive && terminal && !no_progress),
    {
        let interactive: bool = !no_interactive && terminal;
        Session { interactive, progress: interactive && !no_progress }
    }

    /// Whether to ask before a file is overwritten.
    pub fn asks_to_overwrite(&self, force: bool, exists: bool) -> (asks: bool)
        ensures
            asks == (!force && self.interactive && exists),
    {
        !force && self.interactive && exists
    }
}

/// Whether a file may be written: it does not exist, or may be overwritten. This is checked early,
/// before accessing the internet.
pub fn may_write(force: bool, exists: bool) -> (may: bool)
    ensures
        may == (force || !exists),
{
    force || !exists
}

/// Whether an existing file is overwritten: it is if forced, or if the user was asked and agreed.
pub fn overwrites(force: bool, agreed: bool) -> (overwrites: bool)
    ensures
        overwrites == (force || agreed),
{
    force || agreed
}

} // verus!
