//! Following a live combat log: where in the file the next lines start.
use vstd::prelude::*;

verus! {

/// The length the log file had when lines were last read from it.
pub struct WatchCursor {
    pub pos: u64,
}

/// What to do when the file reports a change.
#[derive(PartialEq, Eq, Structural)]
pub enum WatchAction {
    /// The length did not change: nothing new to read.
    Ignore,
    /// Read the lines that start at this byte offset.
    ReadFrom(u64),
}

impl WatchCursor {
    /// Starts at the end of the file as it is now.
    pub fn new(len: u64) -> (c: Self)
        ensures
            c.pos == len,
    {
        WatchCursor { pos: len }
    }

    /// Decides on a change notification, given the file's length now:
    /// ignore it when the length is the one last read to, and otherwise read
    /// from one byte past that point.
    pub fn on_modified(&self, len: u64) -> (a: WatchAction)
        requires
            len != self.pos ==> self.pos < u64::MAX,
        ensures
            a == if len == self.pos {
                WatchAction::Ignore
            } else {
                WatchAction::ReadFrom((self.pos + 1) as u64)
            },
    {
        if len == self.pos {
            WatchAction::Ignore
        } else {
            WatchAction::ReadFrom(self.pos + 1)
        }
    }

    /// Records that a line was read after seeking, when the file was
    /// `len_after_seek` bytes long: that length is where the next read
    /// starts from.
    pub fn on_line_read(&mut self, len_after_seek: u64)
        ensures
            final(self).pos == len_after_seek,
    {
        self.pos = len_after_seek;
    }
}

} // verus!
