//! The bounded log of interface events and the part of it that fits on
//! screen.

use vstd::prelude::*;

verus! {

/// The most events the log keeps; older ones are dropped first.
pub const MAX_EVENTS: usize = 100;

/// The log after `line` is added to `log`: appended at the back, and the
/// oldest entry dropped once the log would exceed `MAX_EVENTS`.
pub open spec fn logged(log: Seq<String>, line: String) -> Seq<String> {
    if log.len() + 1 > MAX_EVENTS {
        log.push(line).drop_first()
    } else {
        log.push(line)
    }
}

/// Interface events, oldest first.
pub struct EventLog {
    entries: Vec<String>,
}

impl EventLog {
    /// The entries, oldest first.
    pub closed spec fn view_entries(&self) -> Seq<String> {
        self.entries@
    }

    pub closed spec fn wf(&self) -> bool {
        self.entries@.len() <= MAX_EVENTS
    }

    /// An empty log.
    pub fn new() -> (r: EventLog)
        ensures
            r.wf(),
            r.view_entries() == Seq::<String>::empty(),
    {
        EventLog { entries: Vec::new() }
    }

    /// Adds a (time-stamped) line at the back, dropping the oldest entry once
    /// more than `MAX_EVENTS` would be kept.
    pub fn add_event(&mut self, line: String)
        requires
            old(self).wf(),
        ensures
            final(self).wf(),
            final(self).view_entries() == logged(old(self).view_entries(), line),
    {
        self.entries.push(line);
        if self.entries.len() > MAX_EVENTS {
            self.entries.remove(0);
            assert(self.entries@ =~= logged(old(self).entries@, line));
        }
    }

    /// Number of entries.
    pub fn len(&self) -> (r: usize)
        ensures
            r == self.view_entries().len(),
    {
        self.entries.len()
    }

    /// The entries, oldest first.
    pub fn entries(&self) -> (r: &Vec<String>)
        ensures
            r@ == self.view_entries(),
    {
        &self.entries
    }
}

/// The index of the first of `count` entries shown in a bordered box of
/// `height` rows: the box shows the newest `height - 2` entries (none where
/// it is two rows or less).
pub fn window_start(count: usize, height: u16) -> (r: usize)
    ensures
        r == (if height <= 2 {
            count as int
        } else if count <= height - 2 {
            0
        } else {
            count - (height - 2)
        }),
{
    let rows: usize = if height <= 2 {
        0
    } else {
        (height - 2) as usize
    };
    if count <= rows {
        0
    } else {
        count - rows
    }
}

} // verus!
