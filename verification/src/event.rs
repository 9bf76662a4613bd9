use vstd::prelude::*;

verus! {

/// The kind of readiness a coroutine waits for, or was woken by.
#[derive(Copy, Clone, Debug, PartialEq, Eq, Structural)]
pub enum RW {
    /// Readable.
    Read,
    /// Writable.
    Write,
    /// Readable or writable.
    Both,
    /// A message sent through the wake channel.
    Notify,
}

impl RW {
    /// Whether the mode covers reading: `Read` and `Both` do.
    pub open spec fn reads(self) -> bool {
        self == RW::Read || self == RW::Both
    }

    /// Whether the mode covers writing: `Write` and `Both` do.
    pub open spec fn writes(self) -> bool {
        self == RW::Write || self == RW::Both
    }

    /// Whether the mode covers reading.
    pub fn has_read(&self) -> (r: bool)
        ensures
            r == self.reads(),
    {
        match *self {
            RW::Read | RW::Both => true,
            RW::Write | RW::Notify => false,
        }
    }

    /// Whether the mode covers writing.
    pub fn has_write(&self) -> (r: bool)
        ensures
            r == self.writes(),
    {
        match *self {
            RW::Write | RW::Both => true,
            RW::Read | RW::Notify => false,
        }
    }
}

/// Position of a source in the list of the coroutine that owns it.
#[derive(Copy, Clone, Debug, PartialEq, Eq, Structural)]
pub struct EventSourceIndex(pub usize);

impl EventSourceIndex {
    /// The position as a plain number.
    pub fn as_usize(&self) -> (r: usize)
        ensures
            r == self.0,
    {
        self.0
    }
}

/// The event that last woke a coroutine: which of its sources, and how.
#[derive(Copy, Clone, Debug, PartialEq, Eq, Structural)]
pub struct LastEvent {
    pub index: EventSourceIndex,
    pub rw: RW,
}

impl LastEvent {
    /// Position of the source that the event came from.
    pub fn index(&self) -> (r: EventSourceIndex)
        ensures
            r == self.index,
    {
        self.index
    }

    /// Whether the event was a read.
    pub fn has_read(&self) -> (r: bool)
        ensures
            r == self.rw.reads(),
    {
        self.rw.has_read()
    }

    /// Whether the event was a write.
    pub fn has_write(&self) -> (r: bool)
        ensures
            r == self.rw.writes(),
    {
        self.rw.has_write()
    }
}

/// Where a coroutine stands.
#[derive(Copy, Clone, Debug, PartialEq, Eq, Structural)]
pub enum State {
    /// Suspended until one of the sources it named is ready in this mode.
    BlockedOn(RW),
    /// Running, or about to be resumed.
    Running,
    /// Its body has returned.
    Finished,
}

} // verus!
