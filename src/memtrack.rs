//! Accounting of allocated bytes, and of the bytes that a scope leaves allocated.

use vstd::prelude::*;

verus! {

/// The number of bytes allocated and not yet freed. Sizes wrap around as an atomic
/// counter of the same width would.
pub struct AllocationTracker {
    mem: isize,
}

impl AllocationTracker {
    pub closed spec fn mem_view(&self) -> isize {
        self.mem
    }

    /// A tracker at zero.
    pub fn new() -> (t: AllocationTracker)
        ensures
            t.mem_view() == 0,
    {
        AllocationTracker { mem: 0 }
    }

    /// The bytes allocated now.
    pub fn current_mem(&self) -> (m: isize)
        ensures
            m == self.mem_view(),
    {
        self.mem
    }

    /// Counts an allocation of `size` bytes.
    pub fn record_alloc(&mut self, size: usize)
        ensures
            final(self).mem_view() == old(self).mem_view().wrapping_add_unsigned(size),
    {
        self.mem = self.mem.wrapping_add_unsigned(size);
    }

    /// Counts a release of `size` bytes.
    pub fn record_dealloc(&mut self, size: usize)
        ensures
            final(self).mem_view() == old(self).mem_view().wrapping_sub(size as isize),
    {
        self.mem = self.mem.wrapping_sub(size as isize);
    }
}

/// Remembers the allocated bytes at the start of a scope, to report what it leaves behind.
pub struct ScopeTracker {
    pub at_start: isize,
    pub name: String,
    pub file: String,
    pub line: u32,
}

impl ScopeTracker {
    /// A scope that starts now, as `tracker` counts.
    pub fn new(name: String, file: String, line: u32, tracker: &AllocationTracker) -> (s: ScopeTracker)
        ensures
            s.at_start == tracker.mem_view(),
            s.name == name,
            s.file == file,
            s.line == line,
    {
        ScopeTracker { at_start: tracker.current_mem(), name, file, line }
    }

    /// The bytes that escaped the scope by the time `tracker` shows, when any did.
    pub fn escaped(&self, tracker: &AllocationTracker) -> (r: Option<isize>)
        ensures
            tracker.mem_view() == self.at_start ==> r is None,
            tracker.mem_view() != self.at_start ==> r == Some(
                tracker.mem_view().wrapping_sub(self.at_start),
            ),
    {
        let now = tracker.current_mem();
        if now == self.at_start {
            None
        } else {
            Some(now.wrapping_sub(self.at_start))
        }
    }
}

} // verus!
