use vstd::prelude::*;

verus! {

/// A half-open interval `[start, end)` of character indices within one line.
#[derive(Clone, Copy, Debug, PartialEq, Eq, Structural)]
pub struct Region {
    start: usize,
    end: usize,
}

impl Region {
    /// First character index inside the region.
    pub closed spec fn lo(&self) -> nat {
        self.start as nat
    }

    /// First character index past the region.
    pub closed spec fn hi(&self) -> nat {
        self.end as nat
    }

    /// The region never ends before it starts.
    pub open spec fn wf(&self) -> bool {
        self.lo() <= self.hi()
    }

    /// Whether `i` falls inside the region.
    pub open spec fn has(&self, i: int) -> bool {
        self.lo() <= i < self.hi()
    }

    pub fn new(start: usize, end: usize) -> (r: Region)
        requires
            start <= end,
        ensures
            r.lo() == start,
            r.hi() == end,
            r.wf(),
    {
        Region { start, end }
    }

    pub fn contains(&self, index: usize) -> (r: bool)
        ensures
            r == self.has(index as int),
            r == (self.lo() <= index && index < self.hi()),
    {
        self.start <= index && index < self.end
    }

    pub fn start(&self) -> (r: usize)
        ensures
            r == self.lo(),
    {
        self.start
    }

    pub fn end(&self) -> (r: usize)
        ensures
            r == self.hi(),
    {
        self.end
    }
}

/// Containment is exactly the half-open interval test: the start is inside,
/// the end is not.
pub proof fn lemma_region_bounds(r: Region)
    requires
        r.wf(),
    ensures
        r.lo() < r.hi() ==> r.has(r.lo() as int),
        !r.has(r.hi() as int),
        forall|i: int| r.has(i) <==> (r.lo() <= i && i < r.hi()),
{
}

} // verus!
