//! The bounds policy of the cell pointer.

use vstd::prelude::*;

verus! {

/// How far the cell pointer may travel.
pub enum Bounds {
    /// Any index of the address range, up to `usize::MAX`.
    Unbounded,
    /// Indices below the capacity; a step past either end comes back in at the other.
    FixedWrap(nat),
    /// Indices below the capacity; a step past either end is an error.
    FixedStrict(nat),
}

impl Bounds {
    /// A fixed capacity is at least one cell.
    pub open spec fn wf(self) -> bool {
        match self {
            Bounds::Unbounded => true,
            Bounds::FixedWrap(n) => 0 < n <= usize::MAX,
            Bounds::FixedStrict(n) => 0 < n <= usize::MAX,
        }
    }

    /// The capacity, where there is one.
    pub open spec fn capacity(self) -> Option<nat> {
        match self {
            Bounds::Unbounded => None,
            Bounds::FixedWrap(n) => Some(n),
            Bounds::FixedStrict(n) => Some(n),
        }
    }

    /// The number of cells that a tape under this policy can have at most.
    pub open spec fn extent(self) -> nat {
        match self.capacity() {
            None => usize::MAX as nat,
            Some(n) => n,
        }
    }

    /// Whether `index` is a place the pointer may be: below the capacity
    /// where there is one, and anywhere in the address range where there is
    /// none.
    pub open spec fn admits(self, index: nat) -> bool {
        match self.capacity() {
            None => index <= usize::MAX,
            Some(n) => index < n,
        }
    }

    /// The policy that a capacity and a wrap flag select.
    pub open spec fn of(limit: Option<(usize, bool)>) -> Bounds {
        match limit {
            None => Bounds::Unbounded,
            Some((n, true)) => Bounds::FixedWrap(n as nat),
            Some((n, false)) => Bounds::FixedStrict(n as nat),
        }
    }
}

/// The number of cells a program may use, and whether the pointer wraps
/// around that number. A limit is never zero.
#[derive(Debug, Clone, Copy, PartialEq, Eq)]
pub struct CellsLimit {
    limit: Option<(usize, bool)>,
}

impl View for CellsLimit {
    type V = Bounds;

    closed spec fn view(&self) -> Bounds {
        Bounds::of(self.limit)
    }
}

impl Default for CellsLimit {
    /// No limit.
    fn default() -> (r: CellsLimit)
        ensures
            r@ == Bounds::Unbounded,
    {
        CellsLimit { limit: None }
    }
}

impl CellsLimit {
    /// A limit is never zero.
    #[verifier::type_invariant]
    pub open spec fn inv(self) -> bool {
        self@.wf()
    }

    /// A limit of `n` cells, wrapping if the flag is set; `None` for no limit.
    pub fn new(limit: Option<(usize, bool)>) -> (r: CellsLimit)
        requires
            limit matches Some((n, _)) ==> n > 0,
        ensures
            r@ == Bounds::of(limit),
            r@.wf(),
    {
        CellsLimit { limit }
    }

    /// The capacity, if the tape is bounded.
    pub fn limit(self) -> (r: Option<usize>)
        ensures
            self@.wf(),
            match r {
                Some(n) => self@.capacity() == Some(n as nat),
                None => self@.capacity().is_none(),
            },
    {
        proof {
            use_type_invariant(&self);
        }
        match self.limit {
            Some((n, _)) => Some(n),
            None => None,
        }
    }

    /// Whether the pointer wraps around the capacity.
    pub fn wraps(self) -> (r: bool)
        ensures
            r == (self@ is FixedWrap),
    {
        match self.limit {
            Some((_, b)) => b,
            None => false,
        }
    }

    /// The capacity, if the pointer wraps around it.
    pub fn get_limit_if_wrap(self) -> (r: Option<usize>)
        ensures
            self@.wf(),
            match r {
                Some(n) => self@ == Bounds::FixedWrap(n as nat),
                None => !(self@ is FixedWrap),
            },
    {
        proof {
            use_type_invariant(&self);
        }
        match self.limit {
            Some((n, true)) => Some(n),
            _ => None,
        }
    }
}

} // verus!
