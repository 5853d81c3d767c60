//! Snapshots of the tape, read cell by cell from either end.

use crate::model::zeros;
use vstd::prelude::*;

verus! {

/// `s` without the zeros at its end.
pub open spec fn trimmed(s: Seq<u8>) -> Seq<u8>
    decreases s.len(),
{
    if s.len() > 0 && s.last() == 0 {
        trimmed(s.drop_last())
    } else {
        s
    }
}

/// Zeros appended to a sequence are trimmed away with it.
pub proof fn lemma_trimmed_padding(s: Seq<u8>, n: nat)
    ensures
        trimmed(s + zeros(n)) == trimmed(s),
    decreases n,
{
    if n > 0 {
        assert((s + zeros(n)).drop_last() =~= s + zeros((n - 1) as nat));
        lemma_trimmed_padding(s, (n - 1) as nat);
    }
}

/// The cells from `front` up to `back`, followed by zeros, `size` cells in all.
pub open spec fn window(cells: Seq<u8>, front: int, back: int, size: int) -> Seq<u8> {
    cells.subrange(front, back) + zeros((size - (back - front)) as nat)
}

/// The cells of a tape that are still to be read: a borrowed snapshot.
///
/// It holds the visited cells and the number of cells in all; the cells past
/// the visited ones are zeros.
pub struct CellsIter<'a> {
    cells: &'a [u8],
    front: usize,
    back: usize,
    size: usize,
}

impl<'a> View for CellsIter<'a> {
    type V = Seq<u8>;

    closed spec fn view(&self) -> Seq<u8> {
        window(self.cells@, self.front as int, self.back as int, self.size as int)
    }
}

impl<'a> CellsIter<'a> {
    #[verifier::type_invariant]
    spec fn inv(self) -> bool {
        &&& self.front <= self.back <= self.cells@.len()
        &&& self.back - self.front <= self.size
    }

    /// The snapshot of `size` cells that begins with `cells`.
    pub(crate) fn new(cells: &'a [u8], size: usize) -> (r: CellsIter<'a>)
        requires
            cells@.len() <= size,
        ensures
            r@ == cells@ + zeros((size - cells@.len()) as nat),
    {
        CellsIter { cells, front: 0, back: cells.len(), size }
    }

    /// The number of cells still to be read.
    pub fn len(&self) -> (n: usize)
        ensures
            n == self@.len(),
    {
        proof {
            use_type_invariant(self);
        }
        self.size
    }

    /// Drops the zero cells at the end.
    pub fn trim_end(&mut self)
        ensures
            final(self)@ == trimmed(old(self)@),
    {
        proof {
            use_type_invariant(&*self);
            lemma_trimmed_padding(
                self.cells@.subrange(self.front as int, self.back as int),
                (self.size - (self.back - self.front)) as nat,
            );
        }
        let ghost all = self.cells@.subrange(self.front as int, self.back as int);
        let mut back = self.back;
        while back > self.front && self.cells[back - 1] == 0
            invariant
                self.front <= back <= self.back <= self.cells@.len(),
                all == self.cells@.subrange(self.front as int, self.back as int),
                trimmed(self.cells@.subrange(self.front as int, back as int)) == trimmed(all),
            decreases back,
        {
            assert(self.cells@.subrange(self.front as int, back as int).drop_last()
                =~= self.cells@.subrange(self.front as int, back - 1));
            back = back - 1;
        }
        self.back = back;
        self.size = back - self.front;
    }

    /// Takes the first of the cells still to be read.
    pub fn next(&mut self) -> (r: Option<u8>)
        ensures
            old(self)@.len() == 0 ==> r.is_none() && final(self)@ == old(self)@,
            old(self)@.len() > 0 ==> r == Some(old(self)@.first()) && final(self)@ == old(
                self,
            )@.drop_first(),
    {
        proof {
            use_type_invariant(&*self);
        }
        if self.size == 0 {
            None
        } else if self.front < self.back {
            let cell = self.cells[self.front];
            self.front = self.front + 1;
            self.size = self.size - 1;
            Some(cell)
        } else {
            self.size = self.size - 1;
            Some(0)
        }
    }

    /// Takes the last of the cells still to be read.
    pub fn next_back(&mut self) -> (r: Option<u8>)
        ensures
            old(self)@.len() == 0 ==> r.is_none() && final(self)@ == old(self)@,
            old(self)@.len() > 0 ==> r == Some(old(self)@.last()) && final(self)@ == old(
                self,
            )@.drop_last(),
    {
        proof {
            use_type_invariant(&*self);
        }
        if self.size > self.back - self.front {
            self.size = self.size - 1;
            Some(0)
        } else if self.front < self.back {
            let cell = self.cells[self.back - 1];
            self.back = self.back - 1;
            self.size = self.size - 1;
            Some(cell)
        } else {
            None
        }
    }
}

/// The cells of a tape that are still to be read: a snapshot that owns them.
pub struct CellsIntoIter {
    cells: Vec<u8>,
    front: usize,
    back: usize,
    size: usize,
}

impl View for CellsIntoIter {
    type V = Seq<u8>;

    closed spec fn view(&self) -> Seq<u8> {
        window(self.cells@, self.front as int, self.back as int, self.size as int)
    }
}

impl CellsIntoIter {
    #[verifier::type_invariant]
    spec fn inv(self) -> bool {
        &&& self.front <= self.back <= self.cells@.len()
        &&& self.back - self.front <= self.size
    }

    /// The snapshot of `size` cells that begins with `cells`.
    pub(crate) fn new(cells: Vec<u8>, size: usize) -> (r: CellsIntoIter)
        requires
            cells@.len() <= size,
        ensures
            r@ == cells@ + zeros((size - cells@.len()) as nat),
    {
        let back = cells.len();
        CellsIntoIter { cells, front: 0, back, size }
    }

    /// The same cells, borrowed.
    pub fn as_ref(&self) -> (r: CellsIter<'_>)
        ensures
            r@ == self@,
    {
        proof {
            use_type_invariant(self);
        }
        CellsIter {
            cells: self.cells.as_slice(),
            front: self.front,
            back: self.back,
            size: self.size,
        }
    }

    /// The number of cells still to be read.
    pub fn len(&self) -> (n: usize)
        ensures
            n == self@.len(),
    {
        proof {
            use_type_invariant(self);
        }
        self.size
    }

    /// Drops the zero cells at the end.
    pub fn trim_end(&mut self)
        ensures
            final(self)@ == trimmed(old(self)@),
    {
        proof {
            use_type_invariant(&*self);
            lemma_trimmed_padding(
                self.cells@.subrange(self.front as int, self.back as int),
                (self.size - (self.back - self.front)) as nat,
            );
        }
        let ghost all = self.cells@.subrange(self.front as int, self.back as int);
        let mut back = self.back;
        while back > self.front && self.cells[back - 1] == 0
            invariant
                self.front <= back <= self.back <= self.cells@.len(),
                all == self.cells@.subrange(self.front as int, self.back as int),
                trimmed(self.cells@.subrange(self.front as int, back as int)) == trimmed(all),
            decreases back,
        {
            assert(self.cells@.subrange(self.front as int, back as int).drop_last()
                =~= self.cells@.subrange(self.front as int, back - 1));
            back = back - 1;
        }
        self.back = back;
        self.size = back - self.front;
    }

    /// Takes the first of the cells still to be read.
    pub fn next(&mut self) -> (r: Option<u8>)
        ensures
            old(self)@.len() == 0 ==> r.is_none() && final(self)@ == old(self)@,
            old(self)@.len() > 0 ==> r == Some(old(self)@.first()) && final(self)@ == old(
                self,
            )@.drop_first(),
    {
        proof {
            use_type_invariant(&*self);
        }
        if self.size == 0 {
            None
        } else if self.front < self.back {
            let cell = self.cells[self.front];
            self.front = self.front + 1;
            self.size = self.size - 1;
            Some(cell)
        } else {
            self.size = self.size - 1;
            Some(0)
        }
    }

    /// Takes the last of the cells still to be read.
    pub fn next_back(&mut self) -> (r: Option<u8>)
        ensures
            old(self)@.len() == 0 ==> r.is_none() && final(self)@ == old(self)@,
            old(self)@.len() > 0 ==> r == Some(old(self)@.last()) && final(self)@ == old(
                self,
            )@.drop_last(),
    {
        proof {
            use_type_invariant(&*self);
        }
        if self.size > self.back - self.front {
            self.size = self.size - 1;
            Some(0)
        } else if self.front < self.back {
            let cell = self.cells[self.back - 1];
            self.back = self.back - 1;
            self.size = self.size - 1;
            Some(cell)
        } else {
            None
        }
    }
}

} // verus!
