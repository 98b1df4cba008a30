//! Bit-sliced ternary values: one trit for each of 64 independent lanes.
use vstd::prelude::*;

verus! {

/// Every lane of a word set: the fill value of a fresh sponge state.
pub const HIGH_BITS: u64 = 0xFFFF_FFFF_FFFF_FFFF;

/// One trit in each of 64 lanes; lane `j` is carried by bit `j` of `lo` and of `hi`.
#[derive(Clone, Copy, Debug, PartialEq, Eq, Structural)]
pub struct BCTrit {
    pub lo: u64,
    pub hi: u64,
}

impl BCTrit {
    pub fn new(lo: u64, hi: u64) -> (r: BCTrit)
        ensures
            r == (BCTrit { lo, hi }),
    {
        BCTrit { lo, hi }
    }

    pub fn lo(&self) -> (r: u64)
        ensures
            r == self.lo,
    {
        self.lo
    }

    pub fn hi(&self) -> (r: u64)
        ensures
            r == self.hi,
    {
        self.hi
    }

    /// Lane-wise AND of both words.
    pub fn bit_and(self, o: BCTrit) -> (r: BCTrit)
        ensures
            r == (BCTrit { lo: self.lo & o.lo, hi: self.hi & o.hi }),
    {
        BCTrit { lo: self.lo & o.lo, hi: self.hi & o.hi }
    }

    /// Lane-wise OR of both words.
    pub fn bit_or(self, o: BCTrit) -> (r: BCTrit)
        ensures
            r == (BCTrit { lo: self.lo | o.lo, hi: self.hi | o.hi }),
    {
        BCTrit { lo: self.lo | o.lo, hi: self.hi | o.hi }
    }

    /// Lane-wise XOR of both words.
    pub fn bit_xor(self, o: BCTrit) -> (r: BCTrit)
        ensures
            r == (BCTrit { lo: self.lo ^ o.lo, hi: self.hi ^ o.hi }),
    {
        BCTrit { lo: self.lo ^ o.lo, hi: self.hi ^ o.hi }
    }

    /// Lane-wise NOT of both words.
    pub fn bit_not(self) -> (r: BCTrit)
        ensures
            r == (BCTrit { lo: !self.lo, hi: !self.hi }),
    {
        BCTrit { lo: !self.lo, hi: !self.hi }
    }
}

/// The error of a bulk copy between buffers of different lengths.
#[derive(Clone, Copy, Debug, PartialEq, Eq, Structural)]
pub struct LengthMismatch {
    pub expected: usize,
    pub found: usize,
}

/// A sequence of batched trits whose length is fixed when it is made.
pub struct BCTritBuf {
    cells: Vec<BCTrit>,
}

impl View for BCTritBuf {
    type V = Seq<BCTrit>;

    closed spec fn view(&self) -> Seq<BCTrit> {
        self.cells@
    }
}

impl BCTritBuf {
    /// A buffer of `len` cells, each equal to `value`.
    pub fn filled(value: BCTrit, len: usize) -> (r: BCTritBuf)
        ensures
            r@ == Seq::new(len as nat, |i: int| value),
    {
        let mut cells: Vec<BCTrit> = Vec::with_capacity(len);
        let mut i: usize = 0;
        while i < len
            invariant
                i <= len,
                cells@ == Seq::new(i as nat, |k: int| value),
            decreases len - i,
        {
            cells.push(value);
            i += 1;
            assert(cells@ =~= Seq::new(i as nat, |k: int| value));
        }
        BCTritBuf { cells }
    }

    /// A buffer holding the given cells, in order.
    pub fn from_cells(cells: Vec<BCTrit>) -> (r: BCTritBuf)
        ensures
            r@ == cells@,
    {
        BCTritBuf { cells }
    }

    /// A copy of the cells, in order.
    pub fn to_cells(&self) -> (r: Vec<BCTrit>)
        ensures
            r@ == self@,
    {
        self.cells.clone()
    }

    pub fn len(&self) -> (r: usize)
        ensures
            r == self@.len(),
    {
        self.cells.len()
    }

    pub fn get(&self, i: usize) -> (r: BCTrit)
        requires
            i < self@.len(),
        ensures
            r == self@[i as int],
    {
        self.cells[i]
    }

    pub fn set(&mut self, i: usize, value: BCTrit)
        requires
            i < old(self)@.len(),
        ensures
            final(self)@ == old(self)@.update(i as int, value),
    {
        self.cells.set(i, value);
    }

    /// Overwrites every cell with `value`; the length stays.
    pub fn fill(&mut self, value: BCTrit)
        ensures
            final(self)@ == Seq::new(old(self)@.len(), |i: int| value),
    {
        let n = self.cells.len();
        let mut i: usize = 0;
        while i < n
            invariant
                i <= n,
                n == self@.len(),
                n == old(self)@.len(),
                forall|k: int| 0 <= k < i ==> self@[k] == value,
            decreases n - i,
        {
            self.cells.set(i, value);
            i += 1;
        }
        assert(self@ =~= Seq::new(old(self)@.len(), |i: int| value));
    }

    /// Copies `src` into `self` when both have the same length; otherwise
    /// fails and leaves `self` as it was.
    pub fn copy_from_slice(&mut self, src: &BCTritBuf) -> (r: Result<(), LengthMismatch>)
        ensures
            r is Ok <==> old(self)@.len() == src@.len(),
            r is Ok ==> final(self)@ == src@,
            r is Err ==> final(self)@ == old(self)@ && r == Err::<(), LengthMismatch>(
                LengthMismatch { expected: old(self)@.len() as usize, found: src@.len() as usize },
            ),
    {
        let n = self.cells.len();
        if n != src.cells.len() {
            return Err(LengthMismatch { expected: n, found: src.cells.len() });
        }
        self.copy_range(0, src, 0, n);
        assert(self@ =~= src@);
        Ok(())
    }

    /// Copies `count` cells of `src` starting at `from` over the cells of
    /// `self` starting at `at`; all other cells of `self` stay.
    pub fn copy_range(&mut self, at: usize, src: &BCTritBuf, from: usize, count: usize)
        requires
            at + count <= old(self)@.len(),
            from + count <= src@.len(),
        ensures
            final(self)@.len() == old(self)@.len(),
            forall|i: int|
                0 <= i < old(self)@.len() ==> #[trigger] final(self)@[i] == if at <= i < at + count {
                    src@[from + i - at]
                } else {
                    old(self)@[i]
                },
    {
        let n = self.cells.len();
        let m = src.cells.len();
        let mut k: usize = 0;
        while k < count
            invariant
                k <= count,
                n == self@.len(),
                m == src@.len(),
                at + count <= self@.len(),
                from + count <= src@.len(),
                self@.len() == old(self)@.len(),
                forall|i: int|
                    0 <= i < old(self)@.len() ==> #[trigger] self@[i] == if at <= i < at + k {
                        src@[from + i - at]
                    } else {
                        old(self)@[i]
                    },
            decreases count - k,
        {
            let v = src.cells[from + k];
            self.cells.set(at + k, v);
            k += 1;
        }
    }
}

} // verus!
