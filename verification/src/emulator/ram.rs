//! The data memory: signed 16-bit cells, all zero at first.
use vstd::prelude::*;

verus! {

/// A memory of `size` cells.
#[derive(Debug)]
pub struct Ram {
    memory: Vec<i16>,
    size: usize,
}

impl View for Ram {
    type V = Seq<i16>;

    closed spec fn view(&self) -> Seq<i16> {
        self.memory@
    }
}

impl Ram {
    #[verifier::type_invariant]
    spec fn inv(self) -> bool {
        self.size == self.memory.len()
    }

    /// A memory of `size` cells that hold 0.
    pub fn new(size: usize) -> (r: Self)
        ensures
            r@ == Seq::new(size as nat, |i: int| 0i16),
    {
        let mut memory: Vec<i16> = Vec::new();
        let mut i: usize = 0;
        while i < size
            invariant
                i <= size,
                memory@ == Seq::new(i as nat, |k: int| 0i16),
            decreases size - i,
        {
            memory.push(0);
            assert(memory@ =~= Seq::new((i + 1) as nat, |k: int| 0i16));
            i += 1;
        }
        Ram { memory, size }
    }

    /// The number of cells.
    pub fn len(&self) -> (r: usize)
        ensures
            r == self@.len(),
    {
        proof {
            use_type_invariant(self);
        }
        self.size
    }

    /// The value of the cell at `address`.
    pub fn read(&self, address: usize) -> (r: i16)
        requires
            address < self@.len(),
        ensures
            r == self@[address as int],
    {
        self.memory[address]
    }

    /// Stores `value` in the cell at `address`.
    pub fn write(&mut self, address: usize, value: i16)
        requires
            address < old(self)@.len(),
        ensures
            final(self)@ == old(self)@.update(address as int, value),
    {
        proof {
            use_type_invariant(&*self);
        }
        self.memory[address] = value;
    }

    /// Copies the cells from `start_address` on into `slice`, as many as it
    /// holds, and returns their number. Where the memory ends before the
    /// slice is full, nothing is copied.
    pub fn copy_slice(&self, start_address: usize, slice: &mut [i16]) -> (res: Result<
        usize,
        &'static str,
    >)
        ensures
            final(slice)@.len() == old(slice)@.len(),
            if start_address + old(slice)@.len() <= self@.len() {
                &&& res == Ok::<usize, &'static str>(old(slice)@.len() as usize)
                &&& final(slice)@ == self@.subrange(
                    start_address as int,
                    start_address + old(slice)@.len(),
                )
            } else {
                &&& res matches Err(message)
                &&& message@ == "out of bounds read access"@
                &&& final(slice)@ == old(slice)@
            },
    {
        proof {
            use_type_invariant(self);
        }
        let n: usize = slice.len();
        if start_address > self.size || n > self.size - start_address {
            return Err("out of bounds read access");
        }
        let mut i: usize = 0;
        while i < n
            invariant
                i <= n,
                n == slice@.len(),
                start_address + n <= self.size == self.memory@.len(),
                forall|k: int| 0 <= k < i ==> slice@[k] == self.memory@[start_address + k],
            decreases n - i,
        {
            slice[i] = self.memory[start_address + i];
            i += 1;
        }
        assert(slice@ =~= self@.subrange(start_address as int, start_address + n));
        Ok(n)
    }
}

} // verus!
