use vstd::prelude::*;

verus! {

/// A numeric value of the machine: an IEEE-754 double, held as its 64-bit
/// pattern. The machine only moves values around; the arithmetic on them is
/// carried out by whoever drives it.
#[derive(Clone, Copy, Debug, PartialEq, Eq, Structural)]
pub struct Value {
    pub bits: u64,
}

/// An append-only, index-addressed sequence of values.
pub struct ValueArray {
    values: Vec<Value>,
}

impl View for ValueArray {
    type V = Seq<Value>;

    closed spec fn view(&self) -> Seq<Value> {
        self.values@
    }
}

impl ValueArray {
    pub fn new() -> (r: ValueArray)
        ensures
            r@ == Seq::<Value>::empty(),
    {
        ValueArray { values: Vec::new() }
    }

    pub fn count(&self) -> (r: usize)
        ensures
            r == self@.len(),
    {
        self.values.len()
    }

    pub fn write(&mut self, value: Value)
        ensures
            final(self)@ == old(self)@.push(value),
    {
        self.values.push(value);
    }

    pub fn read_constant(&self, idx: usize) -> (r: Value)
        requires
            idx < self@.len(),
        ensures
            r == self@[idx as int],
    {
        self.values[idx]
    }
}

} // verus!
