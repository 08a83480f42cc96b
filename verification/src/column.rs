use vstd::prelude::*;

verus! {

/// One punched-card column: the twelve punch positions in the fixed
/// order 12, 11, 0, 1, ..., 9. A value of 0 means no hole at that
/// position; any other value counts as a hole when the card is
/// rendered. Decoding compares the stored values exactly.
#[derive(Debug)]
pub struct Column {
    vals: Vec<i32>,
}

impl View for Column {
    type V = Seq<i32>;

    closed spec fn view(&self) -> Seq<i32> {
        self.vals@
    }
}

impl Column {
    /// A column is well formed when it covers exactly the twelve punch
    /// positions.
    pub open spec fn wf(&self) -> bool {
        self@.len() == 12
    }

    pub fn new(vals: Vec<i32>) -> (r: Column)
        requires
            vals@.len() == 12,
        ensures
            r@ == vals@,
            r.wf(),
    {
        Column { vals }
    }

    /// The value stored at punch position `i`.
    pub fn get(&self, i: usize) -> (r: i32)
        requires
            self.wf(),
            i < 12,
        ensures
            r == self@[i as int],
    {
        self.vals[i]
    }

    /// The twelve stored values, as a fresh vector.
    pub fn values(&self) -> (r: Vec<i32>)
        ensures
            r@ == self@,
    {
        let mut out: Vec<i32> = Vec::new();
        let mut i: usize = 0;
        while i < self.vals.len()
            invariant
                i <= self.vals@.len(),
                out@ == self@.take(i as int),
            decreases self.vals@.len() - i,
        {
            out.push(self.vals[i]);
            i += 1;
        }
        proof {
            assert(out@ =~= self@);
        }
        out
    }
}

impl PartialEq for Column {
    fn eq(&self, other: &Column) -> (r: bool) {
        if self.vals.len() != other.vals.len() {
            return false;
        }
        let mut i: usize = 0;
        while i < self.vals.len()
            invariant
                i <= self.vals@.len(),
                self.vals@.len() == other.vals@.len(),
                forall|m: int| 0 <= m < i ==> self.vals@[m] == other.vals@[m],
            decreases self.vals@.len() - i,
        {
            if self.vals[i] != other.vals[i] {
                return false;
            }
            i += 1;
        }
        proof {
            assert(self@ =~= other@);
        }
        true
    }
}

impl vstd::std_specs::cmp::PartialEqSpecImpl for Column {
    open spec fn obeys_eq_spec() -> bool {
        true
    }

    open spec fn eq_spec(&self, other: &Column) -> bool {
        self@ == other@
    }
}

} // verus!
