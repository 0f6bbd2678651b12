use vstd::prelude::*;
use crate::text::{seq_contains, str_contains};

verus! {

/// True when `line` contains one of `patterns`.
pub open spec fn noisy(patterns: Seq<Seq<char>>, line: Seq<char>) -> bool {
    exists|i: int| 0 <= i < patterns.len() && seq_contains(line, #[trigger] patterns[i])
}

/// A list of noise substrings: a line holding any one of them is dropped.
pub struct Filters {
    filters: Vec<String>,
}

impl Filters {
    /// The noise substrings, in order.
    pub closed spec fn patterns(&self) -> Seq<Seq<char>> {
        Seq::new(self.filters@.len(), |i: int| self.filters@[i]@)
    }

    /// A filter list holding `filters`.
    pub fn new(filters: Vec<String>) -> (r: Filters)
        ensures
            r.patterns() == Seq::new(filters@.len(), |i: int| filters@[i]@),
    {
        Filters { filters }
    }

    /// The noise substrings, in order.
    pub fn filters(&self) -> (r: &Vec<String>)
        ensures
            r@.len() == self.patterns().len(),
            forall|i: int| 0 <= i < r@.len() ==> #[trigger] r@[i]@ == self.patterns()[i],
    {
        &self.filters
    }

    /// True when `line` contains one of the noise substrings.
    pub fn is_filtered(&self, line: &str) -> (r: bool)
        ensures
            r == noisy(self.patterns(), line@),
    {
        let n = self.filters.len();
        let mut i: usize = 0;
        while i < n
            invariant
                n == self.filters@.len(),
                i <= n,
                forall|k: int| 0 <= k < i ==> !seq_contains(line@, #[trigger] self.patterns()[k]),
            decreases n - i,
        {
            if str_contains(line, self.filters[i].as_str()) {
                assert(seq_contains(line@, self.patterns()[i as int]));
                return true;
            }
            i += 1;
        }
        false
    }
}

} // verus!
