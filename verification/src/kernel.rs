//! Architecture kernels over packed byte buffers, and the matrix provider
//! the many-row kernels read their terms through.

pub mod x86;

use vstd::prelude::*;

verus! {

/// A source of matrix terms: term `t` pairs one source buffer with one
/// coefficient per destination row.
pub trait Matrix<E> {
    /// The number of terms.
    spec fn spec_len(&self) -> nat;

    /// The coefficient of term `term` for destination row `row`.
    spec fn spec_coefficient(&self, term: int, row: int) -> E;

    /// The source buffer of term `term`.
    spec fn spec_source(&self, term: int) -> Seq<u8>;

    /// The provider supplies a coefficient of term `term` for row `row`.
    spec fn has_coefficient(&self, term: int, row: int) -> bool;

    /// The number of terms.
    fn len(&self) -> (r: usize)
        ensures
            r == self.spec_len(),
    ;

    /// The coefficient of term `term` for destination row `row`.
    fn coefficient(&self, term: usize, row: usize) -> (r: &E)
        requires
            term < self.spec_len(),
            self.has_coefficient(term as int, row as int),
        ensures
            *r == self.spec_coefficient(term as int, row as int),
    ;

    /// The source buffer of term `term`.
    fn source(&self, term: usize) -> (r: &[u8])
        requires
            term < self.spec_len(),
        ensures
            r@ == self.spec_source(term as int),
    ;
}

impl<'a, E> Matrix<E> for [(&'a [E], &'a [u8])] {
    open spec fn spec_len(&self) -> nat {
        self@.len()
    }

    open spec fn spec_coefficient(&self, term: int, row: int) -> E {
        self@[term].0@[row]
    }

    open spec fn spec_source(&self, term: int) -> Seq<u8> {
        self@[term].1@
    }

    open spec fn has_coefficient(&self, term: int, row: int) -> bool {
        0 <= row < self@[term].0@.len()
    }

    fn len(&self) -> (r: usize) {
        <[(&'a [E], &'a [u8])]>::len(self)
    }

    fn coefficient(&self, term: usize, row: usize) -> (r: &E) {
        &self[term].0[row]
    }

    fn source(&self, term: usize) -> (r: &[u8]) {
        self[term].1
    }
}

} // verus!
