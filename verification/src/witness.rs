//! The columns of a circuit, each holding a value of the same kind.
use vstd::prelude::*;

verus! {

/// One value for each of the `N` columns of a circuit: the evaluations of the
/// column, its commitment, or its value at a point.
#[derive(Debug)]
pub struct Witness<const N: usize, T> {
    cols: Vec<T>,
}

impl<const N: usize, T> Witness<N, T> {
    #[verifier::type_invariant]
    closed spec fn complete(self) -> bool {
        self.cols@.len() == N
    }

    /// The values of the columns.
    pub closed spec fn columns(&self) -> Seq<T> {
        self.cols@
    }

    /// The witness with the given value for each column, if there are `N` of
    /// them.
    pub fn new(cols: Vec<T>) -> (r: Option<Self>)
        ensures
            r is Some <==> cols@.len() == N,
            r matches Some(w) ==> w.columns() == cols@,
    {
        if cols.len() == N {
            Some(Witness { cols })
        } else {
            None
        }
    }

    /// The witness with the given value for each of the `N` columns.
    pub(crate) fn from_columns(cols: Vec<T>) -> (r: Self)
        requires
            cols@.len() == N,
        ensures
            r.columns() == cols@,
    {
        Witness { cols }
    }

    /// The values of the columns.
    pub fn cols(&self) -> (r: &Vec<T>)
        ensures
            r@ == self.columns(),
            r@.len() == N,
    {
        proof {
            use_type_invariant(self);
        }
        &self.cols
    }

    /// The value of the column with the index `i`, if there is such a column.
    pub fn get(&self, i: usize) -> (r: Option<&T>)
        ensures
            self.columns().len() == N,
            r is Some <==> i < N,
            r matches Some(value) ==> *value == self.columns()[i as int],
    {
        proof {
            use_type_invariant(self);
        }
        if i < N {
            Some(&self.cols[i])
        } else {
            None
        }
    }
}

impl<const N: usize, T: Clone> Clone for Witness<N, T> {
    /// A witness with a clone of the value of each column.
    fn clone(&self) -> (r: Self)
        ensures
            r.columns().len() == N,
    {
        proof {
            use_type_invariant(self);
        }
        Witness { cols: self.cols.clone() }
    }
}

} // verus!
