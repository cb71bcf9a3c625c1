//! The `Variable` type: a non-empty vector of scalars.
//!
//! A variable holds the bit patterns of double-precision values; even
//! scalars are carried as one-dimensional vectors.  All arithmetic on
//! variables is element-wise at equal dimension.

use crate::bits::ZERO_BITS;
use crate::strutil::copy_bits_vec;
use vstd::prelude::*;

verus! {

/// Variable identification type.
pub type VariableID = String;

/// An ordered, non-empty sequence of scalar bit patterns.
#[derive(Debug)]
pub struct Variable {
    vector: Vec<u64>,
}

impl View for Variable {
    type V = Seq<u64>;

    closed spec fn view(&self) -> Seq<u64> {
        self.vector@
    }
}

impl Variable {
    /// Every variable has at least one component.
    #[verifier::type_invariant]
    pub open spec fn wf(self) -> bool {
        self@.len() >= 1
    }

    /// Wraps a non-empty vector of scalars.
    pub fn new(vector: Vec<u64>) -> (r: Self)
        requires
            vector@.len() >= 1,
        ensures
            r@ == vector@,
    {
        Self { vector }
    }

    /// A one-dimensional variable holding a single scalar.
    pub fn scalar(b: u64) -> (r: Self)
        ensures
            r@ == seq![b],
    {
        let mut vector: Vec<u64> = Vec::new();
        vector.push(b);
        proof {
            assert(vector@ =~= seq![b]);
        }
        Self { vector }
    }

    /// A variable of the given dimension with every component equal.
    pub fn filled(b: u64, dim: usize) -> (r: Self)
        requires
            dim >= 1,
        ensures
            r@ == Seq::new(dim as nat, |i: int| b),
    {
        let mut vector: Vec<u64> = Vec::new();
        let mut i: usize = 0;
        while i < dim
            invariant
                i <= dim,
                vector@ == Seq::new(i as nat, |j: int| b),
            decreases dim - i,
        {
            vector.push(b);
            i += 1;
            proof {
                assert(vector@ =~= Seq::new(i as nat, |j: int| b));
            }
        }
        Self { vector }
    }

    /// Read access to the underlying vector.
    pub fn vector(&self) -> (r: &Vec<u64>)
        ensures
            r@ == self@,
    {
        &self.vector
    }

    /// Consumes the variable and returns the underlying vector.
    pub fn into_vector(self) -> (r: Vec<u64>)
        ensures
            r@ == self@,
    {
        self.vector
    }

    /// The dimension: the number of components.
    pub fn dim(&self) -> (r: usize)
        ensures
            r == self@.len(),
            r >= 1,
    {
        proof {
            use_type_invariant(self);
        }
        self.vector.len()
    }
}

impl Clone for Variable {
    /// Cloning keeps the components.
    fn clone(&self) -> (r: Self)
        ensures
            r@ == self@,
    {
        proof {
            use_type_invariant(self);
        }
        Variable { vector: copy_bits_vec(&self.vector) }
    }
}

impl Default for Variable {
    /// The default variable is the one-dimensional zero.
    fn default() -> (r: Self)
        ensures
            r@ == seq![ZERO_BITS],
    {
        Variable::scalar(ZERO_BITS)
    }
}

} // verus!
