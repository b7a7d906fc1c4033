//! Integer newtypes that tell the dimensions of the scheme apart.

use vstd::prelude::*;

verus! {

/// The number of mask polynomials of a GLWE ciphertext, `k`.
#[derive(Clone, Copy, Debug, PartialEq, Eq, Structural)]
pub struct GlweDimension(pub usize);

/// The number of polynomials of a GLWE ciphertext, mask and body: `k + 1`.
#[derive(Clone, Copy, Debug, PartialEq, Eq, Structural)]
pub struct GlweSize(pub usize);

/// The number of ciphertexts in a list.
#[derive(Clone, Copy, Debug, PartialEq, Eq, Structural)]
pub struct CiphertextCount(pub usize);

/// The number of plaintexts in a list.
#[derive(Clone, Copy, Debug, PartialEq, Eq, Structural)]
pub struct PlaintextCount(pub usize);

/// The number of bits of an LWE secret key.
#[derive(Clone, Copy, Debug, PartialEq, Eq, Structural)]
pub struct LweDimension(pub usize);

/// The number of levels of a gadget decomposition.
#[derive(Clone, Copy, Debug, PartialEq, Eq, Structural)]
pub struct DecompositionLevelCount(pub usize);

/// The logarithm in base 2 of the base of a gadget decomposition.
#[derive(Clone, Copy, Debug, PartialEq, Eq, Structural)]
pub struct DecompositionBaseLog(pub usize);

impl GlweSize {
    /// The number of mask polynomials of a ciphertext of this size.
    pub fn to_glwe_dimension(&self) -> (r: GlweDimension)
        requires
            self.0 > 0,
        ensures
            r.0 == self.0 - 1,
    {
        GlweDimension(self.0 - 1)
    }
}

impl GlweDimension {
    /// The number of polynomials of a ciphertext with this many masks.
    pub fn to_glwe_size(&self) -> (r: GlweSize)
        requires
            self.0 < usize::MAX,
        ensures
            r.0 == self.0 + 1,
    {
        GlweSize(self.0 + 1)
    }
}

} // verus!
