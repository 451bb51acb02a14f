use vstd::prelude::*;

verus! {

/// Whether the fraction `a / b` is strictly greater than the fraction
/// `c / d`, decided by cross-multiplication. Both denominators are meant to
/// be positive.
pub open spec fn exceeds(a: int, b: int, c: int, d: int) -> bool {
    a * d > c * b
}

/// A cut between dark and light: the fraction `numer / denom` of full
/// brightness. The denominator is never zero.
#[derive(Clone, Copy, Debug)]
pub struct Threshold {
    numer: i32,
    denom: u32,
}

impl Threshold {
    #[verifier::type_invariant]
    closed spec fn well_formed(self) -> bool {
        self.denom > 0
    }

    /// The numerator.
    pub closed spec fn spec_numer(&self) -> i32 {
        self.numer
    }

    /// The denominator.
    pub closed spec fn spec_denom(&self) -> u32 {
        self.denom
    }

    /// The threshold `numer / denom`, or `None` for a zero denominator.
    pub fn new(numer: i32, denom: u32) -> (made: Option<Threshold>)
        ensures
            made is Some <==> denom > 0,
            made matches Some(t) ==> t.spec_numer() == numer && t.spec_denom() == denom,
    {
        if denom > 0 {
            Some(Threshold { numer, denom })
        } else {
            None
        }
    }

    /// One half, the threshold used when none is given.
    pub fn half() -> (t: Threshold)
        ensures
            t.spec_numer() == 1,
            t.spec_denom() == 2,
    {
        Threshold { numer: 1, denom: 2 }
    }

    /// The numerator.
    #[verifier::when_used_as_spec(spec_numer)]
    pub fn numer(&self) -> (numer: i32)
        ensures
            numer == self.spec_numer(),
    {
        self.numer
    }

    /// The denominator.
    #[verifier::when_used_as_spec(spec_denom)]
    pub fn denom(&self) -> (denom: u32)
        ensures
            denom == self.spec_denom(),
            denom > 0,
    {
        proof {
            use_type_invariant(self);
        }
        self.denom
    }
}

} // verus!
