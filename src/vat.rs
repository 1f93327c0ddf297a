use vstd::prelude::*;

verus! {

/// The value-added tax category of a price.
#[allow(non_camel_case_types)]
#[derive(Clone, Copy, Debug, PartialEq, Eq, Structural)]
pub enum Vat {
    /// Exempt by its subject matter
    TAM,
    /// Exempt by the seller's status
    AAM,
    /// Reverse charge
    FAD,
    /// 5 percent
    _5,
    /// 27 percent
    _27,
}

} // verus!
