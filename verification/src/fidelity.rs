use vstd::prelude::*;

verus! {

/// How much of the original an artifact gives back.
#[derive(Clone, Copy, Debug, PartialEq, Eq, Structural)]
pub enum FidelityMode {
    /// Values are rewritten in place. Decoding does not restore the top
    /// level of the input.
    Substitution,
    /// Typed columns with a field name table: every key is given back.
    Columnar,
    /// Columns of compressed values with keys shortened by rule: a key
    /// outside the well-known ones is given back as its short key, and a
    /// number may be taken for a code.
    AggressiveColumnar,
}

/// The name of a fidelity mode.
pub open spec fn fidelity_name(mode: FidelityMode) -> Seq<char> {
    match mode {
        FidelityMode::Substitution => "substitution"@,
        FidelityMode::Columnar => "columnar"@,
        FidelityMode::AggressiveColumnar => "aggressive_columnar"@,
    }
}

/// The name of a fidelity mode.
pub fn fidelity_text(mode: FidelityMode) -> (r: String)
    ensures
        r@ == fidelity_name(mode),
{
    match mode {
        FidelityMode::Substitution => "substitution".to_owned(),
        FidelityMode::Columnar => "columnar".to_owned(),
        FidelityMode::AggressiveColumnar => "aggressive_columnar".to_owned(),
    }
}

} // verus!
