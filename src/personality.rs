//! The vocabulary of personality profiles.
use vstd::prelude::*;

verus! {

/// A personality trait whose strength a profile records.
#[derive(Clone, Copy, Debug, PartialEq, Eq, Hash, Structural)]
pub enum PersonalityTrait {
    Gentleness,
    Intelligence,
    Obedience,
    Liveliness,
    Dependency,
    Coquettishness,
    Caring,
    Humor,
    Shyness,
    Initiative,
}

/// Preferred sentence length.
#[derive(Clone, Copy, Debug, PartialEq, Eq, Structural)]
pub enum SentenceLengthStyle {
    Short,
    Medium,
    Long,
    Mixed,
}

} // verus!
