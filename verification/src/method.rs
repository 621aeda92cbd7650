use vstd::prelude::*;

verus! {

/// Encoding method for perception vectors.
#[derive(Debug, Clone, Copy, PartialEq, Eq, Structural)]
pub enum EncodingMethod {
    Raw,
    Normalized,
    HashProjection,
    RandomProjection,
    LearnedProjection,
}

impl EncodingMethod {
    /// The text that seeds the deterministic projection of a projecting
    /// method; `None` for the methods that do not project.
    pub open spec fn seed_spec(self) -> Option<Seq<char>> {
        match self {
            EncodingMethod::Raw => None,
            EncodingMethod::Normalized => None,
            EncodingMethod::HashProjection => Some("hash"@),
            EncodingMethod::RandomProjection => Some("random"@),
            EncodingMethod::LearnedProjection => Some("learned"@),
        }
    }

    /// Whether the readings are z-score normalized before they are laid out.
    pub open spec fn normalizes_spec(self) -> bool {
        self == EncodingMethod::Normalized
    }

    /// The projection seed of this method, if it projects.
    pub fn projection_seed(&self) -> (seed: Option<&'static str>)
        ensures
            seed is Some <==> self.seed_spec() is Some,
            seed matches Some(s) ==> self.seed_spec() == Some(s@),
    {
        match self {
            EncodingMethod::Raw => None,
            EncodingMethod::Normalized => None,
            EncodingMethod::HashProjection => Some("hash"),
            EncodingMethod::RandomProjection => Some("random"),
            EncodingMethod::LearnedProjection => Some("learned"),
        }
    }

    /// Whether this method normalizes the readings first.
    pub fn normalizes(&self) -> (b: bool)
        ensures
            b == self.normalizes_spec(),
    {
        match self {
            EncodingMethod::Normalized => true,
            _ => false,
        }
    }
}

} // verus!
