use vstd::prelude::*;

verus! {

/// How contributions are organised within a round: one monolithic
/// contribution per participant, or one per chunk.
#[derive(Clone, Copy, PartialEq, Eq, Structural, Debug)]
pub enum ContributionMode {
    Full,
    Chunked,
}

/// The proving system the ceremony prepares parameters for. The coordinator
/// never runs it; the value is carried as a read-only ceremony parameter.
#[derive(Clone, Copy, PartialEq, Eq, Structural, Debug)]
pub enum ProvingSystem {
    Groth16,
    Marlin,
}

/// The elliptic curve the ceremony prepares parameters for, carried as a
/// read-only ceremony parameter.
#[derive(Clone, Copy, PartialEq, Eq, Structural, Debug)]
pub enum CurveKind {
    Bls12_377,
    BW6,
}

/// Immutable ceremony parameters, consumed read-only by the coordinator.
///
/// `number_of_chunks` fixes how many independently lockable chunks each round
/// owns. The two `allow_current_*_in_queue` flags decide whether a participant
/// who is current or finished in the present round may already wait in the
/// queue for the next one.
#[derive(Clone, Copy)]
pub struct Environment {
    pub contribution_mode: ContributionMode,
    pub proving_system: ProvingSystem,
    pub curve: CurveKind,
    pub power: u64,
    pub batch_size: u64,
    pub chunk_size: u64,
    pub number_of_chunks: u64,
    pub allow_current_contributors_in_queue: bool,
    pub allow_current_verifiers_in_queue: bool,
}

impl Environment {
    pub fn new(
        contribution_mode: ContributionMode,
        proving_system: ProvingSystem,
        curve: CurveKind,
        power: u64,
        batch_size: u64,
        chunk_size: u64,
        number_of_chunks: u64,
        allow_current_contributors_in_queue: bool,
        allow_current_verifiers_in_queue: bool,
    ) -> (e: Environment)
        ensures
            e == (Environment {
                contribution_mode,
                proving_system,
                curve,
                power,
                batch_size,
                chunk_size,
                number_of_chunks,
                allow_current_contributors_in_queue,
                allow_current_verifiers_in_queue,
            }),
    {
        Environment {
            contribution_mode,
            proving_system,
            curve,
            power,
            batch_size,
            chunk_size,
            number_of_chunks,
            allow_current_contributors_in_queue,
            allow_current_verifiers_in_queue,
        }
    }
}

} // verus!
