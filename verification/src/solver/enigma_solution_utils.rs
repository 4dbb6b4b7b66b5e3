use vstd::prelude::*;

use crate::solver::CipherMetadata;
use crate::solver::enigma_settings::EnigmaRotorConfiguration;
use crate::solver::enigma_solver_utils::{
    TranspositionSearch, aligned_len, build_transpositions, describes_letter_positions,
    metadata_well_formed, search_started,
};
use crate::solver::machine::Step;
use crate::text::upper_seq;

verus! {

/// Starts the plugboard search for `config` on the most frequent plain
/// letter of `metadata`. A stop request is reported to the search as
/// `Event::Stopped`, which rules out the candidate under test.
pub fn try_building_transpositions(
    config: EnigmaRotorConfiguration,
    metadata: &CipherMetadata,
) -> (r: (TranspositionSearch, Step))
    requires
        metadata.letter_positions@.len() > 0,
    ensures
        (r.0, r.1@) == search_started(
            metadata.letter_positions@[0].0,
            config,
            metadata.letter_positions@[0].1@,
        ),
{
    build_transpositions(config, metadata)
}

/// The positions of every letter of the upper-cased plain text together
/// with the cipher letter at each, most frequent letters first.
pub fn build_cipher_metadata(plain: &str, cipher: &str) -> (metadata: CipherMetadata)
    ensures
        describes_letter_positions(
            metadata.letter_positions@,
            upper_seq(plain@),
            cipher@,
            aligned_len(plain@, cipher@),
        ),
        metadata_well_formed(metadata),
{
    crate::solver::enigma_solver_utils::build_cipher_metadata(plain, cipher)
}

} // verus!
