//! The per-sequence state of a draft proposer.

use vstd::prelude::*;

use crate::dspark_head::DeepseekV4DSparkProposerState;
use crate::mtp::DeepseekV4MtpProposerState;

verus! {

/// The state of whichever proposer a sequence drafts with. A proposer refuses
/// the state of another.
pub enum ProposerState {
    V4Mtp(DeepseekV4MtpProposerState),
    V4DSpark(DeepseekV4DSparkProposerState),
}

} // verus!
