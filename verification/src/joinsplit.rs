//! The JoinSplit transaction: input commitments (witnesses stripped),
//! output commitments, the proof bundle, and the fee. Assembly and
//! balance checking live on the state orchestrator.

use vstd::prelude::*;
use crate::commitment::{Commitment, CommitmentView};
use crate::proofs::{RangeProof, RangeProofView, ZKProof, ZKProofView};

verus! {

/// The mathematical content of a JoinSplit proof bundle.
pub ghost struct JoinSplitProofView {
    /// Range proofs, one per output.
    pub range_proofs: Seq<RangeProofView>,
    /// The knowledge proof over the whole transaction.
    pub zk_proof: ZKProofView,
}

/// The proof bundle of a JoinSplit.
#[derive(Debug, Clone)]
pub struct JoinSplitProof {
    /// Range proofs for the outputs.
    pub range_proofs: Vec<RangeProof>,
    /// The knowledge proof.
    pub zk_proof: ZKProof,
}

impl View for JoinSplitProof {
    type V = JoinSplitProofView;

    open spec fn view(&self) -> JoinSplitProofView {
        JoinSplitProofView {
            range_proofs: self.range_proofs@.map_values(|p: RangeProof| p@),
            zk_proof: self.zk_proof@,
        }
    }
}

/// The mathematical content of a JoinSplit transaction.
pub ghost struct JoinSplitView {
    /// Input commitments.
    pub inputs: Seq<CommitmentView>,
    /// Output commitments.
    pub outputs: Seq<CommitmentView>,
    /// Proof bundle.
    pub proof: JoinSplitProofView,
    /// Transaction fee.
    pub fee: u64,
}

/// A JoinSplit transaction, immutable once returned.
#[derive(Debug, Clone)]
pub struct JoinSplit {
    /// Input commitments.
    pub inputs: Vec<Commitment>,
    /// Output commitments.
    pub outputs: Vec<Commitment>,
    /// Proof bundle.
    pub proof: JoinSplitProof,
    /// Transaction fee.
    pub fee: u64,
}

impl View for JoinSplit {
    type V = JoinSplitView;

    open spec fn view(&self) -> JoinSplitView {
        JoinSplitView {
            inputs: self.inputs@.map_values(|c: Commitment| c@),
            outputs: self.outputs@.map_values(|c: Commitment| c@),
            proof: self.proof@,
            fee: self.fee,
        }
    }
}

impl JoinSplit {
    /// The number of inputs.
    pub fn input_count(&self) -> (r: usize)
        ensures
            r == self@.inputs.len(),
    {
        self.inputs.len()
    }

    /// The number of outputs.
    pub fn output_count(&self) -> (r: usize)
        ensures
            r == self@.outputs.len(),
    {
        self.outputs.len()
    }
}

} // verus!
