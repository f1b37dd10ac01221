//! The append-only accumulator: a chained hexadecimal SHA-512 digest over
//! committed elements, seeded from the digest of the accumulator base.
//! Membership proofs carry the whole element log and the accumulator value
//! at creation time, and verify by replaying the same chain the
//! accumulator itself computes.

use vstd::prelude::*;
use crate::bytes::{append_bytes, bytes_eq, clone_bytes};
use crate::commitment::AccumulatorElement;
use crate::crypto::{digest_hex, hash_hex};
use crate::errors::LelantusError;
use crate::parameters::{LelantusParameters, ParametersView, params_valid};

verus! {

/// The chained digest over a base and an element log: the empty log yields
/// the digest of the base, and each element digests the previous chain
/// value concatenated with the element bytes.
pub open spec fn chain_value(base: Seq<u8>, elems: Seq<Seq<u8>>) -> Seq<u8>
    decreases elems.len(),
{
    if elems.len() == 0 {
        digest_hex(base)
    } else {
        digest_hex(chain_value(base, elems.drop_last()) + elems.last())
    }
}

/// Appending one element extends the chain by one digest step.
pub proof fn lemma_chain_snoc(base: Seq<u8>, elems: Seq<Seq<u8>>, e: Seq<u8>)
    ensures
        chain_value(base, elems.push(e)) == digest_hex(chain_value(base, elems) + e),
{
    assert(elems.push(e).drop_last() =~= elems);
    assert(elems.push(e).last() == e);
}

/// The mathematical content of an accumulator: its chain value, the values
/// of its element log in order, and its parameters.
pub ghost struct AccumulatorView {
    /// Current chain value.
    pub value: Seq<u8>,
    /// Values of the elements, in insertion order.
    pub elements: Seq<Seq<u8>>,
    /// Parameter set.
    pub parameters: ParametersView,
}

/// Whether an accumulator is well formed: its stored value is the chain
/// over its element log.
pub open spec fn acc_wf(v: AccumulatorView) -> bool {
    v.value == chain_value(v.parameters.accumulator_base, v.elements)
}

/// The accumulator over coin commitments.
#[derive(Debug, Clone)]
pub struct Accumulator {
    value: Vec<u8>,
    elements: Vec<AccumulatorElement>,
    parameters: LelantusParameters,
}

impl View for Accumulator {
    type V = AccumulatorView;

    closed spec fn view(&self) -> AccumulatorView {
        AccumulatorView {
            value: self.value@,
            elements: self.elements@.map_values(|e: AccumulatorElement| e.value@),
            parameters: self.parameters@,
        }
    }
}

/// The mathematical content of a node of a membership-proof path.
pub ghost struct ProofNodeView {
    /// Element value carried by the node.
    pub value: Seq<u8>,
    /// Position flag relative to the proven element.
    pub is_left: bool,
}

/// A node in a membership-proof path.
#[derive(Debug, Clone)]
pub struct ProofNode {
    /// Value of the node.
    pub value: Vec<u8>,
    /// Whether this node stands at or before the proven element. Carried
    /// for structural compatibility; verification does not consult it.
    pub is_left: bool,
}

impl View for ProofNode {
    type V = ProofNodeView;

    open spec fn view(&self) -> ProofNodeView {
        ProofNodeView { value: self.value@, is_left: self.is_left }
    }
}

/// The mathematical content of a membership proof.
pub ghost struct MembershipProofView {
    /// Index of the proven element.
    pub element_index: usize,
    /// Path of proof nodes, one per element of the log at creation time.
    pub path: Seq<ProofNodeView>,
    /// Accumulator value at proof creation time.
    pub accumulator_value: Seq<u8>,
}

/// A self-contained membership proof: it verifies against its own
/// embedded accumulator snapshot, not the live accumulator.
#[derive(Debug, Clone)]
pub struct MembershipProof {
    /// Index of the proven element.
    pub element_index: usize,
    /// Path of proof nodes, one per element of the log at creation time.
    pub path: Vec<ProofNode>,
    /// Accumulator value at proof creation time.
    pub accumulator_value: Vec<u8>,
}

impl View for MembershipProof {
    type V = MembershipProofView;

    open spec fn view(&self) -> MembershipProofView {
        MembershipProofView {
            element_index: self.element_index,
            path: self.path@.map_values(|n: ProofNode| n@),
            accumulator_value: self.accumulator_value@,
        }
    }
}

/// The proof that `create_membership_proof` returns for index `i`: one
/// node per element, flagged `is_left` at or before `i`, under the
/// accumulator value at creation time.
pub open spec fn spec_membership_proof(v: AccumulatorView, i: usize) -> MembershipProofView {
    MembershipProofView {
        element_index: i,
        path: Seq::new(
            v.elements.len(),
            |j: int| ProofNodeView { value: v.elements[j], is_left: j <= i },
        ),
        accumulator_value: v.value,
    }
}

/// Whether a membership proof is accepted against an accumulator: its
/// index is in range and replaying the chain over its path yields its own
/// embedded snapshot.
pub open spec fn membership_proof_accepted(v: AccumulatorView, p: MembershipProofView) -> bool {
    &&& p.element_index < v.elements.len()
    &&& chain_value(v.parameters.accumulator_base, p.path.map_values(|n: ProofNodeView| n.value))
        == p.accumulator_value
}

impl Accumulator {
    /// Builds an empty accumulator seeded with the digest of the base;
    /// fails with `InvalidParameter` exactly when validation does.
    pub fn new(parameters: &LelantusParameters) -> (r: Result<Self, LelantusError>)
        ensures
            r is Ok <==> params_valid(parameters@),
            r matches Ok(a) ==> a@.parameters == parameters@ && a@.elements
                == Seq::<Seq<u8>>::empty() && a@.value == digest_hex(parameters@.accumulator_base)
                && acc_wf(a@),
            r matches Err(e) ==> e == LelantusError::InvalidParameter,
    {
        match parameters.validate() {
            Ok(()) => {
                let initial_value = hash_hex(parameters.accumulator_base.as_slice());
                let a = Accumulator {
                    value: initial_value,
                    elements: Vec::new(),
                    parameters: parameters.duplicate(),
                };
                proof {
                    assert(a@.elements =~= Seq::<Seq<u8>>::empty());
                }
                Ok(a)
            },
            Err(e) => Err(e),
        }
    }

    /// Appends an element: the chain value becomes the digest of the old
    /// value concatenated with the element, and the log grows by one.
    /// Never removes elements; preserves well-formedness.
    pub fn add_element(&mut self, element: AccumulatorElement) -> (r: Result<(), LelantusError>)
        ensures
            r == Ok::<(), LelantusError>(()),
            final(self)@.value == digest_hex(old(self)@.value + element.value@),
            final(self)@.elements == old(self)@.elements.push(element.value@),
            final(self)@.parameters == old(self)@.parameters,
            acc_wf(old(self)@) ==> acc_wf(final(self)@),
    {
        let mut preimage = clone_bytes(&self.value);
        append_bytes(&mut preimage, element.value.as_slice());
        self.value = hash_hex(preimage.as_slice());
        let ghost old_elements = self.elements@;
        let ghost element_value = element.value@;
        self.elements.push(element);
        proof {
            assert(self.elements@.map_values(|e: AccumulatorElement| e.value@) =~= old_elements.map_values(
                |e: AccumulatorElement| e.value@,
            ).push(element_value));
            if acc_wf(old(self)@) {
                lemma_chain_snoc(
                    old(self)@.parameters.accumulator_base,
                    old(self)@.elements,
                    element_value,
                );
            }
        }
        Ok(())
    }

    /// Reassembles an accumulator from decoded parts. The chain equation
    /// is not re-established here: a decoded accumulator is only as well
    /// formed as the bytes it came from.
    pub(crate) fn from_parts(
        value: Vec<u8>,
        elements: Vec<AccumulatorElement>,
        parameters: LelantusParameters,
    ) -> (r: Self)
        ensures
            r@ == (AccumulatorView {
                value: value@,
                elements: elements@.map_values(|e: AccumulatorElement| e.value@),
                parameters: parameters@,
            }),
    {
        Accumulator { value, elements, parameters }
    }

    /// The current chain value.
    pub fn value(&self) -> (r: &[u8])
        ensures
            r@ == self@.value,
    {
        self.value.as_slice()
    }

    /// The number of elements appended so far.
    pub fn element_count(&self) -> (r: usize)
        ensures
            r == self@.elements.len(),
    {
        self.elements.len()
    }

    /// The element log, in insertion order.
    pub fn elements(&self) -> (r: &[AccumulatorElement])
        ensures
            r@.map_values(|e: AccumulatorElement| e.value@) == self@.elements,
    {
        self.elements.as_slice()
    }

    /// The parameter set.
    pub fn parameters(&self) -> (r: &LelantusParameters)
        ensures
            r@ == self@.parameters,
    {
        &self.parameters
    }

    /// Creates a membership proof for the element at `element_index`:
    /// one node per element of the log, carrying the accumulator value at
    /// creation time. Fails with `InvalidParameter` exactly when the index
    /// is out of range.
    pub fn create_membership_proof(&self, element_index: usize) -> (r: Result<
        MembershipProof,
        LelantusError,
    >)
        ensures
            r is Ok <==> element_index < self@.elements.len(),
            r matches Ok(p) ==> p@ == spec_membership_proof(self@, element_index),
            r matches Err(e) ==> e == LelantusError::InvalidParameter,
    {
        if element_index >= self.elements.len() {
            return Err(LelantusError::InvalidParameter);
        }
        let mut path: Vec<ProofNode> = Vec::new();
        let mut i: usize = 0;
        while i < self.elements.len()
            invariant
                i <= self.elements@.len(),
                element_index < self.elements@.len(),
                path@.len() == i,
                forall|j: int|
                    0 <= j < i ==> #[trigger] path@[j]@ == (ProofNodeView {
                        value: self.elements@[j].value@,
                        is_left: j <= element_index,
                    }),
            decreases self.elements@.len() - i,
        {
            let node_value = clone_bytes(&self.elements[i].value);
            path.push(ProofNode { value: node_value, is_left: i <= element_index });
            i = i + 1;
        }
        let p = MembershipProof {
            element_index,
            path,
            accumulator_value: clone_bytes(&self.value),
        };
        proof {
            assert(p@.path =~= spec_membership_proof(self@, element_index).path);
        }
        Ok(p)
    }

    /// Verifies a membership proof against the proof's own embedded
    /// snapshot: replays the chain over the proof path from the digest of
    /// the accumulator base. Fails open — an out-of-range index yields
    /// `Ok(false)`, not an error. A caller wanting freshness must compare
    /// the proof's snapshot to the live `value()` separately.
    pub fn verify_membership_proof(&self, proof: &MembershipProof) -> (r: Result<
        bool,
        LelantusError,
    >)
        ensures
            r matches Ok(b) && b == membership_proof_accepted(self@, proof@),
    {
        if proof.element_index >= self.elements.len() {
            return Ok(false);
        }
        let mut current_value = hash_hex(self.parameters.accumulator_base.as_slice());
        let ghost node_values = proof@.path.map_values(|n: ProofNodeView| n.value);
        let mut i: usize = 0;
        proof {
            assert(node_values.take(0) =~= Seq::<Seq<u8>>::empty());
        }
        while i < proof.path.len()
            invariant
                i <= proof.path@.len(),
                node_values == proof@.path.map_values(|n: ProofNodeView| n.value),
                node_values.len() == proof.path@.len(),
                forall|j: int| 0 <= j < node_values.len() ==> node_values[j] == proof.path@[j].value@,
                current_value@ == chain_value(
                    self@.parameters.accumulator_base,
                    node_values.take(i as int),
                ),
            decreases proof.path@.len() - i,
        {
            let mut preimage = clone_bytes(&current_value);
            append_bytes(&mut preimage, proof.path[i].value.as_slice());
            current_value = hash_hex(preimage.as_slice());
            proof {
                assert(node_values.take(i + 1).drop_last() =~= node_values.take(i as int));
                lemma_chain_snoc(
                    self@.parameters.accumulator_base,
                    node_values.take(i as int),
                    node_values[i as int],
                );
            }
            i = i + 1;
        }
        proof {
            assert(node_values.take(node_values.len() as int) =~= node_values);
        }
        Ok(bytes_eq(current_value.as_slice(), proof.accumulator_value.as_slice()))
    }
}

/// Law: on a well-formed accumulator, a freshly created membership proof
/// for any in-range index has one path node per element and is accepted by
/// verification at once.
pub proof fn lemma_fresh_membership_proof_accepted(v: AccumulatorView, i: usize)
    requires
        acc_wf(v),
        i < v.elements.len(),
    ensures
        spec_membership_proof(v, i).path.len() == v.elements.len(),
        membership_proof_accepted(v, spec_membership_proof(v, i)),
{
    let p = spec_membership_proof(v, i);
    assert(p.path.map_values(|n: ProofNodeView| n.value) =~= v.elements);
}

} // verus!
