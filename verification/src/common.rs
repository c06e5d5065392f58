//! What every statement of the prover shares: the ways in which proving
//! fails, the exported form of a proof, and small gadgets on bits.

use vstd::prelude::*;

verus! {

/// Why no proof comes out.
#[derive(Clone, Copy, Debug, PartialEq, Eq, Structural)]
pub enum ProofError {
    /// The inputs do not satisfy the constraints of the circuit.
    InvalidWitness,
    /// A proof that was handed in does not verify.
    VerificationFailed,
}

/// A proof with everything that a verifier outside needs, each part as JSON.
#[derive(Clone, Debug)]
pub struct SerializedDataToVerify {
    pub proof_with_public_inputs: String,
    pub common_circuit_data: String,
    pub verifier_only_circuit_data: String,
}

/// Exclusive or of two bits, put together from the gates that a circuit has:
/// `!(!a & !b) & !(a & b)`.
pub fn xor_targets(a: bool, b: bool) -> (result: bool)
    ensures
        result == (a != b),
{
    let not_a = !a;
    let not_b = !b;
    let c = not_a && not_b;
    let c = !c;
    let d = a && b;
    let d = !d;
    c && d
}

/// One of two field elements, as a selector gate picks it.
pub open spec fn spec_select(condition: bool, a: u64, b: u64) -> u64 {
    if condition {
        a
    } else {
        b
    }
}

/// Picks, place by place, the values of `a` where `condition` holds and those
/// of `b` where it does not. Sets of different shapes cannot be selected
/// between.
pub fn select_target_set(condition: bool, a: &[u64], b: &[u64]) -> (selected: Option<Vec<u64>>)
    ensures
        selected is Some <==> a@.len() == b@.len(),
        selected matches Some(values) ==> values@ == Seq::new(
            a@.len(),
            |i: int| spec_select(condition, a@[i], b@[i]),
        ),
{
    if a.len() != b.len() {
        return None;
    }
    let mut values: Vec<u64> = Vec::new();
    let mut i: usize = 0;
    while i < a.len()
        invariant
            i <= a@.len() == b@.len(),
            values@.len() == i,
            forall|k: int| 0 <= k < i ==> values@[k] == spec_select(condition, a@[k], b@[k]),
        decreases a@.len() - i,
    {
        values.push(if condition { a[i] } else { b[i] });
        i += 1;
    }
    assert(values@ =~= Seq::new(a@.len(), |i: int| spec_select(condition, a@[i], b@[i])));
    Some(values)
}

/// The element of `array` at `index`, as a random-access gadget reads it: for
/// every place a flag tells whether the place is the one asked for, and the
/// flagged elements are summed. An index beyond the array reads nothing.
pub fn random_read(index: u64, array: &[u64]) -> (element: Option<u64>)
    ensures
        element is Some <==> index < array@.len(),
        element matches Some(value) ==> value == array@[index as int],
{
    let mut found: Option<u64> = None;
    let mut i: usize = 0;
    while i < array.len()
        invariant
            i <= array@.len(),
            found is Some <==> index < i,
            found matches Some(value) ==> value == array@[index as int],
        decreases array@.len() - i,
    {
        let selected = i as u64 == index;
        if selected {
            found = Some(array[i]);
        }
        i += 1;
    }
    found
}

} // verus!
