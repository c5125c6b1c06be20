//! The entry point of verification.
//!
//! A proof of execution is checked against public values: the hash of the
//! program, the values that were on the stack when the run began and those
//! that were on it when the run ended. The proof itself is checked by the
//! proof system of `winterfell`, which the caller hands in; what is decided
//! here is whether the public values are field elements, and how the verdict
//! of the proof system is reported.
use vstd::prelude::*;
use winterfell::Proof;
use winterfell::VerifierError;
use crate::felt::Felt;
use crate::felt::MODULUS;

verus! {

/// The proof of `winterfell`, which is carried to the proof system unread.
#[verifier::external_type_specification]
#[verifier::external_body]
pub struct ExProof(Proof);

/// The error of the verifier of `winterfell`, which is carried to the caller
/// unread.
#[verifier::external_type_specification]
#[verifier::external_body]
pub struct ExVerifierError(VerifierError);

/// Why a proof of execution was not accepted.
#[derive(Debug, PartialEq, Eq)]
pub enum VerificationError {
    /// The proof system rejected the proof.
    VerifierError(VerifierError),
    /// The given stack input is not the canonical value of a field element.
    InputNotFieldElement(u64),
    /// The given stack output is not the canonical value of a field element.
    OutputNotFieldElement(u64),
}

/// The public values of a run as the proof system takes them. Both stacks
/// are held in the order in which their values would be popped: the first
/// element of each is the top of the stack.
pub struct PublicInputs {
    pub program_hash: [Felt; 4],
    pub stack_inputs: Vec<Felt>,
    pub stack_outputs: Vec<Felt>,
}

/// The first of the values that is not below the field modulus.
pub open spec fn first_invalid(values: Seq<u64>) -> Option<u64>
    decreases values.len(),
{
    if values.len() == 0 {
        None
    } else if values[0] >= MODULUS {
        Some(values[0])
    } else {
        first_invalid(values.drop_first())
    }
}

/// The field elements that the values stand for.
pub open spec fn elements_of(values: Seq<u64>) -> Seq<Felt> {
    Seq::new(values.len(), |i: int| Felt::of_int(values[i] as int))
}

/// What is reported for a verdict of the proof system.
pub open spec fn reported(verdict: Result<(), VerifierError>) -> Result<(), VerificationError> {
    match verdict {
        Ok(_) => Ok(()),
        Err(e) => Err(VerificationError::VerifierError(e)),
    }
}

/// The field elements that the values from `from` on stand for, unless one
/// of them is not below the field modulus.
fn to_elements(values: &Vec<u64>, reverse: bool) -> (r: Result<Vec<Felt>, u64>)
    ensures
        ({
            let ordered = if reverse {
                values@.reverse()
            } else {
                values@
            };
            match first_invalid(ordered) {
                Some(v) => r == Err::<Vec<Felt>, u64>(v),
                None => r is Ok && r.unwrap()@ == elements_of(ordered),
            }
        }),
{
    let ghost ordered = if reverse {
        values@.reverse()
    } else {
        values@
    };
    let n = values.len();
    let mut elements: Vec<Felt> = Vec::new();
    let mut i: usize = 0;
    assert(ordered.skip(0) =~= ordered);
    while i < n
        invariant
            i <= n,
            n == values@.len(),
            ordered.len() == n,
            ordered == (if reverse {
                values@.reverse()
            } else {
                values@
            }),
            forall|k: int| 0 <= k < n ==> ordered[k] == (if reverse {
                values@[n - 1 - k]
            } else {
                values@[k]
            }),
            elements@.len() == i,
            forall|k: int| 0 <= k < i ==> elements@[k] == Felt::of_int(ordered[k] as int),
            first_invalid(ordered) == first_invalid(ordered.skip(i as int)),
        decreases n - i,
    {
        let value = if reverse {
            values[n - 1 - i]
        } else {
            values[i]
        };
        assert(ordered.skip(i as int).len() > 0);
        assert(ordered.skip(i as int)[0] == value);
        assert(ordered.skip(i as int).drop_first() =~= ordered.skip(i + 1));
        if value >= MODULUS {
            return Err(value);
        }
        elements.push(Felt::new(value));
        i = i + 1;
    }
    assert(ordered.skip(n as int).len() == 0);
    assert(elements@ =~= elements_of(ordered));
    Ok(elements)
}

/// Verifies that a program with the hash `program_hash`, run on the stack
/// inputs, ends with the stack outputs, by the proof `proof`.
///
/// The stack inputs are given in the order in which they are pushed: the
/// last of them is the top of the stack. The stack outputs are given in the
/// order in which they are popped: the first of them is the top of the
/// stack. A value that is not below the field modulus is reported, inputs
/// before outputs and each stack from its top, and the proof system is then
/// not asked. Otherwise `proof_system` is asked once, and its verdict is the
/// result.
pub fn verify<F: FnOnce(PublicInputs, Proof) -> Result<(), VerifierError>>(
    program_hash: [Felt; 4],
    stack_inputs: &Vec<u64>,
    stack_outputs: &Vec<u64>,
    proof: Proof,
    proof_system: F,
) -> (r: Result<(), VerificationError>)
    requires
        forall|inputs: PublicInputs| call_requires(proof_system, (inputs, proof)),
    ensures
        match first_invalid(stack_inputs@.reverse()) {
            Some(v) => r == Err::<(), VerificationError>(
                VerificationError::InputNotFieldElement(v),
            ),
            None => match first_invalid(stack_outputs@) {
                Some(v) => r == Err::<(), VerificationError>(
                    VerificationError::OutputNotFieldElement(v),
                ),
                None => exists|inputs: PublicInputs, verdict: Result<(), VerifierError>|
                    {
                        &&& inputs.program_hash == program_hash
                        &&& inputs.stack_inputs@ == elements_of(stack_inputs@.reverse())
                        &&& inputs.stack_outputs@ == elements_of(stack_outputs@)
                        &&& call_ensures(proof_system, (inputs, proof), verdict)
                        &&& r == reported(verdict)
                    },
            },
        },
{
    let inputs = match to_elements(stack_inputs, true) {
        Ok(elements) => elements,
        Err(value) => {
            return Err(VerificationError::InputNotFieldElement(value));
        },
    };
    let outputs = match to_elements(stack_outputs, false) {
        Ok(elements) => elements,
        Err(value) => {
            return Err(VerificationError::OutputNotFieldElement(value));
        },
    };
    let public_inputs = PublicInputs { program_hash, stack_inputs: inputs, stack_outputs: outputs };
    let ghost handed = public_inputs;
    let verdict = proof_system(public_inputs, proof);
    match verdict {
        Ok(_) => Ok(()),
        Err(e) => Err(VerificationError::VerifierError(e)),
    }
}

} // verus!
