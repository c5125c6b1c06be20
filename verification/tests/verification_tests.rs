use winterfell::Proof;
use winterfell::VerifierError;
use zkvm_words::felt::Felt;
use zkvm_words::felt::MODULUS;
use zkvm_words::verification::verify;
use zkvm_words::verification::PublicInputs;
use zkvm_words::verification::VerificationError;

fn hash() -> [Felt; 4] {
    [Felt::new(1), Felt::new(2), Felt::new(3), Felt::new(4)]
}

fn never_asked(_: PublicInputs, _: Proof) -> Result<(), VerifierError> {
    panic!("the proof system was asked")
}

#[test]
fn the_verdict_of_the_proof_system_is_the_result() {
    let accepted = verify(hash(), &vec![1, 2], &vec![3], Proof::new_dummy(), |_, _| Ok(()));
    assert_eq!(accepted, Ok(()));
    let rejected = verify(hash(), &vec![1, 2], &vec![3], Proof::new_dummy(), |_, _| {
        Err(VerifierError::InconsistentOodConstraintEvaluations)
    });
    assert_eq!(
        rejected,
        Err(VerificationError::VerifierError(VerifierError::InconsistentOodConstraintEvaluations))
    );
}

#[test]
fn the_proof_system_gets_both_stacks_top_first() {
    let proof = Proof::new_dummy();
    let expected = proof.clone();
    let r = verify(hash(), &vec![1, 2, 3], &vec![7, 8, 9], proof, |inputs: PublicInputs, p| {
        assert_eq!(inputs.program_hash, hash());
        let ins: Vec<u64> = inputs.stack_inputs.iter().map(|e| e.as_int()).collect();
        let outs: Vec<u64> = inputs.stack_outputs.iter().map(|e| e.as_int()).collect();
        assert_eq!(ins, vec![3, 2, 1]);
        assert_eq!(outs, vec![7, 8, 9]);
        assert_eq!(p, expected);
        Ok(())
    });
    assert_eq!(r, Ok(()));
}

#[test]
fn empty_stacks_are_handed_on() {
    let r = verify(hash(), &vec![], &vec![], Proof::new_dummy(), |inputs: PublicInputs, _| {
        assert!(inputs.stack_inputs.is_empty());
        assert!(inputs.stack_outputs.is_empty());
        Err(VerifierError::RandomCoinError)
    });
    assert_eq!(r, Err(VerificationError::VerifierError(VerifierError::RandomCoinError)));
}

#[test]
fn an_input_that_is_no_field_element_is_reported() {
    let r = verify(hash(), &vec![1, MODULUS, 3], &vec![4], Proof::new_dummy(), never_asked);
    assert_eq!(r, Err(VerificationError::InputNotFieldElement(MODULUS)));
}

#[test]
fn the_largest_field_element_is_accepted() {
    let r = verify(hash(), &vec![MODULUS - 1], &vec![MODULUS - 1], Proof::new_dummy(), |_, _| {
        Ok(())
    });
    assert_eq!(r, Ok(()));
}

#[test]
fn inputs_are_looked_at_from_the_top_of_the_stack() {
    let r = verify(
        hash(),
        &vec![u64::MAX, 1, MODULUS + 1],
        &vec![],
        Proof::new_dummy(),
        never_asked,
    );
    assert_eq!(r, Err(VerificationError::InputNotFieldElement(MODULUS + 1)));
}

#[test]
fn an_output_that_is_no_field_element_is_reported() {
    let r = verify(hash(), &vec![1], &vec![4, u64::MAX, MODULUS], Proof::new_dummy(), never_asked);
    assert_eq!(r, Err(VerificationError::OutputNotFieldElement(u64::MAX)));
}

#[test]
fn inputs_are_looked_at_before_outputs() {
    let r = verify(hash(), &vec![MODULUS + 2], &vec![MODULUS + 3], Proof::new_dummy(), never_asked);
    assert_eq!(r, Err(VerificationError::InputNotFieldElement(MODULUS + 2)));
}
