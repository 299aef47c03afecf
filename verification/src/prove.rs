//! Prover-side validation: everything the prover checks before any
//! cryptographic work starts.
//!
//! A proof is built from circuit bytecode, a witness map and a verification
//! key. The bytecode names the witness indices it requires as inputs; a
//! witness that leaves one of them empty must be rejected up front, before
//! the expensive proving protocol runs at all.

use vstd::prelude::*;
use crate::codec::{deserialize_spec, deserialize_values};
use crate::errors::Error;
use crate::witness::WitnessMap;

verus! {

/// The witness supplies every input index the circuit requires.
pub open spec fn covers(w: WitnessMap, required: Seq<u32>) -> bool {
    forall|i: int| 0 <= i < required.len() ==> w.has_index(#[trigger] required[i])
}

/// Checks that the witness supplies every required input index, reporting
/// the first one it leaves empty.
pub fn check_complete(w: &WitnessMap, required: &Vec<u32>) -> (r: Result<(), Error>)
    ensures
        match r {
            Ok(()) => covers(*w, required@),
            Err(e) => e matches Error::IncompleteWitness { missing }
                && !w.has_index(missing)
                && (exists|j: int|
                    0 <= j < required@.len() && #[trigger] required@[j] == missing
                    && (forall|i: int| 0 <= i < j ==> w.has_index(#[trigger] required@[i]))),
        },
{
    let mut i: usize = 0;
    while i < required.len()
        invariant
            i <= required@.len(),
            forall|j: int| 0 <= j < i ==> w.has_index(#[trigger] required@[j]),
        decreases required@.len() - i,
    {
        let idx = required[i];
        if idx < 1 || (idx as usize) > w.values.len() {
            assert(!w.has_index(idx));
            assert(0 <= i < required@.len() && required@[i as int] == idx && (forall|k: int|
                0 <= k < i ==> w.has_index(#[trigger] required@[k])));
            return Err(Error::IncompleteWitness { missing: idx });
        }
        i = i + 1;
    }
    Ok(())
}

/// The validation the prover runs before any cryptographic work: decode the
/// serialized witness, then check that it supplies every input index the
/// circuit requires. Only a fully validated witness map is handed on to the
/// proving backend; on any failure no proving work happens at all.
pub fn prepare_prove(required_inputs: &Vec<u32>, witness_bytes: &Vec<u8>) -> (r: Result<
    WitnessMap,
    Error,
>)
    ensures
        match r {
            Ok(w) => {
                &&& w.wf()
                &&& deserialize_spec(witness_bytes@) == Some(w.values@)
                &&& covers(w, required_inputs@)
            },
            Err(e) => match e {
                Error::WitnessFormat => deserialize_spec(witness_bytes@) is None,
                Error::IncompleteWitness { missing } => deserialize_spec(witness_bytes@)
                    matches Some(vals) && !(1 <= missing <= vals.len()) && (exists|j: int|
                    0 <= j < required_inputs@.len() && #[trigger] required_inputs@[j] == missing),
                _ => false,
            },
        },
{
    let vals = match deserialize_values(witness_bytes) {
        Ok(v) => v,
        Err(e) => {
            return Err(e);
        },
    };
    let w = WitnessMap { values: vals };
    match check_complete(&w, required_inputs) {
        Ok(()) => Ok(w),
        Err(e) => Err(e),
    }
}

} // verus!
