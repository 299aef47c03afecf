//! Witness materialization: caller strings become a witness map, and the
//! map travels across the boundary in the codec's byte form.

use vstd::prelude::*;
use crate::codec::{deserialize_spec, serialize_values};
use crate::codec::lemma_codec_round_trip;
use crate::errors::Error;
use crate::field::{FieldElement, field_value_of, parse_field_element, parses_as_field};

verus! {

/// The witness map. Values are assigned to witness indices in input order,
/// starting at index 1 (index 0 is reserved by convention), so the value of
/// witness index `i` sits at position `i - 1`.
#[derive(PartialEq, Eq, Debug)]
pub struct WitnessMap {
    pub values: Vec<FieldElement>,
}

impl WitnessMap {
    /// Every stored value is canonical.
    pub open spec fn wf(self) -> bool {
        forall|i: int| 0 <= i < self.values@.len() ==> (#[trigger] self.values@[i]).wf()
    }

    /// How many witness indices have a value.
    pub open spec fn spec_len(self) -> nat {
        self.values@.len()
    }

    /// Whether witness index `idx` has a value: indices start at 1 and are
    /// assigned contiguously.
    pub open spec fn has_index(self, idx: u32) -> bool {
        1 <= idx <= self.values@.len()
    }

    /// How many witness indices have a value.
    pub fn len(&self) -> (n: usize)
        ensures
            n == self.spec_len(),
    {
        self.values.len()
    }
}

/// Builds the witness map from caller strings: string `i` becomes the value
/// of witness index `i + 1`. The first string that does not parse as a
/// canonical field element fails the whole call, naming its position in the
/// list; no partial map is returned.
pub fn from_strings(values: &Vec<String>) -> (r: Result<WitnessMap, Error>)
    ensures
        match r {
            Ok(w) => {
                &&& w.wf()
                &&& w.values@.len() == values@.len()
                &&& forall|i: int|
                    0 <= i < values@.len() ==> parses_as_field(#[trigger] values@[i]@)
                &&& forall|i: int|
                    0 <= i < values@.len() ==> (#[trigger] w.values@[i]).value()
                        == field_value_of(values@[i]@)
            },
            Err(e) => e matches Error::WitnessParse { index }
                && index < values@.len()
                && !parses_as_field(values@[index as int]@)
                && (forall|i: int| 0 <= i < index ==> parses_as_field(#[trigger] values@[i]@)),
        },
{
    let mut out: Vec<FieldElement> = Vec::new();
    let mut i: usize = 0;
    while i < values.len()
        invariant
            i <= values@.len(),
            out@.len() == i,
            forall|j: int| 0 <= j < i ==> parses_as_field(#[trigger] values@[j]@),
            forall|j: int|
                0 <= j < i ==> (#[trigger] out@[j]).wf() && out@[j].value() == field_value_of(
                    values@[j]@,
                ),
        decreases values@.len() - i,
    {
        let fe = match parse_field_element(values[i].as_str()) {
            Some(fe) => fe,
            None => {
                return Err(Error::WitnessParse { index: i });
            },
        };
        out.push(fe);
        i = i + 1;
    }
    Ok(WitnessMap { values: out })
}

/// The whole witness-encoding operation: parses the caller's strings and
/// hands back the serialized witness map, which decodes to exactly the
/// parsed values. The first string that does not parse fails the call,
/// naming its position.
pub fn witness_from_strings(values: &Vec<String>) -> (r: Result<Vec<u8>, Error>)
    requires
        values@.len() < 0x100000000,
    ensures
        match r {
            Ok(b) => {
                &&& forall|i: int|
                    0 <= i < values@.len() ==> parses_as_field(#[trigger] values@[i]@)
                &&& deserialize_spec(b@) matches Some(fes) && fes.len() == values@.len()
                    && (forall|i: int|
                    0 <= i < values@.len() ==> (#[trigger] fes[i]).value() == field_value_of(
                        values@[i]@,
                    ))
            },
            Err(e) => e matches Error::WitnessParse { index }
                && index < values@.len()
                && !parses_as_field(values@[index as int]@)
                && (forall|i: int| 0 <= i < index ==> parses_as_field(#[trigger] values@[i]@)),
        },
{
    let w = match from_strings(values) {
        Ok(w) => w,
        Err(e) => {
            return Err(e);
        },
    };
    let bytes = serialize_values(&w.values);
    proof {
        lemma_codec_round_trip(w.values@);
    }
    Ok(bytes)
}

} // verus!
