use zk_lifecycle::codec::{deserialize_values, serialize_values, WIRE_VERSION};
use zk_lifecycle::errors::Error;
use zk_lifecycle::field::{
    parse_field_element, FieldElement, MODULUS_W0, MODULUS_W1, MODULUS_W2, MODULUS_W3,
};
use zk_lifecycle::init::InitGuard;
use zk_lifecycle::prove::{check_complete, prepare_prove};
use zk_lifecycle::srs::{plan_srs, settle_provision, SrsAction, SrsState};
use zk_lifecycle::witness::{from_strings, witness_from_strings, WitnessMap};

fn limbs_of(fe: &FieldElement) -> (u64, u64, u64, u64) {
    (fe.limbs.w0, fe.limbs.w1, fe.limbs.w2, fe.limbs.w3)
}

fn strings(v: &[&str]) -> Vec<String> {
    v.iter().map(|s| s.to_string()).collect()
}

#[test]
fn parse_small_decimal() {
    let fe = parse_field_element("3").unwrap();
    assert_eq!(limbs_of(&fe), (3, 0, 0, 0));
    let fe = parse_field_element("15").unwrap();
    assert_eq!(limbs_of(&fe), (15, 0, 0, 0));
    let fe = parse_field_element("0").unwrap();
    assert_eq!(limbs_of(&fe), (0, 0, 0, 0));
    let fe = parse_field_element("00012").unwrap();
    assert_eq!(limbs_of(&fe), (12, 0, 0, 0));
}

#[test]
fn parse_decimal_crosses_limbs() {
    // 2^64 needs the second limb.
    let fe = parse_field_element("18446744073709551616").unwrap();
    assert_eq!(limbs_of(&fe), (0, 1, 0, 0));
    // 10^20 = 5 * 2^64 + 7766279631452241920.
    let fe = parse_field_element("100000000000000000000").unwrap();
    assert_eq!(limbs_of(&fe), (7766279631452241920, 5, 0, 0));
}

#[test]
fn parse_hex() {
    let fe = parse_field_element("0xff").unwrap();
    assert_eq!(limbs_of(&fe), (255, 0, 0, 0));
    // Hex digits may be upper case; the marker itself must be `0x`.
    let fe = parse_field_element("0x1A").unwrap();
    assert_eq!(limbs_of(&fe), (26, 0, 0, 0));
    let fe = parse_field_element("0x10000000000000000").unwrap();
    assert_eq!(limbs_of(&fe), (0, 1, 0, 0));
}

#[test]
fn parse_rejects_malformed() {
    assert!(parse_field_element("").is_none());
    assert!(parse_field_element("0x").is_none());
    assert!(parse_field_element("12a").is_none());
    assert!(parse_field_element("xyz").is_none());
    assert!(parse_field_element("-3").is_none());
    assert!(parse_field_element(" 12").is_none());
    assert!(parse_field_element("0X10").is_none());
    assert!(parse_field_element("3.5").is_none());
}

#[test]
fn parse_modulus_boundary_decimal() {
    // The scalar-field modulus itself is not canonical ...
    assert!(parse_field_element(
        "21888242871839275222246405745257275088548364400416034343698204186575808495617"
    )
    .is_none());
    // ... but the value one below it is.
    let fe = parse_field_element(
        "21888242871839275222246405745257275088548364400416034343698204186575808495616",
    )
    .unwrap();
    assert_eq!(
        limbs_of(&fe),
        (MODULUS_W0 - 1, MODULUS_W1, MODULUS_W2, MODULUS_W3)
    );
}

#[test]
fn parse_modulus_boundary_hex() {
    assert!(parse_field_element(
        "0x30644e72e131a029b85045b68181585d2833e84879b9709143e1f593f0000001"
    )
    .is_none());
    let fe = parse_field_element(
        "0x30644e72e131a029b85045b68181585d2833e84879b9709143e1f593f0000000",
    )
    .unwrap();
    assert_eq!(
        limbs_of(&fe),
        (MODULUS_W0 - 1, MODULUS_W1, MODULUS_W2, MODULUS_W3)
    );
    // Far above the modulus, and too wide for 256 bits.
    assert!(parse_field_element(
        "0xffffffffffffffffffffffffffffffffffffffffffffffffffffffffffffffff"
    )
    .is_none());
}

#[test]
fn from_strings_assigns_in_order() {
    let w = from_strings(&strings(&["3", "5"])).unwrap();
    assert_eq!(w.values.len(), 2);
    assert_eq!(limbs_of(&w.values[0]), (3, 0, 0, 0));
    assert_eq!(limbs_of(&w.values[1]), (5, 0, 0, 0));
}

#[test]
fn from_strings_names_offending_index() {
    let err = from_strings(&strings(&["3", "not a number", "5"])).unwrap_err();
    assert_eq!(err, Error::WitnessParse { index: 1 });
    let err = from_strings(&strings(&["bad"])).unwrap_err();
    assert_eq!(err, Error::WitnessParse { index: 0 });
}

#[test]
fn witness_bytes_layout() {
    let bytes = witness_from_strings(&strings(&["3", "5"])).unwrap();
    assert_eq!(bytes.len(), 5 + 2 * 32);
    assert_eq!(bytes[0], WIRE_VERSION);
    assert_eq!(&bytes[1..5], &[2, 0, 0, 0]);
    assert_eq!(bytes[5], 3);
    assert!(bytes[6..37].iter().all(|&b| b == 0));
    assert_eq!(bytes[37], 5);
    assert!(bytes[38..69].iter().all(|&b| b == 0));
}

#[test]
fn codec_round_trip() {
    let w = from_strings(&strings(&["3", "5", "0xffffffffffffffffff"])).unwrap();
    let bytes = serialize_values(&w.values);
    let back = deserialize_values(&bytes).unwrap();
    assert_eq!(WitnessMap { values: back }, w);
}

#[test]
fn codec_round_trip_empty() {
    let vals: Vec<FieldElement> = Vec::new();
    let bytes = serialize_values(&vals);
    assert_eq!(bytes, vec![WIRE_VERSION, 0, 0, 0, 0]);
    let back = deserialize_values(&bytes).unwrap();
    assert!(back.is_empty());
}

#[test]
fn decoder_rejects_malformed_bytes() {
    // Too short to hold a header.
    assert_eq!(
        deserialize_values(&vec![]).unwrap_err(),
        Error::WitnessFormat
    );
    // Unknown version byte.
    assert_eq!(
        deserialize_values(&vec![9, 0, 0, 0, 0]).unwrap_err(),
        Error::WitnessFormat
    );
    // Count that does not match the length.
    assert_eq!(
        deserialize_values(&vec![WIRE_VERSION, 1, 0, 0, 0]).unwrap_err(),
        Error::WitnessFormat
    );
    // Truncated entry.
    let good = witness_from_strings(&strings(&["3"])).unwrap();
    let mut truncated = good.clone();
    truncated.pop();
    assert_eq!(
        deserialize_values(&truncated).unwrap_err(),
        Error::WitnessFormat
    );
    // An entry at or above the modulus is not canonical.
    let mut huge = vec![WIRE_VERSION, 1, 0, 0, 0];
    huge.extend(std::iter::repeat(0xffu8).take(32));
    assert_eq!(deserialize_values(&huge).unwrap_err(), Error::WitnessFormat);
}

#[test]
fn decoder_accepts_encoder_output_only() {
    // Flipping the version byte of a valid encoding breaks it.
    let mut bytes = witness_from_strings(&strings(&["7"])).unwrap();
    bytes[0] = 2;
    assert_eq!(deserialize_values(&bytes).unwrap_err(), Error::WitnessFormat);
}

#[test]
fn srs_setup_with_size_is_idempotent() {
    let mut cache = SrsState::empty();
    let first = plan_srs(&cache, 4096);
    assert_eq!(first, SrsAction::Provision { size: 4096 });
    settle_provision(&mut cache, 4096);
    // The second request for the same size plans no new work.
    let second = plan_srs(&cache, 4096);
    assert_eq!(second, SrsAction::AlreadyCovered);
    // Smaller requests are covered too; larger ones are not.
    assert_eq!(plan_srs(&cache, 1024), SrsAction::AlreadyCovered);
    assert_eq!(plan_srs(&cache, 8192), SrsAction::Provision { size: 8192 });
    // Settling a smaller size never shrinks the cache.
    settle_provision(&mut cache, 16);
    assert_eq!(cache.covered_size, 4096);
}

#[test]
fn complete_witness_passes_validation() {
    let w = from_strings(&strings(&["3", "5"])).unwrap();
    assert_eq!(w.len(), 2);
    assert!(check_complete(&w, &vec![1, 2]).is_ok());
    assert!(check_complete(&w, &vec![2]).is_ok());
    assert!(check_complete(&w, &vec![]).is_ok());
}

#[test]
fn missing_input_fails_before_any_proving_work() {
    let w = from_strings(&strings(&["3", "5"])).unwrap();
    // Witness indices start at 1; index 3 has no value here, and index 0 is
    // reserved.
    assert_eq!(
        check_complete(&w, &vec![1, 3]).unwrap_err(),
        Error::IncompleteWitness { missing: 3 }
    );
    assert_eq!(
        check_complete(&w, &vec![0]).unwrap_err(),
        Error::IncompleteWitness { missing: 0 }
    );
    // The first missing index is the one reported.
    assert_eq!(
        check_complete(&w, &vec![2, 7, 9]).unwrap_err(),
        Error::IncompleteWitness { missing: 7 }
    );
}

#[test]
fn prepare_prove_validates_bytes_then_coverage() {
    let bytes = witness_from_strings(&strings(&["3", "5"])).unwrap();
    let w = prepare_prove(&vec![1, 2], &bytes).unwrap();
    assert_eq!(w.values.len(), 2);
    assert_eq!(
        prepare_prove(&vec![1, 2, 3], &bytes).unwrap_err(),
        Error::IncompleteWitness { missing: 3 }
    );
    assert_eq!(
        prepare_prove(&vec![1], &vec![0, 1, 2]).unwrap_err(),
        Error::WitnessFormat
    );
}

#[test]
fn error_labels_are_stable() {
    assert_eq!(Error::SrsProvision.label(), "SRS setup failed");
    assert_eq!(
        Error::VerificationKey.label(),
        "Getting verification key failed"
    );
    assert_eq!(
        Error::WitnessParse { index: 4 }.label(),
        "Failed to convert witness"
    );
    assert_eq!(
        Error::IncompleteWitness { missing: 2 }.label(),
        "Witness is missing a required input"
    );
    assert_eq!(Error::WitnessFormat.label(), "Failed to deserialize witness");
    assert_eq!(Error::Proving.label(), "Proving failed");
    assert_eq!(Error::ProofFormat.label(), "Proof verification failed");
}

#[test]
fn init_runs_once() {
    let mut guard = InitGuard::new();
    assert!(guard.begin_init());
    assert!(!guard.begin_init());
    assert!(guard.initialized);
}
