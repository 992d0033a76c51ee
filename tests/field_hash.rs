use ark_bn254::Fr;
use ark_ff::{BigInteger, PrimeField};
use merkle_claims::{
    field_to_hex, hash_poseidon, hex_to_field, HashError, HashPrimitive, HashRequest, Poseidon2Hash,
};

fn request(inputs: &[&str]) -> HashRequest {
    HashRequest { inputs: inputs.iter().map(|s| s.to_string()).collect() }
}

fn expected(values: &[u64]) -> String {
    let iv = Fr::from(values.len() as u64) * Fr::from(18446744073709551616u128);
    let third = if values.len() == 3 { Fr::from(values[2]) } else { Fr::from(0u64) };
    let mut state = [Fr::from(values[0]), Fr::from(values[1]), third, iv];
    taceo_poseidon2::bn254::t4::permutation_in_place(&mut state);
    hex::encode(state[0].into_bigint().to_bytes_be())
}

#[test]
fn two_inputs_give_64_hex_chars() {
    let resp = hash_poseidon(&request(&["0x01", "0x02"])).unwrap();
    assert_eq!(resp.hash.len(), 64);
    assert!(resp.hash.chars().all(|c| c.is_ascii_digit() || ('a'..='f').contains(&c)));
    assert_eq!(resp.hash, expected(&[1, 2]));
}

#[test]
fn three_inputs_match_the_sponge() {
    let resp = hash_poseidon(&request(&["01", "0x02", "03"])).unwrap();
    assert_eq!(resp.hash, expected(&[1, 2, 3]));
    assert_ne!(resp.hash, expected(&[1, 2]));
}

#[test]
fn four_inputs_are_refused() {
    let err = hash_poseidon(&request(&["0x01", "0x02", "0x03", "0x04"])).err().unwrap();
    assert_eq!(err, HashError::UnsupportedInputCount { count: 4 });
    let err = hash_poseidon(&request(&["0x01"])).err().unwrap();
    assert_eq!(err, HashError::UnsupportedInputCount { count: 1 });
}

#[test]
fn bad_arity_is_reported_before_bad_hex() {
    let err = hash_poseidon(&request(&["zz", "zz", "zz", "zz"])).err().unwrap();
    assert_eq!(err, HashError::UnsupportedInputCount { count: 4 });
}

#[test]
fn invalid_hex_names_the_input() {
    assert_eq!(hash_poseidon(&request(&["0x01", "0xg2"])).err().unwrap(), HashError::InvalidHex { input: 1 });
    assert_eq!(hash_poseidon(&request(&["0x1", "0x02"])).err().unwrap(), HashError::InvalidHex { input: 0 });
    assert_eq!(
        hash_poseidon(&request(&["0x01", "0x02", "xyz"])).err().unwrap(),
        HashError::InvalidHex { input: 2 }
    );
}

#[test]
fn hex_inputs_are_reduced_mod_order() {
    let mut one = vec![0u8; 32];
    one[31] = 1;
    assert_eq!(hex_to_field("0x01"), Some(one.clone()));
    assert_eq!(hex_to_field("01"), Some(one.clone()));
    assert_eq!(hex_to_field("0X01"), None);
    let modulus = "30644e72e131a029b85045b68181585d2833e84879b9709143e1f593f0000001";
    assert_eq!(hex_to_field(modulus), Some(vec![0u8; 32]));
    let modulus_plus_one = "0x30644E72E131A029B85045B68181585D2833E84879B9709143E1F593F0000002";
    assert_eq!(hex_to_field(modulus_plus_one), Some(one));
    assert_eq!(hex_to_field(""), Some(vec![0u8; 32]));
}

#[test]
fn hex_round_trip_through_the_boundary() {
    let resp = hash_poseidon(&request(&["0x05", "0x07"])).unwrap();
    let bytes = hex_to_field(&resp.hash).unwrap();
    assert_eq!(field_to_hex(&bytes), resp.hash);
    let small = hex_to_field("0xab").unwrap();
    assert_eq!(field_to_hex(&small), format!("{:0>64}", "ab"));
}

#[test]
fn poseidon2_primitive_matches_the_boundary() {
    let mut a = [0u8; 32];
    a[31] = 1;
    let mut b = [0u8; 32];
    b[31] = 2;
    let digest = Poseidon2Hash.combine2(&a, &b);
    assert_eq!(hex::encode(digest), expected(&[1, 2]));
    let digest3 = Poseidon2Hash.combine3(&[1u8], &[2u8], &[3u8]);
    assert_eq!(hex::encode(digest3), expected(&[1, 2, 3]));
}
