use tig_structs::json::{solution_json, JsonValue, Solution};
use tig_structs::output::{OutputData, OutputMetaData};
use tig_structs::settings::BenchmarkSettings;

fn settings() -> BenchmarkSettings {
    BenchmarkSettings {
        player_id: String::from("player"),
        block_id: String::from("block"),
        challenge_id: String::from("challenge"),
        algorithm_id: String::from("algorithm"),
        difficulty: vec![40, 250],
    }
}

fn payload_ab() -> Solution {
    let mut s = Solution::new();
    s.insert(String::from("route"), JsonValue::List(vec![
        JsonValue::UInt(0),
        JsonValue::UInt(2),
        JsonValue::UInt(1),
    ]));
    s.insert(String::from("cost"), JsonValue::UInt(99));
    s
}

#[test]
fn seed_is_deterministic() {
    let s = settings();
    let salt = String::from("rand-hash");
    let first = s.calc_seed(&salt, 17);
    let second = s.calc_seed(&salt, 17);
    assert_eq!(first, second);
    let other = settings().calc_seed(&String::from("rand-hash"), 17);
    assert_eq!(first, other);
}

#[test]
fn seed_separates_inputs() {
    let s = settings();
    let salt = String::from("rand-hash");
    assert_ne!(s.calc_seed(&salt, 17), s.calc_seed(&salt, 18));
    assert_ne!(s.calc_seed(&salt, 17), s.calc_seed(&String::from("other"), 17));
}

#[test]
fn leaf_hash_is_stable_under_payload_order() {
    let mut flipped = Solution::new();
    flipped.insert(String::from("cost"), JsonValue::UInt(99));
    flipped.insert(String::from("route"), JsonValue::List(vec![
        JsonValue::UInt(0),
        JsonValue::UInt(2),
        JsonValue::UInt(1),
    ]));
    let a = OutputData {
        nonce: 5,
        runtime_signature: 11,
        fuel_consumed: 1000,
        solution: payload_ab(),
    };
    let b = OutputData {
        nonce: 5,
        runtime_signature: 11,
        fuel_consumed: 1000,
        solution: flipped,
    };
    assert_eq!(a.to_leaf_hash().0, b.to_leaf_hash().0);
    assert_eq!(a.calc_solution_signature(), b.calc_solution_signature());
}

#[test]
fn leaf_hash_binds_the_payload() {
    let a = OutputData {
        nonce: 5,
        runtime_signature: 11,
        fuel_consumed: 1000,
        solution: payload_ab(),
    };
    let mut tampered_payload = payload_ab();
    tampered_payload.insert(String::from("cost"), JsonValue::UInt(98));
    let b = OutputData {
        nonce: 5,
        runtime_signature: 11,
        fuel_consumed: 1000,
        solution: tampered_payload,
    };
    assert_ne!(a.calc_solution_signature(), b.calc_solution_signature());
    assert_ne!(a.to_leaf_hash().0, b.to_leaf_hash().0);
}

#[test]
fn metadata_carries_fields_verbatim() {
    let a = OutputData {
        nonce: 5,
        runtime_signature: 11,
        fuel_consumed: 1000,
        solution: payload_ab(),
    };
    let sig = a.calc_solution_signature();
    let meta = a.to_meta_data();
    assert_eq!(meta.nonce, 5);
    assert_eq!(meta.runtime_signature, 11);
    assert_eq!(meta.fuel_consumed, 1000);
    assert_eq!(meta.solution_signature, sig);
}

#[test]
fn conversion_matches_projection() {
    let a = OutputData {
        nonce: 9,
        runtime_signature: 4,
        fuel_consumed: 77,
        solution: payload_ab(),
    };
    let sig = a.calc_solution_signature();
    let meta = OutputMetaData::from(a);
    assert_eq!(meta.nonce, 9);
    assert_eq!(meta.runtime_signature, 4);
    assert_eq!(meta.fuel_consumed, 77);
    assert_eq!(meta.solution_signature, sig);
}

#[test]
fn solution_signature_matches_the_hash_of_the_canonical_text() {
    let payload = payload_ab();
    let text = solution_json(&payload);
    let digest = blake3::hash(text.as_bytes());
    let expected = u64::from_le_bytes(digest.as_bytes()[0..8].try_into().unwrap());
    let data = OutputData {
        nonce: 0,
        runtime_signature: 0,
        fuel_consumed: 0,
        solution: payload,
    };
    assert_eq!(data.calc_solution_signature(), expected);
}

#[test]
fn seed_matches_the_hash_of_the_seed_text() {
    let s = settings();
    let salt = String::from("abc");
    let text = format!("{}_{}_{}", tig_structs::settings::settings_to_json(&s), salt, 7);
    let expected: [u8; 32] = *blake3::hash(text.as_bytes()).as_bytes();
    assert_eq!(s.calc_seed(&salt, 7), expected);
}
