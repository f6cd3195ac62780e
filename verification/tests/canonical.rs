use tig_structs::json::{canonical_json, solution_json, JsonValue, Solution};
use tig_structs::settings::{settings_to_json, BenchmarkSettings};
use tig_structs::u64_to_decimal;

#[test]
fn decimal_rendering() {
    assert_eq!(u64_to_decimal(0), "0");
    assert_eq!(u64_to_decimal(7), "7");
    assert_eq!(u64_to_decimal(12345), "12345");
    assert_eq!(u64_to_decimal(u64::MAX), "18446744073709551615");
}

#[test]
fn scalar_rendering() {
    assert_eq!(canonical_json(&JsonValue::Null), "null");
    assert_eq!(canonical_json(&JsonValue::Bool(true)), "true");
    assert_eq!(canonical_json(&JsonValue::Bool(false)), "false");
    assert_eq!(canonical_json(&JsonValue::UInt(42)), "42");
    assert_eq!(canonical_json(&JsonValue::Int(-42)), "-42");
    assert_eq!(
        canonical_json(&JsonValue::Int(i64::MIN)),
        "-9223372036854775808"
    );
    assert_eq!(canonical_json(&JsonValue::Text(String::from("hi"))), "\"hi\"");
}

#[test]
fn string_escaping() {
    assert_eq!(
        canonical_json(&JsonValue::Text(String::from("a\"b\\c"))),
        "\"a\\\"b\\\\c\""
    );
    assert_eq!(
        canonical_json(&JsonValue::Text(String::from("x\ny\r\t"))),
        "\"x\\ny\\r\\t\""
    );
    assert_eq!(
        canonical_json(&JsonValue::Text(String::from("\u{1}\u{1f}"))),
        "\"\\u0001\\u001f\""
    );
}

#[test]
fn list_rendering() {
    let v = JsonValue::List(vec![
        JsonValue::UInt(1),
        JsonValue::Int(-2),
        JsonValue::Null,
    ]);
    assert_eq!(canonical_json(&v), "[1,-2,null]");
    assert_eq!(canonical_json(&JsonValue::List(vec![])), "[]");
}

#[test]
fn object_keys_are_sorted() {
    let mut s = Solution::new();
    s.insert(String::from("zeta"), JsonValue::UInt(1));
    s.insert(String::from("alpha"), JsonValue::UInt(2));
    s.insert(String::from("mid"), JsonValue::Bool(false));
    assert_eq!(solution_json(&s), "{\"alpha\":2,\"mid\":false,\"zeta\":1}");
}

#[test]
fn object_insert_replaces_same_key() {
    let mut s = Solution::new();
    s.insert(String::from("k"), JsonValue::UInt(1));
    s.insert(String::from("k"), JsonValue::UInt(2));
    assert_eq!(solution_json(&s), "{\"k\":2}");
    assert_eq!(s.len(), 1);
}

#[test]
fn insertion_order_does_not_matter() {
    let mut a = Solution::new();
    a.insert(String::from("x"), JsonValue::UInt(1));
    a.insert(String::from("y"), JsonValue::Text(String::from("v")));
    a.insert(String::from("z"), JsonValue::Null);
    let mut b = Solution::new();
    b.insert(String::from("z"), JsonValue::Null);
    b.insert(String::from("y"), JsonValue::Text(String::from("v")));
    b.insert(String::from("x"), JsonValue::UInt(1));
    assert_eq!(solution_json(&a), solution_json(&b));
}

#[test]
fn matches_reference_json_formatting() {
    // serde_json keeps object keys sorted, so its rendering of the same
    // members must coincide with the canonical form
    let mut m = serde_json::Map::new();
    m.insert(String::from("b"), serde_json::Value::from(7u64));
    m.insert(
        String::from("a"),
        serde_json::Value::String(String::from("t\"x")),
    );
    m.insert(String::from("c"), serde_json::Value::Bool(true));
    let reference = serde_json::to_string(&serde_json::Value::Object(m)).unwrap();

    let mut s = Solution::new();
    s.insert(String::from("b"), JsonValue::UInt(7));
    s.insert(String::from("a"), JsonValue::Text(String::from("t\"x")));
    s.insert(String::from("c"), JsonValue::Bool(true));
    assert_eq!(solution_json(&s), reference);
}

#[test]
fn settings_canonical_form() {
    let s = BenchmarkSettings {
        player_id: String::from("p1"),
        block_id: String::from("b1"),
        challenge_id: String::from("c1"),
        algorithm_id: String::from("a1"),
        difficulty: vec![3, -5],
    };
    assert_eq!(
        settings_to_json(&s),
        "{\"algorithm_id\":\"a1\",\"block_id\":\"b1\",\"challenge_id\":\"c1\",\
         \"difficulty\":[3,-5],\"player_id\":\"p1\"}"
    );
}
