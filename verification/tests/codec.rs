use user_records::errors::Error;
use user_records::user::User;

fn sample() -> User {
    User::new(
        1,
        "Alice".to_string(),
        "alice@example.com".to_string(),
        30,
        true,
    )
}

#[test]
fn encode_compact_exact() {
    let u = sample();
    let s = u.encode_json().unwrap();
    assert_eq!(
        s,
        "{\"id\":1,\"name\":\"Alice\",\"email\":\"alice@example.com\",\"age\":30,\"active\":true}"
    );
}

#[test]
fn encode_pretty_exact() {
    let u = sample();
    let s = u.encode_json_pretty().unwrap();
    assert_eq!(
        s,
        "{\n  \"id\": 1,\n  \"name\": \"Alice\",\n  \"email\": \"alice@example.com\",\n  \"age\": 30,\n  \"active\": true\n}"
    );
    assert!(s.contains('\n'));
}

#[test]
fn pretty_stripped_is_compact() {
    let u = sample();
    let compact = u.encode_json().unwrap();
    let pretty = u.encode_json_pretty().unwrap();
    let stripped: String = pretty
        .chars()
        .filter(|c| !matches!(c, ' ' | '\t' | '\n' | '\r'))
        .collect();
    assert_eq!(stripped, compact);
}

#[test]
fn decode_known_text() {
    let u = User::decode_json(
        "{\"id\":1,\"name\":\"Alice\",\"email\":\"alice@example.com\",\"age\":30,\"active\":true}",
    )
    .unwrap();
    assert_eq!(u.id, 1);
    assert_eq!(u.name, "Alice");
    assert_eq!(u.email, "alice@example.com");
    assert_eq!(u.age, 30);
    assert!(u.active);
    assert_eq!(
        u.display(),
        "User(id=1, name='Alice', email='alice@example.com')"
    );
}

#[test]
fn round_trip_simple() {
    let u = sample();
    let back = User::decode_json(&u.encode_json().unwrap()).unwrap();
    assert_eq!(back, u);
}

#[test]
fn round_trip_pretty() {
    let u = sample();
    let back = User::decode_json(&u.encode_json_pretty().unwrap()).unwrap();
    assert_eq!(back, u);
}

#[test]
fn round_trip_extreme_ages() {
    for age in [i32::MIN, i32::MAX, 0, -1] {
        let u = User::new(-7, "n".to_string(), "e".to_string(), age, false);
        let back = User::decode_json(&u.encode_json().unwrap()).unwrap();
        assert_eq!(back, u);
        let back2 = User::decode_json(&u.encode_json_pretty().unwrap()).unwrap();
        assert_eq!(back2, u);
    }
}

#[test]
fn round_trip_empty_strings() {
    let u = User::new(i32::MIN, String::new(), String::new(), 0, true);
    let back = User::decode_json(&u.encode_json().unwrap()).unwrap();
    assert_eq!(back, u);
}

#[test]
fn round_trip_escapes_and_unicode() {
    let u = User::new(
        5,
        "a\"b\\c\nd\te\r\u{8}\u{c}\u{1}\u{1f}".to_string(),
        "héllo 😀 ωorld".to_string(),
        7,
        false,
    );
    let s = u.encode_json().unwrap();
    let back = User::decode_json(&s).unwrap();
    assert_eq!(back, u);
    let back2 = User::decode_json(&u.encode_json_pretty().unwrap()).unwrap();
    assert_eq!(back2, u);
}

#[test]
fn escape_rendering_exact() {
    let u = User::new(0, "a\"\\\n\u{1f}".to_string(), "e".to_string(), 0, false);
    let s = u.encode_json().unwrap();
    assert_eq!(
        s,
        "{\"id\":0,\"name\":\"a\\\"\\\\\\n\\u001f\",\"email\":\"e\",\"age\":0,\"active\":false}"
    );
}

#[test]
fn decode_any_key_order() {
    let u = User::decode_json(
        "{\"active\":false,\"age\":9,\"email\":\"x\",\"name\":\"y\",\"id\":-3}",
    )
    .unwrap();
    assert_eq!(u, User::new(-3, "y".to_string(), "x".to_string(), 9, false));
}

#[test]
fn decode_with_whitespace() {
    let u = User::decode_json(
        " \t\r\n{ \"id\" : 2 , \"name\" : \"n\" , \"email\" : \"e\" , \"age\" : 3 , \"active\" : true } \n",
    )
    .unwrap();
    assert_eq!(u, User::new(2, "n".to_string(), "e".to_string(), 3, true));
}

#[test]
fn decode_unicode_escapes() {
    let u = User::decode_json(
        "{\"id\":1,\"name\":\"\\u0041\\u00e9\",\"email\":\"\\ud83d\\ude00\",\"age\":0,\"active\":true}",
    )
    .unwrap();
    assert_eq!(u.name, "Aé");
    assert_eq!(u.email, "😀");
}

#[test]
fn decode_missing_key_fails() {
    let r = User::decode_json("{\"id\":1,\"name\":\"A\",\"email\":\"e\",\"active\":true}");
    assert!(matches!(r, Err(Error::DecodingError(_))));
}

#[test]
fn decode_wrong_type_fails() {
    let r = User::decode_json(
        "{\"id\":1,\"name\":\"A\",\"email\":\"e\",\"age\":\"thirty\",\"active\":true}",
    );
    assert!(matches!(r, Err(Error::DecodingError(_))));
}

#[test]
fn decode_malformed_fails() {
    for bad in [
        "",
        "not json",
        "{",
        "[1,2]",
        "{\"id\":1,\"name\":\"A\",\"email\":\"e\",\"age\":30,\"active\":true",
        "{\"id\":1,\"name\":\"A\",\"email\":\"e\",\"age\":30,\"active\":true}x",
        "{\"id\":1,\"name\":\"A\",\"email\":\"e\",\"age\":30,\"active\":true,}",
        "{\"id\":1,\"id\":2,\"name\":\"A\",\"email\":\"e\",\"age\":30,\"active\":true}",
        "{\"id\":1,\"name\":\"A\",\"email\":\"e\",\"age\":30,\"active\":true,\"extra\":0}",
        "{\"id\":1,\"name\":\"A\",\"email\":\"e\",\"age\":30.5,\"active\":true}",
        "{\"id\":1,\"name\":\"A\",\"email\":\"e\",\"age\":3e1,\"active\":true}",
        "{\"id\":1,\"name\":\"A\",\"email\":\"e\",\"age\":007,\"active\":true}",
        "{\"id\":1,\"name\":\"A\",\"email\":\"e\",\"age\":2147483648,\"active\":true}",
        "{\"id\":1,\"name\":\"A\",\"email\":\"e\",\"age\":-2147483649,\"active\":true}",
        "{\"id\":1,\"name\":\"\\ud800\",\"email\":\"e\",\"age\":1,\"active\":true}",
        "{\"id\":1,\"name\":\"\\q\",\"email\":\"e\",\"age\":1,\"active\":true}",
        "{}",
    ] {
        let r = User::decode_json(bad);
        assert!(
            matches!(r, Err(Error::DecodingError(_))),
            "accepted: {}",
            bad
        );
    }
}

#[test]
fn decode_boundary_ages_ok() {
    let u = User::decode_json(
        "{\"id\":-2147483648,\"name\":\"A\",\"email\":\"e\",\"age\":2147483647,\"active\":false}",
    )
    .unwrap();
    assert_eq!(u.id, i32::MIN);
    assert_eq!(u.age, i32::MAX);
}

#[test]
fn encoded_text_parses_with_serde_json() {
    let u = User::new(
        42,
        "Zoë \"q\" \\ end".to_string(),
        "z@e.x".to_string(),
        -5,
        true,
    );
    let s = u.encode_json().unwrap();
    let v: serde_json::Value = serde_json::from_str(&s).unwrap();
    assert_eq!(v.get("id").unwrap().as_i64().unwrap(), 42);
    assert_eq!(v.get("name").unwrap().as_str().unwrap(), "Zoë \"q\" \\ end");
    assert_eq!(v.get("email").unwrap().as_str().unwrap(), "z@e.x");
    assert_eq!(v.get("age").unwrap().as_i64().unwrap(), -5);
    assert!(v.get("active").unwrap().as_bool().unwrap());
    let p = u.encode_json_pretty().unwrap();
    let vp: serde_json::Value = serde_json::from_str(&p).unwrap();
    assert_eq!(v, vp);
}

#[test]
fn serde_json_text_decodes_here() {
    let mut m = serde_json::Map::new();
    m.insert("id".to_string(), serde_json::Value::from(8));
    m.insert("name".to_string(), serde_json::Value::from("Ann"));
    m.insert("email".to_string(), serde_json::Value::from("a@b.c"));
    m.insert("age".to_string(), serde_json::Value::from(-1));
    m.insert("active".to_string(), serde_json::Value::from(false));
    let text = serde_json::to_string(&serde_json::Value::Object(m)).unwrap();
    let u = User::decode_json(&text).unwrap();
    assert_eq!(u, User::new(8, "Ann".to_string(), "a@b.c".to_string(), -1, false));
}

#[test]
fn encoding_error_carries_message() {
    let e = Error::EncodingError("cannot serialize".to_string());
    assert_eq!(e.message(), "cannot serialize");
}
