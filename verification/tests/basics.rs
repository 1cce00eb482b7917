use user_records::record::Value;
use user_records::user::User;
use user_records::{add, greet, multiply};

#[test]
fn add_exact() {
    assert_eq!(add(2, 3), 5);
    assert_eq!(add(-2, 3), 1);
    assert_eq!(add(0, 0), 0);
}

#[test]
fn add_wraps() {
    assert_eq!(add(i32::MAX, 1), i32::MIN);
    assert_eq!(add(i32::MIN, -1), i32::MAX);
}

#[test]
fn multiply_exact() {
    assert_eq!(multiply(2, 3), 6);
    assert_eq!(multiply(-4, 5), -20);
    assert_eq!(multiply(7, 0), 0);
}

#[test]
fn multiply_wraps() {
    assert_eq!(multiply(i32::MAX, 2), -2);
    assert_eq!(multiply(65536, 65536), 0);
}

#[test]
fn greet_exact() {
    assert_eq!(greet("Alice"), "Hello, Alice!");
    assert_eq!(greet(""), "Hello, !");
}

#[test]
fn new_sets_all_fields() {
    let u = User::new(1, "Alice".to_string(), "alice@example.com".to_string(), 30, true);
    assert_eq!(u.id, 1);
    assert_eq!(u.name, "Alice");
    assert_eq!(u.email, "alice@example.com");
    assert_eq!(u.age, 30);
    assert!(u.active);
}

#[test]
fn copy_with_keeps_id() {
    let u = User::new(1, "Alice".to_string(), "alice@example.com".to_string(), 30, true);
    let v = u.copy_with("Alice B".to_string(), "aliceb@example.com".to_string(), 31, false);
    assert_eq!(v.id, u.id);
    assert_eq!(v.name, "Alice B");
    assert_eq!(v.email, "aliceb@example.com");
    assert_eq!(v.age, 31);
    assert!(!v.active);
    let w = v.copy_with("C".to_string(), "c@x".to_string(), 0, true);
    assert_eq!(w.id, 1);
}

#[test]
fn display_form() {
    let u = User::new(-12, "N".to_string(), "n@x".to_string(), 99, false);
    assert_eq!(u.display(), "User(id=-12, name='N', email='n@x')");
}

#[test]
fn as_mapping_lists_the_five_fields() {
    let u = User::new(4, "n".to_string(), "e".to_string(), 9, true);
    let m = u.as_mapping();
    assert_eq!(m.members.len(), 5);
    assert_eq!(m.members[0], ("id".to_string(), Value::Int(4)));
    assert_eq!(m.members[1], ("name".to_string(), Value::Text("n".to_string())));
    assert_eq!(m.members[2], ("email".to_string(), Value::Text("e".to_string())));
    assert_eq!(m.members[3], ("age".to_string(), Value::Int(9)));
    assert_eq!(m.members[4], ("active".to_string(), Value::Bool(true)));
    assert_eq!(m.get("age"), Some(Value::Int(9)));
    assert_eq!(m.get("nope"), None);
}

#[test]
fn mapping_feeds_the_indirect_path() {
    let u = User::new(4, "n".to_string(), "e".to_string(), 9, true);
    let es = vec![user_records::record::Entity::Loose(u.as_mapping())];
    let (total, count) = user_records::process::process_indirect(&es).unwrap();
    assert_eq!((total, count), (9, 1));
}
