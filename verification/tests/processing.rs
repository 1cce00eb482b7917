use user_records::errors::Error;
use user_records::process::{process_direct, process_indirect, process_indirect_counting};
use user_records::record::{Entity, Record, Value};
use user_records::user::User;

fn loose(active: Option<Value>, age: Option<Value>) -> Entity {
    let mut members: Vec<(String, Value)> = Vec::new();
    if let Some(a) = active {
        members.push(("active".to_string(), a));
    }
    if let Some(a) = age {
        members.push(("age".to_string(), a));
    }
    Entity::Loose(Record { members })
}

fn sample_entities() -> Vec<Entity> {
    vec![
        loose(Some(Value::Bool(true)), Some(Value::Int(30))),
        loose(Some(Value::Bool(false)), Some(Value::Int(99))),
        loose(Some(Value::Bool(true)), Some(Value::Int(10))),
    ]
}

#[test]
fn indirect_totals() {
    let (total, count) = process_indirect(&sample_entities()).unwrap();
    assert_eq!(total, 40);
    assert_eq!(count, 2);
}

#[test]
fn indirect_missing_active_is_fatal() {
    let mut es = sample_entities();
    es.push(loose(None, Some(Value::Int(5))));
    let r = process_indirect(&es);
    assert!(matches!(r, Err(Error::LookupFailure(_))));
}

#[test]
fn counting_absorbs_missing_active() {
    let mut es = sample_entities();
    es.insert(1, loose(None, Some(Value::Int(5))));
    let (total, count, errors) = process_indirect_counting(&es);
    assert_eq!(total, 40);
    assert_eq!(count, 2);
    assert_eq!(errors, 1);
}

#[test]
fn type_mismatch_skips_silently() {
    // a non-boolean `active` and a non-integer `age` both skip the
    // entity without an error
    let es = vec![
        loose(Some(Value::Int(1)), Some(Value::Int(30))),
        loose(Some(Value::Bool(true)), Some(Value::Text("x".to_string()))),
        loose(Some(Value::Bool(true)), None),
        loose(Some(Value::Bool(true)), Some(Value::Int(4))),
    ];
    let (total, count) = process_indirect(&es).unwrap();
    assert_eq!(total, 4);
    assert_eq!(count, 1);
    let (t2, c2, errors) = process_indirect_counting(&es);
    assert_eq!((t2, c2), (4, 1));
    assert_eq!(errors, 0);
}

#[test]
fn direct_totals() {
    let es = vec![
        Entity::Typed(User::new(1, "a".to_string(), "a@x".to_string(), 30, true)),
        Entity::Typed(User::new(2, "b".to_string(), "b@x".to_string(), 99, false)),
        Entity::Typed(User::new(3, "c".to_string(), "c@x".to_string(), 10, true)),
    ];
    let (total, count) = process_direct(&es).unwrap();
    assert_eq!(total, 40);
    assert_eq!(count, 2);
}

#[test]
fn direct_view_failure_is_fatal() {
    let es = vec![
        Entity::Typed(User::new(1, "a".to_string(), "a@x".to_string(), 30, true)),
        loose(Some(Value::Bool(true)), Some(Value::Int(10))),
    ];
    let r = process_direct(&es);
    assert!(matches!(r, Err(Error::ViewFailure(_))));
}

#[test]
fn paths_agree_on_typed_users() {
    let es = vec![
        Entity::Typed(User::new(1, "a".to_string(), "a@x".to_string(), 30, true)),
        Entity::Typed(User::new(2, "b".to_string(), "b@x".to_string(), 99, false)),
        Entity::Typed(User::new(3, "c".to_string(), "c@x".to_string(), 10, true)),
        Entity::Typed(User::new(4, "d".to_string(), "d@x".to_string(), -6, true)),
    ];
    let direct = process_direct(&es).unwrap();
    let indirect = process_indirect(&es).unwrap();
    assert_eq!(direct, indirect);
    let (t, c, errors) = process_indirect_counting(&es);
    assert_eq!((t, c), direct);
    assert_eq!(errors, 0);
}

#[test]
fn lookup_on_typed_user_sees_fields() {
    let e = Entity::Typed(User::new(7, "n".to_string(), "e@x".to_string(), 21, true));
    assert_eq!(e.get_member("id"), Some(Value::Int(7)));
    assert_eq!(e.get_member("name"), Some(Value::Text("n".to_string())));
    assert_eq!(e.get_member("email"), Some(Value::Text("e@x".to_string())));
    assert_eq!(e.get_member("age"), Some(Value::Int(21)));
    assert_eq!(e.get_member("active"), Some(Value::Bool(true)));
    assert_eq!(e.get_member("other"), None);
}

#[test]
fn record_lookup_finds_first_match() {
    let rec = Record {
        members: vec![
            ("k".to_string(), Value::Int(1)),
            ("k".to_string(), Value::Int(2)),
        ],
    };
    assert_eq!(rec.get("k"), Some(Value::Int(1)));
    assert_eq!(rec.get("missing"), None);
}

#[test]
fn empty_input_yields_zeroes() {
    let es: Vec<Entity> = Vec::new();
    assert_eq!(process_indirect(&es).unwrap(), (0, 0));
    assert_eq!(process_direct(&es).unwrap(), (0, 0));
    assert_eq!(process_indirect_counting(&es), (0, 0, 0));
}

#[test]
fn negative_ages_accumulate() {
    let es = vec![
        loose(Some(Value::Bool(true)), Some(Value::Int(i32::MIN))),
        loose(Some(Value::Bool(true)), Some(Value::Int(i32::MIN))),
    ];
    let (total, count) = process_indirect(&es).unwrap();
    assert_eq!(total, 2 * (i32::MIN as i64));
    assert_eq!(count, 2);
}
