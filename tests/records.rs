use yang_loader::value::Value;
use yang_loader::yaml_data::{validate_table_value, YamlData};

fn s(text: &str) -> String {
    text.to_string()
}

fn num(text: &str) -> Value {
    Value::Number(s(text))
}

fn map(entries: Vec<(&str, Value)>) -> Value {
    Value::Mapping(entries.into_iter().map(|(k, v)| (Value::String(s(k)), v)).collect())
}

fn as_int(v: &Value) -> Option<i64> {
    match v {
        Value::Number(n) => n.parse::<i64>().ok(),
        _ => None,
    }
}

fn record(props: Vec<(&str, Value)>) -> YamlData {
    let mut d = YamlData::new(1, s("Test1"));
    for (k, v) in props {
        d.insert(s(k), v);
    }
    d
}

#[test]
fn scalar_properties_validate() {
    let d = record(vec![
        ("Hp", num("100")),
        ("Alive", Value::Bool(true)),
        ("Title", Value::String(s("Goblin"))),
        ("Note", Value::Null),
    ]);
    assert!(d.validate().is_ok());
}

#[test]
fn scalar_sequence_validates() {
    let d = record(vec![(
        "Item",
        Value::Sequence(vec![Value::String(s("Legend_Sword")), Value::String(s("Legend_Armor"))]),
    )]);
    assert!(d.validate().is_ok());
}

#[test]
fn empty_record_validates() {
    let d = record(vec![]);
    assert!(d.validate().is_ok());
}

#[test]
fn mapping_property_is_reported() {
    let d = record(vec![("Hp", num("5")), ("Type", map(vec![("Aggressive", Value::Bool(false))]))]);
    let errors = d.validate().unwrap_err();
    assert_eq!(errors.len(), 1);
    assert_eq!(errors[0].name(), "Type");
    assert_eq!(errors[0].table_index(), None);
    assert_eq!(errors[0].err_msg(), "A property value cannot be a mapping.");
}

#[test]
fn first_mapping_in_sequence_is_reported() {
    let d = record(vec![(
        "Npc",
        Value::Sequence(vec![
            Value::String(s("Goblin")),
            map(vec![("Hp", num("100"))]),
            map(vec![("Hp", num("1000"))]),
        ]),
    )]);
    let errors = d.validate().unwrap_err();
    assert_eq!(errors.len(), 1);
    assert_eq!(errors[0].name(), "Npc");
    assert_eq!(errors[0].table_index(), Some(1));
    assert_eq!(errors[0].err_msg(), "A sequence element cannot be a mapping.");
}

#[test]
fn npc_scenario_is_reported_at_index_zero() {
    let d = record(vec![(
        "Npc",
        Value::Sequence(vec![map(vec![("Name", Value::String(s("Goblin"))), ("Hp", num("100"))])]),
    )]);
    let errors = d.validate().unwrap_err();
    assert_eq!(errors.len(), 1);
    assert_eq!(errors[0].name(), "Npc");
    assert_eq!(errors[0].table_index(), Some(0));
}

#[test]
fn every_invalid_property_is_reported_once() {
    let d = record(vec![
        ("A", map(vec![])),
        ("B", Value::Sequence(vec![map(vec![]), map(vec![])])),
        ("C", num("3")),
        ("D", Value::Sequence(vec![num("1"), map(vec![])])),
    ]);
    let mut errors = d.validate().unwrap_err();
    assert_eq!(errors.len(), 3);
    errors.sort_by(|x, y| x.name().cmp(y.name()));
    assert_eq!(errors[0].name(), "A");
    assert_eq!(errors[0].table_index(), None);
    assert_eq!(errors[1].name(), "B");
    assert_eq!(errors[1].table_index(), Some(0));
    assert_eq!(errors[2].name(), "D");
    assert_eq!(errors[2].table_index(), Some(1));
}

#[test]
fn tags_are_looked_through() {
    let tagged_map = Value::Tagged(s("!Kind"), Box::new(map(vec![])));
    assert_eq!(validate_table_value(&tagged_map).unwrap_err().0, None);
    let tagged_seq = Value::Tagged(s("!List"), Box::new(Value::Sequence(vec![num("1"), tagged_map])));
    assert_eq!(validate_table_value(&tagged_seq).unwrap_err().0, Some(1));
    assert!(validate_table_value(&Value::Tagged(s("!N"), Box::new(num("4")))).is_ok());
}

#[test]
fn insert_replaces_existing_property() {
    let mut d = YamlData::new(7, s("Orc"));
    d.insert(s("Hp"), num("1"));
    d.insert(s("Mp"), num("2"));
    d.insert(s("Hp"), num("3"));
    assert_eq!(d.properties().len(), 2);
    assert_eq!(d.get_data("Hp", as_int), Some(3));
    assert_eq!(d.id(), 7);
    assert_eq!(d.name(), "Orc");
}

#[test]
fn get_data_missing_or_undecodable_is_none() {
    let d = record(vec![("Hp", num("100")), ("Title", Value::String(s("Goblin")))]);
    assert_eq!(d.get_data("Hp", as_int), Some(100));
    assert_eq!(d.get_data("Mp", as_int), None);
    assert_eq!(d.get_data("Title", as_int), None);
}

#[test]
fn get_value_finds_stored_value() {
    let d = record(vec![("Title", Value::String(s("Goblin")))]);
    assert_eq!(d.get_value("Title"), Some(&Value::String(s("Goblin"))));
    assert_eq!(d.get_value("Other"), None);
}

#[test]
fn get_data_as_vec_drops_undecodable_elements_in_order() {
    let d = record(vec![(
        "Hp",
        Value::Sequence(vec![num("5"), Value::String(s("x")), num("7"), Value::Null, num("9")]),
    )]);
    assert_eq!(d.get_data_as_vec("Hp", as_int), vec![5, 7, 9]);
}

#[test]
fn get_data_as_vec_on_missing_or_scalar_is_empty() {
    let d = record(vec![("Hp", num("5"))]);
    assert!(d.get_data_as_vec("Hp", as_int).is_empty());
    assert!(d.get_data_as_vec("Mp", as_int).is_empty());
}

#[test]
fn get_data_as_vec_looks_through_tag() {
    let d = record(vec![("Hp", Value::Tagged(s("!L"), Box::new(Value::Sequence(vec![num("1"), num("2")]))))]);
    assert_eq!(d.get_data_as_vec("Hp", as_int), vec![1, 2]);
}
