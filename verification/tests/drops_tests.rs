use rna::{DecodeError, DropFormat, DropType, DropTypeError, MeguDrop};

#[test]
fn get_drop_type_from_string() {
    assert_eq!(DropType::get_drop_type("minecraft:item"), Ok(DropType::Item));
}

#[test]
fn get_drop_type_from_string_without_prefix() {
    assert_eq!(DropType::get_drop_type("item"), Ok(DropType::Item));
}

#[test]
fn is_drop_type_unsafe() {
    assert!(MeguDrop::is_unsafe(DropType::Alternatives));
}

#[test]
fn get_drop_type_covers_the_whole_table() {
    assert_eq!(DropType::get_drop_type("minecraft:tag"), Ok(DropType::Tag));
    assert_eq!(DropType::get_drop_type("minecraft:loot_table"), Ok(DropType::LootTable));
    assert_eq!(DropType::get_drop_type("minecraft:group"), Ok(DropType::Group));
    assert_eq!(DropType::get_drop_type("minecraft:alternatives"), Ok(DropType::Alternatives));
    assert_eq!(DropType::get_drop_type("minecraft:sequence"), Ok(DropType::Sequence));
    assert_eq!(DropType::get_drop_type("minecraft:dynamic"), Ok(DropType::Dynamic));
    assert_eq!(DropType::get_drop_type("minecraft:empty"), Ok(DropType::Empty));
}

#[test]
fn get_drop_type_rejects_unknown_suffix() {
    assert_eq!(
        DropType::get_drop_type("minecraft:bogus"),
        Err(DropTypeError::InvalidType(String::from("minecraft:bogus")))
    );
}

#[test]
fn get_drop_type_rejects_foreign_prefix() {
    assert_eq!(
        DropType::get_drop_type("other:item"),
        Err(DropTypeError::InvalidType(String::from("other:item")))
    );
}

#[test]
fn get_drop_type_wraps_decode_error() {
    assert_eq!(
        DropType::get_drop_type("a:b:c"),
        Err(DropTypeError::DecodeError(DecodeError::TooManyColons(String::from("a:b:c"))))
    );
}

fn plain_format(kind: &str) -> DropFormat {
    DropFormat {
        unsafe_flag: None,
        kind: String::from(kind),
        name: None,
        children: None,
        functions: None,
        conditions: None,
    }
}

#[test]
fn group_without_unsafe_flag_is_rejected() {
    let format = plain_format("minecraft:group");
    assert_eq!(
        MeguDrop::from_drop_format(&format),
        Err(DropTypeError::NotAllow(String::from("minecraft:group")))
    );
}

#[test]
fn group_with_unsafe_flag_is_accepted() {
    let mut format = plain_format("minecraft:group");
    format.unsafe_flag = Some(true);
    let drop = MeguDrop::from_drop_format(&format).unwrap();
    assert_eq!(
        drop,
        MeguDrop::new(DropType::Group, None, None, Vec::new(), Vec::new(), true)
    );
}

#[test]
fn safe_kind_declared_unsafe_is_rejected() {
    let mut format = plain_format("minecraft:item");
    format.unsafe_flag = Some(true);
    assert_eq!(
        MeguDrop::from_drop_format(&format),
        Err(DropTypeError::NotAllow(String::from("minecraft:item")))
    );
}

#[test]
fn children_are_built_recursively() {
    let mut child = plain_format("minecraft:item");
    child.name = Some(String::from("minecraft:emerald"));
    let mut format = plain_format("minecraft:group");
    format.unsafe_flag = Some(true);
    format.children = Some(vec![child]);
    let drop = MeguDrop::from_drop_format(&format).unwrap();
    let expected_child = MeguDrop::new(
        DropType::Item,
        Some(String::from("minecraft:emerald")),
        None,
        Vec::new(),
        Vec::new(),
        false,
    );
    assert_eq!(
        drop,
        MeguDrop::new(DropType::Group, None, Some(vec![expected_child]), Vec::new(), Vec::new(), true)
    );
}

#[test]
fn invalid_child_aborts_the_whole_tree() {
    let bad_child = plain_format("minecraft:bogus");
    let mut format = plain_format("minecraft:group");
    format.unsafe_flag = Some(true);
    format.children = Some(vec![bad_child]);
    assert_eq!(
        MeguDrop::from_drop_format(&format),
        Err(DropTypeError::InvalidType(String::from("minecraft:bogus")))
    );
}

#[test]
fn opaque_payloads_are_carried_through() {
    let condition: serde_json::Value = serde_json::from_str("{\"chance\": 0.5}").unwrap();
    let function: serde_json::Value = serde_json::from_str("[1, 2, 3]").unwrap();
    let mut format = plain_format("minecraft:item");
    format.conditions = Some(vec![condition.clone()]);
    format.functions = Some(vec![function.clone()]);
    let drop = MeguDrop::from_drop_format(&format).unwrap();
    assert_eq!(drop.conditions, vec![condition]);
    assert_eq!(drop.functions, vec![function]);
}
