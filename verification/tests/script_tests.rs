use rna::{
    DecodeError, DropFormat, DropType, Extension, ExtensionError, ExtensionStore, MeguDrop,
    MeguScript, Namespace, ReadError, ScriptFormat, ScriptFormatError,
};

fn item_format(name: &str) -> DropFormat {
    DropFormat {
        unsafe_flag: None,
        kind: String::from("minecraft:item"),
        name: Some(String::from(name)),
        children: None,
        functions: None,
        conditions: None,
    }
}

fn item_drop(name: &str) -> MeguDrop {
    MeguDrop::new(
        DropType::Item,
        Some(String::from(name)),
        None,
        Vec::new(),
        Vec::new(),
        false,
    )
}

fn ns(raw: &str) -> Namespace {
    Namespace::decode(raw).unwrap()
}

fn script(extend: Option<&str>, pools: Vec<(&str, DropFormat)>, remove: Vec<&str>) -> ScriptFormat {
    ScriptFormat {
        kind: None,
        extend: extend.map(String::from),
        pools: pools.into_iter().map(|(k, v)| (String::from(k), v)).collect(),
        remove: if remove.is_empty() {
            None
        } else {
            Some(remove.into_iter().map(String::from).collect())
        },
    }
}

#[test]
fn create_new_script() {
    assert_eq!(
        MeguScript::new(
            None,
            Some(Extension::new(ns("minecraft/entities/creeper"))),
            Vec::new(),
            Vec::new()
        ),
        MeguScript {
            kind: None,
            extend: Some(Extension::new(ns("minecraft/entities/creeper"))),
            pools: Vec::new(),
            remove: Vec::new()
        }
    );
}

#[test]
fn try_convert_pools() {
    let value = "\n\t\t{\n\t\t\t\"type\": \"minecraft:item\",\n\t\t\t\"name\": \"minecraft:emerald\"\n\t\t}\n\t\t";
    let value: serde_json::Value = serde_json::from_str(value).unwrap();
    let format = DropFormat {
        unsafe_flag: None,
        kind: String::from(value["type"].as_str().unwrap()),
        name: value["name"].as_str().map(String::from),
        children: None,
        functions: None,
        conditions: None,
    };
    let mut map: Vec<(String, DropFormat)> = Vec::new();
    map.push((String::from("test"), format));

    let value = MeguScript::from_pools_format(map).unwrap();

    let mut expect: Vec<(Namespace, MeguDrop)> = Vec::new();
    expect.push((Namespace::new("minecraft", "test"), item_drop("minecraft:emerald")));

    assert_eq!(value, expect);
}

#[test]
fn from_script_format_validates_everything() {
    let s = MeguScript::from_script_format(script(
        Some("minecraft:base"),
        vec![("minecraft:a", item_format("minecraft:emerald"))],
        vec!["minecraft:b"],
    ))
    .unwrap();
    assert_eq!(s.kind, None);
    assert_eq!(s.extend, Some(Extension::new(ns("minecraft:base"))));
    assert_eq!(s.pools, vec![(ns("minecraft:a"), item_drop("minecraft:emerald"))]);
    assert_eq!(s.remove, vec![ns("minecraft:b")]);
}

#[test]
fn from_script_format_rejects_bad_extend() {
    let r = MeguScript::from_script_format(script(Some("a:b:c"), Vec::new(), Vec::new()));
    assert_eq!(
        r,
        Err(ScriptFormatError::Extension(ExtensionError::DecodeError(
            DecodeError::TooManyColons(String::from("a:b:c"))
        )))
    );
}

#[test]
fn from_script_format_rejects_bad_remove_entry() {
    let r = MeguScript::from_script_format(script(None, Vec::new(), vec!["BAD"]));
    assert_eq!(
        r,
        Err(ScriptFormatError::Decode(DecodeError::InvalidNamespace(String::from("BAD"))))
    );
}

#[test]
fn merge_overrides_colliding_keys() {
    let base = MeguScript::from_script_format(script(
        None,
        vec![("minecraft:a", item_format("minecraft:dirt"))],
        Vec::new(),
    ))
    .unwrap();
    let over = MeguScript::from_script_format(script(
        None,
        vec![
            ("minecraft:a", item_format("minecraft:gold")),
            ("minecraft:b", item_format("minecraft:iron")),
        ],
        Vec::new(),
    ))
    .unwrap();
    let mut result = base;
    over.merge(&mut result);
    assert_eq!(result.get(&ns("minecraft:a")), Some(&item_drop("minecraft:gold")));
    assert_eq!(result.get(&ns("minecraft:b")), Some(&item_drop("minecraft:iron")));
    assert_eq!(result.pools.len(), 2);
}

#[test]
fn compile_resolves_inheritance_with_override() {
    let mut store = ExtensionStore::new();
    store.insert(
        ns("minecraft:base"),
        script(None, vec![("minecraft:a", item_format("minecraft:dirt"))], Vec::new()),
    );
    let over = MeguScript::from_script_format(script(
        Some("minecraft:base"),
        vec![
            ("minecraft:a", item_format("minecraft:gold")),
            ("minecraft:b", item_format("minecraft:iron")),
        ],
        Vec::new(),
    ))
    .unwrap();
    let compiled = over.compile(&store).unwrap();
    assert_eq!(compiled.get(&ns("minecraft:a")), Some(&item_drop("minecraft:gold")));
    assert_eq!(compiled.get(&ns("minecraft:b")), Some(&item_drop("minecraft:iron")));
    assert_eq!(compiled.pools.len(), 2);
    assert_eq!(compiled.extend, None);
}

#[test]
fn compile_chains_through_two_extensions() {
    let mut store = ExtensionStore::new();
    store.insert(
        ns("minecraft:grand"),
        script(None, vec![("minecraft:g", item_format("minecraft:stone"))], Vec::new()),
    );
    store.insert(
        ns("minecraft:base"),
        script(
            Some("minecraft:grand"),
            vec![("minecraft:a", item_format("minecraft:dirt"))],
            Vec::new(),
        ),
    );
    let leaf = MeguScript::from_script_format(script(
        Some("minecraft:base"),
        vec![("minecraft:b", item_format("minecraft:iron"))],
        Vec::new(),
    ))
    .unwrap();
    let compiled = leaf.compile(&store).unwrap();
    assert_eq!(compiled.get(&ns("minecraft:g")), Some(&item_drop("minecraft:stone")));
    assert_eq!(compiled.get(&ns("minecraft:a")), Some(&item_drop("minecraft:dirt")));
    assert_eq!(compiled.get(&ns("minecraft:b")), Some(&item_drop("minecraft:iron")));
}

#[test]
fn compile_fails_on_missing_extension() {
    let store = ExtensionStore::new();
    let s = MeguScript::from_script_format(script(
        Some("minecraft:nowhere"),
        Vec::new(),
        Vec::new(),
    ))
    .unwrap();
    match s.compile(&store) {
        Err(ReadError::ScriptFormat(ScriptFormatError::Extension(ExtensionError::NotFound(
            raw,
        )))) => {
            assert_eq!(raw, "minecraft:nowhere");
        },
        other => panic!("expected a not-found failure, got {:?}", other),
    }
}

#[test]
fn remove_drops_deletes_listed_keys() {
    let mut s = MeguScript::from_script_format(script(
        None,
        vec![
            ("minecraft:a", item_format("minecraft:dirt")),
            ("minecraft:b", item_format("minecraft:iron")),
        ],
        vec!["minecraft:a", "minecraft:missing"],
    ))
    .unwrap();
    let removed = s.remove_drops();
    assert_eq!(removed, vec![Some(item_drop("minecraft:dirt")), None]);
    assert_eq!(s.get(&ns("minecraft:a")), None);
    assert_eq!(s.get(&ns("minecraft:b")), Some(&item_drop("minecraft:iron")));
    assert_eq!(s.remove, vec![ns("minecraft:a"), ns("minecraft:missing")]);
}

#[test]
fn removal_is_idempotent() {
    let build = || {
        MeguScript::from_script_format(script(
            None,
            vec![
                ("minecraft:a", item_format("minecraft:dirt")),
                ("minecraft:b", item_format("minecraft:iron")),
            ],
            vec!["minecraft:a"],
        ))
        .unwrap()
    };
    let mut once = build();
    once.remove_drops();
    let mut twice = build();
    twice.remove_drops();
    let second = twice.remove_drops();
    assert_eq!(once, twice);
    assert_eq!(second, vec![None]);
}
