use rna::{merge, DropFormat, DropType, ExtensionStore, MeguDrop, MeguScript, Namespace};

fn item_format(name: &str) -> DropFormat {
    DropFormat {
        unsafe_flag: None,
        kind: String::from("minecraft:item"),
        name: Some(String::from(name)),
        children: None,
        functions: None,
        conditions: None,
    }
}

fn item_drop(name: &str) -> MeguDrop {
    MeguDrop::new(
        DropType::Item,
        Some(String::from(name)),
        None,
        Vec::new(),
        Vec::new(),
        false,
    )
}

fn ns(raw: &str) -> Namespace {
    Namespace::decode(raw).unwrap()
}

fn script(
    extend: Option<&str>,
    pools: Vec<(&str, DropFormat)>,
    remove: Vec<&str>,
) -> rna::ScriptFormat {
    rna::ScriptFormat {
        kind: None,
        extend: extend.map(String::from),
        pools: pools.into_iter().map(|(k, v)| (String::from(k), v)).collect(),
        remove: if remove.is_empty() {
            None
        } else {
            Some(remove.into_iter().map(String::from).collect())
        },
    }
}

fn decoded(
    extend: Option<&str>,
    pools: Vec<(&str, DropFormat)>,
    remove: Vec<&str>,
) -> MeguScript {
    MeguScript::from_script_format(script(extend, pools, remove)).unwrap()
}

#[test]
fn merge_of_nothing_is_empty() {
    let store = ExtensionStore::new();
    let result = merge(&Vec::new(), &store).unwrap();
    assert_eq!(result, MeguScript::new(None, None, Vec::new(), Vec::new()));
}

#[test]
fn combination_is_order_sensitive() {
    let store = ExtensionStore::new();
    let one = || decoded(None, vec![("minecraft:k", item_format("minecraft:dirt"))], Vec::new());
    let two = || decoded(None, vec![("minecraft:k", item_format("minecraft:gold"))], Vec::new());

    let forward = merge(&vec![one(), two()], &store).unwrap();
    let backward = merge(&vec![two(), one()], &store).unwrap();

    assert_eq!(forward.get(&ns("minecraft:k")), Some(&item_drop("minecraft:gold")));
    assert_eq!(backward.get(&ns("minecraft:k")), Some(&item_drop("minecraft:dirt")));
    assert_ne!(forward, backward);
}

#[test]
fn end_to_end_combination() {
    let mut store = ExtensionStore::new();
    store.insert(
        ns("minecraft:entities/creeper"),
        script(
            None,
            vec![
                ("minecraft:a", item_format("minecraft:gunpowder")),
                ("minecraft:c", item_format("minecraft:bone")),
            ],
            Vec::new(),
        ),
    );

    let a = decoded(None, vec![("minecraft:a", item_format("minecraft:emerald"))], Vec::new());
    let b = decoded(Some("minecraft:entities/creeper"), Vec::new(), vec!["minecraft:a"]);

    let result = merge(&vec![a, b], &store).unwrap();
    assert_eq!(result.get(&ns("minecraft:a")), None);
    assert_eq!(result.get(&ns("minecraft:c")), Some(&item_drop("minecraft:bone")));
}

#[test]
fn merge_keeps_opaque_payloads_intact() {
    let store = ExtensionStore::new();
    let payload: serde_json::Value =
        serde_json::from_str("{\"condition\": \"minecraft:random_chance\", \"chance\": 0.3}")
            .unwrap();
    let mut format = item_format("minecraft:emerald");
    format.conditions = Some(vec![payload.clone()]);
    let s = decoded(None, vec![("minecraft:a", format)], Vec::new());

    let result = merge(&vec![s], &store).unwrap();
    let drop = result.get(&ns("minecraft:a")).unwrap();
    assert_eq!(drop.conditions, vec![payload]);
}

#[test]
fn first_compile_error_aborts_combination() {
    let store = ExtensionStore::new();
    let good = decoded(None, vec![("minecraft:a", item_format("minecraft:emerald"))], Vec::new());
    let bad = decoded(Some("minecraft:nowhere"), Vec::new(), Vec::new());
    assert!(merge(&vec![bad, good], &store).is_err());
}
