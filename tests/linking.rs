use solc_output::assembly::{Assembly, Data, DataEntry, Instruction};
use solc_output::hashing::keccak256;
use solc_output::linking::{extend_key, preprocess_dependency_level};
use solc_output::path_map::PathMap;

fn ins(name: &str, value: Option<&str>) -> Instruction {
    Instruction { name: name.to_string(), value: value.map(|v| v.to_string()) }
}

fn entry(key: &str, data: Data) -> DataEntry {
    DataEntry { key: key.to_string(), data }
}

fn contract_b() -> Assembly {
    Assembly {
        full_path: None,
        code: Some(vec![ins("PUSH", Some("2A")), ins("STOP", None)]),
        data: None,
    }
}

fn zeros(n: usize) -> String {
    "0".repeat(n)
}

#[test]
fn keccak_of_empty_input() {
    assert_eq!(
        keccak256(&[]),
        "c5d2460186f7233c927e7db2dcc703c0e500b653ca82273b7bfad8045d85a470"
    );
}

#[test]
fn hash_is_deterministic_and_ignores_path() {
    let a = contract_b();
    let mut b = contract_b();
    b.set_full_path("B.sol:B".to_string());
    let h = a.keccak256();
    assert_eq!(h, a.keccak256());
    assert_eq!(h, b.keccak256());
    assert_eq!(h.len(), 64);
}

#[test]
fn hash_differs_with_code() {
    let a = contract_b();
    let mut c = contract_b();
    c.code = Some(vec![ins("PUSH", Some("2B")), ins("STOP", None)]);
    assert_ne!(a.keccak256(), c.keccak256());
}

#[test]
fn extend_key_pads_to_index_width() {
    let k = extend_key(&"1".to_string());
    assert_eq!(k, format!("{}1", zeros(63)));
    let long = "f".repeat(64);
    assert_eq!(extend_key(&long), long);
}

#[test]
fn path_map_later_insert_wins() {
    let mut m = PathMap::new();
    assert!(m.is_empty());
    m.insert("h".to_string(), "A.sol:A".to_string());
    m.insert("h".to_string(), "B.sol:B".to_string());
    assert_eq!(m.get(&"h".to_string()), Some("B.sol:B".to_string()));
    assert_eq!(m.get(&"x".to_string()), None);
}

#[test]
fn replace_data_aliases_rewrites_only_aliases() {
    let mut m = PathMap::new();
    m.insert(format!("{}1", zeros(63)), "B.sol:B".to_string());
    let mut code = vec![
        ins("PUSH [$]", Some(&format!("{}1", zeros(63)))),
        ins("PUSH #[$]", Some("1")),
        ins("PUSH", Some("1")),
        ins("PUSH [$]", Some("2")),
        ins("STOP", None),
    ];
    Instruction::replace_data_aliases(&mut code, &m);
    assert_eq!(code[0].value.as_deref(), Some("B.sol:B"));
    assert_eq!(code[1].value.as_deref(), Some("B.sol:B"));
    assert_eq!(code[2].value.as_deref(), Some("1"));
    assert_eq!(code[3].value.as_deref(), Some("2"));
    assert_eq!(code[4].value, None);
}

#[test]
fn no_dependencies_leave_code_unchanged() {
    let mut table = PathMap::new();
    table.insert(contract_b().keccak256(), "B.sol:B".to_string());
    let runtime = Assembly {
        full_path: None,
        code: Some(vec![ins("PUSH [$]", Some("0")), ins("STOP", None)]),
        data: Some(vec![entry("0", Data::Hash("deadbeef".to_string()))]),
    };
    let mut a = Assembly {
        full_path: None,
        code: Some(vec![ins("PUSH #[$]", Some("0")), ins("PUSH [$]", Some("1"))]),
        data: Some(vec![
            entry("0", Data::Assembly(runtime)),
            entry("1", Data::Hash("cafe".to_string())),
        ]),
    };
    let path = "A.sol:A".to_string();
    let deploy = a.deploy_dependencies_pass(&path, &table).ok().unwrap();
    let rt = a.runtime_dependencies_pass(&path, &table).ok().unwrap();
    assert!(deploy.is_empty());
    assert!(rt.is_empty());
    assert!(preprocess_dependency_level(&path, &mut a, &table).is_ok());
    assert_eq!(a.full_path.as_deref(), Some("A.sol:A"));
    let code = a.code.as_ref().unwrap();
    assert_eq!(code[0].value.as_deref(), Some("0"));
    assert_eq!(code[1].value.as_deref(), Some("1"));
    match &a.data.as_ref().unwrap()[0].data {
        Data::Assembly(r) => {
            assert_eq!(r.code.as_ref().unwrap()[0].value.as_deref(), Some("0"));
        }
        Data::Hash(_) => panic!("runtime slot lost"),
    }
}

#[test]
fn resolves_deploy_dependency_to_path() {
    let mut table = PathMap::new();
    table.insert(contract_b().keccak256(), "B.sol:B".to_string());
    let mut a = Assembly {
        full_path: None,
        code: Some(vec![ins("PUSH [$]", Some(&format!("{}1", zeros(63)))), ins("PUSH #[$]", Some("1"))]),
        data: Some(vec![entry("1", Data::Assembly(contract_b()))]),
    };
    let path = "A.sol:A".to_string();
    assert!(preprocess_dependency_level(&path, &mut a, &table).is_ok());
    let code = a.code.as_ref().unwrap();
    assert_eq!(code[0].value.as_deref(), Some("B.sol:B"));
    assert_eq!(code[1].value.as_deref(), Some("B.sol:B"));
}

#[test]
fn resolves_runtime_dependency_at_index_zero() {
    let mut table = PathMap::new();
    table.insert(contract_b().keccak256(), "B.sol:B".to_string());
    let runtime = Assembly {
        full_path: None,
        code: Some(vec![ins("PUSH [$]", Some(&zeros(64))), ins("STOP", None)]),
        data: Some(vec![entry("0", Data::Assembly(contract_b()))]),
    };
    let mut a = Assembly {
        full_path: None,
        code: Some(vec![ins("PUSH [$]", Some(&zeros(64)))]),
        data: Some(vec![entry("0", Data::Assembly(runtime))]),
    };
    let path = "A.sol:A".to_string();
    assert!(preprocess_dependency_level(&path, &mut a, &table).is_ok());
    assert_eq!(a.code.as_ref().unwrap()[0].value, Some(zeros(64)));
    match &a.data.as_ref().unwrap()[0].data {
        Data::Assembly(r) => {
            let code = r.code.as_ref().unwrap();
            assert_eq!(code[0].value.as_deref(), Some("B.sol:B"));
            assert_eq!(code[1].value, None);
        }
        Data::Hash(_) => panic!("runtime slot lost"),
    }
}

#[test]
fn known_hash_entry_resolves() {
    let hash = contract_b().keccak256();
    let mut table = PathMap::new();
    table.insert(hash.clone(), "B.sol:B".to_string());
    let mut a = Assembly {
        full_path: None,
        code: Some(vec![ins("PUSH [$]", Some("2"))]),
        data: Some(vec![entry("2", Data::Hash(hash))]),
    };
    assert!(preprocess_dependency_level(&"A.sol:A".to_string(), &mut a, &table).is_ok());
    assert_eq!(a.code.as_ref().unwrap()[0].value.as_deref(), Some("B.sol:B"));
}

#[test]
fn unresolved_dependency_names_hash_and_path() {
    let table = PathMap::new();
    let unknown = contract_b();
    let expected_hash = unknown.keccak256();
    let mut a = Assembly {
        full_path: None,
        code: Some(vec![ins("PUSH [$]", Some("1"))]),
        data: Some(vec![entry("1", Data::Assembly(unknown))]),
    };
    let err = preprocess_dependency_level(&"A.sol:A".to_string(), &mut a, &table).err().unwrap();
    assert_eq!(err.hash, expected_hash);
    assert_eq!(err.path, "A.sol:A");
    assert_eq!(a.full_path, None);
    assert_eq!(a.code.as_ref().unwrap()[0].value.as_deref(), Some("1"));
}

#[test]
fn resolution_twice_gives_same_result() {
    let mut table = PathMap::new();
    table.insert(contract_b().keccak256(), "B.sol:B".to_string());
    let make = || Assembly {
        full_path: None,
        code: Some(vec![ins("PUSH [$]", Some("1"))]),
        data: Some(vec![entry("1", Data::Assembly(contract_b()))]),
    };
    let mut x = make();
    let mut y = make();
    let path = "A.sol:A".to_string();
    assert!(preprocess_dependency_level(&path, &mut x, &table).is_ok());
    assert!(preprocess_dependency_level(&path, &mut y, &table).is_ok());
    assert_eq!(x.to_bytes(), y.to_bytes());
    assert_eq!(x.keccak256(), y.keccak256());
}
