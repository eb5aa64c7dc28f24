use std::collections::BTreeMap;

use solc_output::assembly::{Assembly, Data, DataEntry, Instruction};
use solc_output::output::{Contract, Diagnostic, Evm, Output, Source};
use solc_output::project::{Pipeline, ProjectContractSource, ProjectError};

fn ins(name: &str, value: Option<&str>) -> Instruction {
    Instruction { name: name.to_string(), value: value.map(|v| v.to_string()) }
}

fn contract_with_assembly(a: Option<Assembly>) -> Contract {
    Contract { ir_optimized: None, evm: Some(Evm { assembly: a }), abi: None, storage_layout: None }
}

fn contract_with_ir(ir: Option<&str>) -> Contract {
    Contract { ir_optimized: ir.map(|s| s.to_string()), evm: None, abi: None, storage_layout: None }
}

fn empty_output() -> Output {
    Output {
        contracts: None,
        sources: None,
        errors: None,
        version: None,
        long_version: None,
        zk_version: None,
    }
}

fn diag(message: &str) -> Diagnostic {
    Diagnostic {
        severity: "warning".to_string(),
        message: message.to_string(),
        formatted_message: format!("Warning: {}", message),
    }
}

fn version() -> semver::Version {
    semver::Version::new(0, 8, 19)
}

fn parse_ok(text: &String) -> Result<usize, String> {
    Ok(text.len())
}

fn parse_fails(text: &String) -> Result<usize, String> {
    Err(format!("bad: {}", text))
}

fn contract_b_assembly() -> Assembly {
    Assembly { full_path: None, code: Some(vec![ins("PUSH", Some("2A"))]), data: None }
}

#[test]
fn missing_contracts_carries_errors() {
    let mut output = empty_output();
    output.errors = Some(vec![diag("first"), diag("second")]);
    let r = output.try_to_project(BTreeMap::new(), Pipeline::EVMLA, &version(), &parse_ok);
    match r {
        Err(ProjectError::MissingContracts { errors: Some(errors) }) => {
            assert_eq!(errors.len(), 2);
            assert_eq!(errors[0].message, "first");
            assert_eq!(errors[1].formatted_message, "Warning: second");
        }
        _ => panic!("expected missing contracts"),
    }
}

#[test]
fn missing_contracts_without_errors() {
    let mut output = empty_output();
    let r = output.try_to_project(BTreeMap::new(), Pipeline::Yul, &version(), &parse_ok);
    assert!(matches!(r, Err(ProjectError::MissingContracts { errors: None })));
}

#[test]
fn empty_ir_is_skipped() {
    let mut output = empty_output();
    output.contracts = Some(vec![(
        "I.sol".to_string(),
        vec![
            ("I".to_string(), contract_with_ir(Some(""))),
            ("N".to_string(), contract_with_ir(None)),
            ("C".to_string(), contract_with_ir(Some("object \"C\" {}"))),
        ],
    )]);
    let project = output
        .try_to_project(BTreeMap::new(), Pipeline::Yul, &version(), &parse_ok)
        .ok()
        .unwrap();
    assert_eq!(project.contracts.len(), 1);
    assert_eq!(project.contracts[0].path, "I.sol:C");
    assert!(project.get(&"I.sol:I".to_string()).is_none());
    match &project.contracts[0].source {
        ProjectContractSource::Yul { source, object } => {
            assert_eq!(source, "object \"C\" {}");
            assert_eq!(*object, 13);
        }
        ProjectContractSource::EVMLA { .. } => panic!("wrong pipeline"),
    }
    assert_eq!(project.version, version());
}

#[test]
fn parse_failure_names_contract() {
    let mut output = empty_output();
    output.contracts = Some(vec![(
        "P.sol".to_string(),
        vec![("P".to_string(), contract_with_ir(Some("garbage")))],
    )]);
    let r = output.try_to_project(BTreeMap::new(), Pipeline::Yul, &version(), &parse_fails);
    match r {
        Err(ProjectError::Parse { path, details }) => {
            assert_eq!(path, "P.sol:P");
            assert_eq!(details, "bad: garbage");
        }
        _ => panic!("expected a parse error"),
    }
}

#[test]
fn evmla_project_resolves_dependencies() {
    let a = Assembly {
        full_path: None,
        code: Some(vec![ins("PUSH [$]", Some("1"))]),
        data: Some(vec![DataEntry { key: "1".to_string(), data: Data::Assembly(contract_b_assembly()) }]),
    };
    let mut output = empty_output();
    output.contracts = Some(vec![
        ("A.sol".to_string(), vec![("A".to_string(), contract_with_assembly(Some(a)))]),
        (
            "B.sol".to_string(),
            vec![
                ("B".to_string(), contract_with_assembly(Some(contract_b_assembly()))),
                ("I".to_string(), contract_with_assembly(None)),
            ],
        ),
    ]);
    let mut libraries = BTreeMap::new();
    libraries.insert("L.sol".to_string(), BTreeMap::new());
    let project = output
        .try_to_project(libraries.clone(), Pipeline::EVMLA, &version(), &parse_ok)
        .ok()
        .unwrap();
    assert_eq!(project.contracts.len(), 2);
    assert_eq!(project.libraries, libraries);
    let pa = project.get(&"A.sol:A".to_string()).unwrap();
    match &pa.source {
        ProjectContractSource::EVMLA { assembly } => {
            assert_eq!(assembly.full_path.as_deref(), Some("A.sol:A"));
            assert_eq!(assembly.code.as_ref().unwrap()[0].value.as_deref(), Some("B.sol:B"));
        }
        ProjectContractSource::Yul { .. } => panic!("wrong pipeline"),
    }
    assert!(project.get(&"B.sol:B".to_string()).is_some());
    assert!(project.get(&"B.sol:I".to_string()).is_none());
}

#[test]
fn evmla_unresolved_dependency_fails() {
    let a = Assembly {
        full_path: None,
        code: Some(vec![ins("PUSH [$]", Some("1"))]),
        data: Some(vec![DataEntry { key: "1".to_string(), data: Data::Assembly(contract_b_assembly()) }]),
    };
    let mut output = empty_output();
    output.contracts = Some(vec![("A.sol".to_string(), vec![("A".to_string(), contract_with_assembly(Some(a)))])]);
    let r = output.try_to_project(BTreeMap::new(), Pipeline::EVMLA, &version(), &parse_ok);
    match r {
        Err(ProjectError::UnresolvedDependency(e)) => {
            assert_eq!(e.path, "A.sol:A");
            assert_eq!(e.hash, contract_b_assembly().keccak256());
        }
        _ => panic!("expected an unresolved dependency"),
    }
}

#[test]
fn collect_hashes_maps_each_assembly() {
    let mut output = empty_output();
    output.contracts = Some(vec![(
        "B.sol".to_string(),
        vec![
            ("B".to_string(), contract_with_assembly(Some(contract_b_assembly()))),
            ("I".to_string(), contract_with_ir(Some("x"))),
        ],
    )]);
    let table = output.collect_hashes();
    assert_eq!(table.entries.len(), 1);
    assert_eq!(table.get(&contract_b_assembly().keccak256()), Some("B.sol:B".to_string()));
}

#[test]
fn preprocess_ast_without_sources_is_noop() {
    let mut output = empty_output();
    output.errors = Some(vec![diag("kept")]);
    let analyze = |_: &serde_json::Value| -> Result<Vec<Diagnostic>, String> { Ok(vec![diag("new")]) };
    assert!(output.preprocess_ast(&analyze).is_ok());
    assert_eq!(output.errors.as_ref().unwrap().len(), 1);
}

#[test]
fn preprocess_ast_tags_and_appends() {
    let mut output = empty_output();
    output.errors = Some(vec![diag("kept")]);
    output.sources = Some(vec![
        ("a.sol".to_string(), Source { id: 0, ast: Some(serde_json::Value::Null) }),
        ("b.sol".to_string(), Source { id: 1, ast: None }),
        ("c.sol".to_string(), Source { id: 2, ast: Some(serde_json::Value::Bool(true)) }),
    ]);
    let analyze = |v: &serde_json::Value| -> Result<Vec<Diagnostic>, String> {
        if v.is_null() { Ok(vec![diag("one"), diag("two")]) } else { Ok(vec![diag("three")]) }
    };
    assert!(output.preprocess_ast(&analyze).is_ok());
    let errors = output.errors.as_ref().unwrap();
    assert_eq!(errors.len(), 4);
    assert_eq!(errors[0].formatted_message, "Warning: kept");
    assert_eq!(errors[1].formatted_message, "Warning: one\n--> a.sol\n");
    assert_eq!(errors[2].message, "two");
    assert_eq!(errors[3].formatted_message, "Warning: three\n--> c.sol\n");
}

#[test]
fn preprocess_ast_creates_error_list() {
    let mut output = empty_output();
    output.sources = Some(vec![("a.sol".to_string(), Source { id: 0, ast: Some(serde_json::Value::Null) })]);
    let analyze = |_: &serde_json::Value| -> Result<Vec<Diagnostic>, String> { Ok(vec![diag("one")]) };
    assert!(output.preprocess_ast(&analyze).is_ok());
    assert_eq!(output.errors.as_ref().unwrap().len(), 1);
}

#[test]
fn preprocess_ast_failure_changes_nothing() {
    let mut output = empty_output();
    output.sources = Some(vec![("a.sol".to_string(), Source { id: 0, ast: Some(serde_json::Value::Null) })]);
    let analyze = |_: &serde_json::Value| -> Result<Vec<Diagnostic>, String> { Err("broken".to_string()) };
    assert_eq!(output.preprocess_ast(&analyze).err(), Some("broken".to_string()));
    assert!(output.errors.is_none());
}

#[test]
fn push_contract_path_appends_arrow_line() {
    let mut d = diag("m");
    d.push_contract_path(&"x.sol".to_string());
    assert_eq!(d.formatted_message, "Warning: m\n--> x.sol\n");
    assert_eq!(d.message, "m");
}
