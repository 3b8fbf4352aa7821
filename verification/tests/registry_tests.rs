use rust_actions::model::Workflow;
use rust_actions::workflow_registry::{is_file_ref, parse_file_ref, WorkflowRegistry};

#[test]
fn test_is_file_ref() {
    assert!(is_file_ref("@file:setup/user-setup.yaml"));
    assert!(!is_file_ref("user/create"));
    assert!(!is_file_ref("file:something"));
}

#[test]
fn test_parse_file_ref() {
    let path = parse_file_ref("@file:setup/user-setup.yaml").unwrap();
    assert_eq!(path, "setup/user-setup.yaml");
}

#[test]
fn test_parse_file_ref_invalid() {
    let result = parse_file_ref("user/create");
    assert!(result.is_err());
}

#[test]
fn test_file_ref_round_trip() {
    let suffix = "nested/dir/wf.yaml";
    let uses = format!("@file:{}", suffix);
    assert!(is_file_ref(&uses));
    assert_eq!(parse_file_ref(&uses).unwrap(), suffix);
}

#[test]
fn test_registry_resolution_and_counts() {
    let reusable = Workflow::from_yaml(
        "name: R\non:\n  workflow_call:\n    outputs: {}\njobs: {}\n",
    )
    .unwrap();
    let runnable = Workflow::from_yaml("name: M\njobs: {}\n").unwrap();
    let registry = WorkflowRegistry::from_entries(
        "workflows".to_string(),
        vec![("r.yaml".to_string(), reusable), ("m.yaml".to_string(), runnable)],
    );
    assert_eq!(registry.workflow_count(), 2);
    assert_eq!(registry.reusable_count(), 1);
    assert_eq!(registry.runnable_count(), 1);
    assert!(registry.is_reusable(&"r.yaml".to_string()));
    assert!(!registry.is_reusable(&"m.yaml".to_string()));
    assert!(registry.resolve_file_ref("@file:r.yaml").is_ok());
    assert!(registry.resolve_file_ref("@file:absent.yaml").is_err());
    assert!(registry.resolve_file_ref("not-a-ref").is_err());
    assert_eq!(registry.base_path(), "workflows");
}
