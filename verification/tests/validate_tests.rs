use rust_actions::model::Workflow;
use rust_actions::validate::{extract_step_reference, validate_registry, ValidationError};
use rust_actions::workflow_registry::WorkflowRegistry;

fn create_test_registry(workflows: Vec<(&str, &str)>) -> WorkflowRegistry {
    let mut entries = Vec::new();
    for (name, content) in workflows {
        entries.push((name.to_string(), Workflow::from_yaml(content).unwrap()));
    }
    WorkflowRegistry::from_entries(".".to_string(), entries)
}

#[test]
fn test_validate_missing_job_dependency() {
    let yaml = r#"
name: Test
jobs:
  job1:
    needs: [nonexistent]
    steps:
      - uses: test/step
"#;
    let registry = create_test_registry(vec![("test.yaml", yaml)]);
    let report = validate_registry(&registry);

    assert!(!report.is_valid());
    assert!(report.errors.iter().any(|e| matches!(
        e,
        ValidationError::JobDependencyNotFound { dependency, .. } if dependency == "nonexistent"
    )));
}

#[test]
fn test_validate_circular_dependency() {
    let yaml = r#"
name: Test
jobs:
  job1:
    needs: [job2]
    steps:
      - uses: test/step
  job2:
    needs: [job1]
    steps:
      - uses: test/step
"#;
    let registry = create_test_registry(vec![("test.yaml", yaml)]);
    let report = validate_registry(&registry);

    assert!(!report.is_valid());
    assert!(report.errors.iter().any(|e| matches!(e, ValidationError::CircularJobDependency { .. })));
}

#[test]
fn test_validate_duplicate_step_id() {
    let yaml = r#"
name: Test
jobs:
  job1:
    steps:
      - uses: test/step1
        id: same_id
      - uses: test/step2
        id: same_id
"#;
    let registry = create_test_registry(vec![("test.yaml", yaml)]);
    let report = validate_registry(&registry);

    assert!(!report.is_valid());
    assert!(matches!(
        &report.errors[0],
        ValidationError::DuplicateStepId { step_id, .. } if step_id == "same_id"
    ));
}

#[test]
fn test_validate_invalid_output_reference() {
    let yaml = r#"
name: Test
jobs:
  job1:
    outputs:
      result: ${{ steps.nonexistent.outputs.value }}
    steps:
      - uses: test/step
        id: real_step
"#;
    let registry = create_test_registry(vec![("test.yaml", yaml)]);
    let report = validate_registry(&registry);

    assert!(!report.is_valid());
    assert!(matches!(
        &report.errors[0],
        ValidationError::InvalidOutputExpression { reason, .. } if reason.contains("nonexistent")
    ));
}

#[test]
fn test_validate_missing_file_reference() {
    let yaml = r#"
name: Test
jobs:
  job1:
    uses: "@file:nonexistent.yaml"
"#;
    let registry = create_test_registry(vec![("test.yaml", yaml)]);
    let report = validate_registry(&registry);

    assert!(!report.is_valid());
    assert!(matches!(
        &report.errors[0],
        ValidationError::FileReferenceNotFound { file_ref, .. } if file_ref == "nonexistent.yaml"
    ));
}

#[test]
fn test_validate_valid_workflow() {
    let reusable = r#"
name: Setup
on:
  workflow_call:
    outputs:
      user_id:
        value: ${{ jobs.setup.outputs.user_id }}

jobs:
  setup:
    outputs:
      user_id: ${{ steps.create.outputs.id }}
    steps:
      - uses: user/create
        id: create
"#;

    let main = r#"
name: Main
jobs:
  setup:
    uses: "@file:setup.yaml"
  test:
    needs: [setup]
    steps:
      - uses: test/run
        id: run
"#;

    let registry = create_test_registry(vec![
        ("setup.yaml", reusable),
        ("main.yaml", main),
    ]);
    let report = validate_registry(&registry);

    assert!(report.is_valid(), "Errors: {:?}", report.errors);
}

#[test]
fn test_extract_step_reference() {
    assert_eq!(
        extract_step_reference("${{ steps.alice.outputs.id }}"),
        Some("alice".to_string())
    );
    assert_eq!(
        extract_step_reference("${{ steps.my_step.outputs.value }}"),
        Some("my_step".to_string())
    );
    assert_eq!(extract_step_reference("${{ jobs.job1.outputs.x }}"), None);
    assert_eq!(extract_step_reference("plain string"), None);
}

#[test]
fn test_empty_workflow_warning() {
    let registry = create_test_registry(vec![("empty.yaml", "name: E\n")]);
    let report = validate_registry(&registry);
    assert!(report.is_valid());
    assert!(report.warning_count() >= 1);
}

#[test]
fn test_finding_messages() {
    let e = ValidationError::JobDependencyNotFound {
        workflow: "w.yaml".to_string(),
        job: "j1".to_string(),
        dependency: "ghost".to_string(),
    };
    assert_eq!(e.message(), "[w.yaml] Job 'j1' depends on non-existent job 'ghost'");

    let c = ValidationError::CircularJobDependency {
        workflow: "w.yaml".to_string(),
        chain: vec!["a".to_string(), "b".to_string(), "a".to_string()],
    };
    assert_eq!(c.message(), "[w.yaml] Circular job dependency detected: a -> b -> a");

    let w = rust_actions::validate::ValidationWarning::JobWithNoSteps {
        workflow: "w.yaml".to_string(),
        job: "idle".to_string(),
    };
    assert_eq!(
        w.message(),
        "[w.yaml] Job 'idle' has no steps and doesn't use a reusable workflow"
    );
}

#[test]
fn test_missing_outputs_and_step_warnings() {
    let reusable = "name: R\non:\n  workflow_call: {}\njobs:\n  r:\n    steps:\n      - uses: a/b\n";
    let main = "name: M\njobs:\n  call:\n    uses: \"@file:r.yaml\"\n";
    let registry = create_test_registry(vec![("r.yaml", reusable), ("m.yaml", main)]);
    let report = validate_registry(&registry);
    assert!(report.errors.iter().any(|e| matches!(
        e,
        ValidationError::ReusableWorkflowMissingOutputs { .. }
    )));
    assert!(report.warnings.iter().any(|w| matches!(
        w,
        rust_actions::validate::ValidationWarning::StepWithoutId { .. }
    )));
}

#[test]
fn test_empty_file_ref_rejected() {
    assert!(rust_actions::workflow_registry::parse_file_ref("@file:").is_err());
}
