use rust_actions::model::Workflow;
use rust_actions::value::Val;

#[test]
fn test_parse_reusable_workflow() {
    let yaml = r#"
name: User Setup
on:
  workflow_call:
    outputs:
      user_id:
        value: ${{ jobs.setup.outputs.user_id }}
      session_token:
        value: ${{ jobs.setup.outputs.session_token }}

jobs:
  setup:
    outputs:
      user_id: ${{ steps.user.outputs.id }}
      session_token: ${{ steps.session.outputs.token }}
    steps:
      - uses: user/create
        id: user
      - uses: auth/login
        id: session
        with:
          user_id: ${{ steps.user.outputs.id }}
"#;

    let workflow = Workflow::from_yaml(yaml).unwrap();
    assert_eq!(workflow.name, "User Setup");
    assert!(workflow.is_reusable());
    assert!(workflow.jobs.contains_key(&"setup".to_string()));

    let setup_job = workflow.jobs.get(&"setup".to_string()).unwrap();
    assert_eq!(setup_job.steps.len(), 2);
    assert_eq!(setup_job.outputs.len(), 2);
}

#[test]
fn test_parse_runnable_workflow() {
    let yaml = r#"
name: Order Tests

jobs:
  setup:
    uses: "@file:setup/user-setup.yaml"

  place-order:
    needs: [setup]
    steps:
      - uses: order/create
        with:
          token: ${{ needs.setup.outputs.session_token }}
        post-assert:
          - ${{ outputs.order_id != "" }}
"#;

    let workflow = Workflow::from_yaml(yaml).unwrap();
    assert_eq!(workflow.name, "Order Tests");
    assert!(!workflow.is_reusable());

    let setup_job = workflow.jobs.get(&"setup".to_string()).unwrap();
    assert_eq!(setup_job.uses.as_deref(), Some("@file:setup/user-setup.yaml"));

    let order_job = workflow.jobs.get(&"place-order".to_string()).unwrap();
    assert_eq!(order_job.needs.as_vec(), vec!["setup"]);
    assert_eq!(order_job.steps.len(), 1);
}

#[test]
fn test_parse_matrix_workflow() {
    let yaml = r#"
name: Feature Flag Compatibility

jobs:
  test-flags:
    strategy:
      matrix:
        service_a_feature_x: [true, false]
        service_b_feature_y: [true, false]
      fail-fast: false
    steps:
      - uses: service-a/configure
        with:
          feature_x: ${{ matrix.service_a_feature_x }}
      - uses: service-b/configure
        with:
          feature_y: ${{ matrix.service_b_feature_y }}
"#;

    let workflow = Workflow::from_yaml(yaml).unwrap();
    assert_eq!(workflow.name, "Feature Flag Compatibility");

    let job = workflow.jobs.get(&"test-flags".to_string()).unwrap();
    let strategy = job.strategy.as_ref().unwrap();
    assert!(!strategy.fail_fast);
    assert_eq!(strategy.matrix.dimensions.len(), 2);
    assert_eq!(
        strategy.matrix.dimensions.get(&"service_a_feature_x".to_string()).unwrap().len(),
        2
    );
}

#[test]
fn test_parse_matrix_with_include_exclude() {
    let yaml = r#"
name: Matrix Test

jobs:
  test:
    strategy:
      matrix:
        service_a: [v1, v2]
        service_b: [v1, v2]
        include:
          - service_a: v3-beta
            service_b: v2
            experimental: true
        exclude:
          - service_a: v1
            service_b: v2
    steps:
      - uses: test/run
"#;

    let workflow = Workflow::from_yaml(yaml).unwrap();
    let job = workflow.jobs.get(&"test".to_string()).unwrap();
    let strategy = job.strategy.as_ref().unwrap();

    assert_eq!(strategy.matrix.added.len(), 1);
    assert_eq!(strategy.matrix.exclude.len(), 1);
    assert_eq!(
        strategy.matrix.added[0].get(&"experimental".to_string()),
        Some(&Val::Bool(true))
    );
}

#[test]
fn test_parse_rejects_broken_yaml() {
    assert!(Workflow::from_yaml(": : :").is_err());
}

#[test]
fn test_parse_rejects_wrong_shapes() {
    assert!(Workflow::from_yaml("just a string").is_err());
    assert!(Workflow::from_yaml("jobs: {}\n").is_err());
    let bad_needs = "name: X\njobs:\n  a:\n    needs: 5\n";
    assert!(Workflow::from_yaml(bad_needs).is_err());
    let bad_step = "name: X\njobs:\n  a:\n    steps:\n      - id: s\n";
    assert!(Workflow::from_yaml(bad_step).is_err());
}
