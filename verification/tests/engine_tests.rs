use rust_actions::dict::Dict;
use rust_actions::engine::{
    build_job_context, evaluate_call_outputs, JobResult, JobRun, StepGate, StepResult,
    WorkflowResult,
};
use rust_actions::errors::{Error, StepError};
use rust_actions::expr::ExprContext;
use rust_actions::model::{JobNeeds, Step, Workflow};
use rust_actions::outputs::{JobOutputs, StepOutputs};
use rust_actions::schedule::toposort_jobs;
use rust_actions::value::Val;

fn plain_step(uses: &str, id: Option<&str>, continue_on_error: bool) -> Step {
    Step {
        name: None,
        id: id.map(|s| s.to_string()),
        uses: uses.to_string(),
        with_args: Dict::new(),
        continue_on_error,
        pre_assert: vec![],
        post_assert: vec![],
    }
}

#[test]
fn test_step_result_queries() {
    assert!(StepResult::Passed(5).is_passed());
    assert!(!StepResult::Passed(5).is_failed());
    assert!(StepResult::Failed(5, "boom".to_string()).is_failed());
    assert!(!StepResult::Skipped.is_passed());
    assert!(!StepResult::Skipped.is_failed());
}

#[test]
fn test_skip_propagation() {
    // after a failing step without continue-on-error, every later step of
    // the job is recorded as skipped
    let mut run = JobRun::new(ExprContext::new());
    let failing = plain_step("svc/fail", None, false);
    let later1 = plain_step("svc/one", None, false);
    let later2 = plain_step("svc/two", None, false);

    assert!(matches!(run.begin_step(&failing), StepGate::Proceed));
    run.record_failure(&failing, 10, "went wrong".to_string());

    assert!(matches!(run.begin_step(&later1), StepGate::Skip));
    run.record_skipped(&later1);
    assert!(matches!(run.begin_step(&later2), StepGate::Skip));
    run.record_skipped(&later2);

    assert_eq!(run.results.len(), 3);
    assert!(matches!(run.results[1].1, StepResult::Skipped));
    assert!(matches!(run.results[2].1, StepResult::Skipped));
}

#[test]
fn test_continue_on_error() {
    // after a continue-on-error failing step, the next step still runs
    let mut run = JobRun::new(ExprContext::new());
    let tolerant = plain_step("svc/fail", None, true);
    let next = plain_step("svc/next", None, false);

    run.record_failure(&tolerant, 10, "went wrong".to_string());
    assert!(matches!(run.begin_step(&next), StepGate::Proceed));
    run.complete_step(&next, 7, StepOutputs::new());

    assert!(matches!(run.results[0].1, StepResult::Failed(_, _)));
    assert!(matches!(run.results[1].1, StepResult::Passed(_)));
}

#[test]
fn test_post_assert_failure_with_continue_on_error() {
    // a failing post-assertion fails the step, but with continue-on-error
    // the next step still runs; the job as a whole has a failed step
    let mut run = JobRun::new(ExprContext::new());
    let mut step1 = plain_step("svc/one", Some("s1"), true);
    step1.post_assert = vec!["${{ outputs.ok == true }}".to_string()];
    let mut outs = StepOutputs::new();
    outs.insert("ok".to_string(), Val::Bool(false));
    run.complete_step(&step1, 3, outs);

    let step2 = plain_step("svc/two", None, false);
    assert!(matches!(run.begin_step(&step2), StepGate::Proceed));
    run.complete_step(&step2, 4, StepOutputs::new());

    assert!(matches!(run.results[0].1, StepResult::Failed(_, _)));
    assert!(matches!(run.results[1].1, StepResult::Passed(_)));
}

#[test]
fn test_sequential_step_outputs() {
    // a step's outputs, stored under its id, are visible to the next step
    let mut run = JobRun::new(ExprContext::new());
    let gen = plain_step("gen", Some("a"), false);
    let mut outs = StepOutputs::new();
    outs.insert("value".to_string(), Val::Str("42".to_string()));
    run.complete_step(&gen, 1, outs);

    let mut echo = plain_step("echo", None, false);
    echo.with_args.insert("in".to_string(), Val::Str("${{ steps.a.outputs.value }}".to_string()));
    let args = run.prepare_args(&echo).unwrap();
    assert_eq!(args.get(&"in".to_string()), Some(&Val::Str("42".to_string())));
}

#[test]
fn test_pre_assert_gate() {
    let mut run = JobRun::new(ExprContext::new());
    run.ctx.env.insert("MODE".to_string(), "fast".to_string());
    let mut step = plain_step("svc/x", None, false);
    step.pre_assert = vec!["${{ env.MODE == \"slow\" }}".to_string()];
    match run.begin_step(&step) {
        StepGate::Fail(m) => assert!(m.starts_with("Pre-assertion failed: ")),
        other => panic!("unexpected gate: {:?}", other),
    }
}

#[test]
fn test_job_outputs_and_drop_on_error() {
    let mut run = JobRun::new(ExprContext::new());
    let gen = plain_step("gen", Some("u"), false);
    let mut outs = StepOutputs::new();
    outs.insert("id".to_string(), Val::Str("x1".to_string()));
    run.complete_step(&gen, 1, outs);

    let yaml = r#"
name: T
jobs:
  setup:
    outputs:
      user_id: ${{ steps.u.outputs.id }}
      broken: ${{ steps.absent.outputs.id }}
    steps:
      - uses: user/create
        id: u
"#;
    let wf = Workflow::from_yaml(yaml).unwrap();
    let job = wf.jobs.get(&"setup".to_string()).unwrap();
    let outputs = run.job_outputs(job);
    assert_eq!(outputs.get(&"user_id".to_string()), Some(&Val::Str("x1".to_string())));
    assert_eq!(outputs.get(&"broken".to_string()), None);
}

#[test]
fn test_build_job_context_env_and_needs() {
    let yaml = r#"
name: T
jobs:
  test:
    needs: [setup]
    env:
      K: job
    steps:
      - uses: t/run
"#;
    let wf = Workflow::from_yaml(yaml).unwrap();
    let job = wf.jobs.get(&"test".to_string()).unwrap();

    let mut wf_env = Dict::new();
    wf_env.insert("K".to_string(), "workflow".to_string());
    wf_env.insert("BASE".to_string(), "1".to_string());

    let mut parent = Dict::new();
    let mut setup_out = JobOutputs::new();
    setup_out.insert("user_id".to_string(), Val::Str("x1".to_string()));
    parent.insert("setup".to_string(), setup_out);

    let ctx = build_job_context(&wf_env, job, &parent, Dict::new());
    assert_eq!(ctx.env.get(&"K".to_string()), Some(&"job".to_string()));
    assert_eq!(ctx.env.get(&"BASE".to_string()), Some(&"1".to_string()));
    let seeded = ctx.needs.get(&"setup".to_string()).unwrap();
    assert_eq!(seeded.get(&"user_id".to_string()), Some(&Val::Str("x1".to_string())));
}

#[test]
fn test_toposort_orders_dependencies() {
    let yaml = r#"
name: T
jobs:
  test:
    needs: [setup]
    steps:
      - uses: t/run
  setup:
    steps:
      - uses: s/run
"#;
    let wf = Workflow::from_yaml(yaml).unwrap();
    let order = toposort_jobs(&wf.jobs).unwrap();
    let pos = |n: &str| order.iter().position(|x| x == n).unwrap();
    assert_eq!(order.len(), 2);
    assert!(pos("setup") < pos("test"));
}

#[test]
fn test_toposort_circular() {
    let yaml = r#"
name: T
jobs:
  j1:
    needs: [j2]
    steps:
      - uses: a
  j2:
    needs: [j1]
    steps:
      - uses: b
"#;
    let wf = Workflow::from_yaml(yaml).unwrap();
    match toposort_jobs(&wf.jobs) {
        Err(Error::CircularDependency { chain }) => {
            assert!(chain.contains("j1"));
            assert!(chain.contains("j2"));
            let first = chain.split(" -> ").next().unwrap();
            assert!(chain.matches(first).count() >= 2);
        }
        other => panic!("unexpected: {:?}", other),
    }
}

#[test]
fn test_toposort_missing_dependency() {
    let yaml = r#"
name: T
jobs:
  only:
    needs: [ghost]
    steps:
      - uses: a
"#;
    let wf = Workflow::from_yaml(yaml).unwrap();
    match toposort_jobs(&wf.jobs) {
        Err(Error::JobDependencyNotFound { job, dependency }) => {
            assert_eq!(job, "only");
            assert_eq!(dependency, "ghost");
        }
        other => panic!("unexpected: {:?}", other),
    }
}

#[test]
fn test_workflow_call_outputs() {
    let yaml = r#"
name: Setup
on:
  workflow_call:
    outputs:
      user_id:
        value: ${{ jobs.setup.outputs.user_id }}
jobs:
  setup:
    steps:
      - uses: user/create
        id: u
"#;
    let wf = Workflow::from_yaml(yaml).unwrap();
    let config = wf.on.as_ref().unwrap().workflow_call.as_ref().unwrap();
    let mut ctx = ExprContext::new();
    let mut setup_outputs = JobOutputs::new();
    setup_outputs.insert("user_id".to_string(), Val::Str("x1".to_string()));
    ctx.jobs.insert("setup".to_string(), setup_outputs);
    let combined = evaluate_call_outputs(config, &ctx);
    assert_eq!(combined.get(&"user_id".to_string()), Some(&Val::Str("x1".to_string())));
}

#[test]
fn test_job_and_workflow_result_counts() {
    let job = JobResult {
        name: "j".to_string(),
        matrix_suffix: String::new(),
        steps: vec![
            ("a".to_string(), StepResult::Passed(1)),
            ("b".to_string(), StepResult::Failed(2, "x".to_string())),
            ("c".to_string(), StepResult::Skipped),
        ],
        outputs: JobOutputs::new(),
        duration: 3,
        init_failed: false,
    };
    assert!(!job.passed());
    assert_eq!(job.steps_passed(), 1);
    assert_eq!(job.steps_failed(), 1);

    let ok_job = JobResult {
        name: "k".to_string(),
        matrix_suffix: String::new(),
        steps: vec![("a".to_string(), StepResult::Passed(1))],
        outputs: JobOutputs::new(),
        duration: 1,
        init_failed: false,
    };
    assert!(ok_job.passed());

    // a job whose world could not be built counts as failed even with
    // zero steps
    let broken_world = JobResult {
        name: "m".to_string(),
        matrix_suffix: String::new(),
        steps: vec![],
        outputs: JobOutputs::new(),
        duration: 0,
        init_failed: true,
    };
    assert!(!broken_world.passed());

    let wf = WorkflowResult { name: "w".to_string(), jobs: vec![job, ok_job], duration: 4 };
    assert!(!wf.passed());
    assert_eq!(wf.jobs_passed(), 1);
    assert_eq!(wf.jobs_failed(), 1);
    assert_eq!(wf.total_steps_passed(), Some(2));
    assert_eq!(wf.total_steps_failed(), Some(1));
}

#[test]
fn test_step_errors() {
    let a = StepError::assertion("bad".to_string());
    let c = StepError::custom("odd".to_string());
    assert_eq!(a.message(), "Assertion failed: bad");
    assert_eq!(c.message(), "odd");
    assert_eq!(
        Error::Step(StepError::assertion("bad".to_string())).message(),
        "Step error: Assertion failed: bad"
    );
}

#[test]
fn test_needs_normalisation() {
    assert!(JobNeeds::Absent.is_empty());
    assert!(!JobNeeds::Single("a".to_string()).is_empty());
    assert_eq!(JobNeeds::Single("a".to_string()).as_vec(), vec!["a".to_string()]);
    assert_eq!(
        JobNeeds::Multiple(vec!["a".to_string(), "b".to_string()]).as_vec(),
        vec!["a".to_string(), "b".to_string()]
    );
}
