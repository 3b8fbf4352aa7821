use rust_actions::expr::{evaluate, evaluate_assertion, evaluate_value, value_contains, ExprContext};
use rust_actions::errors::Error;
use rust_actions::outputs::{ContainerInfo, StepOutputs};
use rust_actions::value::Val;

#[test]
fn test_evaluate_env() {
    let mut ctx = ExprContext::new();
    ctx.env.insert("DB_URL".to_string(), "postgres://localhost".to_string());

    let result = evaluate("${{ env.DB_URL }}", &ctx).unwrap();
    assert_eq!(result, "postgres://localhost");
}

#[test]
fn test_evaluate_step_output() {
    let mut ctx = ExprContext::new();
    let mut outputs = StepOutputs::new();
    outputs.insert("id".to_string(), Val::Str("user-123".to_string()));
    ctx.steps.insert("user".to_string(), outputs);

    let result = evaluate("User ID: ${{ steps.user.outputs.id }}", &ctx).unwrap();
    assert_eq!(result, "User ID: user-123");
}

#[test]
fn test_evaluate_container() {
    let mut ctx = ExprContext::new();
    ctx.containers.insert(
        "postgres".to_string(),
        ContainerInfo {
            url: "postgres://localhost:5432".to_string(),
            host: "localhost".to_string(),
            port: 5432,
        },
    );

    let result = evaluate("${{ containers.postgres.url }}", &ctx).unwrap();
    assert_eq!(result, "postgres://localhost:5432");
}

#[test]
fn test_interpolation_identity() {
    let ctx = ExprContext::new();
    let s = "a plain string with } and { but no marker";
    assert_eq!(evaluate(s, &ctx).unwrap(), s);
}

#[test]
fn test_missing_env_is_error() {
    let ctx = ExprContext::new();
    match evaluate("${{ env.ABSENT }}", &ctx) {
        Err(Error::EnvVar(name)) => assert_eq!(name, "ABSENT"),
        other => panic!("unexpected: {:?}", other),
    }
}

#[test]
fn test_unknown_root_is_expression_error() {
    let ctx = ExprContext::new();
    assert!(matches!(evaluate("${{ nothing.here }}", &ctx), Err(Error::Expression(_))));
}

#[test]
fn test_value_walk_leaves() {
    let ctx = ExprContext::new();
    assert_eq!(evaluate_value(&Val::Int(7), &ctx).unwrap(), Val::Int(7));
    assert_eq!(evaluate_value(&Val::Bool(true), &ctx).unwrap(), Val::Bool(true));
    assert_eq!(evaluate_value(&Val::Null, &ctx).unwrap(), Val::Null);
    let mut ctx2 = ExprContext::new();
    ctx2.env.insert("K".to_string(), "v".to_string());
    assert_eq!(
        evaluate_value(&Val::Str("${{ env.K }}!".to_string()), &ctx2).unwrap(),
        Val::Str("v!".to_string())
    );
    let nested = Val::Arr(vec![Val::Str("${{ env.K }}".to_string()), Val::Int(1)]);
    assert_eq!(
        evaluate_value(&nested, &ctx2).unwrap(),
        Val::Arr(vec![Val::Str("v".to_string()), Val::Int(1)])
    );
}

#[test]
fn test_assertions() {
    let ctx = ExprContext::new();
    assert!(evaluate_assertion("${{ 1 == 1 }}", &ctx).unwrap());
    assert!(!evaluate_assertion("${{ 1 == 2 }}", &ctx).unwrap());
    assert!(evaluate_assertion("${{ 2 > 1 }}", &ctx).unwrap());
    assert!(evaluate_assertion("${{ 1.5 < 2 }}", &ctx).unwrap());
    assert!(evaluate_assertion("${{ \"abc\" contains \"bc\" }}", &ctx).unwrap());
    assert!(evaluate_assertion("${{ 'x' != 'y' }}", &ctx).unwrap());
    assert!(matches!(evaluate_assertion("no marker", &ctx), Err(Error::Expression(_))));
    assert!(matches!(evaluate_assertion("${{ 5 }}", &ctx), Err(Error::Expression(_))));
}

#[test]
fn test_json_literal_operand() {
    let ctx = ExprContext::new();
    assert!(evaluate_assertion("${{ {\"a\": 1} == {\"a\": 1} }}", &ctx).unwrap());
    assert!(evaluate_assertion("${{ [1, 2, 3] contains 2 }}", &ctx).unwrap());
    assert!(matches!(
        evaluate_assertion("${{ {broken == 1 }}", &ctx),
        Err(Error::Expression(_))
    ));
}

#[test]
fn test_contains_reflexive_values() {
    let s = Val::Str("hello".to_string());
    let a = Val::Arr(vec![Val::Int(1), Val::Str("x".to_string())]);
    let o = Val::Obj(vec![
        ("k".to_string(), Val::Int(1)),
        ("m".to_string(), Val::Arr(vec![Val::Int(2)])),
    ]);
    assert!(value_contains(&s, &s));
    assert!(value_contains(&a, &a));
    assert!(value_contains(&o, &o));
    assert!(!value_contains(&Val::Int(1), &Val::Int(1)));
}

#[test]
fn test_numeric_comparison_of_strings() {
    let ctx = ExprContext::new();
    assert!(evaluate_assertion("${{ \"10\" > \"9\" }}", &ctx).unwrap());
    assert!(!evaluate_assertion("${{ \"abc\" > \"9\" }}", &ctx).unwrap());
}

#[test]
fn test_output_flow() {
    // a step's recorded outputs flow through a job's declared outputs into
    // a dependent job's scope
    let mut ctx_a = ExprContext::new();
    let mut s_out = StepOutputs::new();
    s_out.insert("y".to_string(), Val::Str("42".to_string()));
    ctx_a.steps.insert("s".to_string(), s_out);
    let produced = evaluate("${{ steps.s.outputs.y }}", &ctx_a).unwrap();
    assert_eq!(produced, "42");

    let mut ctx_b = ExprContext::new();
    let mut a_outputs = rust_actions::outputs::JobOutputs::new();
    a_outputs.insert("x".to_string(), Val::Str(produced));
    ctx_b.needs.insert("A".to_string(), a_outputs);
    let observed = evaluate("${{ needs.A.outputs.x }}", &ctx_b).unwrap();
    assert_eq!(observed, "42");
}
