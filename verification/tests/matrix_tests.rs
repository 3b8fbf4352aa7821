use rust_actions::dict::Dict;
use rust_actions::matrix::{expand_matrix_inner, format_matrix_suffix};
use rust_actions::model::Matrix;
use rust_actions::value::Val;

fn empty_matrix() -> Matrix {
    Matrix { added: vec![], exclude: vec![], dimensions: Dict::new() }
}

#[test]
fn test_empty_matrix() {
    let matrix = empty_matrix();

    let combos = expand_matrix_inner(&matrix);
    assert_eq!(combos.len(), 1);
    assert!(combos[0].is_empty());
}

#[test]
fn test_single_dimension_matrix() {
    let mut matrix = empty_matrix();
    matrix.dimensions.insert(
        "version".to_string(),
        vec![Val::Str("v1".to_string()), Val::Str("v2".to_string())],
    );

    let combos = expand_matrix_inner(&matrix);
    assert_eq!(combos.len(), 2);
}

#[test]
fn test_cartesian_product() {
    let mut matrix = empty_matrix();
    matrix.dimensions.insert("a".to_string(), vec![Val::Bool(true), Val::Bool(false)]);
    matrix.dimensions.insert("b".to_string(), vec![Val::Bool(true), Val::Bool(false)]);

    let combos = expand_matrix_inner(&matrix);
    assert_eq!(combos.len(), 4);
}

#[test]
fn test_exclude() {
    let mut matrix = empty_matrix();
    matrix.dimensions.insert(
        "a".to_string(),
        vec![Val::Str("v1".to_string()), Val::Str("v2".to_string())],
    );
    matrix.dimensions.insert(
        "b".to_string(),
        vec![Val::Str("v1".to_string()), Val::Str("v2".to_string())],
    );

    let mut excl = Dict::new();
    excl.insert("a".to_string(), Val::Str("v1".to_string()));
    excl.insert("b".to_string(), Val::Str("v2".to_string()));
    matrix.exclude.push(excl);

    let combos = expand_matrix_inner(&matrix);
    assert_eq!(combos.len(), 3);

    let has_excluded = combos.iter().any(|c| {
        c.get(&"a".to_string()) == Some(&Val::Str("v1".to_string()))
            && c.get(&"b".to_string()) == Some(&Val::Str("v2".to_string()))
    });
    assert!(!has_excluded);
}

#[test]
fn test_include() {
    let mut matrix = empty_matrix();
    matrix.dimensions.insert("a".to_string(), vec![Val::Str("v1".to_string())]);

    let mut extra = Dict::new();
    extra.insert("a".to_string(), Val::Str("v3-beta".to_string()));
    extra.insert("experimental".to_string(), Val::Bool(true));
    matrix.added.push(extra);

    let combos = expand_matrix_inner(&matrix);
    assert_eq!(combos.len(), 2);

    let has_beta = combos
        .iter()
        .any(|c| c.get(&"a".to_string()) == Some(&Val::Str("v3-beta".to_string())));
    assert!(has_beta);

    let has_experimental = combos.iter().any(|c| c.get(&"experimental".to_string()).is_some());
    assert!(has_experimental);
}

#[test]
fn test_format_matrix_suffix() {
    let mut combo = Dict::new();
    combo.insert("feature_x".to_string(), Val::Bool(true));
    combo.insert("feature_y".to_string(), Val::Bool(false));

    let suffix = format_matrix_suffix(&combo);
    assert!(suffix.contains("feature_x=true"));
    assert!(suffix.contains("feature_y=false"));
}

#[test]
fn test_format_empty_matrix() {
    let combo: Dict<Val> = Dict::new();
    let suffix = format_matrix_suffix(&combo);
    assert!(suffix.is_empty());
}

#[test]
fn test_suffix_keys_alphabetical() {
    let mut combo = Dict::new();
    combo.insert("zeta".to_string(), Val::Int(1));
    combo.insert("alpha".to_string(), Val::Int(2));
    combo.insert("mid".to_string(), Val::Str("x".to_string()));
    let suffix = format_matrix_suffix(&combo);
    assert_eq!(suffix, " [alpha=2, mid=x, zeta=1]");
}

#[test]
fn test_matrix_size_formula() {
    // two dimensions of two values, one excluded row, one appended row:
    // 2 * 2 - 1 + 1 = 4 combinations
    let mut matrix = empty_matrix();
    matrix.dimensions.insert(
        "a".to_string(),
        vec![Val::Str("v1".to_string()), Val::Str("v2".to_string())],
    );
    matrix.dimensions.insert(
        "b".to_string(),
        vec![Val::Str("v1".to_string()), Val::Str("v2".to_string())],
    );
    let mut excl = Dict::new();
    excl.insert("a".to_string(), Val::Str("v1".to_string()));
    excl.insert("b".to_string(), Val::Str("v2".to_string()));
    matrix.exclude.push(excl);
    let mut extra = Dict::new();
    extra.insert("a".to_string(), Val::Str("v3-beta".to_string()));
    extra.insert("experimental".to_string(), Val::Bool(true));
    matrix.added.push(extra);

    let combos = expand_matrix_inner(&matrix);
    assert_eq!(combos.len(), 4);
}

#[test]
fn test_all_excluded_yields_one_empty() {
    let mut matrix = empty_matrix();
    matrix.dimensions.insert("a".to_string(), vec![Val::Str("v1".to_string())]);
    let mut excl = Dict::new();
    excl.insert("a".to_string(), Val::Str("v1".to_string()));
    matrix.exclude.push(excl);
    let combos = expand_matrix_inner(&matrix);
    assert_eq!(combos.len(), 1);
    assert!(combos[0].is_empty());
}

#[test]
fn test_suffix_sorts_by_key() {
    // keys sort as keys, not as whole "key=value" texts
    let mut combo = Dict::new();
    combo.insert("a-1".to_string(), Val::Int(2));
    combo.insert("a".to_string(), Val::Int(1));
    let suffix = format_matrix_suffix(&combo);
    assert_eq!(suffix, " [a=1, a-1=2]");
}
