use vstd::prelude::*;

use crate::dict::Dict;
use crate::errors::{Error, ErrorView};
use crate::outputs::{ContainerInfo, ContainerInfoView, JobOutputs, StepOutputs};
use crate::strutil::{chars_to_string, str_to_chars, subvec, trim_vec, trimmed};
use crate::value::{
    assoc, dec_digits, has_pair_key, int_decimal, lemma_assoc_some, push_str_chars, string_form,
    val_equal, wf_value, Val, ValView,
};
use crate::dict::{first_key_index, lemma_first_key_index};

verus! {

/// The layered lookup scope of an expression: environment, previous step
/// outputs, service endpoints, the current step's outputs (in a
/// post-assertion), dependency outputs, the matrix row, and job outputs.
#[derive(Debug)]
pub struct ExprContext {
    pub env: Dict<String>,
    pub steps: Dict<StepOutputs>,
    pub containers: Dict<ContainerInfo>,
    pub outputs: Option<StepOutputs>,
    pub needs: Dict<JobOutputs>,
    pub matrix: Dict<Val>,
    pub jobs: Dict<JobOutputs>,
}

pub struct ExprContextView {
    pub env: Seq<(Seq<char>, Seq<char>)>,
    pub steps: Seq<(Seq<char>, Seq<(Seq<char>, ValView)>)>,
    pub containers: Seq<(Seq<char>, ContainerInfoView)>,
    pub outputs: Option<Seq<(Seq<char>, ValView)>>,
    pub needs: Seq<(Seq<char>, Seq<(Seq<char>, ValView)>)>,
    pub matrix: Seq<(Seq<char>, ValView)>,
    pub jobs: Seq<(Seq<char>, Seq<(Seq<char>, ValView)>)>,
}

impl View for ExprContext {
    type V = ExprContextView;

    open spec fn view(&self) -> ExprContextView {
        ExprContextView {
            env: self.env@,
            steps: self.steps@,
            containers: self.containers@,
            outputs: match self.outputs {
                Some(ref o) => Some(o@),
                None => None,
            },
            needs: self.needs@,
            matrix: self.matrix@,
            jobs: self.jobs@,
        }
    }
}

/// Relies on `serde_json::from_str::<serde_json::Value>`: what JSON text
/// parses to is a function of the text alone.
pub uninterp spec fn json_parse(s: Seq<char>) -> Result<ValView, Seq<char>>;

/// The plain value a parsed JSON document stands for.
pub uninterp spec fn json_value_model(v: serde_json::Value) -> ValView;

/// Relies on `serde_json::Number` parsing and floating point comparison:
/// how two decimal strings compare numerically is a function of the
/// strings alone. `Some(c)` with `c` negative, zero or positive for less,
/// equal, greater; `None` when either side does not read as a number.
pub uninterp spec fn float_cmp(a: Seq<char>, b: Seq<char>) -> Option<int>;

/// Relies on `serde_json::Number` parsing: the numeric value a
/// non-integer literal operand denotes, in canonical form; `None` when the
/// text does not read as a number.
pub uninterp spec fn float_operand(s: Seq<char>) -> Option<ValView>;

/// Relies on `serde_json::from_str::<serde_json::Value>` to read an object
/// or array literal operand; the error case keeps the parser's message.
#[verifier::external_body]
fn json_parse_exec(s: &str) -> (r: Result<Val, String>)
    ensures
        match r {
            Ok(v) => json_parse(s@) == Ok::<ValView, Seq<char>>(v@),
            Err(m) => json_parse(s@) == Err::<ValView, Seq<char>>(m@),
        },
{
    match serde_json::from_str::<serde_json::Value>(s) {
        Ok(v) => Ok(json_to_value(v)),
        Err(e) => Err(e.to_string()),
    }
}

/// Relies on the shape of `serde_json::Value`: each variant is carried
/// over to the matching variant of the library's value, field by field.
#[verifier::external_body]
pub(crate) fn json_to_value(v: serde_json::Value) -> (r: Val)
    ensures
        r@ == json_value_model(v),
{
    match v {
        serde_json::Value::Null => Val::Null,
        serde_json::Value::Bool(b) => Val::Bool(b),
        serde_json::Value::Number(n) => match n.as_i64() {
            Some(i) => Val::Int(i),
            None => Val::Num(n.to_string()),
        },
        serde_json::Value::String(s) => Val::Str(s),
        serde_json::Value::Array(items) => Val::Arr(
            items.into_iter().map(json_to_value).collect(),
        ),
        serde_json::Value::Object(map) => Val::Obj(
            map.into_iter().map(|(k, x)| (k, json_to_value(x))).collect(),
        ),
    }
}

/// Relies on `serde_json::Number` parsing and floating point comparison
/// to order two decimal strings numerically.
#[verifier::external_body]
fn float_cmp_exec(a: &str, b: &str) -> (r: Option<i8>)
    ensures
        match r {
            Some(c) => float_cmp(a@, b@) == Some(c as int),
            None => float_cmp(a@, b@) is None,
        },
{
    match (a.parse::<serde_json::Number>(), b.parse::<serde_json::Number>()) {
        (Ok(xn), Ok(yn)) => match (xn.as_f64(), yn.as_f64()) {
            (Some(x), Some(y)) => match x.partial_cmp(&y) {
                Some(std::cmp::Ordering::Less) => Some(-1),
                Some(std::cmp::Ordering::Equal) => Some(0),
                Some(std::cmp::Ordering::Greater) => Some(1),
                None => None,
            },
            _ => None,
        },
        _ => None,
    }
}

/// Relies on `serde_json::Number` parsing to read a non-integer numeric
/// operand, kept in its canonical form.
#[verifier::external_body]
fn float_operand_exec(s: &str) -> (r: Option<Val>)
    ensures
        match r {
            Some(v) => float_operand(s@) == Some(v@),
            None => float_operand(s@) is None,
        },
{
    match s.parse::<serde_json::Number>() {
        Ok(n) => Some(Val::Num(n.to_string())),
        Err(_) => None,
    }
}

// ---------------------------------------------------------------------
// scanning for `${{ ... }}`

pub open spec fn is_open_at(s: Seq<char>, i: int) -> bool {
    i + 3 <= s.len() && s[i] == '$' && s[i + 1] == '{' && s[i + 2] == '{'
}

pub open spec fn is_close_at(s: Seq<char>, i: int) -> bool {
    i + 2 <= s.len() && s[i] == '}' && s[i + 1] == '}'
}

/// The first opening marker at or after the position; the length if none.
pub open spec fn find_open(s: Seq<char>, from: int) -> int
    decreases s.len() - from,
{
    if from < 0 || from + 3 > s.len() {
        s.len() as int
    } else if is_open_at(s, from) {
        from
    } else {
        find_open(s, from + 1)
    }
}

/// The first closing marker at or after the position; the length if none.
pub open spec fn find_close(s: Seq<char>, from: int) -> int
    decreases s.len() - from,
{
    if from < 0 || from + 2 > s.len() {
        s.len() as int
    } else if is_close_at(s, from) {
        from
    } else {
        find_close(s, from + 1)
    }
}

pub proof fn lemma_find_open_bounds(s: Seq<char>, from: int)
    requires
        0 <= from,
    ensures
        find_open(s, from) <= s.len(),
        find_open(s, from) < s.len() ==> from <= find_open(s, from) && is_open_at(
            s,
            find_open(s, from),
        ),
    decreases s.len() - from,
{
    if from + 3 <= s.len() && !is_open_at(s, from) {
        lemma_find_open_bounds(s, from + 1);
    }
}

pub proof fn lemma_find_close_bounds(s: Seq<char>, from: int)
    requires
        0 <= from,
    ensures
        find_close(s, from) <= s.len(),
        find_close(s, from) < s.len() ==> from <= find_close(s, from) && is_close_at(
            s,
            find_close(s, from),
        ),
    decreases s.len() - from,
{
    if from + 2 <= s.len() && !is_close_at(s, from) {
        lemma_find_close_bounds(s, from + 1);
    }
}

/// Substituting every `${{ ... }}` from the position on; an expression
/// error stops the walk.
pub open spec fn eval_from(s: Seq<char>, from: int, ctx: ExprContextView) -> Result<
    Seq<char>,
    ErrorView,
>
    decreases s.len() - from,
    via eval_from_decreases
{
    if from < 0 || from > s.len() {
        Ok(Seq::empty())
    } else {
        let o = find_open(s, from);
        if o == s.len() {
            Ok(s.subrange(from, s.len() as int))
        } else {
            let c = find_close(s, o + 3);
            if c == s.len() {
                Ok(s.subrange(from, s.len() as int))
            } else {
                let inner = trimmed(s.subrange(o + 3, c));
                match spec_eval_interp(inner, ctx) {
                    Ok(v) => match eval_from(s, c + 2, ctx) {
                        Ok(rest) => Ok(s.subrange(from, o) + v + rest),
                        Err(e) => Err(e),
                    },
                    Err(e) => Err(e),
                }
            }
        }
    }
}

#[via_fn]
proof fn eval_from_decreases(s: Seq<char>, from: int, ctx: ExprContextView) {
    if 0 <= from <= s.len() {
        lemma_find_open_bounds(s, from);
        let o = find_open(s, from);
        if o < s.len() {
            lemma_find_close_bounds(s, o + 3);
        }
    }
}

/// What interpolating a whole string yields.
pub open spec fn spec_evaluate(s: Seq<char>, ctx: ExprContextView) -> Result<Seq<char>, ErrorView> {
    eval_from(s, 0, ctx)
}

// ---------------------------------------------------------------------
// dotted paths

/// The first position of the character at or after `from`; the length if
/// it does not occur.
pub open spec fn find_char(s: Seq<char>, c: char, from: int) -> int
    decreases s.len() - from,
{
    if from < 0 || from >= s.len() {
        s.len() as int
    } else if s[from] == c {
        from
    } else {
        find_char(s, c, from + 1)
    }
}

pub proof fn lemma_find_char_bounds(s: Seq<char>, c: char, from: int)
    requires
        0 <= from <= s.len(),
    ensures
        from <= find_char(s, c, from),
        find_char(s, c, from) <= s.len(),
        find_char(s, c, from) < s.len() ==> s[find_char(s, c, from)] == c,
        forall|j: int| from <= j < find_char(s, c, from) ==> s[j] != c,
    decreases s.len() - from,
{
    if from < s.len() && s[from] != c {
        lemma_find_char_bounds(s, c, from + 1);
    }
}

/// A string split at every dot.
pub open spec fn split_dots(s: Seq<char>) -> Seq<Seq<char>>
    decreases s.len(),
    via split_dots_decreases
{
    let d = find_char(s, '.', 0);
    if d == s.len() {
        seq![s]
    } else {
        seq![s.subrange(0, d)] + split_dots(s.subrange(d + 1, s.len() as int))
    }
}

#[via_fn]
proof fn split_dots_decreases(s: Seq<char>) {
    lemma_find_char_bounds(s, '.', 0);
}


// ---------------------------------------------------------------------
// integers in text

pub open spec fn is_digit_char(c: char) -> bool {
    48 <= c as int <= 57
}

pub open spec fn all_digits(s: Seq<char>, n: int) -> bool
    decreases n,
{
    if n <= 0 || n > s.len() {
        true
    } else {
        all_digits(s, n - 1) && is_digit_char(s[n - 1])
    }
}

pub open spec fn digits_value(s: Seq<char>, n: int) -> int
    decreases n,
{
    if n <= 0 || n > s.len() {
        0
    } else {
        digits_value(s, n - 1) * 10 + (s[n - 1] as int - 48)
    }
}

/// The integer a piece of text denotes, if it reads as one that fits a
/// signed 64-bit machine word: an optional sign, then digits only.
pub open spec fn spec_parse_i64(s: Seq<char>) -> Option<int> {
    if s.len() == 0 {
        None
    } else {
        let neg = s[0] == '-';
        let ds = if s[0] == '-' || s[0] == '+' {
            s.drop_first()
        } else {
            s
        };
        if ds.len() == 0 || !all_digits(ds, ds.len() as int) {
            None
        } else {
            let v = digits_value(ds, ds.len() as int);
            let sv = if neg {
                -v
            } else {
                v
            };
            if -0x8000_0000_0000_0000 <= sv <= 0x7fff_ffff_ffff_ffff {
                Some(sv)
            } else {
                None
            }
        }
    }
}

/// The index a piece of text denotes, if it reads as an unsigned machine
/// word: an optional plus sign, then digits only.
pub open spec fn spec_parse_usize(s: Seq<char>) -> Option<int> {
    if s.len() == 0 {
        None
    } else {
        let ds = if s[0] == '+' {
            s.drop_first()
        } else {
            s
        };
        if ds.len() == 0 || !all_digits(ds, ds.len() as int) {
            None
        } else {
            let v = digits_value(ds, ds.len() as int);
            if v <= usize::MAX as int {
                Some(v)
            } else {
                None
            }
        }
    }
}

// ---------------------------------------------------------------------
// containment and comparison

pub open spec fn has_substring(hay: Seq<char>, needle: Seq<char>) -> bool {
    exists|i: int| 0 <= i && i + needle.len() <= hay.len() && #[trigger] hay.subrange(
        i,
        i + needle.len(),
    ) == needle
}

/// Does the haystack contain the needle: objects entry by entry, arrays
/// element by element, strings as substrings.
pub open spec fn spec_contains(h: ValView, n: ValView) -> bool
    decreases h, 3int, 0int,
{
    match (h, n) {
        (ValView::Obj(hs), ValView::Obj(ns)) => obj_needle_ok(hs, ns, ns.len() as int),
        (ValView::Arr(hs), ValView::Arr(ns)) => arr_needle_ok(hs, ns, ns.len() as int),
        (ValView::Arr(hs), _) => arr_any_match(hs, n, hs.len() as int),
        (ValView::Str(a), ValView::Str(b)) => has_substring(a, b),
        _ => false,
    }
}

/// Every needle entry is present in the haystack object, contained for
/// objects and arrays, equal otherwise.
pub open spec fn obj_needle_ok(
    hs: Seq<(Seq<char>, ValView)>,
    ns: Seq<(Seq<char>, ValView)>,
    k: int,
) -> bool
    decreases hs, 2int, k,
    via obj_needle_ok_decreases
{
    if k <= 0 || k > ns.len() {
        true
    } else {
        obj_needle_ok(hs, ns, k - 1) && {
            let key = ns[k - 1].0;
            let nv = ns[k - 1].1;
            has_pair_key(hs, key) && {
                let hv = hs[first_key_index(hs, key)].1;
                if nv is Obj || nv is Arr {
                    spec_contains(hv, nv)
                } else {
                    val_equal(hv, nv)
                }
            }
        }
    }
}

#[via_fn]
proof fn obj_needle_ok_decreases(hs: Seq<(Seq<char>, ValView)>, ns: Seq<(Seq<char>, ValView)>, k: int) {
    if 0 < k <= ns.len() {
        let key = ns[k - 1].0;
        if has_pair_key(hs, key) {
            lemma_first_key_index(hs, key);
        }
    }
}

/// Every needle element is matched by some haystack element.
pub open spec fn arr_needle_ok(hs: Seq<ValView>, ns: Seq<ValView>, k: int) -> bool
    decreases hs, 2int, k,
{
    if k <= 0 || k > ns.len() {
        true
    } else {
        arr_needle_ok(hs, ns, k - 1) && arr_any_match(hs, ns[k - 1], hs.len() as int)
    }
}

/// Some haystack element up to the bound matches the needle: contained
/// for objects, equal otherwise.
pub open spec fn arr_any_match(hs: Seq<ValView>, n: ValView, m: int) -> bool
    decreases hs, 1int, m,
{
    if m <= 0 || m > hs.len() {
        false
    } else {
        arr_any_match(hs, n, m - 1) || (if n is Obj {
            spec_contains(hs[m - 1], n)
        } else {
            val_equal(hs[m - 1], n)
        })
    }
}

/// A value rendered for numeric comparison: integers and numbers in their
/// decimal form, strings as they stand.
pub open spec fn as_decimal(v: ValView) -> Option<Seq<char>> {
    match v {
        ValView::Int(i) => Some(int_decimal(i)),
        ValView::Num(s) => Some(s),
        ValView::Str(s) => Some(s),
        _ => None,
    }
}

/// What one comparison operator yields on two values.
pub open spec fn spec_compare(l: ValView, r: ValView, op: Seq<char>) -> bool {
    if op == "=="@ {
        val_equal(l, r)
    } else if op == "!="@ {
        !val_equal(l, r)
    } else if op == "contains"@ {
        spec_contains(l, r)
    } else if op == ">"@ || op == "<"@ || op == ">="@ || op == "<="@ {
        match (as_decimal(l), as_decimal(r)) {
            (Some(a), Some(b)) => match float_cmp(a, b) {
                Some(c) => if op == ">"@ {
                    c > 0
                } else if op == "<"@ {
                    c < 0
                } else if op == ">="@ {
                    c >= 0
                } else {
                    c <= 0
                },
                None => false,
            },
            _ => false,
        }
    } else {
        false
    }
}

// ---------------------------------------------------------------------
// operator scanning

/// The leftmost operator occurrence outside braces, brackets and quoted
/// strings, scanning from position i with the given nesting state.
pub open spec fn scan_op(
    s: Seq<char>,
    op: Seq<char>,
    i: int,
    depth: int,
    in_string: bool,
    string_char: char,
) -> Option<int>
    decreases s.len() - i,
{
    if i < 0 || i >= s.len() {
        None
    } else {
        let c = s[i];
        if in_string {
            if c == string_char && (i == 0 || s[i - 1] != '\\') {
                scan_op(s, op, i + 1, depth, false, string_char)
            } else {
                scan_op(s, op, i + 1, depth, true, string_char)
            }
        } else if c == '"' || c == '\'' {
            scan_op(s, op, i + 1, depth, true, c)
        } else {
            let depth2 = if c == '{' || c == '[' {
                depth + 1
            } else if c == '}' || c == ']' {
                depth - 1
            } else {
                depth
            };
            if depth2 == 0 && i + op.len() <= s.len() && s.subrange(i, i + op.len()) == op {
                Some(i)
            } else {
                scan_op(s, op, i + 1, depth2, in_string, string_char)
            }
        }
    }
}

pub open spec fn find_op(s: Seq<char>, op: Seq<char>) -> Option<int> {
    scan_op(s, op, 0, 0, false, ' ')
}

pub proof fn lemma_scan_op_bounds(
    s: Seq<char>,
    op: Seq<char>,
    i: int,
    depth: int,
    in_string: bool,
    string_char: char,
)
    requires
        0 <= i,
    ensures
        scan_op(s, op, i, depth, in_string, string_char) matches Some(p) ==> i <= p && p
            + op.len() <= s.len(),
    decreases s.len() - i,
{
    if 0 <= i < s.len() {
        lemma_scan_op_bounds(s, op, i + 1, depth, in_string, string_char);
        lemma_scan_op_bounds(s, op, i + 1, depth + 1, in_string, string_char);
        lemma_scan_op_bounds(s, op, i + 1, depth - 1, in_string, string_char);
        lemma_scan_op_bounds(s, op, i + 1, depth, false, string_char);
        lemma_scan_op_bounds(s, op, i + 1, depth, true, string_char);
        lemma_scan_op_bounds(s, op, i + 1, depth, true, s[i]);
    }
}

// ---------------------------------------------------------------------
// operands and boolean expressions

pub open spec fn strip_quotes(o: Seq<char>) -> Seq<char> {
    if o.len() >= 2 {
        o.subrange(1, o.len() - 1)
    } else {
        Seq::empty()
    }
}

/// What a trimmed operand denotes: a JSON literal, a quoted string, a
/// keyword, a number, or else a path looked up in the scope.
pub open spec fn spec_eval_operand(t: Seq<char>, ctx: ExprContextView) -> Result<
    ValView,
    ErrorView,
> {
    let o = trimmed(t);
    if o.len() > 0 && (o[0] == '{' || o[0] == '[') {
        match json_parse(o) {
            Ok(v) => Ok(v),
            Err(m) => Err(ErrorView::Expression("Invalid JSON: "@ + m)),
        }
    } else if o.len() > 0 && o[0] == '"' {
        Ok(ValView::Str(strip_quotes(o)))
    } else if o.len() > 0 && o[0] == '\'' {
        Ok(ValView::Str(strip_quotes(o)))
    } else if o == "true"@ {
        Ok(ValView::Bool(true))
    } else if o == "false"@ {
        Ok(ValView::Bool(false))
    } else if o == "null"@ {
        Ok(ValView::Null)
    } else if spec_parse_i64(o) is Some {
        Ok(ValView::Int(spec_parse_i64(o)->Some_0))
    } else {
        match float_operand(o) {
            Some(v) => Ok(v),
            None => spec_eval_value_path(o, ctx),
        }
    }
}

pub open spec fn op_list() -> Seq<Seq<char>> {
    seq![" contains "@, "=="@, "!="@, ">="@, "<="@, ">"@, "<"@]
}

/// The first operator, trying each in fixed order over the whole
/// expression.
pub open spec fn pick_op(s: Seq<char>, k: int) -> Option<(Seq<char>, int)>
    decreases 7 - k,
{
    if k < 0 || k >= 7 {
        None
    } else {
        match find_op(s, op_list()[k]) {
            Some(p) => Some((op_list()[k], p)),
            None => pick_op(s, k + 1),
        }
    }
}

/// What a boolean expression `LEFT OP RIGHT` yields.
pub open spec fn spec_eval_bool(expr: Seq<char>, ctx: ExprContextView) -> Result<
    bool,
    ErrorView,
> {
    match pick_op(expr, 0) {
        Some((op, pos)) => {
            let left = trimmed(expr.subrange(0, pos));
            let right = trimmed(expr.subrange(pos + op.len(), expr.len() as int));
            match spec_eval_operand(left, ctx) {
                Ok(l) => match spec_eval_operand(right, ctx) {
                    Ok(r) => Ok(spec_compare(l, r, trimmed(op))),
                    Err(e) => Err(e),
                },
                Err(e) => Err(e),
            }
        }
        None => Err(
            ErrorView::Expression("No comparison operator found in expression: "@ + expr),
        ),
    }
}

/// What an assertion string yields: the whole string, once trimmed, must
/// be one single `${{ ... }}` holding a boolean expression.
pub open spec fn spec_eval_assertion(s: Seq<char>, ctx: ExprContextView) -> Result<
    bool,
    ErrorView,
> {
    let t = trimmed(s);
    if t.len() >= 5 && is_open_at(t, 0) && find_close(t, 3) == t.len() - 2 {
        spec_eval_bool(trimmed(t.subrange(3, t.len() - 2)), ctx)
    } else {
        Err(ErrorView::Expression("Invalid assertion format: "@ + s))
    }
}

// ---------------------------------------------------------------------
// path lookups

pub open spec fn err_expression(m: Seq<char>) -> ErrorView {
    ErrorView::Expression(m)
}

/// Descending into a value along the remaining path segments: object
/// fields by name, array elements by index.
pub open spec fn spec_navigate(v: ValView, path: Seq<Seq<char>>, i: int) -> Result<
    ValView,
    ErrorView,
>
    decreases path.len() - i,
{
    if i < 0 || i >= path.len() {
        Ok(v)
    } else {
        match v {
            ValView::Obj(es) => match assoc(es, path[i]) {
                Some(nx) => spec_navigate(nx, path, i + 1),
                None => Err(err_expression("Field not found: "@ + path[i])),
            },
            ValView::Arr(items) => match spec_parse_usize(path[i]) {
                Some(ix) => if ix < items.len() {
                    spec_navigate(items[ix], path, i + 1)
                } else {
                    Err(err_expression(
                        "Array index out of bounds: "@ + dec_digits(ix as nat),
                    ))
                },
                None => Err(err_expression("Invalid array index: "@ + path[i])),
            },
            _ => Err(err_expression("Cannot navigate into non-object/array value"@)),
        }
    }
}

pub open spec fn err_step_output(id: Seq<char>, f: Seq<char>) -> ErrorView {
    err_expression("Step output not found: "@ + id + seq!['.'] + f)
}

pub open spec fn err_job_output(j: Seq<char>, f: Seq<char>) -> ErrorView {
    err_expression("Job output not found: "@ + j + seq!['.'] + f)
}

/// What a dotted path denotes when spliced into a string.
pub open spec fn spec_eval_interp(expr: Seq<char>, ctx: ExprContextView) -> Result<
    Seq<char>,
    ErrorView,
> {
    let parts = split_dots(expr);
    if parts.len() == 2 && parts[0] == "env"@ {
        match assoc(ctx.env, parts[1]) {
            Some(v) => Ok(v),
            None => Err(ErrorView::EnvVar(parts[1])),
        }
    } else if parts.len() == 4 && parts[0] == "steps"@ && parts[2] == "outputs"@ {
        match assoc(ctx.steps, parts[1]) {
            Some(outs) => match assoc(outs, parts[3]) {
                Some(v) => Ok(string_form(v)),
                None => Err(err_step_output(parts[1], parts[3])),
            },
            None => Err(err_step_output(parts[1], parts[3])),
        }
    } else if parts.len() == 3 && parts[0] == "containers"@ && parts[2] == "url"@ {
        match assoc(ctx.containers, parts[1]) {
            Some(c) => Ok(c.url),
            None => Err(err_expression("Container not found: "@ + parts[1])),
        }
    } else if parts.len() == 3 && parts[0] == "containers"@ && parts[2] == "host"@ {
        match assoc(ctx.containers, parts[1]) {
            Some(c) => Ok(c.host),
            None => Err(err_expression("Container not found: "@ + parts[1])),
        }
    } else if parts.len() == 3 && parts[0] == "containers"@ && parts[2] == "port"@ {
        match assoc(ctx.containers, parts[1]) {
            Some(c) => Ok(dec_digits(c.port as nat)),
            None => Err(err_expression("Container not found: "@ + parts[1])),
        }
    } else if parts.len() == 4 && parts[0] == "needs"@ && parts[2] == "outputs"@ {
        match assoc(ctx.needs, parts[1]) {
            Some(outs) => match assoc(outs, parts[3]) {
                Some(v) => Ok(string_form(v)),
                None => Err(err_job_output(parts[1], parts[3])),
            },
            None => Err(err_job_output(parts[1], parts[3])),
        }
    } else if parts.len() == 2 && parts[0] == "matrix"@ {
        match assoc(ctx.matrix, parts[1]) {
            Some(v) => Ok(string_form(v)),
            None => Err(err_expression("Matrix key not found: "@ + parts[1])),
        }
    } else if parts.len() == 4 && parts[0] == "jobs"@ && parts[2] == "outputs"@ {
        match assoc(ctx.jobs, parts[1]) {
            Some(outs) => match assoc(outs, parts[3]) {
                Some(v) => Ok(string_form(v)),
                None => Err(err_job_output(parts[1], parts[3])),
            },
            None => Err(err_job_output(parts[1], parts[3])),
        }
    } else {
        Err(err_expression("Unknown expression: "@ + expr))
    }
}

/// What a dotted path denotes as a value, with recursive descent.
pub open spec fn spec_eval_value_path(expr: Seq<char>, ctx: ExprContextView) -> Result<
    ValView,
    ErrorView,
> {
    let parts = split_dots(expr);
    if parts.len() == 1 && parts[0] == "outputs"@ {
        match ctx.outputs {
            Some(outs) => Ok(ValView::Obj(outs)),
            None => Err(err_expression("No outputs context available"@)),
        }
    } else if parts.len() >= 2 && parts[0] == "outputs"@ {
        let field = parts[1];
        let base = match ctx.outputs {
            Some(outs) => assoc(outs, field),
            None => None,
        };
        match base {
            Some(v) => spec_navigate(v, parts, 2),
            None => Err(err_expression("Output not found: "@ + field)),
        }
    } else if parts.len() == 2 && parts[0] == "env"@ {
        match assoc(ctx.env, parts[1]) {
            Some(v) => Ok(ValView::Str(v)),
            None => Err(ErrorView::EnvVar(parts[1])),
        }
    } else if parts.len() == 3 && parts[0] == "steps"@ && parts[2] == "outputs"@ {
        match assoc(ctx.steps, parts[1]) {
            Some(outs) => Ok(ValView::Obj(outs)),
            None => Err(err_expression("Step not found: "@ + parts[1])),
        }
    } else if parts.len() == 4 && parts[0] == "steps"@ && parts[2] == "outputs"@ {
        match assoc(ctx.steps, parts[1]) {
            Some(outs) => match assoc(outs, parts[3]) {
                Some(v) => Ok(v),
                None => Err(err_step_output(parts[1], parts[3])),
            },
            None => Err(err_step_output(parts[1], parts[3])),
        }
    } else if parts.len() >= 5 && parts[0] == "steps"@ && parts[2] == "outputs"@ {
        match assoc(ctx.steps, parts[1]) {
            Some(outs) => match assoc(outs, parts[3]) {
                Some(v) => spec_navigate(v, parts, 4),
                None => Err(err_step_output(parts[1], parts[3])),
            },
            None => Err(err_step_output(parts[1], parts[3])),
        }
    } else if parts.len() == 3 && parts[0] == "containers"@ {
        match assoc(ctx.containers, parts[1]) {
            Some(c) => if parts[2] == "url"@ {
                Ok(ValView::Str(c.url))
            } else if parts[2] == "host"@ {
                Ok(ValView::Str(c.host))
            } else if parts[2] == "port"@ {
                Ok(ValView::Int(c.port as int))
            } else {
                Err(err_expression("Unknown container property: "@ + parts[2]))
            },
            None => Err(err_expression("Container not found: "@ + parts[1])),
        }
    } else if parts.len() == 3 && parts[0] == "needs"@ && parts[2] == "outputs"@ {
        match assoc(ctx.needs, parts[1]) {
            Some(outs) => Ok(ValView::Obj(outs)),
            None => Err(err_expression("Job not found in needs: "@ + parts[1])),
        }
    } else if parts.len() == 4 && parts[0] == "needs"@ && parts[2] == "outputs"@ {
        match assoc(ctx.needs, parts[1]) {
            Some(outs) => match assoc(outs, parts[3]) {
                Some(v) => Ok(v),
                None => Err(err_job_output(parts[1], parts[3])),
            },
            None => Err(err_job_output(parts[1], parts[3])),
        }
    } else if parts.len() >= 5 && parts[0] == "needs"@ && parts[2] == "outputs"@ {
        match assoc(ctx.needs, parts[1]) {
            Some(outs) => match assoc(outs, parts[3]) {
                Some(v) => spec_navigate(v, parts, 4),
                None => Err(err_job_output(parts[1], parts[3])),
            },
            None => Err(err_job_output(parts[1], parts[3])),
        }
    } else if parts.len() == 2 && parts[0] == "matrix"@ {
        match assoc(ctx.matrix, parts[1]) {
            Some(v) => Ok(v),
            None => Err(err_expression("Matrix key not found: "@ + parts[1])),
        }
    } else if parts.len() == 3 && parts[0] == "jobs"@ && parts[2] == "outputs"@ {
        match assoc(ctx.jobs, parts[1]) {
            Some(outs) => Ok(ValView::Obj(outs)),
            None => Err(err_expression("Job not found: "@ + parts[1])),
        }
    } else if parts.len() == 4 && parts[0] == "jobs"@ && parts[2] == "outputs"@ {
        match assoc(ctx.jobs, parts[1]) {
            Some(outs) => match assoc(outs, parts[3]) {
                Some(v) => Ok(v),
                None => Err(err_job_output(parts[1], parts[3])),
            },
            None => Err(err_job_output(parts[1], parts[3])),
        }
    } else {
        Err(err_expression("Unknown expression: "@ + expr))
    }
}

// ---------------------------------------------------------------------
// walking values

/// Substituting inside every string leaf of a value; other leaves stay as
/// they are.
pub open spec fn spec_evaluate_value(v: ValView, ctx: ExprContextView) -> Result<
    ValView,
    ErrorView,
>
    decreases v, 0int,
{
    match v {
        ValView::Str(s) => match spec_evaluate(s, ctx) {
            Ok(t) => Ok(ValView::Str(t)),
            Err(e) => Err(e),
        },
        ValView::Arr(items) => match eval_items(items, items.len() as int, ctx) {
            Ok(out) => Ok(ValView::Arr(out)),
            Err(e) => Err(e),
        },
        ValView::Obj(entries) => match eval_entries(entries, entries.len() as int, ctx) {
            Ok(out) => Ok(ValView::Obj(out)),
            Err(e) => Err(e),
        },
        _ => Ok(v),
    }
}

pub open spec fn eval_items(items: Seq<ValView>, n: int, ctx: ExprContextView) -> Result<
    Seq<ValView>,
    ErrorView,
>
    decreases items, n,
{
    if n <= 0 || n > items.len() {
        Ok(Seq::empty())
    } else {
        match eval_items(items, n - 1, ctx) {
            Ok(pre) => match spec_evaluate_value(items[n - 1], ctx) {
                Ok(v) => Ok(pre.push(v)),
                Err(e) => Err(e),
            },
            Err(e) => Err(e),
        }
    }
}

pub open spec fn eval_entries(
    entries: Seq<(Seq<char>, ValView)>,
    n: int,
    ctx: ExprContextView,
) -> Result<Seq<(Seq<char>, ValView)>, ErrorView>
    decreases entries, n,
{
    if n <= 0 || n > entries.len() {
        Ok(Seq::empty())
    } else {
        match eval_entries(entries, n - 1, ctx) {
            Ok(pre) => match spec_evaluate_value(entries[n - 1].1, ctx) {
                Ok(v) => Ok(pre.push((entries[n - 1].0, v))),
                Err(e) => Err(e),
            },
            Err(e) => Err(e),
        }
    }
}


// ---------------------------------------------------------------------
// executable scanning helpers

/// Are two character vectors the same text?
pub fn chars_eq(a: &Vec<char>, b: &Vec<char>) -> (r: bool)
    ensures
        r == (a@ == b@),
{
    if a.len() != b.len() {
        return false;
    }
    let n = a.len();
    let mut i: usize = 0;
    while i < n
        invariant
            0 <= i <= n,
            n == a@.len() && n == b@.len(),
            forall|j: int| 0 <= j < i ==> a@[j] == b@[j],
        decreases n - i,
    {
        if a[i] != b[i] {
            return false;
        }
        i = i + 1;
    }
    proof {
        assert(a@ =~= b@);
    }
    true
}

proof fn lemma_all_digits_each(s: Seq<char>, n: int)
    requires
        0 <= n <= s.len(),
    ensures
        all_digits(s, n) <==> (forall|j: int| 0 <= j < n ==> is_digit_char(#[trigger] s[j])),
    decreases n,
{
    if n > 0 {
        lemma_all_digits_each(s, n - 1);
    }
}

proof fn lemma_digits_nonneg(s: Seq<char>, n: int)
    requires
        0 <= n <= s.len(),
        forall|j: int| 0 <= j < n ==> is_digit_char(#[trigger] s[j]),
    ensures
        digits_value(s, n) >= 0,
    decreases n,
{
    if n > 0 {
        lemma_digits_nonneg(s, n - 1);
        let v = digits_value(s, n - 1);
        assert(v * 10 >= 0) by (nonlinear_arith)
            requires
                v >= 0,
        ;
    }
}

/// Read a signed 64-bit integer from text: optional sign, digits only.
pub fn parse_i64_chars(s: &Vec<char>) -> (r: Option<i64>)
    ensures
        match r {
            Some(v) => spec_parse_i64(s@) == Some(v as int),
            None => spec_parse_i64(s@) is None,
        },
{
    let n = s.len();
    if n == 0 {
        return None;
    }
    let c0 = s[0];
    let neg = c0 == '-';
    let start: usize = if c0 == '-' || c0 == '+' {
        1
    } else {
        0
    };
    let ghost ds = if c0 == '-' || c0 == '+' {
        s@.drop_first()
    } else {
        s@
    };
    proof {
        assert(ds.len() == n - start);
        assert(forall|j: int| 0 <= j < ds.len() ==> ds[j] == s@[j + start]);
    }
    if n == start {
        return None;
    }
    let mut acc: u128 = 0;
    let mut over = false;
    let mut i: usize = start;
    while i < n
        invariant
            start <= i <= n,
            n == s@.len(),
            n > start,
            start == (if s@[0] == '-' || s@[0] == '+' { 1int } else { 0int }),
            neg == (s@[0] == '-'),
            ds == (if s@[0] == '-' || s@[0] == '+' { s@.drop_first() } else { s@ }),
            ds.len() == n - start,
            forall|j: int| 0 <= j < ds.len() ==> ds[j] == s@[j + start],
            forall|j: int| 0 <= j < i - start ==> is_digit_char(#[trigger] ds[j]),
            !over ==> acc == digits_value(ds, i - start) && acc <= 0x8000_0000_0000_0000u128,
            over ==> digits_value(ds, i - start) > 0x8000_0000_0000_0000,
        decreases n - i,
    {
        let c = s[i];
        proof {
            assert(ds[i - start] == s@[i as int]);
        }
        let dopt: Option<u128> = match c {
            '0' => Some(0),
            '1' => Some(1),
            '2' => Some(2),
            '3' => Some(3),
            '4' => Some(4),
            '5' => Some(5),
            '6' => Some(6),
            '7' => Some(7),
            '8' => Some(8),
            '9' => Some(9),
            _ => None,
        };
        let d = match dopt {
            Some(d) => d,
            None => {
                proof {
                    let cc = ds[i - start];
                    assert(!is_digit_char(cc)) by {
                        if is_digit_char(cc) {
                            assert(cc as int == 48 || cc as int == 49 || cc as int == 50
                                || cc as int == 51 || cc as int == 52 || cc as int == 53
                                || cc as int == 54 || cc as int == 55 || cc as int == 56
                                || cc as int == 57);
                            assert(cc == '0' || cc == '1' || cc == '2' || cc == '3'
                                || cc == '4' || cc == '5' || cc == '6' || cc == '7'
                                || cc == '8' || cc == '9');
                        }
                    }
                    lemma_all_digits_each(ds, ds.len() as int);
                }
                return None;
            }
        };
        proof {
            assert(is_digit_char(ds[i - start]));
            assert(d as int == ds[i - start] as int - 48);
            assert(digits_value(ds, i + 1 - start) == digits_value(ds, i - start) * 10 + (
            ds[i - start] as int - 48));
        }
        if !over {
            let newacc = acc * 10 + d;
            if newacc > 0x8000_0000_0000_0000u128 {
                over = true;
            } else {
                acc = newacc;
            }
        } else {
            proof {
                let v = digits_value(ds, i - start);
                assert(v * 10 >= v) by (nonlinear_arith)
                    requires
                        v >= 0,
                ;
            }
        }
        i = i + 1;
    }
    proof {
        lemma_all_digits_each(ds, ds.len() as int);
        assert(all_digits(ds, ds.len() as int));
    }
    if over {
        return None;
    }
    if neg {
        if acc == 0x8000_0000_0000_0000u128 {
            Some(-0x7fff_ffff_ffff_ffffi64 - 1)
        } else {
            Some(-(acc as i64))
        }
    } else {
        if acc == 0x8000_0000_0000_0000u128 {
            None
        } else {
            Some(acc as i64)
        }
    }
}

/// Read an unsigned machine-word index from text.
pub fn parse_usize_chars(s: &Vec<char>) -> (r: Option<usize>)
    ensures
        match r {
            Some(v) => spec_parse_usize(s@) == Some(v as int),
            None => spec_parse_usize(s@) is None,
        },
{
    let n = s.len();
    if n == 0 {
        return None;
    }
    let c0 = s[0];
    let start: usize = if c0 == '+' {
        1
    } else {
        0
    };
    let ghost ds = if c0 == '+' {
        s@.drop_first()
    } else {
        s@
    };
    proof {
        assert(ds.len() == n - start);
        assert(forall|j: int| 0 <= j < ds.len() ==> ds[j] == s@[j + start]);
    }
    if n == start {
        return None;
    }
    let mut acc: u128 = 0;
    let mut over = false;
    let mut i: usize = start;
    while i < n
        invariant
            start <= i <= n,
            n == s@.len(),
            n > start,
            start == (if s@[0] == '+' { 1int } else { 0int }),
            ds == (if s@[0] == '+' { s@.drop_first() } else { s@ }),
            ds.len() == n - start,
            forall|j: int| 0 <= j < ds.len() ==> ds[j] == s@[j + start],
            forall|j: int| 0 <= j < i - start ==> is_digit_char(#[trigger] ds[j]),
            !over ==> acc == digits_value(ds, i - start) && acc <= usize::MAX as u128,
            over ==> digits_value(ds, i - start) > usize::MAX as int,
        decreases n - i,
    {
        let c = s[i];
        proof {
            assert(ds[i - start] == s@[i as int]);
        }
        let dopt: Option<u128> = match c {
            '0' => Some(0),
            '1' => Some(1),
            '2' => Some(2),
            '3' => Some(3),
            '4' => Some(4),
            '5' => Some(5),
            '6' => Some(6),
            '7' => Some(7),
            '8' => Some(8),
            '9' => Some(9),
            _ => None,
        };
        let d = match dopt {
            Some(d) => d,
            None => {
                proof {
                    let cc = ds[i - start];
                    assert(!is_digit_char(cc)) by {
                        if is_digit_char(cc) {
                            assert(cc as int == 48 || cc as int == 49 || cc as int == 50
                                || cc as int == 51 || cc as int == 52 || cc as int == 53
                                || cc as int == 54 || cc as int == 55 || cc as int == 56
                                || cc as int == 57);
                            assert(cc == '0' || cc == '1' || cc == '2' || cc == '3'
                                || cc == '4' || cc == '5' || cc == '6' || cc == '7'
                                || cc == '8' || cc == '9');
                        }
                    }
                    lemma_all_digits_each(ds, ds.len() as int);
                }
                return None;
            }
        };
        proof {
            assert(is_digit_char(ds[i - start]));
            assert(d as int == ds[i - start] as int - 48);
            assert(digits_value(ds, i + 1 - start) == digits_value(ds, i - start) * 10 + (
            ds[i - start] as int - 48));
        }
        if !over {
            let newacc = acc * 10 + d;
            if newacc > usize::MAX as u128 {
                over = true;
            } else {
                acc = newacc;
            }
        } else {
            proof {
                let v = digits_value(ds, i - start);
                assert(v * 10 >= v) by (nonlinear_arith)
                    requires
                        v >= 0,
                ;
            }
        }
        i = i + 1;
    }
    proof {
        lemma_all_digits_each(ds, ds.len() as int);
    }
    if over {
        None
    } else {
        Some(acc as usize)
    }
}

fn find_open_exec(s: &Vec<char>, from: usize) -> (r: usize)
    requires
        from <= s@.len(),
    ensures
        r == find_open(s@, from as int),
        r <= s@.len(),
        r < s@.len() ==> from <= r && is_open_at(s@, r as int),
{
    let n = s.len();
    let mut i: usize = from;
    while i < n
        invariant
            from <= i <= n,
            n == s@.len(),
            find_open(s@, from as int) == find_open(s@, i as int),
        decreases n - i,
    {
        if n - i < 3 {
            proof {
                lemma_find_open_bounds(s@, i as int);
            }
            return n;
        }
        if s[i] == '$' && s[i + 1] == '{' && s[i + 2] == '{' {
            return i;
        }
        i = i + 1;
    }
    n
}

fn find_close_exec(s: &Vec<char>, from: usize) -> (r: usize)
    requires
        from <= s@.len(),
    ensures
        r == find_close(s@, from as int),
        r <= s@.len(),
        r < s@.len() ==> from <= r && is_close_at(s@, r as int),
{
    let n = s.len();
    let mut i: usize = from;
    while i < n
        invariant
            from <= i <= n,
            n == s@.len(),
            find_close(s@, from as int) == find_close(s@, i as int),
        decreases n - i,
    {
        if n - i < 2 {
            proof {
                lemma_find_close_bounds(s@, i as int);
            }
            return n;
        }
        if s[i] == '}' && s[i + 1] == '}' {
            return i;
        }
        i = i + 1;
    }
    n
}

pub fn find_char_exec(s: &Vec<char>, c: char, from: usize) -> (r: usize)
    requires
        from <= s@.len(),
    ensures
        r == find_char(s@, c, from as int),
        from <= r <= s@.len(),
        r < s@.len() ==> s@[r as int] == c,
{
    let n = s.len();
    let mut i: usize = from;
    while i < n
        invariant
            from <= i <= n,
            n == s@.len(),
            find_char(s@, c, from as int) == find_char(s@, c, i as int),
        decreases n - i,
    {
        if s[i] == c {
            return i;
        }
        i = i + 1;
    }
    n
}

/// Split at every dot.
pub fn split_dots_exec(s: &Vec<char>) -> (r: Vec<Vec<char>>)
    ensures
        r.deep_view() == split_dots(s@),
        r@.len() >= 1,
    decreases s@.len(),
{
    let n = s.len();
    let d = find_char_exec(s, '.', 0);
    if d == n {
        let mut r: Vec<Vec<char>> = Vec::new();
        r.push(subvec(s, 0, n));
        proof {
            assert(r.deep_view() =~~= split_dots(s@));
        }
        r
    } else {
        let head = subvec(s, 0, d);
        let tail = subvec(s, d + 1, n);
        let mut rest = split_dots_exec(&tail);
        let mut r: Vec<Vec<char>> = Vec::new();
        r.push(head);
        let ghost restv = rest.deep_view();
        r.append(&mut rest);
        proof {
            assert(r.deep_view() =~~= seq![s@.subrange(0, d as int)] + restv);
            assert(r.deep_view() =~~= split_dots(s@));
        }
        r
    }
}


// ---------------------------------------------------------------------
// context plumbing

/// Copy a string dictionary entry by entry.
pub fn dup_string_dict(d: &Dict<String>) -> (r: Dict<String>)
    ensures
        r@ == d@,
{
    let mut entries: Vec<(String, String)> = Vec::new();
    let n = d.len();
    let mut i: usize = 0;
    while i < n
        invariant
            0 <= i <= n,
            n == d@.len(),
            entries@.len() == i,
            forall|j: int| 0 <= j < i
                ==> ((#[trigger] entries@[j]).0@, entries@[j].1@) == d@[j],
        decreases n - i,
    {
        entries.push((d.key_at(i).clone(), d.val_at(i).clone()));
        i = i + 1;
    }
    let r = Dict { entries };
    proof {
        assert(r@ =~= d@);
    }
    r
}

/// Copy a dictionary of step outputs entry by entry.
pub fn dup_steps_dict(d: &Dict<StepOutputs>) -> (r: Dict<StepOutputs>)
    ensures
        r@ == d@,
{
    let mut entries: Vec<(String, StepOutputs)> = Vec::new();
    let n = d.len();
    let mut i: usize = 0;
    while i < n
        invariant
            0 <= i <= n,
            n == d@.len(),
            entries@.len() == i,
            forall|j: int| 0 <= j < i
                ==> ((#[trigger] entries@[j]).0@, entries@[j].1.deep_view()) == d@[j],
        decreases n - i,
    {
        entries.push((d.key_at(i).clone(), d.val_at(i).dup()));
        i = i + 1;
    }
    let r = Dict { entries };
    proof {
        assert(r@ =~= d@);
    }
    r
}

/// Copy a dictionary of job outputs entry by entry.
pub fn dup_jobouts_dict(d: &Dict<JobOutputs>) -> (r: Dict<JobOutputs>)
    ensures
        r@ == d@,
{
    let mut entries: Vec<(String, JobOutputs)> = Vec::new();
    let n = d.len();
    let mut i: usize = 0;
    while i < n
        invariant
            0 <= i <= n,
            n == d@.len(),
            entries@.len() == i,
            forall|j: int| 0 <= j < i
                ==> ((#[trigger] entries@[j]).0@, entries@[j].1.deep_view()) == d@[j],
        decreases n - i,
    {
        entries.push((d.key_at(i).clone(), d.val_at(i).dup()));
        i = i + 1;
    }
    let r = Dict { entries };
    proof {
        assert(r@ =~= d@);
    }
    r
}

/// Copy a dictionary of service endpoints entry by entry.
pub fn dup_containers_dict(d: &Dict<ContainerInfo>) -> (r: Dict<ContainerInfo>)
    ensures
        r@ == d@,
{
    let mut entries: Vec<(String, ContainerInfo)> = Vec::new();
    let n = d.len();
    let mut i: usize = 0;
    while i < n
        invariant
            0 <= i <= n,
            n == d@.len(),
            entries@.len() == i,
            forall|j: int| 0 <= j < i
                ==> ((#[trigger] entries@[j]).0@, entries@[j].1.deep_view()) == d@[j],
        decreases n - i,
    {
        entries.push((d.key_at(i).clone(), d.val_at(i).dup()));
        i = i + 1;
    }
    let r = Dict { entries };
    proof {
        assert(r@ =~= d@);
    }
    r
}

impl ExprContext {
    /// An empty scope.
    pub fn new() -> (r: Self)
        ensures
            r@.env.len() == 0,
            r@.steps.len() == 0,
            r@.containers.len() == 0,
            r@.outputs is None,
            r@.needs.len() == 0,
            r@.matrix.len() == 0,
            r@.jobs.len() == 0,
    {
        ExprContext {
            env: Dict::new(),
            steps: Dict::new(),
            containers: Dict::new(),
            outputs: None,
            needs: Dict::new(),
            matrix: Dict::new(),
            jobs: Dict::new(),
        }
    }

    /// The same scope with the given step outputs as the current outputs,
    /// for a post-assertion.
    pub fn with_outputs(&self, outputs: StepOutputs) -> (r: Self)
        ensures
            r@.env == self@.env,
            r@.steps == self@.steps,
            r@.containers == self@.containers,
            r@.outputs == Some(outputs@),
            r@.needs == self@.needs,
            r@.matrix == self@.matrix,
            r@.jobs == self@.jobs,
    {
        ExprContext {
            env: dup_string_dict(&self.env),
            steps: dup_steps_dict(&self.steps),
            containers: dup_containers_dict(&self.containers),
            outputs: Some(outputs),
            needs: dup_jobouts_dict(&self.needs),
            matrix: crate::outputs::dup_value_dict(&self.matrix),
            jobs: dup_jobouts_dict(&self.jobs),
        }
    }

    /// The same scope over another matrix row.
    pub fn with_matrix(&self, matrix: Dict<Val>) -> (r: Self)
        ensures
            r@.env == self@.env,
            r@.steps == self@.steps,
            r@.containers == self@.containers,
            r@.outputs == self@.outputs,
            r@.needs == self@.needs,
            r@.matrix == matrix@,
            r@.jobs == self@.jobs,
    {
        ExprContext {
            env: dup_string_dict(&self.env),
            steps: dup_steps_dict(&self.steps),
            containers: dup_containers_dict(&self.containers),
            outputs: match &self.outputs {
                Some(o) => Some(o.dup()),
                None => None,
            },
            needs: dup_jobouts_dict(&self.needs),
            matrix,
            jobs: dup_jobouts_dict(&self.jobs),
        }
    }
}

impl Default for ExprContext {
    fn default() -> (r: Self)
        ensures
            r@.env.len() == 0,
            r@.outputs is None,
    {
        ExprContext::new()
    }
}

// ---------------------------------------------------------------------
// interpolation

fn push_two_part_message(head: &str, a: &Vec<char>, b: &Vec<char>) -> (r: String)
    ensures
        r@ == head@ + a@ + seq!['.'] + b@,
{
    let mut out: Vec<char> = Vec::new();
    push_str_chars(head, &mut out);
    let mut av = subvec(a, 0, a.len());
    out.append(&mut av);
    out.push('.');
    let mut bv = subvec(b, 0, b.len());
    out.append(&mut bv);
    proof {
        assert(out@ =~= head@ + a@ + seq!['.'] + b@);
    }
    chars_to_string(&out)
}

fn push_one_part_message(head: &str, a: &Vec<char>) -> (r: String)
    ensures
        r@ == head@ + a@,
{
    let mut out: Vec<char> = Vec::new();
    push_str_chars(head, &mut out);
    let mut av = subvec(a, 0, a.len());
    out.append(&mut av);
    proof {
        assert(out@ =~= head@ + a@);
    }
    chars_to_string(&out)
}

/// Look a dotted path up for splicing into a string.
fn eval_interp_exec(expr: &Vec<char>, ctx: &ExprContext) -> (r: Result<Vec<char>, Error>)
    ensures
        match r {
            Ok(v) => spec_eval_interp(expr@, ctx@) == Ok::<Seq<char>, ErrorView>(v@),
            Err(e) => spec_eval_interp(expr@, ctx@) == Err::<Seq<char>, ErrorView>(e@),
        },
{
    let parts = split_dots_exec(expr);
    let ghost pv = split_dots(expr@);
    let n = parts.len();
    let lit_env = str_to_chars("env");
    let lit_steps = str_to_chars("steps");
    let lit_outputs = str_to_chars("outputs");
    let lit_containers = str_to_chars("containers");
    let lit_url = str_to_chars("url");
    let lit_host = str_to_chars("host");
    let lit_port = str_to_chars("port");
    let lit_needs = str_to_chars("needs");
    let lit_matrix = str_to_chars("matrix");
    let lit_jobs = str_to_chars("jobs");
    proof {
        assert forall|j: int| 0 <= j < parts@.len() implies (#[trigger] parts@[j])@
            == split_dots(expr@)[j] by {
            assert(parts.deep_view()[j] == parts@[j].deep_view());
            assert(parts@[j].deep_view() =~= parts@[j]@);
        }
        assert(parts@.len() == split_dots(expr@).len());
    }
    if n == 2 && chars_eq(&parts[0], &lit_env) {
        let key = chars_to_string(&parts[1]);
        match ctx.env.get(&key) {
            Some(v) => Ok(str_to_chars(v.as_str())),
            None => Err(Error::EnvVar(key)),
        }
    } else if n == 4 && chars_eq(&parts[0], &lit_steps) && chars_eq(&parts[2], &lit_outputs) {
        let id = chars_to_string(&parts[1]);
        let field = chars_to_string(&parts[3]);
        match ctx.steps.get(&id) {
            Some(outs) => match outs.get_string(&field) {
                Some(v) => Ok(str_to_chars(v.as_str())),
                None => Err(Error::Expression(push_two_part_message(
                    "Step output not found: ",
                    &parts[1],
                    &parts[3],
                ))),
            },
            None => Err(Error::Expression(push_two_part_message(
                "Step output not found: ",
                &parts[1],
                &parts[3],
            ))),
        }
    } else if n == 3 && chars_eq(&parts[0], &lit_containers) && chars_eq(&parts[2], &lit_url) {
        let name = chars_to_string(&parts[1]);
        match ctx.containers.get(&name) {
            Some(c) => Ok(str_to_chars(c.url.as_str())),
            None => Err(Error::Expression(push_one_part_message(
                "Container not found: ",
                &parts[1],
            ))),
        }
    } else if n == 3 && chars_eq(&parts[0], &lit_containers) && chars_eq(&parts[2], &lit_host) {
        let name = chars_to_string(&parts[1]);
        match ctx.containers.get(&name) {
            Some(c) => Ok(str_to_chars(c.host.as_str())),
            None => Err(Error::Expression(push_one_part_message(
                "Container not found: ",
                &parts[1],
            ))),
        }
    } else if n == 3 && chars_eq(&parts[0], &lit_containers) && chars_eq(&parts[2], &lit_port) {
        let name = chars_to_string(&parts[1]);
        match ctx.containers.get(&name) {
            Some(c) => {
                let mut out: Vec<char> = Vec::new();
                crate::value::push_dec_u64(c.port as u64, &mut out);
                proof {
                    assert(out@ == dec_digits(c.port as nat));
                }
                Ok(out)
            }
            None => Err(Error::Expression(push_one_part_message(
                "Container not found: ",
                &parts[1],
            ))),
        }
    } else if n == 4 && chars_eq(&parts[0], &lit_needs) && chars_eq(&parts[2], &lit_outputs) {
        let id = chars_to_string(&parts[1]);
        let field = chars_to_string(&parts[3]);
        match ctx.needs.get(&id) {
            Some(outs) => match outs.get_string(&field) {
                Some(v) => Ok(str_to_chars(v.as_str())),
                None => Err(Error::Expression(push_two_part_message(
                    "Job output not found: ",
                    &parts[1],
                    &parts[3],
                ))),
            },
            None => Err(Error::Expression(push_two_part_message(
                "Job output not found: ",
                &parts[1],
                &parts[3],
            ))),
        }
    } else if n == 2 && chars_eq(&parts[0], &lit_matrix) {
        let key = chars_to_string(&parts[1]);
        match ctx.matrix.get(&key) {
            Some(v) => {
                let mut out: Vec<char> = Vec::new();
                crate::value::push_string_form(v, &mut out);
                Ok(out)
            }
            None => Err(Error::Expression(push_one_part_message(
                "Matrix key not found: ",
                &parts[1],
            ))),
        }
    } else if n == 4 && chars_eq(&parts[0], &lit_jobs) && chars_eq(&parts[2], &lit_outputs) {
        let id = chars_to_string(&parts[1]);
        let field = chars_to_string(&parts[3]);
        match ctx.jobs.get(&id) {
            Some(outs) => match outs.get_string(&field) {
                Some(v) => Ok(str_to_chars(v.as_str())),
                None => Err(Error::Expression(push_two_part_message(
                    "Job output not found: ",
                    &parts[1],
                    &parts[3],
                ))),
            },
            None => Err(Error::Expression(push_two_part_message(
                "Job output not found: ",
                &parts[1],
                &parts[3],
            ))),
        }
    } else {
        Err(Error::Expression(push_one_part_message("Unknown expression: ", expr)))
    }
}

/// Substitute every `${{ ... }}` in the string; the text around and
/// between the markers is kept as it stands.
pub fn evaluate(input: &str, ctx: &ExprContext) -> (r: Result<String, Error>)
    ensures
        match r {
            Ok(v) => spec_evaluate(input@, ctx@) == Ok::<Seq<char>, ErrorView>(v@),
            Err(e) => spec_evaluate(input@, ctx@) == Err::<Seq<char>, ErrorView>(e@),
        },
{
    let s = str_to_chars(input);
    let n = s.len();
    let mut out: Vec<char> = Vec::new();
    let mut from: usize = 0;
    loop
        invariant
            0 <= from <= n,
            n == s@.len(),
            s@ == input@,
            spec_evaluate(input@, ctx@) == (match eval_from(s@, from as int, ctx@) {
                Ok(rest) => Ok::<Seq<char>, ErrorView>(out@ + rest),
                Err(e) => Err::<Seq<char>, ErrorView>(e),
            }),
        decreases n - from,
    {
        let o = find_open_exec(&s, from);
        if o == n {
            let mut tail = subvec(&s, from, n);
            out.append(&mut tail);
            return Ok(chars_to_string(&out));
        }
        let c = find_close_exec(&s, o + 3);
        if c == n {
            let mut tail = subvec(&s, from, n);
            out.append(&mut tail);
            return Ok(chars_to_string(&out));
        }
        let inner = trim_vec(&subvec(&s, o + 3, c));
        match eval_interp_exec(&inner, ctx) {
            Ok(val) => {
                let ghost outpre = out@;
                let ghost vv = val@;
                let mut mid = subvec(&s, from, o);
                out.append(&mut mid);
                let mut valv = val;
                out.append(&mut valv);
                proof {
                    assert(inner@ == trimmed(s@.subrange(o + 3, c as int)));
                    match eval_from(s@, c + 2, ctx@) {
                        Ok(rest) => {
                            assert(outpre + (s@.subrange(from as int, o as int) + vv + rest)
                                =~= out@ + rest);
                        }
                        Err(_) => {}
                    }
                }
                from = c + 2;
            }
            Err(e) => {
                return Err(e);
            }
        }
    }
}

/// Decide an assertion string: the whole string, once trimmed, must be
/// one single `${{ ... }}` holding a boolean expression.
pub fn evaluate_assertion(assertion: &str, ctx: &ExprContext) -> (r: Result<bool, Error>)
    ensures
        match r {
            Ok(v) => spec_eval_assertion(assertion@, ctx@) == Ok::<bool, ErrorView>(v),
            Err(e) => spec_eval_assertion(assertion@, ctx@) == Err::<bool, ErrorView>(e@),
        },
{
    let s = str_to_chars(assertion);
    let t = trim_vec(&s);
    let n = t.len();
    if n < 5 {
        return Err(Error::Expression(push_one_part_message("Invalid assertion format: ", &s)));
    }
    if !(t[0] == '$' && t[1] == '{' && t[2] == '{') {
        proof {
            assert(!is_open_at(t@, 0));
        }
        return Err(Error::Expression(push_one_part_message("Invalid assertion format: ", &s)));
    }
    let c = find_close_exec(&t, 3);
    if c != n - 2 {
        return Err(Error::Expression(push_one_part_message("Invalid assertion format: ", &s)));
    }
    proof {
        assert(is_open_at(t@, 0));
    }
    let inner = trim_vec(&subvec(&t, 3, n - 2));
    eval_bool_exec(&inner, ctx)
}


// ---------------------------------------------------------------------
// operands, comparison, containment

proof fn lemma_arr_any_match_mono(hs: Seq<ValView>, n: ValView, m1: int, m2: int)
    requires
        0 <= m1 <= m2 <= hs.len(),
        arr_any_match(hs, n, m1),
    ensures
        arr_any_match(hs, n, m2),
    decreases m2,
{
    if m1 < m2 {
        lemma_arr_any_match_mono(hs, n, m1, m2 - 1);
    }
}

/// Is the needle a substring of the haystack?
fn substring_exec(hay: &Vec<char>, needle: &Vec<char>) -> (r: bool)
    ensures
        r == has_substring(hay@, needle@),
{
    let nh = hay.len();
    let nn = needle.len();
    if nn > nh {
        proof {
            assert(!has_substring(hay@, needle@));
        }
        return false;
    }
    if nn == 0 {
        proof {
            assert(hay@.subrange(0, 0 + needle@.len() as int) =~= needle@);
        }
        return true;
    }
    let mut i: usize = 0;
    while i <= nh - nn
        invariant
            nh == hay@.len(),
            nn == needle@.len(),
            1 <= nn <= nh,
            0 <= i <= nh - nn + 1,
            forall|p: int| 0 <= p < i ==> #[trigger] hay@.subrange(p, p + needle@.len()) != needle@,
        decreases nh - nn - i + 1,
    {
        let mut j: usize = 0;
        let mut ok = true;
        while j < nn && ok
            invariant
                nh == hay@.len(),
                nn == needle@.len(),
                0 <= i <= nh - nn,
                0 <= j <= nn,
                ok ==> forall|q: int| 0 <= q < j ==> hay@[i + q] == needle@[q],
                !ok ==> hay@.subrange(i as int, i + needle@.len()) != needle@,
            decreases nn - j + (if ok { 1int } else { 0int }),
        {
            if hay[i + j] != needle[j] {
                proof {
                    assert(hay@.subrange(i as int, i + needle@.len())[j as int] == hay@[i + j]);
                }
                ok = false;
            } else {
                j = j + 1;
            }
        }
        if ok {
            proof {
                assert(hay@.subrange(i as int, i + needle@.len()) =~= needle@);
            }
            return true;
        }
        i = i + 1;
    }
    proof {
        assert forall|p: int| 0 <= p && p + needle@.len() <= hay@.len() implies #[trigger] hay@.subrange(
            p,
            p + needle@.len(),
        ) != needle@ by {
            assert(p < nh - nn + 1);
        }
    }
    false
}

/// Does the haystack value contain the needle value?
#[verifier::loop_isolation(false)]
pub fn value_contains(haystack: &Val, needle: &Val) -> (r: bool)
    ensures
        r == spec_contains(haystack@, needle@),
    decreases haystack,
{
    match haystack {
        Val::Obj(hs) => {
            match needle {
                Val::Obj(ns) => {
                    let ghost hsv = crate::value::entry_views_of_vec(*hs, hs@.len() as int);
                    let ghost nsv = crate::value::entry_views_of_vec(*ns, ns@.len() as int);
                    proof {
                        crate::value::lemma_entry_views_of_vec(*hs, hs@.len() as int);
                        crate::value::lemma_entry_views_of_vec(*ns, ns@.len() as int);
                    }
                    let m = ns.len();
                    let mut k: usize = 0;
                    while k < m
                        invariant
                            0 <= k <= m,
                            obj_needle_ok(hsv, nsv, k as int),
                        decreases m - k,
                    {
                        let key = &ns[k].0;
                        let nv = &ns[k].1;
                        let found = crate::value::entries_get(hs, key);
                        match found {
                            Some(hv) => {
                                proof {
                                    lemma_assoc_some(hsv, key@);
                                    lemma_first_key_index(hsv, key@);
                                    assert(nsv[k as int] == (key@, nv@));
                                }
                                let is_deep = match nv {
                                    Val::Obj(_) => true,
                                    Val::Arr(_) => true,
                                    _ => false,
                                };
                                let good = if is_deep {
                                    proof {
                                        let wi = choose|wi: int| 0 <= wi < hs@.len() && *hv == (
                                        #[trigger] hs@[wi]).1;
                                        assert(decreases_to!(*haystack => *hs));
                                        assert(decreases_to!(*hs => hs@[wi]));
                                        assert(decreases_to!(hs@[wi] => hs@[wi].1));
                                    }
                                    value_contains(hv, nv)
                                } else {
                                    crate::value::value_eq(hv, nv)
                                };
                                if !good {
                                    proof {
                                        lemma_obj_needle_full(hsv, nsv, k as int);
                                    }
                                    return false;
                                }
                            }
                            None => {
                                proof {
                                    lemma_assoc_some(hsv, key@);
                                    assert(nsv[k as int] == (key@, nv@));
                                    lemma_obj_needle_full(hsv, nsv, k as int);
                                }
                                return false;
                            }
                        }
                        k = k + 1;
                    }
                    true
                }
                _ => false,
            }
        }
        Val::Arr(hs) => {
            let ghost hsv = crate::value::views_of_vec(*hs, hs@.len() as int);
            proof {
                crate::value::lemma_views_of_vec(*hs, hs@.len() as int);
            }
            match needle {
                Val::Arr(ns) => {
                    let ghost nsv = crate::value::views_of_vec(*ns, ns@.len() as int);
                    proof {
                        crate::value::lemma_views_of_vec(*ns, ns@.len() as int);
                    }
                    let m = ns.len();
                    let mut k: usize = 0;
                    while k < m
                        invariant
                            0 <= k <= m,
                            arr_needle_ok(hsv, nsv, k as int),
                        decreases m - k,
                    {
                        if !arr_match_exec(haystack, hs, &ns[k]) {
                            proof {
                                lemma_arr_needle_full(hsv, nsv, k as int);
                            }
                            return false;
                        }
                        k = k + 1;
                    }
                    true
                }
                _ => arr_match_exec(haystack, hs, needle),
            }
        }
        Val::Str(a) => {
            match needle {
                Val::Str(b) => {
                    let av = str_to_chars(a.as_str());
                    let bv = str_to_chars(b.as_str());
                    substring_exec(&av, &bv)
                }
                _ => false,
            }
        }
        _ => false,
    }
}

proof fn lemma_obj_needle_full(
    hs: Seq<(Seq<char>, ValView)>,
    ns: Seq<(Seq<char>, ValView)>,
    k: int,
)
    requires
        0 <= k < ns.len(),
        !({
            let key = ns[k].0;
            let nv = ns[k].1;
            has_pair_key(hs, key) && {
                let hv = hs[first_key_index(hs, key)].1;
                if nv is Obj || nv is Arr {
                    spec_contains(hv, nv)
                } else {
                    val_equal(hv, nv)
                }
            }
        }),
    ensures
        !obj_needle_ok(hs, ns, ns.len() as int),
    decreases ns.len() - k,
{
    lemma_obj_needle_up(hs, ns, k, ns.len() as int);
}

proof fn lemma_obj_needle_up(
    hs: Seq<(Seq<char>, ValView)>,
    ns: Seq<(Seq<char>, ValView)>,
    k: int,
    n: int,
)
    requires
        0 <= k < n <= ns.len(),
        !obj_needle_ok(hs, ns, k + 1),
    ensures
        !obj_needle_ok(hs, ns, n),
    decreases n,
{
    if n > k + 1 {
        lemma_obj_needle_up(hs, ns, k, n - 1);
    }
}

proof fn lemma_arr_needle_full(hs: Seq<ValView>, ns: Seq<ValView>, k: int)
    requires
        0 <= k < ns.len(),
        !arr_any_match(hs, ns[k], hs.len() as int),
    ensures
        !arr_needle_ok(hs, ns, ns.len() as int),
    decreases ns.len() - k,
{
    lemma_arr_needle_up(hs, ns, k, ns.len() as int);
}

proof fn lemma_arr_needle_up(hs: Seq<ValView>, ns: Seq<ValView>, k: int, n: int)
    requires
        0 <= k < n <= ns.len(),
        !arr_needle_ok(hs, ns, k + 1),
    ensures
        !arr_needle_ok(hs, ns, n),
    decreases n,
{
    if n > k + 1 {
        lemma_arr_needle_up(hs, ns, k, n - 1);
    }
}

/// Does some element of the haystack array match the needle?
#[verifier::loop_isolation(false)]
fn arr_match_exec(owner: &Val, hs: &Vec<Val>, needle: &Val) -> (r: bool)
    requires
        owner is Arr,
        owner->Arr_0 == *hs,
    ensures
        r == arr_any_match(
            crate::value::views_of_vec(*hs, hs@.len() as int),
            needle@,
            hs@.len() as int,
        ),
    decreases owner, 0int,
{
    let ghost hsv = crate::value::views_of_vec(*hs, hs@.len() as int);
    proof {
        crate::value::lemma_views_of_vec(*hs, hs@.len() as int);
    }
    let n = hs.len();
    let mut i: usize = 0;
    let is_deep = match needle {
        Val::Obj(_) => true,
        _ => false,
    };
    while i < n
        invariant
            0 <= i <= n,
            !arr_any_match(hsv, needle@, i as int),
        decreases n - i,
    {
        proof {
            assert(decreases_to!(*owner => *hs));
            assert(decreases_to!(*hs => hs@[i as int]));
        }
        let hit = if is_deep {
            value_contains(&hs[i], needle)
        } else {
            crate::value::value_eq(&hs[i], needle)
        };
        if hit {
            proof {
                assert(arr_any_match(hsv, needle@, i + 1));
                lemma_arr_any_match_mono(hsv, needle@, i + 1, n as int);
            }
            return true;
        }
        i = i + 1;
    }
    false
}

/// A value rendered for numeric comparison.
fn as_decimal_exec(v: &Val) -> (r: Option<Vec<char>>)
    ensures
        match r {
            Some(c) => as_decimal(v@) == Some(c@),
            None => as_decimal(v@) is None,
        },
{
    match v {
        Val::Int(i) => {
            let mut out: Vec<char> = Vec::new();
            crate::value::push_dec_i64(*i, &mut out);
            Some(out)
        }
        Val::Num(s) => Some(str_to_chars(s.as_str())),
        Val::Str(s) => Some(str_to_chars(s.as_str())),
        _ => None,
    }
}

/// What one comparison operator yields on two values.
pub fn compare_values(left: &Val, right: &Val, op: &Vec<char>) -> (r: bool)
    ensures
        r == spec_compare(left@, right@, op@),
{
    let lit_eq = str_to_chars("==");
    let lit_ne = str_to_chars("!=");
    let lit_contains = str_to_chars("contains");
    let lit_gt = str_to_chars(">");
    let lit_lt = str_to_chars("<");
    let lit_ge = str_to_chars(">=");
    let lit_le = str_to_chars("<=");
    if chars_eq(op, &lit_eq) {
        crate::value::value_eq(left, right)
    } else if chars_eq(op, &lit_ne) {
        !crate::value::value_eq(left, right)
    } else if chars_eq(op, &lit_contains) {
        value_contains(left, right)
    } else if chars_eq(op, &lit_gt) || chars_eq(op, &lit_lt) || chars_eq(op, &lit_ge)
        || chars_eq(op, &lit_le) {
        let a = match as_decimal_exec(left) {
            Some(a) => a,
            None => {
                return false;
            }
        };
        let b = match as_decimal_exec(right) {
            Some(b) => b,
            None => {
                return false;
            }
        };
        let asu = chars_to_string(&a);
        let bsu = chars_to_string(&b);
        match float_cmp_exec(asu.as_str(), bsu.as_str()) {
            Some(c) => {
                if chars_eq(op, &lit_gt) {
                    c > 0
                } else if chars_eq(op, &lit_lt) {
                    c < 0
                } else if chars_eq(op, &lit_ge) {
                    c >= 0
                } else {
                    c <= 0
                }
            }
            None => false,
        }
    } else {
        false
    }
}

/// Descend into a value along the remaining path segments.
fn navigate_value(v: &Val, path: &Vec<Vec<char>>, i: usize) -> (r: Result<Val, Error>)
    requires
        i <= path@.len(),
    ensures
        match r {
            Ok(out) => spec_navigate(v@, path.deep_view(), i as int) == Ok::<ValView, ErrorView>(
                out@,
            ),
            Err(e) => spec_navigate(v@, path.deep_view(), i as int) == Err::<ValView, ErrorView>(
                e@,
            ),
        },
    decreases path@.len() - i,
{
    if i >= path.len() {
        return Ok(crate::value::deep_copy(v));
    }
    let seg = &path[i];
    proof {
        assert(path.deep_view()[i as int] == seg@);
    }
    match v {
        Val::Obj(entries) => {
            let key = chars_to_string(seg);
            match crate::value::entries_get(entries, &key) {
                Some(nx) => navigate_value(nx, path, i + 1),
                None => Err(Error::Expression(push_one_part_message("Field not found: ", seg))),
            }
        }
        Val::Arr(items) => {
            match parse_usize_chars(seg) {
                Some(ix) => {
                    let ghost iv = crate::value::views_of_vec(*items, items@.len() as int);
                    proof {
                        crate::value::lemma_views_of_vec(*items, items@.len() as int);
                    }
                    if ix < items.len() {
                        navigate_value(&items[ix], path, i + 1)
                    } else {
                        let mut msg: Vec<char> = Vec::new();
                        push_str_chars("Array index out of bounds: ", &mut msg);
                        crate::value::push_dec_u64(ix as u64, &mut msg);
                        Err(Error::Expression(chars_to_string(&msg)))
                    }
                }
                None => Err(Error::Expression(push_one_part_message("Invalid array index: ", seg))),
            }
        }
        _ => {
            let mut msg: Vec<char> = Vec::new();
            push_str_chars("Cannot navigate into non-object/array value", &mut msg);
            Err(Error::Expression(chars_to_string(&msg)))
        }
    }
}


/// Look a dotted path up as a value, with recursive descent.
fn value_path_exec(expr: &Vec<char>, ctx: &ExprContext) -> (r: Result<Val, Error>)
    ensures
        match r {
            Ok(v) => spec_eval_value_path(expr@, ctx@) == Ok::<ValView, ErrorView>(v@),
            Err(e) => spec_eval_value_path(expr@, ctx@) == Err::<ValView, ErrorView>(e@),
        },
{
    let parts = split_dots_exec(expr);
    let n = parts.len();
    let lit_env = str_to_chars("env");
    let lit_steps = str_to_chars("steps");
    let lit_outputs = str_to_chars("outputs");
    let lit_containers = str_to_chars("containers");
    let lit_url = str_to_chars("url");
    let lit_host = str_to_chars("host");
    let lit_port = str_to_chars("port");
    let lit_needs = str_to_chars("needs");
    let lit_matrix = str_to_chars("matrix");
    let lit_jobs = str_to_chars("jobs");
    proof {
        assert forall|j: int| 0 <= j < parts@.len() implies (#[trigger] parts@[j])@
            == split_dots(expr@)[j] by {
            assert(parts.deep_view()[j] == parts@[j].deep_view());
            assert(parts@[j].deep_view() =~= parts@[j]@);
        }
        assert(parts@.len() == split_dots(expr@).len());
    }
    if n == 1 && chars_eq(&parts[0], &lit_outputs) {
        match &ctx.outputs {
            Some(outs) => Ok(outs.to_value()),
            None => {
                let mut msg: Vec<char> = Vec::new();
                push_str_chars("No outputs context available", &mut msg);
                Err(Error::Expression(chars_to_string(&msg)))
            }
        }
    } else if n >= 2 && chars_eq(&parts[0], &lit_outputs) {
        let field = chars_to_string(&parts[1]);
        let base: Option<&Val> = match &ctx.outputs {
            Some(outs) => outs.get(&field),
            None => None,
        };
        match base {
            Some(v) => navigate_value(v, &parts, 2),
            None => Err(Error::Expression(push_one_part_message("Output not found: ", &parts[1]))),
        }
    } else if n == 2 && chars_eq(&parts[0], &lit_env) {
        let key = chars_to_string(&parts[1]);
        match ctx.env.get(&key) {
            Some(v) => Ok(Val::Str(v.clone())),
            None => Err(Error::EnvVar(key)),
        }
    } else if n == 3 && chars_eq(&parts[0], &lit_steps) && chars_eq(&parts[2], &lit_outputs) {
        let id = chars_to_string(&parts[1]);
        match ctx.steps.get(&id) {
            Some(outs) => Ok(outs.to_value()),
            None => Err(Error::Expression(push_one_part_message("Step not found: ", &parts[1]))),
        }
    } else if n == 4 && chars_eq(&parts[0], &lit_steps) && chars_eq(&parts[2], &lit_outputs) {
        let id = chars_to_string(&parts[1]);
        let field = chars_to_string(&parts[3]);
        match ctx.steps.get(&id) {
            Some(outs) => match outs.get(&field) {
                Some(v) => Ok(crate::value::deep_copy(v)),
                None => Err(Error::Expression(push_two_part_message(
                    "Step output not found: ",
                    &parts[1],
                    &parts[3],
                ))),
            },
            None => Err(Error::Expression(push_two_part_message(
                "Step output not found: ",
                &parts[1],
                &parts[3],
            ))),
        }
    } else if n >= 5 && chars_eq(&parts[0], &lit_steps) && chars_eq(&parts[2], &lit_outputs) {
        let id = chars_to_string(&parts[1]);
        let field = chars_to_string(&parts[3]);
        match ctx.steps.get(&id) {
            Some(outs) => match outs.get(&field) {
                Some(v) => navigate_value(v, &parts, 4),
                None => Err(Error::Expression(push_two_part_message(
                    "Step output not found: ",
                    &parts[1],
                    &parts[3],
                ))),
            },
            None => Err(Error::Expression(push_two_part_message(
                "Step output not found: ",
                &parts[1],
                &parts[3],
            ))),
        }
    } else if n == 3 && chars_eq(&parts[0], &lit_containers) {
        let name = chars_to_string(&parts[1]);
        match ctx.containers.get(&name) {
            Some(c) => {
                if chars_eq(&parts[2], &lit_url) {
                    Ok(Val::Str(c.url.clone()))
                } else if chars_eq(&parts[2], &lit_host) {
                    Ok(Val::Str(c.host.clone()))
                } else if chars_eq(&parts[2], &lit_port) {
                    Ok(Val::Int(c.port as i64))
                } else {
                    Err(Error::Expression(push_one_part_message(
                        "Unknown container property: ",
                        &parts[2],
                    )))
                }
            }
            None => Err(Error::Expression(push_one_part_message(
                "Container not found: ",
                &parts[1],
            ))),
        }
    } else if n == 3 && chars_eq(&parts[0], &lit_needs) && chars_eq(&parts[2], &lit_outputs) {
        let id = chars_to_string(&parts[1]);
        match ctx.needs.get(&id) {
            Some(outs) => Ok(outs.to_value()),
            None => Err(Error::Expression(push_one_part_message(
                "Job not found in needs: ",
                &parts[1],
            ))),
        }
    } else if n == 4 && chars_eq(&parts[0], &lit_needs) && chars_eq(&parts[2], &lit_outputs) {
        let id = chars_to_string(&parts[1]);
        let field = chars_to_string(&parts[3]);
        match ctx.needs.get(&id) {
            Some(outs) => match outs.get(&field) {
                Some(v) => Ok(crate::value::deep_copy(v)),
                None => Err(Error::Expression(push_two_part_message(
                    "Job output not found: ",
                    &parts[1],
                    &parts[3],
                ))),
            },
            None => Err(Error::Expression(push_two_part_message(
                "Job output not found: ",
                &parts[1],
                &parts[3],
            ))),
        }
    } else if n >= 5 && chars_eq(&parts[0], &lit_needs) && chars_eq(&parts[2], &lit_outputs) {
        let id = chars_to_string(&parts[1]);
        let field = chars_to_string(&parts[3]);
        match ctx.needs.get(&id) {
            Some(outs) => match outs.get(&field) {
                Some(v) => navigate_value(v, &parts, 4),
                None => Err(Error::Expression(push_two_part_message(
                    "Job output not found: ",
                    &parts[1],
                    &parts[3],
                ))),
            },
            None => Err(Error::Expression(push_two_part_message(
                "Job output not found: ",
                &parts[1],
                &parts[3],
            ))),
        }
    } else if n == 2 && chars_eq(&parts[0], &lit_matrix) {
        let key = chars_to_string(&parts[1]);
        match ctx.matrix.get(&key) {
            Some(v) => Ok(crate::value::deep_copy(v)),
            None => Err(Error::Expression(push_one_part_message(
                "Matrix key not found: ",
                &parts[1],
            ))),
        }
    } else if n == 3 && chars_eq(&parts[0], &lit_jobs) && chars_eq(&parts[2], &lit_outputs) {
        let id = chars_to_string(&parts[1]);
        match ctx.jobs.get(&id) {
            Some(outs) => Ok(outs.to_value()),
            None => Err(Error::Expression(push_one_part_message("Job not found: ", &parts[1]))),
        }
    } else if n == 4 && chars_eq(&parts[0], &lit_jobs) && chars_eq(&parts[2], &lit_outputs) {
        let id = chars_to_string(&parts[1]);
        let field = chars_to_string(&parts[3]);
        match ctx.jobs.get(&id) {
            Some(outs) => match outs.get(&field) {
                Some(v) => Ok(crate::value::deep_copy(v)),
                None => Err(Error::Expression(push_two_part_message(
                    "Job output not found: ",
                    &parts[1],
                    &parts[3],
                ))),
            },
            None => Err(Error::Expression(push_two_part_message(
                "Job output not found: ",
                &parts[1],
                &parts[3],
            ))),
        }
    } else {
        Err(Error::Expression(push_one_part_message("Unknown expression: ", expr)))
    }
}

/// What a trimmed operand denotes.
fn eval_operand_exec(t: &Vec<char>, ctx: &ExprContext) -> (r: Result<Val, Error>)
    ensures
        match r {
            Ok(v) => spec_eval_operand(t@, ctx@) == Ok::<ValView, ErrorView>(v@),
            Err(e) => spec_eval_operand(t@, ctx@) == Err::<ValView, ErrorView>(e@),
        },
{
    let o = trim_vec(t);
    let lit_true = str_to_chars("true");
    let lit_false = str_to_chars("false");
    let lit_null = str_to_chars("null");
    if o.len() > 0 && (o[0] == '{' || o[0] == '[') {
        let text = chars_to_string(&o);
        match json_parse_exec(text.as_str()) {
            Ok(v) => Ok(v),
            Err(m) => Err(Error::Expression(push_one_part_message(
                "Invalid JSON: ",
                &str_to_chars(m.as_str()),
            ))),
        }
    } else if o.len() > 0 && o[0] == '"' {
        let inner = if o.len() >= 2 {
            subvec(&o, 1, o.len() - 1)
        } else {
            Vec::new()
        };
        proof {
            assert(inner@ =~= strip_quotes(o@));
        }
        Ok(Val::Str(chars_to_string(&inner)))
    } else if o.len() > 0 && o[0] == '\'' {
        let inner = if o.len() >= 2 {
            subvec(&o, 1, o.len() - 1)
        } else {
            Vec::new()
        };
        proof {
            assert(inner@ =~= strip_quotes(o@));
        }
        Ok(Val::Str(chars_to_string(&inner)))
    } else if chars_eq(&o, &lit_true) {
        Ok(Val::Bool(true))
    } else if chars_eq(&o, &lit_false) {
        Ok(Val::Bool(false))
    } else if chars_eq(&o, &lit_null) {
        Ok(Val::Null)
    } else {
        match parse_i64_chars(&o) {
            Some(v) => Ok(Val::Int(v)),
            None => {
                let text = chars_to_string(&o);
                match float_operand_exec(text.as_str()) {
                    Some(v) => Ok(v),
                    None => value_path_exec(&o, ctx),
                }
            }
        }
    }
}

/// The leftmost operator occurrence outside braces, brackets and quotes.
fn find_operator(s: &Vec<char>, op: &Vec<char>) -> (r: Option<usize>)
    ensures
        match r {
            Some(p) => find_op(s@, op@) == Some(p as int) && p + op@.len() <= s@.len(),
            None => find_op(s@, op@) is None,
        },
{
    let n = s.len();
    let m = op.len();
    let mut i: usize = 0;
    let mut depth: i128 = 0;
    let mut in_string = false;
    let mut string_char = ' ';
    while i < n
        invariant
            0 <= i <= n,
            n == s@.len(),
            m == op@.len(),
            -(i as int) <= depth <= i as int,
            find_op(s@, op@) == scan_op(s@, op@, i as int, depth as int, in_string, string_char),
        decreases n - i,
    {
        let c = s[i];
        if in_string {
            if c == string_char && (i == 0 || s[i - 1] != '\\') {
                in_string = false;
            }
        } else if c == '"' || c == '\'' {
            in_string = true;
            string_char = c;
        } else {
            if c == '{' || c == '[' {
                depth = depth + 1;
            } else if c == '}' || c == ']' {
                depth = depth - 1;
            }
            if depth == 0 && m <= n - i {
                let window = subvec(s, i, i + m);
                if chars_eq(&window, op) {
                    proof {
                        assert(s@.subrange(i as int, i + op@.len()) == op@);
                    }
                    return Some(i);
                }
            }
        }
        i = i + 1;
    }
    None
}

/// What a boolean expression `LEFT OP RIGHT` yields.
fn eval_bool_exec(expr: &Vec<char>, ctx: &ExprContext) -> (r: Result<bool, Error>)
    ensures
        match r {
            Ok(v) => spec_eval_bool(expr@, ctx@) == Ok::<bool, ErrorView>(v),
            Err(e) => spec_eval_bool(expr@, ctx@) == Err::<bool, ErrorView>(e@),
        },
{
    let mut ops: Vec<Vec<char>> = Vec::new();
    ops.push(str_to_chars(" contains "));
    ops.push(str_to_chars("=="));
    ops.push(str_to_chars("!="));
    ops.push(str_to_chars(">="));
    ops.push(str_to_chars("<="));
    ops.push(str_to_chars(">"));
    ops.push(str_to_chars("<"));
    proof {
        assert(ops.deep_view() =~~= op_list());
    }
    let mut k: usize = 0;
    while k < 7
        invariant
            0 <= k <= 7,
            ops@.len() == 7,
            ops.deep_view() == op_list(),
            pick_op(expr@, 0) == pick_op(expr@, k as int),
        decreases 7 - k,
    {
        proof {
            assert(ops@[k as int]@ == op_list()[k as int]);
        }
        match find_operator(expr, &ops[k]) {
            Some(pos) => {
                let oplen = ops[k].len();
                let el = expr.len();
                proof {
                    assert(pos + oplen <= el);
                }
                let left = trim_vec(&subvec(expr, 0, pos));
                let right = trim_vec(&subvec(expr, pos + oplen, el));
                let opt = trim_vec(&ops[k]);
                match eval_operand_exec(&left, ctx) {
                    Ok(l) => match eval_operand_exec(&right, ctx) {
                        Ok(rv) => {
                            return Ok(compare_values(&l, &rv, &opt));
                        }
                        Err(e) => {
                            return Err(e);
                        }
                    },
                    Err(e) => {
                        return Err(e);
                    }
                }
            }
            None => {
                k = k + 1;
            }
        }
    }
    Err(Error::Expression(push_one_part_message(
        "No comparison operator found in expression: ",
        expr,
    )))
}

proof fn lemma_eval_items_err(items: Seq<ValView>, k: int, n: int, ctx: ExprContextView)
    requires
        0 <= k <= n <= items.len(),
        eval_items(items, k, ctx) is Err,
    ensures
        eval_items(items, n, ctx) == eval_items(items, k, ctx),
    decreases n - k,
{
    if k < n {
        lemma_eval_items_err(items, k, n - 1, ctx);
    }
}

proof fn lemma_eval_entries_err(
    entries: Seq<(Seq<char>, ValView)>,
    k: int,
    n: int,
    ctx: ExprContextView,
)
    requires
        0 <= k <= n <= entries.len(),
        eval_entries(entries, k, ctx) is Err,
    ensures
        eval_entries(entries, n, ctx) == eval_entries(entries, k, ctx),
    decreases n - k,
{
    if k < n {
        lemma_eval_entries_err(entries, k, n - 1, ctx);
    }
}

/// Substitute inside every string leaf of a value; other leaves stay as
/// they stand.
#[verifier::loop_isolation(false)]
pub fn evaluate_value(value: &Val, ctx: &ExprContext) -> (r: Result<Val, Error>)
    ensures
        match r {
            Ok(v) => spec_evaluate_value(value@, ctx@) == Ok::<ValView, ErrorView>(v@),
            Err(e) => spec_evaluate_value(value@, ctx@) == Err::<ValView, ErrorView>(e@),
        },
    decreases value,
{
    match value {
        Val::Str(st) => match evaluate(st.as_str(), ctx) {
            Ok(t) => Ok(Val::Str(t)),
            Err(e) => Err(e),
        },
        Val::Arr(items) => {
            let ghost iv = crate::value::views_of_vec(*items, items@.len() as int);
            proof {
                crate::value::lemma_views_of_vec(*items, items@.len() as int);
            }
            let n = items.len();
            let mut out: Vec<Val> = Vec::new();
            let mut i: usize = 0;
            while i < n
                invariant
                    0 <= i <= n,
                    out@.len() == i,
                    eval_items(iv, i as int, ctx@) == Ok::<Seq<ValView>, ErrorView>(
                        crate::value::views_of_vec(out, out@.len() as int),
                    ),
                decreases n - i,
            {
                proof {
                    assert(decreases_to!(*value => *items));
                    assert(decreases_to!(*items => items@[i as int]));
                }
                match evaluate_value(&items[i], ctx) {
                    Ok(v) => {
                        let ghost out0 = out;
                        let ghost before = crate::value::views_of_vec(out, out@.len() as int);
                        let ghost vv = v@;
                        out.push(v);
                        proof {
                            crate::value::lemma_views_of_vec(out0, out0@.len() as int);
                            crate::value::lemma_views_of_vec(out, out@.len() as int);
                            assert(crate::value::views_of_vec(out, out@.len() as int)
                                =~= before.push(vv));
                        }
                    }
                    Err(e) => {
                        proof {
                            lemma_eval_items_err(iv, i + 1, n as int, ctx@);
                        }
                        return Err(e);
                    }
                }
                i = i + 1;
            }
            let r = Val::Arr(out);
            Ok(r)
        }
        Val::Obj(entries) => {
            let ghost ev = crate::value::entry_views_of_vec(*entries, entries@.len() as int);
            proof {
                crate::value::lemma_entry_views_of_vec(*entries, entries@.len() as int);
            }
            let n = entries.len();
            let mut out: Vec<(String, Val)> = Vec::new();
            let mut i: usize = 0;
            while i < n
                invariant
                    0 <= i <= n,
                    out@.len() == i,
                    eval_entries(ev, i as int, ctx@) == Ok::<Seq<(Seq<char>, ValView)>, ErrorView>(
                        crate::value::entry_views_of_vec(out, out@.len() as int),
                    ),
                decreases n - i,
            {
                proof {
                    assert(decreases_to!(*value => *entries));
                    assert(decreases_to!(*entries => entries@[i as int]));
                    assert(decreases_to!(entries@[i as int] => entries@[i as int].1));
                }
                match evaluate_value(&entries[i].1, ctx) {
                    Ok(v) => {
                        let ghost out0 = out;
                        let ghost before = crate::value::entry_views_of_vec(
                            out,
                            out@.len() as int,
                        );
                        let ghost vv = v@;
                        let k = entries[i].0.clone();
                        out.push((k, v));
                        proof {
                            crate::value::lemma_entry_views_of_vec(out0, out0@.len() as int);
                            crate::value::lemma_entry_views_of_vec(out, out@.len() as int);
                            assert(crate::value::entry_views_of_vec(out, out@.len() as int)
                                =~= before.push((entries@[i as int].0@, vv)));
                        }
                    }
                    Err(e) => {
                        proof {
                            lemma_eval_entries_err(ev, i + 1, n as int, ctx@);
                        }
                        return Err(e);
                    }
                }
                i = i + 1;
            }
            let r = Val::Obj(out);
            Ok(r)
        }
        _ => Ok(crate::value::deep_copy(value)),
    }
}


// ---------------------------------------------------------------------
// laws

proof fn lemma_no_open(s: Seq<char>, from: int)
    requires
        0 <= from,
        forall|i: int| from <= i < s.len() ==> !is_open_at(s, i),
    ensures
        find_open(s, from) == s.len(),
    decreases s.len() - from,
{
    if from + 3 <= s.len() {
        lemma_no_open(s, from + 1);
    }
}

/// A string with no `${{` marker anywhere is returned unchanged by
/// interpolation.
pub proof fn lemma_interpolation_identity(s: Seq<char>, ctx: ExprContextView)
    requires
        forall|i: int| 0 <= i < s.len() ==> !is_open_at(s, i),
    ensures
        spec_evaluate(s, ctx) == Ok::<Seq<char>, ErrorView>(s),
{
    lemma_no_open(s, 0);
    assert(s.subrange(0, s.len() as int) =~= s);
}

/// Walking a value leaves every leaf that is not a string unchanged, and
/// sends a string leaf through interpolation.
pub proof fn lemma_value_walk_leaf(v: ValView, ctx: ExprContextView)
    ensures
        (v is Null || v is Bool || v is Int || v is Num) ==> spec_evaluate_value(v, ctx)
            == Ok::<ValView, ErrorView>(v),
        v matches ValView::Str(s) ==> spec_evaluate_value(v, ctx) == (match spec_evaluate(
            s,
            ctx,
        ) {
            Ok(t) => Ok::<ValView, ErrorView>(ValView::Str(t)),
            Err(e) => Err::<ValView, ErrorView>(e),
        }),
{
}

/// A well-formed value compares equal to itself.
pub proof fn lemma_val_equal_refl(v: ValView)
    requires
        wf_value(v),
    ensures
        val_equal(v, v),
    decreases v, 1int,
{
    match v {
        ValView::Arr(items) => {
            crate::value::lemma_wf_seq(items, items.len() as int);
            assert forall|i: int| 0 <= i < items.len() implies val_equal(
                #[trigger] items[i],
                items[i],
            ) by {
                lemma_val_equal_refl(items[i]);
            }
            crate::value::lemma_arr_equal(items, items, items.len() as int);
        }
        ValView::Obj(entries) => {
            crate::value::lemma_wf_entries(entries, entries.len() as int);
            assert forall|i: int| 0 <= i < entries.len() implies match assoc(
                entries,
                (#[trigger] entries[i]).0,
            ) {
                Some(w) => val_equal(entries[i].1, w),
                None => false,
            } by {
                crate::value::lemma_assoc_unique(entries, i);
                lemma_val_equal_refl(entries[i].1);
            }
            crate::value::lemma_obj_covered(entries, entries, entries.len() as int);
        }
        _ => {}
    }
}

proof fn lemma_arr_needle_fold(hs: Seq<ValView>, ns: Seq<ValView>, n: int)
    requires
        0 <= n <= ns.len(),
        forall|k: int| 0 <= k < n ==> arr_any_match(hs, #[trigger] ns[k], hs.len() as int),
    ensures
        arr_needle_ok(hs, ns, n),
    decreases n,
{
    if n > 0 {
        lemma_arr_needle_fold(hs, ns, n - 1);
    }
}

proof fn lemma_obj_needle_fold(
    hs: Seq<(Seq<char>, ValView)>,
    ns: Seq<(Seq<char>, ValView)>,
    n: int,
)
    requires
        0 <= n <= ns.len(),
        forall|k: int| 0 <= k < n ==> {
            let key = (#[trigger] ns[k]).0;
            let nv = ns[k].1;
            has_pair_key(hs, key) && {
                let hv = hs[first_key_index(hs, key)].1;
                if nv is Obj || nv is Arr {
                    spec_contains(hv, nv)
                } else {
                    val_equal(hv, nv)
                }
            }
        },
    ensures
        obj_needle_ok(hs, ns, n),
    decreases n,
{
    if n > 0 {
        lemma_obj_needle_fold(hs, ns, n - 1);
    }
}

/// Every well-formed string, array or object contains itself.
pub proof fn lemma_contains_reflexive(v: ValView)
    requires
        wf_value(v),
        v is Str || v is Arr || v is Obj,
    ensures
        spec_contains(v, v),
    decreases v, 4int,
{
    match v {
        ValView::Str(s) => {
            assert(s.subrange(0, 0 + s.len() as int) =~= s);
        }
        ValView::Arr(items) => {
            crate::value::lemma_wf_seq(items, items.len() as int);
            assert forall|k: int| 0 <= k < items.len() implies arr_any_match(
                items,
                #[trigger] items[k],
                items.len() as int,
            ) by {
                let x = items[k];
                if x is Obj {
                    lemma_contains_reflexive(x);
                } else {
                    lemma_val_equal_refl(x);
                }
                assert(arr_any_match(items, x, k + 1));
                lemma_arr_any_match_mono(items, x, k + 1, items.len() as int);
            }
            lemma_arr_needle_fold(items, items, items.len() as int);
        }
        ValView::Obj(entries) => {
            crate::value::lemma_wf_entries(entries, entries.len() as int);
            assert forall|k: int| 0 <= k < entries.len() implies {
                let key = (#[trigger] entries[k]).0;
                let nv = entries[k].1;
                has_pair_key(entries, key) && {
                    let hv = entries[first_key_index(entries, key)].1;
                    if nv is Obj || nv is Arr {
                        spec_contains(hv, nv)
                    } else {
                        val_equal(hv, nv)
                    }
                }
            } by {
                let key = entries[k].0;
                assert(has_pair_key(entries, key));
                lemma_first_key_index(entries, key);
                let f = first_key_index(entries, key);
                assert(entries[f].0 == key);
                assert(f == k) by {
                    if f < k {
                        assert(entries[f].0 == entries[k].0);
                    }
                    if f > k {
                        assert(entries[k].0 != key);
                    }
                }
                let nv = entries[k].1;
                if nv is Obj || nv is Arr {
                    lemma_contains_reflexive(nv);
                } else {
                    lemma_val_equal_refl(nv);
                }
            }
            lemma_obj_needle_fold(entries, entries, entries.len() as int);
        }
        _ => {}
    }
}


// ---------------------------------------------------------------------
// the output-flow law

/// A name that can stand as one segment of a dotted path inside
/// `${{ ... }}`: nonempty, with no marker characters, no dot and no
/// whitespace in it.
pub open spec fn plain_name(s: Seq<char>) -> bool {
    s.len() > 0 && forall|i: int| 0 <= i < s.len() ==> (#[trigger] s[i]) != '$' && s[i] != '{'
        && s[i] != '}' && s[i] != '.' && !crate::strutil::is_space(s[i])
}

/// The expression `${{ p0.p1.p2.p3 }}`.
pub open spec fn path_expr4(p0: Seq<char>, p1: Seq<char>, p2: Seq<char>, p3: Seq<char>) -> Seq<
    char,
> {
    seq!['$', '{', '{', ' '] + p0 + seq!['.'] + p1 + seq!['.'] + p2 + seq!['.'] + p3 + seq![
        ' ',
        '}',
        '}',
    ]
}

proof fn lemma_find_char_hits(s: Seq<char>, c: char, from: int, k: int)
    requires
        0 <= from <= k < s.len(),
        s[k] == c,
        forall|j: int| from <= j < k ==> s[j] != c,
    ensures
        find_char(s, c, from) == k,
    decreases k - from,
{
    if from < k {
        lemma_find_char_hits(s, c, from + 1, k);
    }
}

proof fn lemma_find_char_misses(s: Seq<char>, c: char, from: int)
    requires
        0 <= from,
        forall|j: int| from <= j < s.len() ==> s[j] != c,
    ensures
        find_char(s, c, from) == s.len(),
    decreases s.len() - from,
{
    if from < s.len() {
        lemma_find_char_misses(s, c, from + 1);
    }
}

proof fn lemma_split_one(p: Seq<char>)
    requires
        plain_name(p),
    ensures
        split_dots(p) == seq![p],
{
    lemma_find_char_misses(p, '.', 0);
}

proof fn lemma_split_cons(head: Seq<char>, tail: Seq<char>)
    requires
        plain_name(head),
    ensures
        split_dots(head + seq!['.'] + tail) == seq![head] + split_dots(tail),
{
    let s = head + seq!['.'] + tail;
    assert(forall|j: int| 0 <= j < head.len() ==> s[j] == head[j]);
    assert(s[head.len() as int] == '.');
    lemma_find_char_hits(s, '.', 0, head.len() as int);
    assert(s.subrange(0, head.len() as int) =~= head);
    assert(s.subrange(head.len() as int + 1, s.len() as int) =~= tail);
}

proof fn lemma_split_path4(p0: Seq<char>, p1: Seq<char>, p2: Seq<char>, p3: Seq<char>)
    requires
        plain_name(p0),
        plain_name(p1),
        plain_name(p2),
        plain_name(p3),
    ensures
        split_dots(p0 + seq!['.'] + (p1 + seq!['.'] + (p2 + seq!['.'] + p3))) == seq![
            p0,
            p1,
            p2,
            p3,
        ],
{
    lemma_split_cons(p0, p1 + seq!['.'] + (p2 + seq!['.'] + p3));
    lemma_split_cons(p1, p2 + seq!['.'] + p3);
    lemma_split_cons(p2, p3);
    lemma_split_one(p3);
    assert(seq![p0] + (seq![p1] + (seq![p2] + seq![p3])) =~= seq![p0, p1, p2, p3]);
}

proof fn lemma_no_close_before(s: Seq<char>, from: int, k: int)
    requires
        0 <= from <= k < s.len(),
        is_close_at(s, k),
        forall|j: int| from <= j < k ==> s[j] != '}',
    ensures
        find_close(s, from) == k,
    decreases k - from,
{
    if from < k {
        assert(!is_close_at(s, from));
        lemma_no_close_before(s, from + 1, k);
    }
}

/// Evaluating exactly `${{ p0.p1.p2.p3 }}` looks the dotted path up.
proof fn lemma_eval_path4(
    p0: Seq<char>,
    p1: Seq<char>,
    p2: Seq<char>,
    p3: Seq<char>,
    ctx: ExprContextView,
)
    requires
        plain_name(p0),
        plain_name(p1),
        plain_name(p2),
        plain_name(p3),
    ensures
        spec_evaluate(path_expr4(p0, p1, p2, p3), ctx) == (match spec_eval_interp(
            p0 + seq!['.'] + (p1 + seq!['.'] + (p2 + seq!['.'] + p3)),
            ctx,
        ) {
            Ok(val) => Ok::<Seq<char>, ErrorView>(val),
            Err(e) => Err::<Seq<char>, ErrorView>(e),
        }),
{
    let path = p0 + seq!['.'] + (p1 + seq!['.'] + (p2 + seq!['.'] + p3));
    let s = path_expr4(p0, p1, p2, p3);
    assert(s =~= seq!['$', '{', '{', ' '] + path + seq![' ', '}', '}']);
    let plen = path.len() as int;
    assert(forall|j: int| 0 <= j < plen ==> s[4 + j] == path[j]);
    assert forall|j: int| 0 <= j < plen implies path[j] != '}' && path[j] != '.' == (path[j]
        != '.') by {
    }
    assert forall|j: int| 0 <= j < plen implies #[trigger] path[j] != '}' && path[j] != '$'
        && path[j] != '{' by {
        let l0 = p0.len() as int;
        let l1 = p1.len() as int;
        let l2 = p2.len() as int;
        if j < l0 {
            assert(path[j] == p0[j]);
        } else if j == l0 {
            assert(path[j] == '.');
        } else if j < l0 + 1 + l1 {
            assert(path[j] == p1[j - l0 - 1]);
        } else if j == l0 + 1 + l1 {
            assert(path[j] == '.');
        } else if j < l0 + 1 + l1 + 1 + l2 {
            assert(path[j] == p2[j - l0 - 1 - l1 - 1]);
        } else if j == l0 + 1 + l1 + 1 + l2 {
            assert(path[j] == '.');
        } else {
            assert(path[j] == p3[j - l0 - 1 - l1 - 1 - l2 - 1]);
        }
    }
    // the first opening marker is at the very front
    assert(is_open_at(s, 0));
    assert(find_open(s, 0) == 0);
    // the first closing marker stands right after the path and its space
    assert(is_close_at(s, 5 + plen)) by {
        assert(s[5 + plen] == '}');
        assert(s[5 + plen + 1] == '}');
    }
    assert forall|j: int| 3 <= j < 5 + plen implies s[j] != '}' by {
        if j == 3 || j == 4 + plen {
            assert(s[j] == ' ');
        } else {
            assert(s[j] == path[j - 4]);
        }
    }
    lemma_no_close_before(s, 3, 5 + plen);
    let c = 5 + plen;
    // the inner text trims to the path itself
    let region = s.subrange(3, c);
    assert(region =~= seq![' '] + path + seq![' ']);
    assert(!crate::strutil::is_space(path[0])) by {
        assert(path[0] == p0[0]);
    }
    assert(!crate::strutil::is_space(path[plen - 1])) by {
        assert(path[plen - 1] == p3[p3.len() - 1]);
    }
    assert(!crate::strutil::is_space(region[1]));
    assert(crate::strutil::trim_start_idx(region, 1) == 1);
    assert(crate::strutil::is_space(region[0]));
    assert(crate::strutil::trim_start_idx(region, 0) == 1);
    assert(!crate::strutil::is_space(region[region.len() - 2]));
    assert(crate::strutil::trim_end_idx(region, region.len() - 1) == region.len() - 1);
    assert(crate::strutil::is_space(region[region.len() - 1]));
    assert(crate::strutil::trim_end_idx(region, region.len() as int) == region.len() - 1);
    assert(crate::strutil::trimmed(region) =~= path);
    // nothing follows the closing marker
    assert(eval_from(s, c + 2, ctx) == Ok::<Seq<char>, ErrorView>(s.subrange(
        c + 2,
        s.len() as int,
    )));
    assert(s.subrange(c + 2, s.len() as int) =~= Seq::<char>::empty());
    match spec_eval_interp(path, ctx) {
        Ok(val) => {
            assert(s.subrange(0, 0) + val + Seq::<char>::empty() =~= val);
        }
        Err(_) => {}
    }
}

/// What a job hands on is what the step put there: job A's declared
/// output `x: ${{ steps.s.outputs.y }}` evaluates to the value the step
/// with id `s` recorded under `y`, and a dependent job whose scope got
/// A's outputs under `needs` sees the same value through
/// `${{ needs.A.outputs.x }}`.
pub proof fn lemma_output_flow(
    sid: Seq<char>,
    y: Seq<char>,
    a_name: Seq<char>,
    x: Seq<char>,
    v: Seq<char>,
    outs: Seq<(Seq<char>, ValView)>,
    bouts: Seq<(Seq<char>, ValView)>,
    ctx_a: ExprContextView,
    ctx_b: ExprContextView,
)
    requires
        plain_name(sid),
        plain_name(y),
        plain_name(a_name),
        plain_name(x),
        assoc(ctx_a.steps, sid) == Some(outs),
        assoc(outs, y) == Some(ValView::Str(v)),
        assoc(ctx_b.needs, a_name) == Some(bouts),
        assoc(bouts, x) == Some(ValView::Str(v)),
    ensures
        spec_evaluate(path_expr4("steps"@, sid, "outputs"@, y), ctx_a) == Ok::<
            Seq<char>,
            ErrorView,
        >(v),
        spec_evaluate(path_expr4("needs"@, a_name, "outputs"@, x), ctx_b) == Ok::<
            Seq<char>,
            ErrorView,
        >(v),
{
    reveal_strlit("steps");
    reveal_strlit("needs");
    reveal_strlit("outputs");
    reveal_strlit("env");
    assert(plain_name("steps"@));
    assert(plain_name("needs"@));
    assert(plain_name("outputs"@));
    lemma_eval_path4("steps"@, sid, "outputs"@, y, ctx_a);
    lemma_eval_path4("needs"@, a_name, "outputs"@, x, ctx_b);
    let path_a = "steps"@ + seq!['.'] + (sid + seq!['.'] + ("outputs"@ + seq!['.'] + y));
    let path_b = "needs"@ + seq!['.'] + (a_name + seq!['.'] + ("outputs"@ + seq!['.'] + x));
    lemma_split_path4("steps"@, sid, "outputs"@, y);
    lemma_split_path4("needs"@, a_name, "outputs"@, x);
    assert("steps"@ != "env"@);
    assert(spec_eval_interp(path_a, ctx_a) == Ok::<Seq<char>, ErrorView>(string_form(
        ValView::Str(v),
    )));
    assert(spec_eval_interp(path_b, ctx_b) == Ok::<Seq<char>, ErrorView>(string_form(
        ValView::Str(v),
    )));
}

} // verus!
