use vstd::prelude::*;

use crate::dict::{spec_insert, Dict};
use crate::errors::{Error, ErrorView};
use crate::model::{
    InputDef, InputDefView, Job, JobNeeds, JobView, Matrix, MatrixView, OutputDef, OutputDefView,
    Step, StepView, Strategy, StrategyView, Workflow, WorkflowCallConfig, WorkflowCallConfigView,
    WorkflowTrigger, WorkflowTriggerView, WorkflowView,
};
use crate::value::{
    assoc, deep_copy, entries_get, entry_views_of_vec, lemma_entry_views_of_vec,
    lemma_views_of_vec, views_of_vec, wf_value, Val, ValView,
};

verus! {

/// Relies on `serde_yaml::from_str`, read into the JSON value tree: what
/// a YAML document parses to is a function of the text alone; mapping
/// keys must be strings, and every object's keys come out distinct.
pub uninterp spec fn yaml_doc(s: Seq<char>) -> Option<ValView>;

#[verifier::external_body]
fn yaml_parse_exec(s: &str) -> (r: Result<Val, String>)
    ensures
        match r {
            Ok(v) => yaml_doc(s@) == Some(v@) && wf_value(v@),
            Err(_) => yaml_doc(s@) is None,
        },
{
    match serde_yaml::from_str::<serde_json::Value>(s) {
        Ok(v) => Ok(crate::expr::json_to_value(v)),
        Err(e) => Err(e.to_string()),
    }
}

// ---------------------------------------------------------------------
// shape rules, one layer each

/// A map whose values must all be strings.
pub open spec fn spec_str_map(entries: Seq<(Seq<char>, ValView)>, n: int) -> Option<
    Seq<(Seq<char>, Seq<char>)>,
>
    decreases n,
{
    if n <= 0 || n > entries.len() {
        Some(Seq::empty())
    } else {
        match spec_str_map(entries, n - 1) {
            Some(pre) => match entries[n - 1].1 {
                ValView::Str(s) => Some(spec_insert(pre, entries[n - 1].0, s)),
                _ => None,
            },
            None => None,
        }
    }
}

/// A map of arbitrary values.
pub open spec fn spec_val_map(entries: Seq<(Seq<char>, ValView)>, n: int) -> Seq<
    (Seq<char>, ValView),
>
    decreases n,
{
    if n <= 0 || n > entries.len() {
        Seq::empty()
    } else {
        spec_insert(spec_val_map(entries, n - 1), entries[n - 1].0, entries[n - 1].1)
    }
}

/// A list whose items must all be strings.
pub open spec fn spec_str_list(items: Seq<ValView>, n: int) -> Option<Seq<Seq<char>>>
    decreases n,
{
    if n <= 0 || n > items.len() {
        Some(Seq::empty())
    } else {
        match spec_str_list(items, n - 1) {
            Some(pre) => match items[n - 1] {
                ValView::Str(s) => Some(pre.push(s)),
                _ => None,
            },
            None => None,
        }
    }
}

/// How `needs` reads: nothing, one name, or a list of names.
pub open spec fn spec_needs(v: Option<ValView>) -> Option<Seq<Seq<char>>> {
    match v {
        None => Some(Seq::empty()),
        Some(ValView::Null) => Some(Seq::empty()),
        Some(ValView::Str(s)) => Some(seq![s]),
        Some(ValView::Arr(items)) => spec_str_list(items, items.len() as int),
        Some(_) => None,
    }
}

/// How one step reads.
pub open spec fn spec_step(v: ValView) -> Option<StepView> {
    match v {
        ValView::Obj(es) => {
            let name = match assoc(es, "name"@) {
                Some(ValView::Str(s)) => Some(Some(s)),
                Some(ValView::Null) => Some(None),
                None => Some(None),
                Some(_) => None,
            };
            let id = match assoc(es, "id"@) {
                Some(ValView::Str(s)) => Some(Some(s)),
                Some(ValView::Null) => Some(None),
                None => Some(None),
                Some(_) => None,
            };
            let uses = match assoc(es, "uses"@) {
                Some(ValView::Str(s)) => Some(s),
                _ => None,
            };
            let with_args = match assoc(es, "with"@) {
                Some(ValView::Obj(w)) => Some(spec_val_map(w, w.len() as int)),
                None => Some(Seq::empty()),
                Some(_) => None,
            };
            let coe = match assoc(es, "continue-on-error"@) {
                Some(ValView::Bool(b)) => Some(b),
                None => Some(false),
                Some(_) => None,
            };
            let pre = match assoc(es, "pre-assert"@) {
                Some(ValView::Arr(items)) => spec_str_list(items, items.len() as int),
                None => Some(Seq::empty()),
                Some(_) => None,
            };
            let post = match assoc(es, "post-assert"@) {
                Some(ValView::Arr(items)) => spec_str_list(items, items.len() as int),
                None => Some(Seq::empty()),
                Some(_) => None,
            };
            if name is Some && id is Some && uses is Some && with_args is Some && coe is Some
                && pre is Some && post is Some {
                Some(StepView {
                    name: name->0,
                    id: id->0,
                    uses: uses->0,
                    with_args: with_args->0,
                    continue_on_error: coe->0,
                    pre_assert: pre->0,
                    post_assert: post->0,
                })
            } else {
                None
            }
        }
        _ => None,
    }
}

pub open spec fn spec_steps(items: Seq<ValView>, n: int) -> Option<Seq<StepView>>
    decreases n,
{
    if n <= 0 || n > items.len() {
        Some(Seq::empty())
    } else {
        match spec_steps(items, n - 1) {
            Some(pre) => match spec_step(items[n - 1]) {
                Some(s) => Some(pre.push(s)),
                None => None,
            },
            None => None,
        }
    }
}

/// How a matrix reads: `include` and `exclude` rows are lists of maps;
/// every other key is a dimension and must hold a list.
pub open spec fn spec_row_list(items: Seq<ValView>, n: int) -> Option<
    Seq<Seq<(Seq<char>, ValView)>>,
>
    decreases n,
{
    if n <= 0 || n > items.len() {
        Some(Seq::empty())
    } else {
        match spec_row_list(items, n - 1) {
            Some(pre) => match items[n - 1] {
                ValView::Obj(es) => Some(pre.push(spec_val_map(es, es.len() as int))),
                _ => None,
            },
            None => None,
        }
    }
}

pub open spec fn spec_matrix(entries: Seq<(Seq<char>, ValView)>, n: int) -> Option<MatrixView>
    decreases n,
{
    if n <= 0 || n > entries.len() {
        Some(MatrixView { added: Seq::empty(), exclude: Seq::empty(), dimensions: Seq::empty() })
    } else {
        match spec_matrix(entries, n - 1) {
            Some(pre) => {
                let key = entries[n - 1].0;
                let v = entries[n - 1].1;
                if key == "include"@ {
                    match v {
                        ValView::Arr(items) => match spec_row_list(items, items.len() as int) {
                            Some(rows) => Some(MatrixView {
                                added: rows,
                                exclude: pre.exclude,
                                dimensions: pre.dimensions,
                            }),
                            None => None,
                        },
                        _ => None,
                    }
                } else if key == "exclude"@ {
                    match v {
                        ValView::Arr(items) => match spec_row_list(items, items.len() as int) {
                            Some(rows) => Some(MatrixView {
                                added: pre.added,
                                exclude: rows,
                                dimensions: pre.dimensions,
                            }),
                            None => None,
                        },
                        _ => None,
                    }
                } else {
                    match v {
                        ValView::Arr(items) => Some(MatrixView {
                            added: pre.added,
                            exclude: pre.exclude,
                            dimensions: spec_insert(pre.dimensions, key,
                                views_seq_identity(items)),
                        }),
                        _ => None,
                    }
                }
            }
            None => None,
        }
    }
}

pub open spec fn views_seq_identity(items: Seq<ValView>) -> Seq<ValView> {
    items
}

pub open spec fn spec_strategy(v: ValView) -> Option<StrategyView> {
    match v {
        ValView::Obj(es) => {
            let matrix = match assoc(es, "matrix"@) {
                Some(ValView::Obj(me)) => spec_matrix(me, me.len() as int),
                None => Some(MatrixView {
                    added: Seq::empty(),
                    exclude: Seq::empty(),
                    dimensions: Seq::empty(),
                }),
                Some(_) => None,
            };
            let fail_fast = match assoc(es, "fail-fast"@) {
                Some(ValView::Bool(b)) => Some(b),
                None => Some(true),
                Some(_) => None,
            };
            let max_parallel = match assoc(es, "max-parallel"@) {
                Some(ValView::Int(i)) => if 0 <= i <= usize::MAX as int {
                    Some(Some(i as usize))
                } else {
                    None
                },
                Some(ValView::Null) => Some(None),
                None => Some(None),
                Some(_) => None,
            };
            if matrix is Some && fail_fast is Some && max_parallel is Some {
                Some(StrategyView {
                    matrix: matrix->0,
                    fail_fast: fail_fast->0,
                    max_parallel: max_parallel->0,
                })
            } else {
                None
            }
        }
        _ => None,
    }
}

pub open spec fn spec_output_def(v: ValView) -> Option<OutputDefView> {
    match v {
        ValView::Obj(es) => {
            let description = match assoc(es, "description"@) {
                Some(ValView::Str(s)) => Some(Some(s)),
                Some(ValView::Null) => Some(None),
                None => Some(None),
                Some(_) => None,
            };
            let value = match assoc(es, "value"@) {
                Some(ValView::Str(s)) => Some(s),
                _ => None,
            };
            if description is Some && value is Some {
                Some(OutputDefView { description: description->0, value: value->0 })
            } else {
                None
            }
        }
        _ => None,
    }
}

pub open spec fn spec_output_defs(entries: Seq<(Seq<char>, ValView)>, n: int) -> Option<
    Seq<(Seq<char>, OutputDefView)>,
>
    decreases n,
{
    if n <= 0 || n > entries.len() {
        Some(Seq::empty())
    } else {
        match spec_output_defs(entries, n - 1) {
            Some(pre) => match spec_output_def(entries[n - 1].1) {
                Some(d) => Some(spec_insert(pre, entries[n - 1].0, d)),
                None => None,
            },
            None => None,
        }
    }
}

pub open spec fn spec_input_def(v: ValView) -> Option<InputDefView> {
    match v {
        ValView::Obj(es) => {
            let description = match assoc(es, "description"@) {
                Some(ValView::Str(s)) => Some(Some(s)),
                Some(ValView::Null) => Some(None),
                None => Some(None),
                Some(_) => None,
            };
            let required = match assoc(es, "required"@) {
                Some(ValView::Bool(b)) => Some(b),
                None => Some(false),
                Some(_) => None,
            };
            let dflt = match assoc(es, "default"@) {
                Some(x) => Some(x),
                None => None,
            };
            let input_type = match assoc(es, "type"@) {
                Some(ValView::Str(s)) => Some(Some(s)),
                Some(ValView::Null) => Some(None),
                None => Some(None),
                Some(_) => None,
            };
            if description is Some && required is Some && input_type is Some {
                Some(InputDefView {
                    description: description->0,
                    required: required->0,
                    default: dflt,
                    input_type: input_type->0,
                })
            } else {
                None
            }
        }
        _ => None,
    }
}

pub open spec fn spec_input_defs(entries: Seq<(Seq<char>, ValView)>, n: int) -> Option<
    Seq<(Seq<char>, InputDefView)>,
>
    decreases n,
{
    if n <= 0 || n > entries.len() {
        Some(Seq::empty())
    } else {
        match spec_input_defs(entries, n - 1) {
            Some(pre) => match spec_input_def(entries[n - 1].1) {
                Some(d) => Some(spec_insert(pre, entries[n - 1].0, d)),
                None => None,
            },
            None => None,
        }
    }
}

pub open spec fn spec_call_config(v: ValView) -> Option<WorkflowCallConfigView> {
    match v {
        ValView::Obj(es) => {
            let inputs = match assoc(es, "inputs"@) {
                Some(ValView::Obj(ie)) => spec_input_defs(ie, ie.len() as int),
                None => Some(Seq::empty()),
                Some(ValView::Null) => Some(Seq::empty()),
                Some(_) => None,
            };
            let outputs = match assoc(es, "outputs"@) {
                Some(ValView::Obj(oe)) => spec_output_defs(oe, oe.len() as int),
                None => Some(Seq::empty()),
                Some(ValView::Null) => Some(Seq::empty()),
                Some(_) => None,
            };
            if inputs is Some && outputs is Some {
                Some(WorkflowCallConfigView { inputs: inputs->0, outputs: outputs->0 })
            } else {
                None
            }
        }
        _ => None,
    }
}

pub open spec fn spec_trigger(v: ValView) -> Option<WorkflowTriggerView> {
    match v {
        ValView::Obj(es) => {
            match assoc(es, "workflow_call"@) {
                Some(ValView::Null) => Some(WorkflowTriggerView { workflow_call: None }),
                Some(c) => match spec_call_config(c) {
                    Some(cc) => Some(WorkflowTriggerView { workflow_call: Some(cc) }),
                    None => None,
                },
                None => Some(WorkflowTriggerView { workflow_call: None }),
            }
        }
        ValView::Null => Some(WorkflowTriggerView { workflow_call: None }),
        _ => None,
    }
}

/// How one job reads.
pub open spec fn spec_job(v: ValView) -> Option<JobView> {
    match v {
        ValView::Obj(es) => {
            let name = match assoc(es, "name"@) {
                Some(ValView::Str(s)) => Some(Some(s)),
                Some(ValView::Null) => Some(None),
                None => Some(None),
                Some(_) => None,
            };
            let needs = spec_needs(assoc(es, "needs"@));
            let uses = match assoc(es, "uses"@) {
                Some(ValView::Str(s)) => Some(Some(s)),
                Some(ValView::Null) => Some(None),
                None => Some(None),
                Some(_) => None,
            };
            let with_args = match assoc(es, "with"@) {
                Some(ValView::Obj(w)) => Some(spec_val_map(w, w.len() as int)),
                None => Some(Seq::empty()),
                Some(_) => None,
            };
            let strategy = match assoc(es, "strategy"@) {
                Some(ValView::Null) => Some(None),
                Some(sv) => match spec_strategy(sv) {
                    Some(st) => Some(Some(st)),
                    None => None,
                },
                None => Some(None),
            };
            let outputs = match assoc(es, "outputs"@) {
                Some(ValView::Obj(oe)) => spec_str_map(oe, oe.len() as int),
                None => Some(Seq::empty()),
                Some(_) => None,
            };
            let env = match assoc(es, "env"@) {
                Some(ValView::Obj(ee)) => spec_str_map(ee, ee.len() as int),
                None => Some(Seq::empty()),
                Some(_) => None,
            };
            let steps = match assoc(es, "steps"@) {
                Some(ValView::Arr(items)) => spec_steps(items, items.len() as int),
                None => Some(Seq::empty()),
                Some(ValView::Null) => Some(Seq::empty()),
                Some(_) => None,
            };
            if name is Some && needs is Some && uses is Some && with_args is Some
                && strategy is Some && outputs is Some && env is Some && steps is Some {
                Some(JobView {
                    name: name->0,
                    needs: needs->0,
                    uses: uses->0,
                    with_args: with_args->0,
                    strategy: strategy->0,
                    outputs: outputs->0,
                    env: env->0,
                    steps: steps->0,
                })
            } else {
                None
            }
        }
        _ => None,
    }
}

pub open spec fn spec_jobs(entries: Seq<(Seq<char>, ValView)>, n: int) -> Option<
    Seq<(Seq<char>, JobView)>,
>
    decreases n,
{
    if n <= 0 || n > entries.len() {
        Some(Seq::empty())
    } else {
        match spec_jobs(entries, n - 1) {
            Some(pre) => match spec_job(entries[n - 1].1) {
                Some(j) => Some(spec_insert(pre, entries[n - 1].0, j)),
                None => None,
            },
            None => None,
        }
    }
}

/// How a whole workflow document reads.
pub open spec fn spec_workflow(v: ValView) -> Option<WorkflowView> {
    match v {
        ValView::Obj(es) => {
            let name = match assoc(es, "name"@) {
                Some(ValView::Str(s)) => Some(s),
                _ => None,
            };
            let on = match assoc(es, "on"@) {
                None => Some(None),
                Some(ValView::Null) => Some(None),
                Some(tv) => match spec_trigger(tv) {
                    Some(t) => Some(Some(t)),
                    None => None,
                },
            };
            let env = match assoc(es, "env"@) {
                Some(ValView::Obj(ee)) => spec_str_map(ee, ee.len() as int),
                None => Some(Seq::empty()),
                Some(ValView::Null) => Some(Seq::empty()),
                Some(_) => None,
            };
            let jobs = match assoc(es, "jobs"@) {
                Some(ValView::Obj(je)) => spec_jobs(je, je.len() as int),
                None => Some(Seq::empty()),
                Some(ValView::Null) => Some(Seq::empty()),
                Some(_) => None,
            };
            if name is Some && on is Some && env is Some && jobs is Some {
                Some(WorkflowView { name: name->0, on: on->0, env: env->0, jobs: jobs->0 })
            } else {
                None
            }
        }
        _ => None,
    }
}


// ---------------------------------------------------------------------
// reading the shapes

proof fn lemma_str_list_stays(items: Seq<ValView>, k: int, n: int)
    requires
        0 <= k <= n <= items.len(),
        spec_str_list(items, k) is None,
    ensures
        spec_str_list(items, n) is None,
    decreases n - k,
{
    if k < n {
        lemma_str_list_stays(items, k, n - 1);
    }
}

proof fn lemma_str_map_stays(entries: Seq<(Seq<char>, ValView)>, k: int, n: int)
    requires
        0 <= k <= n <= entries.len(),
        spec_str_map(entries, k) is None,
    ensures
        spec_str_map(entries, n) is None,
    decreases n - k,
{
    if k < n {
        lemma_str_map_stays(entries, k, n - 1);
    }
}

proof fn lemma_steps_stays(items: Seq<ValView>, k: int, n: int)
    requires
        0 <= k <= n <= items.len(),
        spec_steps(items, k) is None,
    ensures
        spec_steps(items, n) is None,
    decreases n - k,
{
    if k < n {
        lemma_steps_stays(items, k, n - 1);
    }
}

proof fn lemma_row_list_stays(items: Seq<ValView>, k: int, n: int)
    requires
        0 <= k <= n <= items.len(),
        spec_row_list(items, k) is None,
    ensures
        spec_row_list(items, n) is None,
    decreases n - k,
{
    if k < n {
        lemma_row_list_stays(items, k, n - 1);
    }
}

proof fn lemma_matrix_stays(entries: Seq<(Seq<char>, ValView)>, k: int, n: int)
    requires
        0 <= k <= n <= entries.len(),
        spec_matrix(entries, k) is None,
    ensures
        spec_matrix(entries, n) is None,
    decreases n - k,
{
    if k < n {
        lemma_matrix_stays(entries, k, n - 1);
    }
}

proof fn lemma_jobs_stays(entries: Seq<(Seq<char>, ValView)>, k: int, n: int)
    requires
        0 <= k <= n <= entries.len(),
        spec_jobs(entries, k) is None,
    ensures
        spec_jobs(entries, n) is None,
    decreases n - k,
{
    if k < n {
        lemma_jobs_stays(entries, k, n - 1);
    }
}

proof fn lemma_output_defs_stays(entries: Seq<(Seq<char>, ValView)>, k: int, n: int)
    requires
        0 <= k <= n <= entries.len(),
        spec_output_defs(entries, k) is None,
    ensures
        spec_output_defs(entries, n) is None,
    decreases n - k,
{
    if k < n {
        lemma_output_defs_stays(entries, k, n - 1);
    }
}

proof fn lemma_input_defs_stays(entries: Seq<(Seq<char>, ValView)>, k: int, n: int)
    requires
        0 <= k <= n <= entries.len(),
        spec_input_defs(entries, k) is None,
    ensures
        spec_input_defs(entries, n) is None,
    decreases n - k,
{
    if k < n {
        lemma_input_defs_stays(entries, k, n - 1);
    }
}

fn shape_error() -> (r: Error)
    ensures
        r@ is Yaml,
{
    let mut msg: Vec<char> = Vec::new();
    crate::value::push_str_chars("the document does not fit the workflow shape", &mut msg);
    Error::Yaml(crate::strutil::chars_to_string(&msg))
}

#[verifier::loop_isolation(false)]
fn read_str_map(entries: &Vec<(String, Val)>) -> (r: Result<Dict<String>, Error>)
    ensures
        match r {
            Ok(d) => spec_str_map(entry_views_of_vec(*entries, entries@.len() as int),
                entries@.len() as int) == Some(d@),
            Err(e) => spec_str_map(entry_views_of_vec(*entries, entries@.len() as int),
                entries@.len() as int) is None && e@ is Yaml,
        },
{
    let ghost ev = entry_views_of_vec(*entries, entries@.len() as int);
    proof {
        lemma_entry_views_of_vec(*entries, entries@.len() as int);
    }
    let mut d: Dict<String> = Dict::new();
    let n = entries.len();
    let mut i: usize = 0;
    while i < n
        invariant
            0 <= i <= n,
            n == entries@.len(),
            ev == entry_views_of_vec(*entries, entries@.len() as int),
            ev.len() == n,
            forall|j: int| 0 <= j < n
                ==> ev[j] == ((#[trigger] entries@[j]).0@, crate::value::view_of(entries@[j].1)),
            spec_str_map(ev, i as int) == Some(d@),
        decreases n - i,
    {
        match &entries[i].1 {
            Val::Str(sv) => {
                d.insert(entries[i].0.clone(), sv.clone());
            }
            _ => {
                proof {
                    lemma_str_map_stays(ev, i + 1, n as int);
                }
                return Err(shape_error());
            }
        }
        i = i + 1;
    }
    Ok(d)
}

#[verifier::loop_isolation(false)]
fn read_val_map(entries: &Vec<(String, Val)>) -> (r: Dict<Val>)
    ensures
        spec_val_map(entry_views_of_vec(*entries, entries@.len() as int), entries@.len() as int)
            == r@,
{
    let ghost ev = entry_views_of_vec(*entries, entries@.len() as int);
    proof {
        lemma_entry_views_of_vec(*entries, entries@.len() as int);
    }
    let mut d: Dict<Val> = Dict::new();
    let n = entries.len();
    let mut i: usize = 0;
    while i < n
        invariant
            0 <= i <= n,
            n == entries@.len(),
            ev == entry_views_of_vec(*entries, entries@.len() as int),
            ev.len() == n,
            forall|j: int| 0 <= j < n
                ==> ev[j] == ((#[trigger] entries@[j]).0@, crate::value::view_of(entries@[j].1)),
            spec_val_map(ev, i as int) == d@,
        decreases n - i,
    {
        d.insert(entries[i].0.clone(), deep_copy(&entries[i].1));
        i = i + 1;
    }
    d
}

#[verifier::loop_isolation(false)]
fn read_str_list(items: &Vec<Val>) -> (r: Result<Vec<String>, Error>)
    ensures
        match r {
            Ok(v) => spec_str_list(views_of_vec(*items, items@.len() as int),
                items@.len() as int) == Some(v.deep_view()),
            Err(e) => spec_str_list(views_of_vec(*items, items@.len() as int),
                items@.len() as int) is None && e@ is Yaml,
        },
{
    let ghost iv = views_of_vec(*items, items@.len() as int);
    proof {
        lemma_views_of_vec(*items, items@.len() as int);
    }
    let mut out: Vec<String> = Vec::new();
    let n = items.len();
    let mut i: usize = 0;
    proof {
        assert(out.deep_view() =~= Seq::<Seq<char>>::empty());
    }
    while i < n
        invariant
            0 <= i <= n,
            n == items@.len(),
            iv == views_of_vec(*items, items@.len() as int),
            iv.len() == n,
            forall|j: int| 0 <= j < n ==> iv[j] == crate::value::view_of(#[trigger] items@[j]),
            spec_str_list(iv, i as int) == Some(out.deep_view()),
        decreases n - i,
    {
        match &items[i] {
            Val::Str(sv) => {
                let ghost pre = out.deep_view();
                out.push(sv.clone());
                proof {
                    assert(out.deep_view() =~= pre.push(sv@));
                }
            }
            _ => {
                proof {
                    lemma_str_list_stays(iv, i + 1, n as int);
                }
                return Err(shape_error());
            }
        }
        i = i + 1;
    }
    Ok(out)
}

fn obj_get<'a>(entries: &'a Vec<(String, Val)>, key: &str) -> (r: Option<&'a Val>)
    ensures
        match r {
            Some(v) => assoc(entry_views_of_vec(*entries, entries@.len() as int), key@)
                == Some(v@),
            None => assoc(entry_views_of_vec(*entries, entries@.len() as int), key@) is None,
        },
{
    let k = key.to_owned();
    entries_get(entries, &k)
}

fn read_opt_string(entries: &Vec<(String, Val)>, key: &str) -> (r: Result<Option<String>, Error>)
    ensures
        ({
            let looked = assoc(entry_views_of_vec(*entries, entries@.len() as int), key@);
            match r {
                Ok(v) => (match looked {
                    Some(ValView::Str(s)) => v.deep_view() == Some(s),
                    Some(ValView::Null) => v is None,
                    None => v is None,
                    Some(_) => false,
                }),
                Err(e) => !(looked is None || looked matches Some(ValView::Str(_))
                    || looked matches Some(ValView::Null)) && e@ is Yaml,
            }
        }),
{
    match obj_get(entries, key) {
        Some(v) => match v {
            Val::Str(s) => Ok(Some(s.clone())),
            Val::Null => Ok(None),
            _ => Err(shape_error()),
        },
        None => Ok(None),
    }
}

/// Read one step of a job.
#[verifier::rlimit(60)]
pub fn step_from_value(v: &Val) -> (r: Result<Step, Error>)
    ensures
        match r {
            Ok(s) => spec_step(v@) == Some(s@),
            Err(e) => spec_step(v@) is None && e@ is Yaml,
        },
{
    let entries = match v {
        Val::Obj(entries) => entries,
        _ => {
            return Err(shape_error());
        }
    };
    let ghost ev = entry_views_of_vec(*entries, entries@.len() as int);
    proof {
        lemma_entry_views_of_vec(*entries, entries@.len() as int);
        assert(v@ == ValView::Obj(ev));
    }
    let name = match read_opt_string(entries, "name") {
        Ok(x) => x,
        Err(e) => {
            return Err(e);
        }
    };
    let id = match read_opt_string(entries, "id") {
        Ok(x) => x,
        Err(e) => {
            return Err(e);
        }
    };
    let uses = match obj_get(entries, "uses") {
        Some(uv) => match uv {
            Val::Str(sv) => {
                proof {
                    assert(assoc(ev, "uses"@) == Some(ValView::Str(sv@)));
                }
                sv.clone()
            }
            _ => {
                return Err(shape_error());
            }
        },
        None => {
            return Err(shape_error());
        }
    };
    let with_args = match obj_get(entries, "with") {
        Some(wv) => match wv {
            Val::Obj(w) => {
                proof {
                    lemma_entry_views_of_vec(*w, w@.len() as int);
                    assert(assoc(ev, "with"@) == Some(ValView::Obj(entry_views_of_vec(
                        *w,
                        w@.len() as int,
                    ))));
                }
                read_val_map(w)
            }
            _ => {
                return Err(shape_error());
            }
        },
        None => Dict::new(),
    };
    let continue_on_error = match obj_get(entries, "continue-on-error") {
        Some(bv) => match bv {
            Val::Bool(b) => {
                proof {
                    assert(assoc(ev, "continue-on-error"@) == Some(ValView::Bool(*b)));
                }
                *b
            }
            _ => {
                return Err(shape_error());
            }
        },
        None => false,
    };
    let pre_assert = match obj_get(entries, "pre-assert") {
        Some(av) => match av {
            Val::Arr(items) => {
                proof {
                    lemma_views_of_vec(*items, items@.len() as int);
                    assert(assoc(ev, "pre-assert"@) == Some(ValView::Arr(views_of_vec(
                        *items,
                        items@.len() as int,
                    ))));
                }
                match read_str_list(items) {
                    Ok(x) => x,
                    Err(e) => {
                        return Err(e);
                    }
                }
            }
            _ => {
                return Err(shape_error());
            }
        },
        None => {
            let empty_list: Vec<String> = Vec::new();
            proof {
                assert(empty_list.deep_view() =~= Seq::<Seq<char>>::empty());
            }
            empty_list
        }
    };
    let post_assert = match obj_get(entries, "post-assert") {
        Some(av) => match av {
            Val::Arr(items) => {
                proof {
                    lemma_views_of_vec(*items, items@.len() as int);
                    assert(assoc(ev, "post-assert"@) == Some(ValView::Arr(views_of_vec(
                        *items,
                        items@.len() as int,
                    ))));
                }
                match read_str_list(items) {
                    Ok(x) => x,
                    Err(e) => {
                        return Err(e);
                    }
                }
            }
            _ => {
                return Err(shape_error());
            }
        },
        None => {
            let empty_list: Vec<String> = Vec::new();
            proof {
                assert(empty_list.deep_view() =~= Seq::<Seq<char>>::empty());
            }
            empty_list
        }
    };
    let s = Step { name, id, uses, with_args, continue_on_error, pre_assert, post_assert };
    Ok(s)
}


fn output_def_from_value(v: &Val) -> (r: Result<OutputDef, Error>)
    ensures
        match r {
            Ok(d) => spec_output_def(v@) == Some(d@),
            Err(e) => spec_output_def(v@) is None && e@ is Yaml,
        },
{
    let entries = match v {
        Val::Obj(entries) => entries,
        _ => {
            return Err(shape_error());
        }
    };
    proof {
        lemma_entry_views_of_vec(*entries, entries@.len() as int);
    }
    let description = match read_opt_string(entries, "description") {
        Ok(x) => x,
        Err(e) => {
            return Err(e);
        }
    };
    let value = match obj_get(entries, "value") {
        Some(vv) => match vv {
            Val::Str(sv) => sv.clone(),
            _ => {
                return Err(shape_error());
            }
        },
        None => {
            return Err(shape_error());
        }
    };
    Ok(OutputDef { description, value })
}

fn input_def_from_value(v: &Val) -> (r: Result<InputDef, Error>)
    ensures
        match r {
            Ok(d) => spec_input_def(v@) == Some(d@),
            Err(e) => spec_input_def(v@) is None && e@ is Yaml,
        },
{
    let entries = match v {
        Val::Obj(entries) => entries,
        _ => {
            return Err(shape_error());
        }
    };
    proof {
        lemma_entry_views_of_vec(*entries, entries@.len() as int);
    }
    let description = match read_opt_string(entries, "description") {
        Ok(x) => x,
        Err(e) => {
            return Err(e);
        }
    };
    let required = match obj_get(entries, "required") {
        Some(bv) => match bv {
            Val::Bool(b) => *b,
            _ => {
                return Err(shape_error());
            }
        },
        None => false,
    };
    let dflt = match obj_get(entries, "default") {
        Some(dv) => Some(deep_copy(dv)),
        None => None,
    };
    let input_type = match read_opt_string(entries, "type") {
        Ok(x) => x,
        Err(e) => {
            return Err(e);
        }
    };
    Ok(InputDef { description, required, default: dflt, input_type })
}

#[verifier::loop_isolation(false)]
fn call_config_from_value(v: &Val) -> (r: Result<WorkflowCallConfig, Error>)
    ensures
        match r {
            Ok(c) => spec_call_config(v@) == Some(c@),
            Err(e) => spec_call_config(v@) is None && e@ is Yaml,
        },
{
    let entries = match v {
        Val::Obj(entries) => entries,
        _ => {
            return Err(shape_error());
        }
    };
    let ghost ev = entry_views_of_vec(*entries, entries@.len() as int);
    proof {
        lemma_entry_views_of_vec(*entries, entries@.len() as int);
    }
    let inputs = match obj_get(entries, "inputs") {
        Some(iv) => match iv {
            Val::Obj(ie) => {
                let ghost iev = entry_views_of_vec(*ie, ie@.len() as int);
                proof {
                    lemma_entry_views_of_vec(*ie, ie@.len() as int);
                    assert(assoc(ev, "inputs"@) == Some(ValView::Obj(iev)));
                }
                let n = ie.len();
                let mut d: Dict<InputDef> = Dict::new();
                let mut i: usize = 0;
                while i < n
                    invariant
                        0 <= i <= n,
                        n == ie@.len(),
                        iev == entry_views_of_vec(*ie, ie@.len() as int),
                        iev.len() == n,
                        forall|j: int| 0 <= j < n ==> iev[j] == ((#[trigger] ie@[j]).0@,
                            crate::value::view_of(ie@[j].1)),
                        spec_input_defs(iev, i as int) == Some(d@),
                    decreases n - i,
                {
                    match input_def_from_value(&ie[i].1) {
                        Ok(def) => {
                            d.insert(ie[i].0.clone(), def);
                        }
                        Err(e) => {
                            proof {
                                lemma_input_defs_stays(iev, i + 1, n as int);
                            }
                            return Err(e);
                        }
                    }
                    i = i + 1;
                }
                d
            }
            Val::Null => Dict::new(),
            _ => {
                return Err(shape_error());
            }
        },
        None => Dict::new(),
    };
    let outputs = match obj_get(entries, "outputs") {
        Some(ov) => match ov {
            Val::Obj(oe) => {
                let ghost oev = entry_views_of_vec(*oe, oe@.len() as int);
                proof {
                    lemma_entry_views_of_vec(*oe, oe@.len() as int);
                    assert(assoc(ev, "outputs"@) == Some(ValView::Obj(oev)));
                }
                let n = oe.len();
                let mut d: Dict<OutputDef> = Dict::new();
                let mut i: usize = 0;
                while i < n
                    invariant
                        0 <= i <= n,
                        n == oe@.len(),
                        oev == entry_views_of_vec(*oe, oe@.len() as int),
                        oev.len() == n,
                        forall|j: int| 0 <= j < n ==> oev[j] == ((#[trigger] oe@[j]).0@,
                            crate::value::view_of(oe@[j].1)),
                        spec_output_defs(oev, i as int) == Some(d@),
                    decreases n - i,
                {
                    match output_def_from_value(&oe[i].1) {
                        Ok(def) => {
                            d.insert(oe[i].0.clone(), def);
                        }
                        Err(e) => {
                            proof {
                                lemma_output_defs_stays(oev, i + 1, n as int);
                            }
                            return Err(e);
                        }
                    }
                    i = i + 1;
                }
                d
            }
            Val::Null => Dict::new(),
            _ => {
                return Err(shape_error());
            }
        },
        None => Dict::new(),
    };
    Ok(WorkflowCallConfig { inputs, outputs })
}

fn trigger_from_value(v: &Val) -> (r: Result<WorkflowTrigger, Error>)
    ensures
        match r {
            Ok(t) => spec_trigger(v@) == Some(t@),
            Err(e) => spec_trigger(v@) is None && e@ is Yaml,
        },
{
    match v {
        Val::Null => Ok(WorkflowTrigger { workflow_call: None }),
        Val::Obj(entries) => {
            proof {
                lemma_entry_views_of_vec(*entries, entries@.len() as int);
            }
            match obj_get(entries, "workflow_call") {
                Some(cv) => match cv {
                    Val::Null => Ok(WorkflowTrigger { workflow_call: None }),
                    _ => match call_config_from_value(cv) {
                        Ok(cc) => Ok(WorkflowTrigger { workflow_call: Some(cc) }),
                        Err(e) => Err(e),
                    },
                },
                None => Ok(WorkflowTrigger { workflow_call: None }),
            }
        }
        _ => Err(shape_error()),
    }
}

#[verifier::loop_isolation(false)]
fn matrix_from_value(entries: &Vec<(String, Val)>) -> (r: Result<Matrix, Error>)
    ensures
        match r {
            Ok(m) => spec_matrix(entry_views_of_vec(*entries, entries@.len() as int),
                entries@.len() as int) == Some(m@),
            Err(e) => spec_matrix(entry_views_of_vec(*entries, entries@.len() as int),
                entries@.len() as int) is None && e@ is Yaml,
        },
{
    let ghost ev = entry_views_of_vec(*entries, entries@.len() as int);
    proof {
        lemma_entry_views_of_vec(*entries, entries@.len() as int);
    }
    let mut m = Matrix::new();
    let lit_add = "include".to_owned();
    let lit_exclude = "exclude".to_owned();
    let n = entries.len();
    let mut i: usize = 0;
    proof {
        assert(m@.added =~~= spec_matrix(ev, 0)->0.added);
        assert(m@.exclude =~~= spec_matrix(ev, 0)->0.exclude);
        assert(m@.dimensions =~~= spec_matrix(ev, 0)->0.dimensions);
        assert(spec_matrix(ev, 0) == Some(m@));
    }
    while i < n
        invariant
            0 <= i <= n,
            n == entries@.len(),
            ev == entry_views_of_vec(*entries, entries@.len() as int),
            ev.len() == n,
            lit_add@ == "include"@,
            lit_exclude@ == "exclude"@,
            forall|j: int| 0 <= j < n ==> ev[j] == ((#[trigger] entries@[j]).0@,
                crate::value::view_of(entries@[j].1)),
            spec_matrix(ev, i as int) == Some(m@),
        decreases n - i,
    {
        let key = &entries[i].0;
        if key.eq(&lit_add) {
            match &entries[i].1 {
                Val::Arr(items) => {
                    proof {
                        lemma_views_of_vec(*items, items@.len() as int);
                    }
                    match read_rows(items) {
                        Ok(rows) => {
                            m.added = rows;
                        }
                        Err(e) => {
                            proof {
                                lemma_matrix_stays(ev, i + 1, n as int);
                            }
                            return Err(e);
                        }
                    }
                }
                _ => {
                    proof {
                        lemma_matrix_stays(ev, i + 1, n as int);
                    }
                    return Err(shape_error());
                }
            }
        } else if key.eq(&lit_exclude) {
            match &entries[i].1 {
                Val::Arr(items) => {
                    proof {
                        lemma_views_of_vec(*items, items@.len() as int);
                    }
                    match read_rows(items) {
                        Ok(rows) => {
                            m.exclude = rows;
                        }
                        Err(e) => {
                            proof {
                                lemma_matrix_stays(ev, i + 1, n as int);
                            }
                            return Err(e);
                        }
                    }
                }
                _ => {
                    proof {
                        lemma_matrix_stays(ev, i + 1, n as int);
                    }
                    return Err(shape_error());
                }
            }
        } else {
            match &entries[i].1 {
                Val::Arr(items) => {
                    proof {
                        lemma_views_of_vec(*items, items@.len() as int);
                    }
                    let mut vals: Vec<Val> = Vec::new();
                    let nv = items.len();
                    let mut k: usize = 0;
                    while k < nv
                        invariant
                            0 <= k <= nv,
                            nv == items@.len(),
                            vals@.len() == k,
                            forall|j: int| 0 <= j < k ==> crate::value::view_of(
                                #[trigger] vals@[j],
                            ) == crate::value::view_of(items@[j]),
                        decreases nv - k,
                    {
                        vals.push(deep_copy(&items[k]));
                        k = k + 1;
                    }
                    proof {
                        lemma_views_of_vec(vals, vals@.len() as int);
                        assert(views_of_vec(vals, vals@.len() as int) =~= views_of_vec(
                            *items,
                            items@.len() as int,
                        ));
                        assert(vals.deep_view() =~= views_of_vec(vals, vals@.len() as int));
                    }
                    m.dimensions.insert(key.clone(), vals);
                }
                _ => {
                    proof {
                        lemma_matrix_stays(ev, i + 1, n as int);
                    }
                    return Err(shape_error());
                }
            }
        }
        i = i + 1;
    }
    Ok(m)
}

#[verifier::loop_isolation(false)]
fn read_rows(items: &Vec<Val>) -> (r: Result<Vec<Dict<Val>>, Error>)
    ensures
        match r {
            Ok(rows) => spec_row_list(views_of_vec(*items, items@.len() as int),
                items@.len() as int) == Some(rows.deep_view()),
            Err(e) => spec_row_list(views_of_vec(*items, items@.len() as int),
                items@.len() as int) is None && e@ is Yaml,
        },
{
    let ghost iv = views_of_vec(*items, items@.len() as int);
    proof {
        lemma_views_of_vec(*items, items@.len() as int);
    }
    let mut out: Vec<Dict<Val>> = Vec::new();
    let n = items.len();
    let mut i: usize = 0;
    proof {
        assert(out.deep_view() =~~= Seq::<Seq<(Seq<char>, ValView)>>::empty());
    }
    while i < n
        invariant
            0 <= i <= n,
            n == items@.len(),
            iv == views_of_vec(*items, items@.len() as int),
            iv.len() == n,
            forall|j: int| 0 <= j < n ==> iv[j] == crate::value::view_of(#[trigger] items@[j]),
            spec_row_list(iv, i as int) == Some(out.deep_view()),
        decreases n - i,
    {
        match &items[i] {
            Val::Obj(es) => {
                proof {
                    lemma_entry_views_of_vec(*es, es@.len() as int);
                }
                let row = read_val_map(es);
                let ghost pre = out.deep_view();
                out.push(row);
                proof {
                    assert(out.deep_view() =~~= pre.push(row@));
                }
            }
            _ => {
                proof {
                    lemma_row_list_stays(iv, i + 1, n as int);
                }
                return Err(shape_error());
            }
        }
        i = i + 1;
    }
    Ok(out)
}

fn strategy_from_value(v: &Val) -> (r: Result<Strategy, Error>)
    ensures
        match r {
            Ok(s) => spec_strategy(v@) == Some(s@),
            Err(e) => spec_strategy(v@) is None && e@ is Yaml,
        },
{
    let entries = match v {
        Val::Obj(entries) => entries,
        _ => {
            return Err(shape_error());
        }
    };
    proof {
        lemma_entry_views_of_vec(*entries, entries@.len() as int);
    }
    let matrix = match obj_get(entries, "matrix") {
        Some(mv) => match mv {
            Val::Obj(me) => {
                proof {
                    lemma_entry_views_of_vec(*me, me@.len() as int);
                }
                match matrix_from_value(me) {
                    Ok(m) => m,
                    Err(e) => {
                        return Err(e);
                    }
                }
            }
            _ => {
                return Err(shape_error());
            }
        },
        None => Matrix::new(),
    };
    let fail_fast = match obj_get(entries, "fail-fast") {
        Some(bv) => match bv {
            Val::Bool(b) => *b,
            _ => {
                return Err(shape_error());
            }
        },
        None => true,
    };
    let max_parallel = match obj_get(entries, "max-parallel") {
        Some(nv) => match nv {
            Val::Int(iv) => {
                if *iv >= 0 {
                    let as_u = *iv as u64;
                    if as_u <= usize::MAX as u64 {
                        Some(as_u as usize)
                    } else {
                        return Err(shape_error());
                    }
                } else {
                    return Err(shape_error());
                }
            }
            Val::Null => None,
            _ => {
                return Err(shape_error());
            }
        },
        None => None,
    };
    let s = Strategy { matrix, fail_fast, max_parallel };
    proof {
        match spec_strategy(v@) {
            Some(sv) => {
                assert(sv.matrix.added =~~= s@.matrix.added);
                assert(sv.matrix.exclude =~~= s@.matrix.exclude);
                assert(sv.matrix.dimensions =~~= s@.matrix.dimensions);
            }
            None => {
                assert(false);
            }
        }
    }
    Ok(s)
}

/// Read one job of a workflow.
#[verifier::loop_isolation(false)]
pub fn job_from_value(v: &Val) -> (r: Result<Job, Error>)
    ensures
        match r {
            Ok(j) => spec_job(v@) == Some(j@),
            Err(e) => spec_job(v@) is None && e@ is Yaml,
        },
{
    let entries = match v {
        Val::Obj(entries) => entries,
        _ => {
            return Err(shape_error());
        }
    };
    let ghost ev = entry_views_of_vec(*entries, entries@.len() as int);
    proof {
        lemma_entry_views_of_vec(*entries, entries@.len() as int);
    }
    let name = match read_opt_string(entries, "name") {
        Ok(x) => x,
        Err(e) => {
            return Err(e);
        }
    };
    let needs = match obj_get(entries, "needs") {
        Some(nv) => match nv {
            Val::Null => JobNeeds::Absent,
            Val::Str(sv) => JobNeeds::Single(sv.clone()),
            Val::Arr(items) => {
                proof {
                    lemma_views_of_vec(*items, items@.len() as int);
                    assert(assoc(ev, "needs"@) == Some(ValView::Arr(views_of_vec(
                        *items,
                        items@.len() as int,
                    ))));
                }
                match read_str_list(items) {
                    Ok(list) => JobNeeds::Multiple(list),
                    Err(e) => {
                        return Err(e);
                    }
                }
            }
            _ => {
                return Err(shape_error());
            }
        },
        None => JobNeeds::Absent,
    };
    let uses = match read_opt_string(entries, "uses") {
        Ok(x) => x,
        Err(e) => {
            return Err(e);
        }
    };
    let with_args = match obj_get(entries, "with") {
        Some(wv) => match wv {
            Val::Obj(w) => {
                proof {
                    lemma_entry_views_of_vec(*w, w@.len() as int);
                    assert(assoc(ev, "with"@) == Some(ValView::Obj(entry_views_of_vec(
                        *w,
                        w@.len() as int,
                    ))));
                }
                read_val_map(w)
            }
            _ => {
                return Err(shape_error());
            }
        },
        None => Dict::new(),
    };
    let strategy = match obj_get(entries, "strategy") {
        Some(sv) => match sv {
            Val::Null => None,
            _ => match strategy_from_value(sv) {
                Ok(st) => Some(st),
                Err(e) => {
                    return Err(e);
                }
            },
        },
        None => None,
    };
    let outputs = match obj_get(entries, "outputs") {
        Some(ov) => match ov {
            Val::Obj(oe) => {
                proof {
                    lemma_entry_views_of_vec(*oe, oe@.len() as int);
                    assert(assoc(ev, "outputs"@) == Some(ValView::Obj(entry_views_of_vec(
                        *oe,
                        oe@.len() as int,
                    ))));
                }
                match read_str_map(oe) {
                    Ok(d) => d,
                    Err(e) => {
                        return Err(e);
                    }
                }
            }
            _ => {
                return Err(shape_error());
            }
        },
        None => Dict::new(),
    };
    let env = match obj_get(entries, "env") {
        Some(ev2) => match ev2 {
            Val::Obj(ee) => {
                proof {
                    lemma_entry_views_of_vec(*ee, ee@.len() as int);
                    assert(assoc(ev, "env"@) == Some(ValView::Obj(entry_views_of_vec(
                        *ee,
                        ee@.len() as int,
                    ))));
                }
                match read_str_map(ee) {
                    Ok(d) => d,
                    Err(e) => {
                        return Err(e);
                    }
                }
            }
            _ => {
                return Err(shape_error());
            }
        },
        None => Dict::new(),
    };
    let steps = match obj_get(entries, "steps") {
        Some(sv) => match sv {
            Val::Arr(items) => {
                let ghost iv = views_of_vec(*items, items@.len() as int);
                proof {
                    lemma_views_of_vec(*items, items@.len() as int);
                    assert(assoc(ev, "steps"@) == Some(ValView::Arr(iv)));
                }
                let mut out: Vec<Step> = Vec::new();
                let ns = items.len();
                let mut k: usize = 0;
                proof {
                    assert(out.deep_view() =~~= Seq::<StepView>::empty());
                }
                while k < ns
                    invariant
                        0 <= k <= ns,
                        ns == items@.len(),
                        iv == views_of_vec(*items, items@.len() as int),
                        iv.len() == ns,
                        forall|j: int| 0 <= j < ns ==> iv[j] == crate::value::view_of(
                            #[trigger] items@[j],
                        ),
                        spec_steps(iv, k as int) == Some(out.deep_view()),
                    decreases ns - k,
                {
                    match step_from_value(&items[k]) {
                        Ok(st) => {
                            let ghost pre = out.deep_view();
                            let ghost stv = st@;
                            out.push(st);
                            proof {
                                assert(out.deep_view() =~~= pre.push(stv));
                            }
                        }
                        Err(e) => {
                            proof {
                                lemma_steps_stays(iv, k + 1, ns as int);
                            }
                            return Err(e);
                        }
                    }
                    k = k + 1;
                }
                out
            }
            Val::Null => {
                let empty_steps: Vec<Step> = Vec::new();
                proof {
                    assert(empty_steps.deep_view() =~~= Seq::<StepView>::empty());
                }
                empty_steps
            }
            _ => {
                return Err(shape_error());
            }
        },
        None => {
            let empty_steps: Vec<Step> = Vec::new();
            proof {
                assert(empty_steps.deep_view() =~~= Seq::<StepView>::empty());
            }
            empty_steps
        }
    };
    let j = Job { name, needs, uses, with_args, strategy, outputs, env, steps };
    Ok(j)
}

/// Read a whole workflow document from its value tree.
#[verifier::loop_isolation(false)]
pub fn workflow_from_value(v: &Val) -> (r: Result<Workflow, Error>)
    ensures
        match r {
            Ok(w) => spec_workflow(v@) == Some(w@),
            Err(e) => spec_workflow(v@) is None && e@ is Yaml,
        },
{
    let entries = match v {
        Val::Obj(entries) => entries,
        _ => {
            return Err(shape_error());
        }
    };
    let ghost ev = entry_views_of_vec(*entries, entries@.len() as int);
    proof {
        lemma_entry_views_of_vec(*entries, entries@.len() as int);
    }
    let name = match obj_get(entries, "name") {
        Some(nv) => match nv {
            Val::Str(sv) => sv.clone(),
            _ => {
                return Err(shape_error());
            }
        },
        None => {
            return Err(shape_error());
        }
    };
    let on = match obj_get(entries, "on") {
        Some(tv) => match tv {
            Val::Null => None,
            _ => match trigger_from_value(tv) {
                Ok(t) => Some(t),
                Err(e) => {
                    return Err(e);
                }
            },
        },
        None => None,
    };
    let env = match obj_get(entries, "env") {
        Some(ev2) => match ev2 {
            Val::Obj(ee) => {
                proof {
                    lemma_entry_views_of_vec(*ee, ee@.len() as int);
                    assert(assoc(ev, "env"@) == Some(ValView::Obj(entry_views_of_vec(
                        *ee,
                        ee@.len() as int,
                    ))));
                }
                match read_str_map(ee) {
                    Ok(d) => d,
                    Err(e) => {
                        return Err(e);
                    }
                }
            }
            Val::Null => Dict::new(),
            _ => {
                return Err(shape_error());
            }
        },
        None => Dict::new(),
    };
    let jobs = match obj_get(entries, "jobs") {
        Some(jv) => match jv {
            Val::Obj(je) => {
                let ghost jev = entry_views_of_vec(*je, je@.len() as int);
                proof {
                    lemma_entry_views_of_vec(*je, je@.len() as int);
                    assert(assoc(ev, "jobs"@) == Some(ValView::Obj(jev)));
                }
                let mut d: Dict<Job> = Dict::new();
                let nj = je.len();
                let mut k: usize = 0;
                while k < nj
                    invariant
                        0 <= k <= nj,
                        nj == je@.len(),
                        jev == entry_views_of_vec(*je, je@.len() as int),
                        jev.len() == nj,
                        forall|j: int| 0 <= j < nj ==> jev[j] == ((#[trigger] je@[j]).0@,
                            crate::value::view_of(je@[j].1)),
                        spec_jobs(jev, k as int) == Some(d@),
                    decreases nj - k,
                {
                    match job_from_value(&je[k].1) {
                        Ok(job) => {
                            d.insert(je[k].0.clone(), job);
                        }
                        Err(e) => {
                            proof {
                                lemma_jobs_stays(jev, k + 1, nj as int);
                            }
                            return Err(e);
                        }
                    }
                    k = k + 1;
                }
                d
            }
            Val::Null => Dict::new(),
            _ => {
                return Err(shape_error());
            }
        },
        None => Dict::new(),
    };
    let w = Workflow { name, on, env, jobs };
    Ok(w)
}

impl Workflow {
    /// Read a workflow from YAML text: the text is parsed into a value
    /// tree, and the tree is held to the workflow shape.
    pub fn from_yaml(yaml: &str) -> (r: Result<Workflow, Error>)
        ensures
            match r {
                Ok(w) => yaml_doc(yaml@) matches Some(doc) && spec_workflow(doc) == Some(w@),
                Err(e) => (yaml_doc(yaml@) is None || spec_workflow(yaml_doc(yaml@)->0)
                    is None) && e@ is Yaml,
            },
    {
        match yaml_parse_exec(yaml) {
            Ok(doc) => workflow_from_value(&doc),
            Err(m) => Err(Error::Yaml(m)),
        }
    }
}

} // verus!
