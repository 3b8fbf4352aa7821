use vstd::prelude::*;

use crate::dict::Dict;
use crate::model::{Job, JobNeeds, JobView, Step, StepView, Workflow, WorkflowView};
use crate::schedule::{contains_name, keys_of, schedulable_order, stuck_keys};
use crate::strutil::{chars_to_string, str_to_chars, subvec, trim_vec, trimmed};
use crate::value::{assoc, has_pair_key, push_str_chars};
use crate::workflow_registry::{
    is_file_ref, parse_file_ref, spec_is_file_ref, spec_parse_file_ref, WorkflowRegistry,
};

verus! {

/// What the pre-flight check can object to.
#[derive(Debug)]
pub enum ValidationError {
    JobDependencyNotFound { workflow: String, job: String, dependency: String },
    FileReferenceNotFound { workflow: String, job: String, file_ref: String },
    InvalidFileReference { workflow: String, job: String, uses: String },
    CircularJobDependency { workflow: String, chain: Vec<String> },
    DuplicateStepId { workflow: String, job: String, step_id: String },
    InvalidOutputExpression {
        workflow: String,
        job: String,
        output_name: String,
        expression: String,
        reason: String,
    },
    ReusableWorkflowMissingOutputs { workflow: String, job: String, file_ref: String },
}

pub enum ValidationErrorView {
    JobDependencyNotFound { workflow: Seq<char>, job: Seq<char>, dependency: Seq<char> },
    FileReferenceNotFound { workflow: Seq<char>, job: Seq<char>, file_ref: Seq<char> },
    InvalidFileReference { workflow: Seq<char>, job: Seq<char>, uses: Seq<char> },
    CircularJobDependency { workflow: Seq<char>, chain: Seq<Seq<char>> },
    DuplicateStepId { workflow: Seq<char>, job: Seq<char>, step_id: Seq<char> },
    InvalidOutputExpression {
        workflow: Seq<char>,
        job: Seq<char>,
        output_name: Seq<char>,
        expression: Seq<char>,
        reason: Seq<char>,
    },
    ReusableWorkflowMissingOutputs { workflow: Seq<char>, job: Seq<char>, file_ref: Seq<char> },
}

impl View for ValidationError {
    type V = ValidationErrorView;

    open spec fn view(&self) -> ValidationErrorView {
        match self {
            ValidationError::JobDependencyNotFound { workflow, job, dependency } =>
                ValidationErrorView::JobDependencyNotFound {
                workflow: workflow@,
                job: job@,
                dependency: dependency@,
            },
            ValidationError::FileReferenceNotFound { workflow, job, file_ref } =>
                ValidationErrorView::FileReferenceNotFound {
                workflow: workflow@,
                job: job@,
                file_ref: file_ref@,
            },
            ValidationError::InvalidFileReference { workflow, job, uses } =>
                ValidationErrorView::InvalidFileReference {
                workflow: workflow@,
                job: job@,
                uses: uses@,
            },
            ValidationError::CircularJobDependency { workflow, chain } =>
                ValidationErrorView::CircularJobDependency {
                workflow: workflow@,
                chain: chain.deep_view(),
            },
            ValidationError::DuplicateStepId { workflow, job, step_id } =>
                ValidationErrorView::DuplicateStepId {
                workflow: workflow@,
                job: job@,
                step_id: step_id@,
            },
            ValidationError::InvalidOutputExpression {
                workflow,
                job,
                output_name,
                expression,
                reason,
            } => ValidationErrorView::InvalidOutputExpression {
                workflow: workflow@,
                job: job@,
                output_name: output_name@,
                expression: expression@,
                reason: reason@,
            },
            ValidationError::ReusableWorkflowMissingOutputs { workflow, job, file_ref } =>
                ValidationErrorView::ReusableWorkflowMissingOutputs {
                workflow: workflow@,
                job: job@,
                file_ref: file_ref@,
            },
        }
    }
}

impl DeepView for ValidationError {
    type V = ValidationErrorView;

    open spec fn deep_view(&self) -> ValidationErrorView {
        self.view()
    }
}

/// What the pre-flight check points out without objecting.
#[derive(Debug)]
pub enum ValidationWarning {
    EmptyWorkflow { workflow: String },
    JobWithNoSteps { workflow: String, job: String },
    UnusedReusableWorkflow { workflow: String },
    StepWithoutId { workflow: String, job: String, step_index: usize, step_uses: String },
}

pub enum ValidationWarningView {
    EmptyWorkflow { workflow: Seq<char> },
    JobWithNoSteps { workflow: Seq<char>, job: Seq<char> },
    UnusedReusableWorkflow { workflow: Seq<char> },
    StepWithoutId {
        workflow: Seq<char>,
        job: Seq<char>,
        step_index: usize,
        step_uses: Seq<char>,
    },
}

impl View for ValidationWarning {
    type V = ValidationWarningView;

    open spec fn view(&self) -> ValidationWarningView {
        match self {
            ValidationWarning::EmptyWorkflow { workflow } => ValidationWarningView::EmptyWorkflow {
                workflow: workflow@,
            },
            ValidationWarning::JobWithNoSteps { workflow, job } =>
                ValidationWarningView::JobWithNoSteps { workflow: workflow@, job: job@ },
            ValidationWarning::UnusedReusableWorkflow { workflow } =>
                ValidationWarningView::UnusedReusableWorkflow { workflow: workflow@ },
            ValidationWarning::StepWithoutId { workflow, job, step_index, step_uses } =>
                ValidationWarningView::StepWithoutId {
                workflow: workflow@,
                job: job@,
                step_index: *step_index,
                step_uses: step_uses@,
            },
        }
    }
}

impl DeepView for ValidationWarning {
    type V = ValidationWarningView;

    open spec fn deep_view(&self) -> ValidationWarningView {
        self.view()
    }
}

/// Everything the pre-flight check found.
#[derive(Debug)]
pub struct ValidationReport {
    pub errors: Vec<ValidationError>,
    pub warnings: Vec<ValidationWarning>,
}

pub struct ValidationReportView {
    pub errors: Seq<ValidationErrorView>,
    pub warnings: Seq<ValidationWarningView>,
}

impl View for ValidationReport {
    type V = ValidationReportView;

    open spec fn view(&self) -> ValidationReportView {
        ValidationReportView {
            errors: self.errors.deep_view(),
            warnings: self.warnings.deep_view(),
        }
    }
}

impl ValidationReport {
    pub fn new() -> (r: Self)
        ensures
            r@.errors.len() == 0,
            r@.warnings.len() == 0,
    {
        let r = ValidationReport { errors: Vec::new(), warnings: Vec::new() };
        proof {
            assert(r@.errors =~= Seq::<ValidationErrorView>::empty());
            assert(r@.warnings =~= Seq::<ValidationWarningView>::empty());
        }
        r
    }

    /// A registry is valid when nothing was objected to.
    pub fn is_valid(&self) -> (r: bool)
        ensures
            r == (self@.errors.len() == 0),
    {
        self.errors.len() == 0
    }

    pub fn error_count(&self) -> (r: usize)
        ensures
            r == self@.errors.len(),
    {
        self.errors.len()
    }

    pub fn warning_count(&self) -> (r: usize)
        ensures
            r == self@.warnings.len(),
    {
        self.warnings.len()
    }

    pub fn add_error(&mut self, error: ValidationError)
        ensures
            final(self)@.errors == old(self)@.errors.push(error@),
            final(self)@.warnings == old(self)@.warnings,
    {
        let ghost ev = error@;
        self.errors.push(error);
        proof {
            assert(self@.errors =~= old(self)@.errors.push(ev));
        }
    }

    pub fn add_warning(&mut self, warning: ValidationWarning)
        ensures
            final(self)@.warnings == old(self)@.warnings.push(warning@),
            final(self)@.errors == old(self)@.errors,
    {
        let ghost wv = warning@;
        self.warnings.push(warning);
        proof {
            assert(self@.warnings =~= old(self)@.warnings.push(wv));
        }
    }
}

impl Default for ValidationReport {
    fn default() -> (r: Self)
        ensures
            r@.errors.len() == 0,
            r@.warnings.len() == 0,
    {
        ValidationReport::new()
    }
}

// ---------------------------------------------------------------------
// the single checks

/// The errors for the declared predecessors that name no job, in order.
pub open spec fn spec_dep_errors(
    path: Seq<char>,
    job: Seq<char>,
    needs: Seq<Seq<char>>,
    keys: Seq<Seq<char>>,
    n: int,
) -> Seq<ValidationErrorView>
    decreases n,
{
    if n <= 0 || n > needs.len() {
        Seq::empty()
    } else if contains_name(keys, needs[n - 1]) {
        spec_dep_errors(path, job, needs, keys, n - 1)
    } else {
        spec_dep_errors(path, job, needs, keys, n - 1).push(
            ValidationErrorView::JobDependencyNotFound {
                workflow: path,
                job,
                dependency: needs[n - 1],
            },
        )
    }
}

/// Object to every declared predecessor of the job that names no job of
/// the workflow.
pub fn validate_job_dependencies(
    workflow_path: &String,
    job_name: &String,
    needs: &JobNeeds,
    jobs: &Dict<Job>,
    report: &mut ValidationReport,
)
    ensures
        final(report)@.errors == old(report)@.errors + spec_dep_errors(workflow_path@, job_name@,
            needs@, keys_of(jobs@), needs@.len() as int),
        final(report)@.warnings == old(report)@.warnings,
{
    let names = needs.as_vec();
    let n = names.len();
    let mut i: usize = 0;
    proof {
        assert(names.deep_view() == needs@);
        assert(report@.errors =~= old(report)@.errors + spec_dep_errors(workflow_path@, job_name@,
            needs@, keys_of(jobs@), 0));
    }
    while i < n
        invariant
            0 <= i <= n,
            n == names@.len(),
            names.deep_view() == needs@,
            report@.errors == old(report)@.errors + spec_dep_errors(workflow_path@, job_name@,
                needs@, keys_of(jobs@), i as int),
            report@.warnings == old(report)@.warnings,
        decreases n - i,
    {
        proof {
            assert(names.deep_view()[i as int] == names@[i as int]@);
        }
        if !jobs.contains_key(&names[i]) {
            proof {
                lemma_has_key_is_contains(jobs@, names@[i as int]@);
            }
            report.add_error(ValidationError::JobDependencyNotFound {
                workflow: workflow_path.clone(),
                job: job_name.clone(),
                dependency: names[i].clone(),
            });
            proof {
                assert(report@.errors =~= old(report)@.errors + spec_dep_errors(workflow_path@,
                    job_name@, needs@, keys_of(jobs@), i + 1));
            }
        } else {
            proof {
                lemma_has_key_is_contains(jobs@, names@[i as int]@);
            }
        }
        i = i + 1;
    }
}

proof fn lemma_has_key_is_contains(js: Seq<(Seq<char>, JobView)>, x: Seq<char>)
    ensures
        has_pair_key(js, x) == contains_name(keys_of(js), x),
{
    if has_pair_key(js, x) {
        let w = choose|w: int| 0 <= w < js.len() && js[w].0 == x;
        assert(keys_of(js)[w] == x);
    }
    if contains_name(keys_of(js), x) {
        let w = choose|w: int| 0 <= w < keys_of(js).len() && keys_of(js)[w] == x;
        assert(js[w].0 == x);
    }
}

/// Has some earlier step already declared this id?
pub open spec fn id_seen(steps: Seq<StepView>, i: int, id: Seq<char>) -> bool {
    exists|k: int| 0 <= k < i && (#[trigger] steps[k]).id == Some(id)
}

/// The duplicate-id errors of a job's steps, in order.
pub open spec fn spec_dup_id_errors(
    path: Seq<char>,
    job: Seq<char>,
    steps: Seq<StepView>,
    n: int,
) -> Seq<ValidationErrorView>
    decreases n,
{
    if n <= 0 || n > steps.len() {
        Seq::empty()
    } else {
        let pre = spec_dup_id_errors(path, job, steps, n - 1);
        match steps[n - 1].id {
            Some(id) => if id_seen(steps, n - 1, id) {
                pre.push(ValidationErrorView::DuplicateStepId { workflow: path, job, step_id: id })
            } else {
                pre
            },
            None => pre,
        }
    }
}

/// Object to every step whose id repeats an earlier step's id.
pub fn validate_step_ids(
    workflow_path: &String,
    job_name: &String,
    steps: &Vec<Step>,
    report: &mut ValidationReport,
)
    ensures
        final(report)@.errors == old(report)@.errors + spec_dup_id_errors(workflow_path@,
            job_name@, steps.deep_view(), steps.deep_view().len() as int),
        final(report)@.warnings == old(report)@.warnings,
{
    let ghost sv = steps.deep_view();
    let mut seen: Vec<String> = Vec::new();
    let n = steps.len();
    let mut i: usize = 0;
    proof {
        assert(report@.errors =~= old(report)@.errors + spec_dup_id_errors(workflow_path@,
            job_name@, sv, 0));
    }
    while i < n
        invariant
            0 <= i <= n,
            n == steps@.len(),
            sv == steps.deep_view(),
            sv.len() == n,
            report@.errors == old(report)@.errors + spec_dup_id_errors(workflow_path@, job_name@,
                sv, i as int),
            report@.warnings == old(report)@.warnings,
            forall|x: Seq<char>| contains_name(seen.deep_view(), x) <==> id_seen(sv, i as int, x),
        decreases n - i,
    {
        proof {
            assert(sv[i as int] == steps@[i as int].deep_view());
        }
        match &steps[i].id {
            Some(id) => {
                let mut found = false;
                let m = seen.len();
                let mut k: usize = 0;
                while k < m
                    invariant
                        0 <= k <= m,
                        m == seen@.len(),
                        found ==> contains_name(seen.deep_view(), id@),
                        !found ==> forall|j: int| 0 <= j < k ==> seen.deep_view()[j] != id@,
                    decreases m - k,
                {
                    if seen[k].eq(id) {
                        proof {
                            assert(seen.deep_view()[k as int] == id@);
                        }
                        found = true;
                    }
                    k = k + 1;
                }
                if found {
                    proof {
                        assert(id_seen(sv, i as int, id@));
                    }
                    report.add_error(ValidationError::DuplicateStepId {
                        workflow: workflow_path.clone(),
                        job: job_name.clone(),
                        step_id: id.clone(),
                    });
                    proof {
                        assert(sv[i as int].id == Some(id@));
                        assert(report@.errors =~= old(report)@.errors + spec_dup_id_errors(
                            workflow_path@, job_name@, sv, i + 1));
                    }
                } else {
                    proof {
                        assert(!contains_name(seen.deep_view(), id@));
                        assert(!id_seen(sv, i as int, id@));
                        assert(sv[i as int].id == Some(id@));
                    }
                    let ghost seen0 = seen.deep_view();
                    seen.push(id.clone());
                    proof {
                        assert(seen.deep_view() =~= seen0.push(id@));
                        assert forall|x: Seq<char>| contains_name(seen.deep_view(), x)
                            <==> id_seen(sv, i + 1, x) by {
                            if contains_name(seen.deep_view(), x) {
                                let w = choose|w: int| 0 <= w < seen.deep_view().len()
                                    && seen.deep_view()[w] == x;
                                if w < seen0.len() {
                                    assert(contains_name(seen0, x));
                                    let k2 = choose|k2: int| 0 <= k2 < i && (#[trigger] sv[k2]).id
                                        == Some(x);
                                    assert(sv[k2].id == Some(x));
                                } else {
                                    assert(x == id@);
                                    assert(sv[i as int].id == Some(x));
                                }
                            }
                            if id_seen(sv, i + 1, x) {
                                let k2 = choose|k2: int| 0 <= k2 < i + 1 && (#[trigger] sv[k2]).id
                                    == Some(x);
                                if k2 < i {
                                    assert(id_seen(sv, i as int, x));
                                    assert(contains_name(seen0, x));
                                    let w = choose|w: int| 0 <= w < seen0.len() && seen0[w] == x;
                                    assert(seen.deep_view()[w] == x);
                                } else {
                                    assert(x == id@);
                                    assert(seen.deep_view()[seen0.len() as int] == x);
                                }
                            }
                        }
                    }
                }
            }
            None => {
                proof {
                    assert(sv[i as int].id is None);
                }
            }
        }
        i = i + 1;
    }
}

/// If a job declares the same id on two steps, the validator objects.
pub proof fn lemma_step_id_flagged(
    path: Seq<char>,
    job: Seq<char>,
    steps: Seq<StepView>,
    i: int,
    j: int,
    id: Seq<char>,
)
    requires
        0 <= i < j < steps.len(),
        steps[i].id == Some(id),
        steps[j].id == Some(id),
    ensures
        spec_dup_id_errors(path, job, steps, steps.len() as int).len() > 0,
{
    assert(id_seen(steps, j, id));
    lemma_dup_errors_grow(path, job, steps, j + 1, steps.len() as int);
    assert(spec_dup_id_errors(path, job, steps, j + 1).len() > 0);
}

proof fn lemma_dup_errors_grow(
    path: Seq<char>,
    job: Seq<char>,
    steps: Seq<StepView>,
    k: int,
    n: int,
)
    requires
        0 <= k <= n <= steps.len(),
    ensures
        spec_dup_id_errors(path, job, steps, n).len() >= spec_dup_id_errors(path, job, steps,
            k).len(),
    decreases n - k,
{
    if k < n {
        lemma_dup_errors_grow(path, job, steps, k, n - 1);
    }
}

// ---------------------------------------------------------------------
// output expressions

/// The step id named by an output expression of the shape
/// `${{ steps.<id>. ... }}`; anything else names none.
pub open spec fn spec_extract_step_reference(s: Seq<char>) -> Option<Seq<char>> {
    let t = trimmed(s);
    if t.len() >= 5 && t.subrange(0, 3) == seq!['$', '{', '{'] && t.subrange(
        t.len() - 2,
        t.len() as int,
    ) == seq!['}', '}'] {
        let inner = trimmed(t.subrange(3, t.len() - 2));
        if inner.len() >= 6 && inner.subrange(0, 6) == seq!['s', 't', 'e', 'p', 's', '.'] {
            let rest = inner.subrange(6, inner.len() as int);
            let d = crate::expr::find_char(rest, '.', 0);
            if d < rest.len() {
                Some(rest.subrange(0, d))
            } else {
                None
            }
        } else {
            None
        }
    } else {
        None
    }
}

/// The step id named by an output expression, where it names one.
pub fn extract_step_reference(expression: &str) -> (r: Option<String>)
    ensures
        match r {
            Some(v) => spec_extract_step_reference(expression@) == Some(v@),
            None => spec_extract_step_reference(expression@) is None,
        },
{
    let chars = str_to_chars(expression);
    let t = trim_vec(&chars);
    let tn = t.len();
    if tn < 5 {
        return None;
    }
    if !(t[0] == '$' && t[1] == '{' && t[2] == '{' && t[tn - 2] == '}' && t[tn - 1] == '}') {
        proof {
            assert(t@.subrange(0, 3) != seq!['$', '{', '{'] || t@.subrange(tn - 2, tn as int)
                != seq!['}', '}']) by {
                if t@.subrange(0, 3) == seq!['$', '{', '{'] && t@.subrange(tn - 2, tn as int)
                    == seq!['}', '}'] {
                    assert(t@.subrange(0, 3)[0] == '$');
                    assert(t@.subrange(0, 3)[1] == '{');
                    assert(t@.subrange(0, 3)[2] == '{');
                    assert(t@.subrange(tn - 2, tn as int)[0] == '}');
                    assert(t@.subrange(tn - 2, tn as int)[1] == '}');
                }
            }
        }
        return None;
    }
    proof {
        assert(t@.subrange(0, 3) =~= seq!['$', '{', '{']);
        assert(t@.subrange(tn - 2, tn as int) =~= seq!['}', '}']);
    }
    let inner = trim_vec(&subvec(&t, 3, tn - 2));
    let inn = inner.len();
    if inn < 6 {
        return None;
    }
    if !(inner[0] == 's' && inner[1] == 't' && inner[2] == 'e' && inner[3] == 'p'
        && inner[4] == 's' && inner[5] == '.') {
        proof {
            assert(inner@.subrange(0, 6) != seq!['s', 't', 'e', 'p', 's', '.']) by {
                if inner@.subrange(0, 6) == seq!['s', 't', 'e', 'p', 's', '.'] {
                    assert(inner@.subrange(0, 6)[0] == 's');
                    assert(inner@.subrange(0, 6)[1] == 't');
                    assert(inner@.subrange(0, 6)[2] == 'e');
                    assert(inner@.subrange(0, 6)[3] == 'p');
                    assert(inner@.subrange(0, 6)[4] == 's');
                    assert(inner@.subrange(0, 6)[5] == '.');
                }
            }
        }
        return None;
    }
    proof {
        assert(inner@.subrange(0, 6) =~= seq!['s', 't', 'e', 'p', 's', '.']);
    }
    let rest = subvec(&inner, 6, inn);
    let d = crate::expr::find_char_exec(&rest, '.', 0);
    if d < rest.len() {
        Some(chars_to_string(&subvec(&rest, 0, d)))
    } else {
        None
    }
}

/// The errors for declared outputs that reference a step id the job does
/// not declare, in order.
pub open spec fn spec_output_errors(
    path: Seq<char>,
    job: Seq<char>,
    outputs: Seq<(Seq<char>, Seq<char>)>,
    steps: Seq<StepView>,
    n: int,
) -> Seq<ValidationErrorView>
    decreases n,
{
    if n <= 0 || n > outputs.len() {
        Seq::empty()
    } else {
        let pre = spec_output_errors(path, job, outputs, steps, n - 1);
        match spec_extract_step_reference(outputs[n - 1].1) {
            Some(step_ref) => if step_has_id(steps, step_ref) {
                pre
            } else {
                pre.push(ValidationErrorView::InvalidOutputExpression {
                    workflow: path,
                    job,
                    output_name: outputs[n - 1].0,
                    expression: outputs[n - 1].1,
                    reason: "references non-existent step id '"@ + step_ref + seq!['\''],
                })
            },
            None => pre,
        }
    }
}

pub open spec fn step_has_id(steps: Seq<StepView>, id: Seq<char>) -> bool {
    exists|k: int| 0 <= k < steps.len() && (#[trigger] steps[k]).id == Some(id)
}

/// Object to every declared output whose expression references a step id
/// that no step of the job declares.
pub fn validate_job_outputs(
    workflow_path: &String,
    job_name: &String,
    outputs: &Dict<String>,
    steps: &Vec<Step>,
    report: &mut ValidationReport,
)
    ensures
        final(report)@.errors == old(report)@.errors + spec_output_errors(workflow_path@,
            job_name@, outputs@, steps.deep_view(), outputs@.len() as int),
        final(report)@.warnings == old(report)@.warnings,
{
    let ghost sv = steps.deep_view();
    let n = outputs.len();
    let mut i: usize = 0;
    proof {
        assert(report@.errors =~= old(report)@.errors + spec_output_errors(workflow_path@,
            job_name@, outputs@, sv, 0));
    }
    while i < n
        invariant
            0 <= i <= n,
            n == outputs@.len(),
            sv == steps.deep_view(),
            report@.errors == old(report)@.errors + spec_output_errors(workflow_path@, job_name@,
                outputs@, sv, i as int),
            report@.warnings == old(report)@.warnings,
        decreases n - i,
    {
        let expr = outputs.val_at(i);
        match extract_step_reference(expr.as_str()) {
            Some(step_ref) => {
                let mut found = false;
                let m = steps.len();
                let mut k: usize = 0;
                while k < m
                    invariant
                        0 <= k <= m,
                        m == steps@.len(),
                        sv == steps.deep_view(),
                        sv.len() == m,
                        found ==> step_has_id(sv, step_ref@),
                        !found ==> forall|j: int| 0 <= j < k ==> (#[trigger] sv[j]).id
                            != Some(step_ref@),
                    decreases m - k,
                {
                    proof {
                        assert(sv[k as int] == steps@[k as int].deep_view());
                    }
                    match &steps[k].id {
                        Some(id) => {
                            if id.eq(&step_ref) {
                                proof {
                                    assert(sv[k as int].id == Some(step_ref@));
                                }
                                found = true;
                            } else {
                                proof {
                                    assert(sv[k as int].id != Some(step_ref@));
                                }
                            }
                        }
                        None => {
                            proof {
                                assert(sv[k as int].id is None);
                            }
                        }
                    }
                    k = k + 1;
                }
                if !found {
                    let mut reason: Vec<char> = Vec::new();
                    push_str_chars("references non-existent step id '", &mut reason);
                    push_str_chars(step_ref.as_str(), &mut reason);
                    reason.push('\'');
                    proof {
                        assert(reason@ =~= "references non-existent step id '"@ + step_ref@
                            + seq!['\'']);
                    }
                    report.add_error(ValidationError::InvalidOutputExpression {
                        workflow: workflow_path.clone(),
                        job: job_name.clone(),
                        output_name: outputs.key_at(i).clone(),
                        expression: expr.clone(),
                        reason: chars_to_string(&reason),
                    });
                    proof {
                        assert(report@.errors =~= old(report)@.errors + spec_output_errors(
                            workflow_path@, job_name@, outputs@, sv, i + 1));
                    }
                }
            }
            None => {}
        }
        i = i + 1;
    }
}

// ---------------------------------------------------------------------
// cycles

/// Object when the jobs cannot all be scheduled; the chain lists the
/// jobs that are left, in declaration order.
pub fn validate_circular_dependencies(
    workflow_path: &String,
    workflow: &Workflow,
    report: &mut ValidationReport,
)
    requires
        workflow.jobs.wf(),
    ensures
        final(report)@.warnings == old(report)@.warnings,
        final(report)@.errors == old(report)@.errors + spec_cycle_errors(workflow_path@,
            workflow@.jobs),
{
    let plan = schedulable_order(&workflow.jobs);
    if plan.leftover.len() > 0 {
        report.add_error(ValidationError::CircularJobDependency {
            workflow: workflow_path.clone(),
            chain: plan.leftover,
        });
        proof {
            assert(final(report)@.errors =~= old(report)@.errors + spec_cycle_errors(
                workflow_path@, workflow@.jobs));
        }
    } else {
        proof {
            assert(old(report)@.errors + spec_cycle_errors(workflow_path@, workflow@.jobs)
                =~= old(report)@.errors);
        }
    }
}

/// The cycle finding of one workflow: one entry, listing the stuck jobs
/// in declaration order, exactly when the jobs cannot all be scheduled.
pub open spec fn spec_cycle_errors(
    path: Seq<char>,
    js: Seq<(Seq<char>, JobView)>,
) -> Seq<ValidationErrorView> {
    if stuck_keys(js, js.len() as int).len() == 0 {
        Seq::empty()
    } else {
        seq![ValidationErrorView::CircularJobDependency {
            workflow: path,
            chain: stuck_keys(js, js.len() as int),
        }]
    }
}

// ---------------------------------------------------------------------
// whole-registry validation

pub open spec fn keys_unique_of(js: Seq<(Seq<char>, JobView)>) -> bool {
    crate::value::keys_unique(js)
}

/// Does a workflow declare `workflow_call` outputs for its callers?
pub open spec fn reusable_has_outputs(w: WorkflowView) -> bool {
    match w.on {
        Some(t) => match t.workflow_call {
            Some(c) => c.outputs.len() > 0,
            None => false,
        },
        None => false,
    }
}

fn workflow_has_call_outputs(w: &Workflow) -> (r: bool)
    ensures
        r == reusable_has_outputs(w@),
{
    match &w.on {
        Some(t) => match &t.workflow_call {
            Some(c) => c.outputs.len() > 0,
            None => false,
        },
        None => false,
    }
}

/// The findings for one job's `uses` value: a file reference must parse,
/// must name a workflow of the registry, and that workflow must declare
/// outputs for its caller.
pub open spec fn spec_uses_errors(
    path: Seq<char>,
    job: Seq<char>,
    uses: Option<Seq<char>>,
    ws: Seq<(Seq<char>, WorkflowView)>,
) -> Seq<ValidationErrorView> {
    match uses {
        None => Seq::empty(),
        Some(u) => if !spec_is_file_ref(u) {
            Seq::empty()
        } else {
            match spec_parse_file_ref(u) {
                None => seq![ValidationErrorView::InvalidFileReference { workflow: path, job, uses: u }],
                Some(fp) => match assoc(ws, fp) {
                    None => seq![ValidationErrorView::FileReferenceNotFound {
                        workflow: path,
                        job,
                        file_ref: fp,
                    }],
                    Some(rw) => if reusable_has_outputs(rw) {
                        Seq::empty()
                    } else {
                        seq![ValidationErrorView::ReusableWorkflowMissingOutputs {
                            workflow: path,
                            job,
                            file_ref: fp,
                        }]
                    },
                },
            }
        },
    }
}

/// The registry key a job's `uses` value references, where it resolves.
pub open spec fn spec_job_ref(
    uses: Option<Seq<char>>,
    ws: Seq<(Seq<char>, WorkflowView)>,
) -> Seq<Seq<char>> {
    match uses {
        None => Seq::empty(),
        Some(u) => match spec_parse_file_ref(u) {
            None => Seq::empty(),
            Some(fp) => match assoc(ws, fp) {
                None => Seq::empty(),
                Some(_) => seq![fp],
            },
        },
    }
}

/// Check one job's `uses` value; what it names is noted as referenced.
pub fn validate_job_uses(
    workflow_path: &String,
    job_name: &String,
    uses: &String,
    registry: &WorkflowRegistry,
    report: &mut ValidationReport,
    referenced: &mut Vec<String>,
)
    ensures
        final(report)@.warnings == old(report)@.warnings,
        final(report)@.errors == old(report)@.errors + spec_uses_errors(workflow_path@,
            job_name@, Some(uses@), registry@.workflows),
        final(referenced).deep_view() == old(referenced).deep_view() + spec_job_ref(
            Some(uses@),
            registry@.workflows,
        ),
{
    let ghost refs0 = referenced.deep_view();
    if is_file_ref(uses.as_str()) {
        match parse_file_ref(uses.as_str()) {
            Ok(file_path) => {
                let key = file_path.to_owned();
                match registry.get_by_str(&key) {
                    None => {
                        report.add_error(ValidationError::FileReferenceNotFound {
                            workflow: workflow_path.clone(),
                            job: job_name.clone(),
                            file_ref: key,
                        });
                        proof {
                            assert(final(report)@.errors =~= old(report)@.errors
                                + spec_uses_errors(workflow_path@, job_name@, Some(uses@),
                                registry@.workflows));
                            assert(final(referenced).deep_view() =~= refs0 + spec_job_ref(
                                Some(uses@), registry@.workflows));
                        }
                    }
                    Some(target) => {
                        let missing = !workflow_has_call_outputs(target);
                        let ghost kv = key@;
                        referenced.push(key);
                        proof {
                            assert(referenced.deep_view() =~= refs0.push(kv));
                            assert(referenced.deep_view() =~= refs0 + spec_job_ref(Some(uses@),
                                registry@.workflows));
                        }
                        if missing {
                            report.add_error(ValidationError::ReusableWorkflowMissingOutputs {
                                workflow: workflow_path.clone(),
                                job: job_name.clone(),
                                file_ref: file_path.to_owned(),
                            });
                        }
                        proof {
                            assert(final(report)@.errors =~= old(report)@.errors
                                + spec_uses_errors(workflow_path@, job_name@, Some(uses@),
                                registry@.workflows));
                        }
                    }
                }
            }
            Err(_) => {
                report.add_error(ValidationError::InvalidFileReference {
                    workflow: workflow_path.clone(),
                    job: job_name.clone(),
                    uses: uses.clone(),
                });
                proof {
                    assert(final(report)@.errors =~= old(report)@.errors + spec_uses_errors(
                        workflow_path@, job_name@, Some(uses@), registry@.workflows));
                    assert(final(referenced).deep_view() =~= refs0 + spec_job_ref(Some(uses@),
                        registry@.workflows));
                }
            }
        }
    } else {
        proof {
            assert(final(report)@.errors =~= old(report)@.errors + spec_uses_errors(
                workflow_path@, job_name@, Some(uses@), registry@.workflows));
            assert(final(referenced).deep_view() =~= refs0 + spec_job_ref(Some(uses@),
                registry@.workflows));
        }
    }
}

/// The warnings for steps that declare no id, in order, each with its
/// position.
pub open spec fn spec_step_warnings(
    path: Seq<char>,
    job: Seq<char>,
    steps: Seq<StepView>,
    n: int,
) -> Seq<ValidationWarningView>
    decreases n,
{
    if n <= 0 || n > steps.len() {
        Seq::empty()
    } else {
        let pre = spec_step_warnings(path, job, steps, n - 1);
        match steps[n - 1].id {
            Some(_) => pre,
            None => pre.push(ValidationWarningView::StepWithoutId {
                workflow: path,
                job,
                step_index: (n - 1) as usize,
                step_uses: steps[n - 1].uses,
            }),
        }
    }
}

/// Point out every step of the job that declares no id: its outputs
/// cannot be referenced.
pub fn warn_steps_without_id(
    workflow_path: &String,
    job_name: &String,
    steps: &Vec<Step>,
    report: &mut ValidationReport,
)
    ensures
        final(report)@.errors == old(report)@.errors,
        final(report)@.warnings == old(report)@.warnings + spec_step_warnings(workflow_path@,
            job_name@, steps.deep_view(), steps.deep_view().len() as int),
{
    let ghost sv = steps.deep_view();
    let n = steps.len();
    let mut i: usize = 0;
    proof {
        assert(report@.warnings =~= old(report)@.warnings + spec_step_warnings(workflow_path@,
            job_name@, sv, 0));
    }
    while i < n
        invariant
            0 <= i <= n,
            n == steps@.len(),
            sv == steps.deep_view(),
            sv.len() == n,
            report@.errors == old(report)@.errors,
            report@.warnings == old(report)@.warnings + spec_step_warnings(workflow_path@,
                job_name@, sv, i as int),
        decreases n - i,
    {
        proof {
            assert(sv[i as int] == steps@[i as int].deep_view());
        }
        match &steps[i].id {
            Some(_) => {
                proof {
                    assert(sv[i as int].id is Some);
                }
            }
            None => {
                proof {
                    assert(sv[i as int].id is None);
                }
                report.add_warning(ValidationWarning::StepWithoutId {
                    workflow: workflow_path.clone(),
                    job: job_name.clone(),
                    step_index: i,
                    step_uses: steps[i].uses.clone(),
                });
                proof {
                    assert(report@.warnings =~= old(report)@.warnings + spec_step_warnings(
                        workflow_path@, job_name@, sv, i + 1));
                }
            }
        }
        i = i + 1;
    }
}

/// Everything the checks find in one job, in the order they run.
pub open spec fn spec_job_errors(
    path: Seq<char>,
    jname: Seq<char>,
    j: JobView,
    keys: Seq<Seq<char>>,
    ws: Seq<(Seq<char>, WorkflowView)>,
) -> Seq<ValidationErrorView> {
    spec_dep_errors(path, jname, j.needs, keys, j.needs.len() as int) + spec_uses_errors(path,
        jname, j.uses, ws) + spec_dup_id_errors(path, jname, j.steps, j.steps.len() as int)
        + spec_output_errors(path, jname, j.outputs, j.steps, j.outputs.len() as int)
}

pub open spec fn spec_job_warnings(path: Seq<char>, jname: Seq<char>, j: JobView) -> Seq<
    ValidationWarningView,
> {
    (match j.uses {
        Some(_) => Seq::empty(),
        None => if j.steps.len() == 0 {
            seq![ValidationWarningView::JobWithNoSteps { workflow: path, job: jname }]
        } else {
            Seq::empty()
        },
    }) + spec_step_warnings(path, jname, j.steps, j.steps.len() as int)
}

pub open spec fn spec_jobs_errors(
    path: Seq<char>,
    js: Seq<(Seq<char>, JobView)>,
    ws: Seq<(Seq<char>, WorkflowView)>,
    n: int,
) -> Seq<ValidationErrorView>
    decreases n,
{
    if n <= 0 || n > js.len() {
        Seq::empty()
    } else {
        spec_jobs_errors(path, js, ws, n - 1) + spec_job_errors(path, js[n - 1].0, js[n - 1].1,
            keys_of(js), ws)
    }
}

pub open spec fn spec_jobs_warnings(
    path: Seq<char>,
    js: Seq<(Seq<char>, JobView)>,
    n: int,
) -> Seq<ValidationWarningView>
    decreases n,
{
    if n <= 0 || n > js.len() {
        Seq::empty()
    } else {
        spec_jobs_warnings(path, js, n - 1) + spec_job_warnings(path, js[n - 1].0, js[n - 1].1)
    }
}

pub open spec fn spec_jobs_refs(
    js: Seq<(Seq<char>, JobView)>,
    ws: Seq<(Seq<char>, WorkflowView)>,
    n: int,
) -> Seq<Seq<char>>
    decreases n,
{
    if n <= 0 || n > js.len() {
        Seq::empty()
    } else {
        spec_jobs_refs(js, ws, n - 1) + spec_job_ref(js[n - 1].1.uses, ws)
    }
}

/// The errors one workflow contributes: its per-job findings, then its
/// cycle finding; an empty workflow contributes none.
pub open spec fn spec_workflow_errors(
    path: Seq<char>,
    w: WorkflowView,
    ws: Seq<(Seq<char>, WorkflowView)>,
) -> Seq<ValidationErrorView> {
    if w.jobs.len() == 0 {
        Seq::empty()
    } else {
        spec_jobs_errors(path, w.jobs, ws, w.jobs.len() as int) + spec_cycle_errors(path, w.jobs)
    }
}

pub open spec fn spec_workflow_warnings(path: Seq<char>, w: WorkflowView) -> Seq<
    ValidationWarningView,
> {
    if w.jobs.len() == 0 {
        seq![ValidationWarningView::EmptyWorkflow { workflow: path }]
    } else {
        spec_jobs_warnings(path, w.jobs, w.jobs.len() as int)
    }
}

pub open spec fn spec_workflow_refs(
    w: WorkflowView,
    ws: Seq<(Seq<char>, WorkflowView)>,
) -> Seq<Seq<char>> {
    if w.jobs.len() == 0 {
        Seq::empty()
    } else {
        spec_jobs_refs(w.jobs, ws, w.jobs.len() as int)
    }
}

pub open spec fn spec_registry_errors(ws: Seq<(Seq<char>, WorkflowView)>, n: int) -> Seq<
    ValidationErrorView,
>
    decreases n,
{
    if n <= 0 || n > ws.len() {
        Seq::empty()
    } else {
        spec_registry_errors(ws, n - 1) + spec_workflow_errors(ws[n - 1].0, ws[n - 1].1, ws)
    }
}

pub open spec fn spec_registry_warnings(ws: Seq<(Seq<char>, WorkflowView)>, n: int) -> Seq<
    ValidationWarningView,
>
    decreases n,
{
    if n <= 0 || n > ws.len() {
        Seq::empty()
    } else {
        spec_registry_warnings(ws, n - 1) + spec_workflow_warnings(ws[n - 1].0, ws[n - 1].1)
    }
}

pub open spec fn spec_registry_refs(ws: Seq<(Seq<char>, WorkflowView)>, n: int) -> Seq<Seq<char>>
    decreases n,
{
    if n <= 0 || n > ws.len() {
        Seq::empty()
    } else {
        spec_registry_refs(ws, n - 1) + spec_workflow_refs(ws[n - 1].1, ws)
    }
}

/// A warning for every reusable workflow that nothing references.
pub open spec fn spec_unused_warnings(
    reusable: Seq<(Seq<char>, WorkflowView)>,
    refs: Seq<Seq<char>>,
    n: int,
) -> Seq<ValidationWarningView>
    decreases n,
{
    if n <= 0 || n > reusable.len() {
        Seq::empty()
    } else if contains_name(refs, reusable[n - 1].0) {
        spec_unused_warnings(reusable, refs, n - 1)
    } else {
        spec_unused_warnings(reusable, refs, n - 1).push(
            ValidationWarningView::UnusedReusableWorkflow { workflow: reusable[n - 1].0 },
        )
    }
}

/// The whole report the pre-flight check produces: per workflow in
/// catalog order, the job findings and the cycle finding; then, for every
/// reusable workflow that nothing references, a warning.
pub open spec fn spec_registry_report(ws: Seq<(Seq<char>, WorkflowView)>) -> ValidationReportView {
    let refs = spec_registry_refs(ws, ws.len() as int);
    let reusable = crate::workflow_registry::reusable_seq(ws, ws.len() as int);
    ValidationReportView {
        errors: spec_registry_errors(ws, ws.len() as int),
        warnings: spec_registry_warnings(ws, ws.len() as int) + spec_unused_warnings(reusable,
            refs, reusable.len() as int),
    }
}

/// Check every workflow of the registry: missing dependencies, bad or
/// dangling file references, references to reusable workflows without
/// declared outputs, duplicate step ids, dangling output references and
/// dependency cycles become errors; empty workflows, jobs with nothing to
/// do, steps without ids and unreferenced reusable workflows become
/// warnings.
pub fn validate_registry(registry: &WorkflowRegistry) -> (report: ValidationReport)
    requires
        forall|i: int| 0 <= i < registry@.workflows.len()
            ==> keys_unique_of((#[trigger] registry@.workflows[i]).1.jobs),
    ensures
        report@ == spec_registry_report(registry@.workflows),
{
    let mut report = ValidationReport::new();
    let mut referenced: Vec<String> = Vec::new();
    let all = registry.all_workflows();
    let nw = all.len();
    let mut w: usize = 0;
    let ghost ws = registry@.workflows;
    proof {
        assert(report@.errors =~= spec_registry_errors(ws, 0));
        assert(report@.warnings =~= spec_registry_warnings(ws, 0));
        assert(referenced.deep_view() =~= spec_registry_refs(ws, 0));
    }
    while w < nw
        invariant
            0 <= w <= nw,
            nw == all@.len(),
            nw == ws.len(),
            ws == registry@.workflows,
            forall|i: int| 0 <= i < nw ==> ((#[trigger] all@[i].0)@, all@[i].1@) == ws[i],
            forall|i: int| 0 <= i < ws.len() ==> keys_unique_of((#[trigger] ws[i]).1.jobs),
            report@.errors == spec_registry_errors(ws, w as int),
            report@.warnings == spec_registry_warnings(ws, w as int),
            referenced.deep_view() == spec_registry_refs(ws, w as int),
        decreases nw - w,
    {
        let path = all[w].0;
        let workflow = all[w].1;
        let ghost base_errs = report@.errors;
        let ghost base_warns = report@.warnings;
        let ghost base_refs = referenced.deep_view();
        proof {
            assert((path@, workflow@) == ws[w as int]);
        }
        if workflow.jobs.is_empty() {
            report.add_warning(ValidationWarning::EmptyWorkflow { workflow: path.clone() });
            proof {
                assert(report@.errors =~= spec_registry_errors(ws, w + 1));
                assert(report@.warnings =~= spec_registry_warnings(ws, w + 1));
                assert(referenced.deep_view() =~= spec_registry_refs(ws, w + 1));
            }
            w = w + 1;
            continue;
        }
        let ghost jsv = workflow@.jobs;
        let nj = workflow.jobs.len();
        let mut j: usize = 0;
        proof {
            assert(report@.errors =~= base_errs + spec_jobs_errors(path@, jsv, ws, 0));
            assert(report@.warnings =~= base_warns + spec_jobs_warnings(path@, jsv, 0));
            assert(referenced.deep_view() =~= base_refs + spec_jobs_refs(jsv, ws, 0));
        }
        while j < nj
            invariant
                0 <= j <= nj,
                nj == jsv.len(),
                jsv == workflow@.jobs,
                ws == registry@.workflows,
                report@.errors == base_errs + spec_jobs_errors(path@, jsv, ws, j as int),
                report@.warnings == base_warns + spec_jobs_warnings(path@, jsv, j as int),
                referenced.deep_view() == base_refs + spec_jobs_refs(jsv, ws, j as int),
            decreases nj - j,
        {
            let job_name = workflow.jobs.key_at(j);
            let job = workflow.jobs.val_at(j);
            proof {
                assert(jsv[j as int] == (job_name@, job.deep_view()));
            }
            validate_job_dependencies(path, job_name, &job.needs, &workflow.jobs, &mut report);
            match &job.uses {
                Some(uses) => {
                    validate_job_uses(path, job_name, uses, registry, &mut report,
                        &mut referenced);
                }
                None => {
                    if job.steps.len() == 0 {
                        report.add_warning(ValidationWarning::JobWithNoSteps {
                            workflow: path.clone(),
                            job: job_name.clone(),
                        });
                    }
                }
            }
            warn_steps_without_id(path, job_name, &job.steps, &mut report);
            validate_step_ids(path, job_name, &job.steps, &mut report);
            validate_job_outputs(path, job_name, &job.outputs, &job.steps, &mut report);
            proof {
                assert(report@.errors =~= base_errs + spec_jobs_errors(path@, jsv, ws, j + 1));
                assert(report@.warnings =~= base_warns + spec_jobs_warnings(path@, jsv, j + 1));
                assert(referenced.deep_view() =~= base_refs + spec_jobs_refs(jsv, ws, j + 1));
            }
            j = j + 1;
        }
        proof {
            assert(workflow.jobs.wf());
        }
        validate_circular_dependencies(path, workflow, &mut report);
        proof {
            assert(report@.errors =~= spec_registry_errors(ws, w + 1));
            assert(report@.warnings =~= spec_registry_warnings(ws, w + 1));
            assert(referenced.deep_view() =~= spec_registry_refs(ws, w + 1));
        }
        w = w + 1;
    }
    let reusable = registry.reusable_workflows();
    let ghost reus = crate::workflow_registry::reusable_seq(ws, ws.len() as int);
    let ghost refs_all = spec_registry_refs(ws, ws.len() as int);
    let ghost warns_all = report@.warnings;
    let nr = reusable.len();
    let mut r: usize = 0;
    proof {
        assert(report@.warnings =~= warns_all + spec_unused_warnings(reus, refs_all, 0));
    }
    while r < nr
        invariant
            0 <= r <= nr,
            nr == reusable@.len(),
            ws == registry@.workflows,
            reus == crate::workflow_registry::reusable_seq(ws, ws.len() as int),
            reus.len() == nr,
            forall|i: int| 0 <= i < nr ==> ((#[trigger] reusable@[i].0)@, reusable@[i].1@)
                == reus[i],
            refs_all == spec_registry_refs(ws, ws.len() as int),
            referenced.deep_view() == refs_all,
            report@.errors == spec_registry_errors(ws, ws.len() as int),
            report@.warnings == warns_all + spec_unused_warnings(reus, refs_all, r as int),
            warns_all == spec_registry_warnings(ws, ws.len() as int),
        decreases nr - r,
    {
        let path = reusable[r].0;
        proof {
            assert((path@, reusable@[r as int].1@) == reus[r as int]);
        }
        let mut found = false;
        let m = referenced.len();
        let mut k: usize = 0;
        while k < m
            invariant
                0 <= k <= m,
                m == referenced@.len(),
                referenced.deep_view() == refs_all,
                refs_all.len() == m,
                found ==> contains_name(refs_all, path@),
                !found ==> forall|q: int| 0 <= q < k ==> refs_all[q] != path@,
            decreases m - k,
        {
            if referenced[k].eq(path) {
                proof {
                    assert(refs_all[k as int] == path@);
                }
                found = true;
            }
            k = k + 1;
        }
        if !found {
            proof {
                assert(!contains_name(refs_all, path@));
            }
            report.add_warning(ValidationWarning::UnusedReusableWorkflow {
                workflow: path.clone(),
            });
            proof {
                assert(report@.warnings =~= warns_all + spec_unused_warnings(reus, refs_all,
                    r + 1));
            }
        } else {
            proof {
                assert(report@.warnings =~= warns_all + spec_unused_warnings(reus, refs_all,
                    r + 1));
            }
        }
        r = r + 1;
    }
    proof {
        assert(report@ == spec_registry_report(ws));
    }
    report
}

// ---------------------------------------------------------------------
// one-line descriptions

/// Names joined with arrows, as a cycle is reported.
pub open spec fn join_arrow(names: Seq<Seq<char>>, n: int) -> Seq<char>
    decreases n,
{
    if n <= 0 || n > names.len() {
        Seq::empty()
    } else if n == 1 {
        names[0]
    } else {
        join_arrow(names, n - 1) + " -> "@ + names[n - 1]
    }
}

pub open spec fn validation_error_message(e: ValidationErrorView) -> Seq<char> {
    match e {
        ValidationErrorView::JobDependencyNotFound { workflow, job, dependency } => seq!['[']
            + workflow + "] Job '"@ + job + "' depends on non-existent job '"@ + dependency
            + seq!['\''],
        ValidationErrorView::FileReferenceNotFound { workflow, job, file_ref } => seq!['[']
            + workflow + "] Job '"@ + job + "' references non-existent workflow '"@ + file_ref
            + seq!['\''],
        ValidationErrorView::InvalidFileReference { workflow, job, uses } => seq!['[']
            + workflow + "] Job '"@ + job + "' has invalid file reference: '"@ + uses
            + seq!['\''],
        ValidationErrorView::CircularJobDependency { workflow, chain } => seq!['['] + workflow
            + "] Circular job dependency detected: "@ + join_arrow(chain, chain.len() as int),
        ValidationErrorView::DuplicateStepId { workflow, job, step_id } => seq!['['] + workflow
            + "] Job '"@ + job + "' has duplicate step id: '"@ + step_id + seq!['\''],
        ValidationErrorView::InvalidOutputExpression {
            workflow,
            job,
            output_name,
            expression,
            reason,
        } => seq!['['] + workflow + "] Job '"@ + job + "' output '"@ + output_name
            + "' has invalid expression '"@ + expression + "': "@ + reason,
        ValidationErrorView::ReusableWorkflowMissingOutputs { workflow, job, file_ref } => seq![
            '[',
        ] + workflow + "] Job '"@ + job + "' uses reusable workflow '"@ + file_ref
            + "' but it has no defined outputs"@,
    }
}

pub open spec fn validation_warning_message(w: ValidationWarningView) -> Seq<char> {
    match w {
        ValidationWarningView::EmptyWorkflow { workflow } => seq!['['] + workflow
            + "] Workflow has no jobs"@,
        ValidationWarningView::JobWithNoSteps { workflow, job } => seq!['['] + workflow
            + "] Job '"@ + job + "' has no steps and doesn't use a reusable workflow"@,
        ValidationWarningView::UnusedReusableWorkflow { workflow } => seq!['['] + workflow
            + "] Reusable workflow is not referenced by any other workflow"@,
        ValidationWarningView::StepWithoutId { workflow, job, step_index, step_uses } => seq![
            '[',
        ] + workflow + "] Job '"@ + job + "' step "@ + crate::value::dec_digits(
            step_index as nat,
        ) + " ('"@ + step_uses + "') has no id - outputs won't be accessible"@,
    }
}

impl ValidationError {
    /// The one-line description of the finding.
    pub fn message(&self) -> (r: String)
        ensures
            r@ == validation_error_message(self@),
    {
        let mut out: Vec<char> = Vec::new();
        out.push('[');
        match self {
            ValidationError::JobDependencyNotFound { workflow, job, dependency } => {
                push_str_chars(workflow.as_str(), &mut out);
                push_str_chars("] Job '", &mut out);
                push_str_chars(job.as_str(), &mut out);
                push_str_chars("' depends on non-existent job '", &mut out);
                push_str_chars(dependency.as_str(), &mut out);
                out.push('\'');
            }
            ValidationError::FileReferenceNotFound { workflow, job, file_ref } => {
                push_str_chars(workflow.as_str(), &mut out);
                push_str_chars("] Job '", &mut out);
                push_str_chars(job.as_str(), &mut out);
                push_str_chars("' references non-existent workflow '", &mut out);
                push_str_chars(file_ref.as_str(), &mut out);
                out.push('\'');
            }
            ValidationError::InvalidFileReference { workflow, job, uses } => {
                push_str_chars(workflow.as_str(), &mut out);
                push_str_chars("] Job '", &mut out);
                push_str_chars(job.as_str(), &mut out);
                push_str_chars("' has invalid file reference: '", &mut out);
                push_str_chars(uses.as_str(), &mut out);
                out.push('\'');
            }
            ValidationError::CircularJobDependency { workflow, chain } => {
                push_str_chars(workflow.as_str(), &mut out);
                push_str_chars("] Circular job dependency detected: ", &mut out);
                let n = chain.len();
                let mut i: usize = 0;
                let ghost base = out@;
                while i < n
                    invariant
                        0 <= i <= n,
                        n == chain@.len(),
                        out@ == base + join_arrow(chain.deep_view(), i as int),
                    decreases n - i,
                {
                    if i > 0 {
                        push_str_chars(" -> ", &mut out);
                    }
                    push_str_chars(chain[i].as_str(), &mut out);
                    proof {
                        assert(chain.deep_view()[i as int] == chain@[i as int]@);
                        assert(out@ =~= base + join_arrow(chain.deep_view(), i + 1));
                    }
                    i = i + 1;
                }
            }
            ValidationError::DuplicateStepId { workflow, job, step_id } => {
                push_str_chars(workflow.as_str(), &mut out);
                push_str_chars("] Job '", &mut out);
                push_str_chars(job.as_str(), &mut out);
                push_str_chars("' has duplicate step id: '", &mut out);
                push_str_chars(step_id.as_str(), &mut out);
                out.push('\'');
            }
            ValidationError::InvalidOutputExpression {
                workflow,
                job,
                output_name,
                expression,
                reason,
            } => {
                push_str_chars(workflow.as_str(), &mut out);
                push_str_chars("] Job '", &mut out);
                push_str_chars(job.as_str(), &mut out);
                push_str_chars("' output '", &mut out);
                push_str_chars(output_name.as_str(), &mut out);
                push_str_chars("' has invalid expression '", &mut out);
                push_str_chars(expression.as_str(), &mut out);
                push_str_chars("': ", &mut out);
                push_str_chars(reason.as_str(), &mut out);
            }
            ValidationError::ReusableWorkflowMissingOutputs { workflow, job, file_ref } => {
                push_str_chars(workflow.as_str(), &mut out);
                push_str_chars("] Job '", &mut out);
                push_str_chars(job.as_str(), &mut out);
                push_str_chars("' uses reusable workflow '", &mut out);
                push_str_chars(file_ref.as_str(), &mut out);
                push_str_chars("' but it has no defined outputs", &mut out);
            }
        }
        proof {
            assert(out@ =~= validation_error_message(self@));
        }
        chars_to_string(&out)
    }
}

impl ValidationWarning {
    /// The one-line description of the finding.
    pub fn message(&self) -> (r: String)
        ensures
            r@ == validation_warning_message(self@),
    {
        let mut out: Vec<char> = Vec::new();
        out.push('[');
        match self {
            ValidationWarning::EmptyWorkflow { workflow } => {
                push_str_chars(workflow.as_str(), &mut out);
                push_str_chars("] Workflow has no jobs", &mut out);
            }
            ValidationWarning::JobWithNoSteps { workflow, job } => {
                push_str_chars(workflow.as_str(), &mut out);
                push_str_chars("] Job '", &mut out);
                push_str_chars(job.as_str(), &mut out);
                push_str_chars("' has no steps and doesn't use a reusable workflow", &mut out);
            }
            ValidationWarning::UnusedReusableWorkflow { workflow } => {
                push_str_chars(workflow.as_str(), &mut out);
                push_str_chars("] Reusable workflow is not referenced by any other workflow",
                    &mut out);
            }
            ValidationWarning::StepWithoutId { workflow, job, step_index, step_uses } => {
                push_str_chars(workflow.as_str(), &mut out);
                push_str_chars("] Job '", &mut out);
                push_str_chars(job.as_str(), &mut out);
                push_str_chars("' step ", &mut out);
                crate::value::push_dec_u64(*step_index as u64, &mut out);
                push_str_chars(" ('", &mut out);
                push_str_chars(step_uses.as_str(), &mut out);
                push_str_chars("') has no id - outputs won't be accessible", &mut out);
            }
        }
        proof {
            assert(out@ =~= validation_warning_message(self@));
        }
        chars_to_string(&out)
    }
}

} // verus!
