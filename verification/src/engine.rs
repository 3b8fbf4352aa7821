use vstd::prelude::*;

use crate::dict::{spec_insert, spec_insert_all, Dict};
use crate::errors::{error_message, ErrorView};
use crate::expr::{
    dup_string_dict, eval_entries, evaluate_assertion, evaluate_value, spec_eval_assertion,
    spec_evaluate_value, ExprContext, ExprContextView,
};
use crate::model::{Job, JobView, OutputDef, Step, StepView, WorkflowCallConfig};
use crate::outputs::{JobOutputs, StepOutputs};
use crate::strutil::chars_to_string;
use crate::value::{assoc, push_str_chars, Val, ValView};

verus! {

/// How one step ended: passed or failed after so many nanoseconds, or
/// never run because an earlier step failed.
#[derive(Debug)]
pub enum StepResult {
    Passed(u64),
    Failed(u64, String),
    Skipped,
}

pub enum StepResultView {
    Passed(u64),
    Failed(u64, Seq<char>),
    Skipped,
}

impl View for StepResult {
    type V = StepResultView;

    open spec fn view(&self) -> StepResultView {
        match self {
            StepResult::Passed(d) => StepResultView::Passed(*d),
            StepResult::Failed(d, m) => StepResultView::Failed(*d, m@),
            StepResult::Skipped => StepResultView::Skipped,
        }
    }
}

impl DeepView for StepResult {
    type V = StepResultView;

    open spec fn deep_view(&self) -> StepResultView {
        self.view()
    }
}

impl StepResult {
    pub fn is_passed(&self) -> (r: bool)
        ensures
            r == (self@ is Passed),
    {
        match self {
            StepResult::Passed(_) => true,
            _ => false,
        }
    }

    pub fn is_failed(&self) -> (r: bool)
        ensures
            r == (self@ is Failed),
    {
        match self {
            StepResult::Failed(_, _) => true,
            _ => false,
        }
    }
}

/// How many of the recorded step results passed.
pub open spec fn count_passed(s: Seq<(Seq<char>, StepResultView)>, n: int) -> int
    decreases n,
{
    if n <= 0 || n > s.len() {
        0
    } else {
        count_passed(s, n - 1) + (if s[n - 1].1 is Passed {
            1int
        } else {
            0int
        })
    }
}

/// How many of the recorded step results failed.
pub open spec fn count_failed(s: Seq<(Seq<char>, StepResultView)>, n: int) -> int
    decreases n,
{
    if n <= 0 || n > s.len() {
        0
    } else {
        count_failed(s, n - 1) + (if s[n - 1].1 is Failed {
            1int
        } else {
            0int
        })
    }
}

pub open spec fn all_passed(s: Seq<(Seq<char>, StepResultView)>) -> bool {
    forall|i: int| 0 <= i < s.len() ==> (#[trigger] s[i].1) is Passed
}

/// What one job run produced: its step results in order, its published
/// outputs, how long it took, and whether its world could be built at
/// all.
#[derive(Debug)]
pub struct JobResult {
    pub name: String,
    pub matrix_suffix: String,
    pub steps: Vec<(String, StepResult)>,
    pub outputs: JobOutputs,
    pub duration: u64,
    pub init_failed: bool,
}

pub struct JobResultView {
    pub name: Seq<char>,
    pub matrix_suffix: Seq<char>,
    pub steps: Seq<(Seq<char>, StepResultView)>,
    pub outputs: Seq<(Seq<char>, ValView)>,
    pub duration: u64,
    pub init_failed: bool,
}

/// A job passed when its world was built and every step passed; a job
/// whose world factory failed is reported failed, with zero steps.
pub open spec fn job_passed(j: JobResultView) -> bool {
    !j.init_failed && all_passed(j.steps)
}

impl View for JobResult {
    type V = JobResultView;

    open spec fn view(&self) -> JobResultView {
        JobResultView {
            name: self.name@,
            matrix_suffix: self.matrix_suffix@,
            steps: self.steps.deep_view(),
            outputs: self.outputs@,
            duration: self.duration,
            init_failed: self.init_failed,
        }
    }
}

impl DeepView for JobResult {
    type V = JobResultView;

    open spec fn deep_view(&self) -> JobResultView {
        self.view()
    }
}

impl JobResult {
    /// A job passed only when its world was built and every one of its
    /// steps passed; a skipped step fails the job, and so does a world
    /// that could not be built.
    pub fn passed(&self) -> (r: bool)
        ensures
            r == job_passed(self@),
    {
        if self.init_failed {
            return false;
        }
        let n = self.steps.len();
        let mut i: usize = 0;
        while i < n
            invariant
                0 <= i <= n,
                n == self.steps@.len(),
                forall|j: int| 0 <= j < i ==> (#[trigger] self@.steps[j].1) is Passed,
            decreases n - i,
        {
            proof {
                assert(self@.steps[i as int] == (self.steps@[i as int].0@,
                    self.steps@[i as int].1@));
            }
            if !self.steps[i].1.is_passed() {
                proof {
                    assert(!(self@.steps[i as int].1 is Passed));
                }
                return false;
            }
            i = i + 1;
        }
        true
    }

    pub fn steps_passed(&self) -> (r: usize)
        ensures
            r == count_passed(self@.steps, self@.steps.len() as int),
    {
        let n = self.steps.len();
        let mut c: usize = 0;
        let mut i: usize = 0;
        while i < n
            invariant
                0 <= i <= n,
                n == self.steps@.len(),
                self@.steps.len() == n,
                c == count_passed(self@.steps, i as int),
                c <= i,
            decreases n - i,
        {
            proof {
                assert(self@.steps[i as int] == (self.steps@[i as int].0@,
                    self.steps@[i as int].1@));
            }
            if self.steps[i].1.is_passed() {
                c = c + 1;
            }
            i = i + 1;
        }
        c
    }

    pub fn steps_failed(&self) -> (r: usize)
        ensures
            r == count_failed(self@.steps, self@.steps.len() as int),
    {
        let n = self.steps.len();
        let mut c: usize = 0;
        let mut i: usize = 0;
        while i < n
            invariant
                0 <= i <= n,
                n == self.steps@.len(),
                self@.steps.len() == n,
                c == count_failed(self@.steps, i as int),
                c <= i,
            decreases n - i,
        {
            proof {
                assert(self@.steps[i as int] == (self.steps@[i as int].0@,
                    self.steps@[i as int].1@));
            }
            if self.steps[i].1.is_failed() {
                c = c + 1;
            }
            i = i + 1;
        }
        c
    }
}

pub open spec fn count_jobs_passed(s: Seq<JobResultView>, n: int) -> int
    decreases n,
{
    if n <= 0 || n > s.len() {
        0
    } else {
        count_jobs_passed(s, n - 1) + (if job_passed(s[n - 1]) {
            1int
        } else {
            0int
        })
    }
}

pub open spec fn sum_steps_passed(s: Seq<JobResultView>, n: int) -> int
    decreases n,
{
    if n <= 0 || n > s.len() {
        0
    } else {
        sum_steps_passed(s, n - 1) + count_passed(s[n - 1].steps, s[n - 1].steps.len() as int)
    }
}

pub open spec fn sum_steps_failed(s: Seq<JobResultView>, n: int) -> int
    decreases n,
{
    if n <= 0 || n > s.len() {
        0
    } else {
        sum_steps_failed(s, n - 1) + count_failed(s[n - 1].steps, s[n - 1].steps.len() as int)
    }
}

proof fn lemma_count_passed_nonneg(s: Seq<(Seq<char>, StepResultView)>, n: int)
    ensures
        count_passed(s, n) >= 0,
        count_failed(s, n) >= 0,
    decreases n,
{
    if n > 0 && n <= s.len() {
        lemma_count_passed_nonneg(s, n - 1);
    }
}

proof fn lemma_sum_steps_mono(s: Seq<JobResultView>, k: int, n: int)
    requires
        0 <= k <= n <= s.len(),
    ensures
        sum_steps_passed(s, n) >= sum_steps_passed(s, k),
        sum_steps_failed(s, n) >= sum_steps_failed(s, k),
    decreases n - k,
{
    if k < n {
        lemma_sum_steps_mono(s, k, n - 1);
        lemma_count_passed_nonneg(s[n - 1].steps, s[n - 1].steps.len() as int);
    }
}

/// What one workflow run produced.
#[derive(Debug)]
pub struct WorkflowResult {
    pub name: String,
    pub jobs: Vec<JobResult>,
    pub duration: u64,
}

pub struct WorkflowResultView {
    pub name: Seq<char>,
    pub jobs: Seq<JobResultView>,
    pub duration: u64,
}

impl View for WorkflowResult {
    type V = WorkflowResultView;

    open spec fn view(&self) -> WorkflowResultView {
        WorkflowResultView {
            name: self.name@,
            jobs: self.jobs.deep_view(),
            duration: self.duration,
        }
    }
}

impl WorkflowResult {
    pub fn passed(&self) -> (r: bool)
        ensures
            r == (forall|i: int| 0 <= i < self@.jobs.len() ==> job_passed(
                #[trigger] self@.jobs[i],
            )),
    {
        let n = self.jobs.len();
        let mut i: usize = 0;
        while i < n
            invariant
                0 <= i <= n,
                n == self.jobs@.len(),
                self@.jobs.len() == n,
                forall|j: int| 0 <= j < i ==> job_passed(#[trigger] self@.jobs[j]),
            decreases n - i,
        {
            proof {
                assert(self@.jobs[i as int] == self.jobs@[i as int].deep_view());
            }
            if !self.jobs[i].passed() {
                return false;
            }
            i = i + 1;
        }
        true
    }

    pub fn jobs_passed(&self) -> (r: usize)
        ensures
            r == count_jobs_passed(self@.jobs, self@.jobs.len() as int),
    {
        let n = self.jobs.len();
        let mut c: usize = 0;
        let mut i: usize = 0;
        while i < n
            invariant
                0 <= i <= n,
                n == self.jobs@.len(),
                self@.jobs.len() == n,
                c == count_jobs_passed(self@.jobs, i as int),
                c <= i,
            decreases n - i,
        {
            proof {
                assert(self@.jobs[i as int] == self.jobs@[i as int].deep_view());
            }
            if self.jobs[i].passed() {
                c = c + 1;
            }
            i = i + 1;
        }
        c
    }

    pub fn jobs_failed(&self) -> (r: usize)
        ensures
            r == self@.jobs.len() - count_jobs_passed(self@.jobs, self@.jobs.len() as int),
    {
        let n = self.jobs.len();
        let mut c: usize = 0;
        let mut i: usize = 0;
        while i < n
            invariant
                0 <= i <= n,
                n == self.jobs@.len(),
                self@.jobs.len() == n,
                c == i - count_jobs_passed(self@.jobs, i as int),
                count_jobs_passed(self@.jobs, i as int) >= 0,
                c <= i,
            decreases n - i,
        {
            proof {
                assert(self@.jobs[i as int] == self.jobs@[i as int].deep_view());
            }
            if !self.jobs[i].passed() {
                c = c + 1;
            }
            i = i + 1;
        }
        c
    }

    pub fn total_steps_passed(&self) -> (r: Option<usize>)
        ensures
            r matches Some(v) ==> v == sum_steps_passed(self@.jobs, self@.jobs.len() as int),
            r is None ==> sum_steps_passed(self@.jobs, self@.jobs.len() as int) > usize::MAX,
    {
        let n = self.jobs.len();
        let mut c: usize = 0;
        let mut i: usize = 0;
        while i < n
            invariant
                0 <= i <= n,
                n == self.jobs@.len(),
                self@.jobs.len() == n,
                c == sum_steps_passed(self@.jobs, i as int),
            decreases n - i,
        {
            proof {
                assert(self@.jobs[i as int] == self.jobs@[i as int].deep_view());
            }
            let p = self.jobs[i].steps_passed();
            c = match c.checked_add(p) {
                Some(nc) => nc,
                None => {
                    proof {
                        lemma_sum_steps_mono(self@.jobs, i + 1, self@.jobs.len() as int);
                    }
                    return None;
                }
            };
            i = i + 1;
        }
        Some(c)
    }

    pub fn total_steps_failed(&self) -> (r: Option<usize>)
        ensures
            r matches Some(v) ==> v == sum_steps_failed(self@.jobs, self@.jobs.len() as int),
            r is None ==> sum_steps_failed(self@.jobs, self@.jobs.len() as int) > usize::MAX,
    {
        let n = self.jobs.len();
        let mut c: usize = 0;
        let mut i: usize = 0;
        while i < n
            invariant
                0 <= i <= n,
                n == self.jobs@.len(),
                self@.jobs.len() == n,
                c == sum_steps_failed(self@.jobs, i as int),
            decreases n - i,
        {
            proof {
                assert(self@.jobs[i as int] == self.jobs@[i as int].deep_view());
            }
            let p = self.jobs[i].steps_failed();
            c = match c.checked_add(p) {
                Some(nc) => nc,
                None => {
                    proof {
                        lemma_sum_steps_mono(self@.jobs, i + 1, self@.jobs.len() as int);
                    }
                    return None;
                }
            };
            i = i + 1;
        }
        Some(c)
    }
}

// ---------------------------------------------------------------------
// building the per-job scope

/// The environment a job sees: the workflow's environment with the job's
/// own entries written over it.
pub fn env_union(base: &Dict<String>, over: &Dict<String>) -> (r: Dict<String>)
    ensures
        r@ == spec_insert_all(base@, over@, over@.len() as int),
        base.wf() ==> r.wf(),
{
    let mut r = dup_string_dict(base);
    let ghost b = base@;
    let n = over.len();
    let mut i: usize = 0;
    proof {
        if base.wf() {
            assert(r.wf());
        }
    }
    while i < n
        invariant
            0 <= i <= n,
            n == over@.len(),
            r@ == spec_insert_all(base@, over@, i as int),
            base.wf() ==> r.wf(),
        decreases n - i,
    {
        r.insert(over.key_at(i).clone(), over.val_at(i).clone());
        i = i + 1;
    }
    r
}

/// The `needs` entries of a job's scope: for every declared predecessor,
/// in order, the outputs recorded for it, where there are any.
pub open spec fn spec_seed_needs(
    parent: Seq<(Seq<char>, Seq<(Seq<char>, ValView)>)>,
    needs: Seq<Seq<char>>,
    n: int,
) -> Seq<(Seq<char>, Seq<(Seq<char>, ValView)>)>
    decreases n,
{
    if n <= 0 || n > needs.len() {
        Seq::empty()
    } else {
        let pre = spec_seed_needs(parent, needs, n - 1);
        match assoc(parent, needs[n - 1]) {
            Some(o) => spec_insert(pre, needs[n - 1], o),
            None => pre,
        }
    }
}

pub fn seed_needs(job: &Job, parent: &Dict<JobOutputs>) -> (r: Dict<JobOutputs>)
    ensures
        r@ == spec_seed_needs(parent@, job@.needs, job@.needs.len() as int),
{
    let names = job.needs.as_vec();
    let mut r: Dict<JobOutputs> = Dict::new();
    let n = names.len();
    let mut i: usize = 0;
    proof {
        assert(names.deep_view() == job@.needs);
    }
    while i < n
        invariant
            0 <= i <= n,
            n == names@.len(),
            names.deep_view() == job@.needs,
            r@ == spec_seed_needs(parent@, job@.needs, i as int),
        decreases n - i,
    {
        proof {
            assert(names.deep_view()[i as int] == names@[i as int]@);
        }
        match parent.get(&names[i]) {
            Some(outs) => {
                r.insert(names[i].clone(), outs.dup());
            }
            None => {}
        }
        i = i + 1;
    }
    r
}

/// The scope a job's steps start from: the united environment, the matrix
/// row, and the outputs of the jobs it needs; everything else empty.
pub fn build_job_context(
    workflow_env: &Dict<String>,
    job: &Job,
    parent: &Dict<JobOutputs>,
    matrix_row: Dict<Val>,
) -> (r: ExprContext)
    ensures
        r@.env == spec_insert_all(workflow_env@, job@.env, job@.env.len() as int),
        r@.matrix == matrix_row@,
        r@.needs == spec_seed_needs(parent@, job@.needs, job@.needs.len() as int),
        r@.steps.len() == 0,
        r@.containers.len() == 0,
        r@.outputs is None,
        r@.jobs.len() == 0,
{
    let env = env_union(workflow_env, &job.env);
    let needs = seed_needs(job, parent);
    ExprContext {
        env,
        steps: Dict::new(),
        containers: Dict::new(),
        outputs: None,
        needs,
        matrix: matrix_row,
        jobs: Dict::new(),
    }
}

// ---------------------------------------------------------------------
// the step driver

/// The log name of a step: its name, or else what it uses.
pub open spec fn step_display_name(s: StepView) -> Seq<char> {
    match s.name {
        Some(n) => n,
        None => s.uses,
    }
}

fn step_name_of(step: &Step) -> (r: String)
    ensures
        r@ == step_display_name(step@),
{
    match &step.name {
        Some(n) => n.clone(),
        None => step.uses.clone(),
    }
}

/// The first assertion of the list that does not pass, with the message
/// it fails with; `None` when all pass.
pub open spec fn assert_gate(
    asserts: Seq<Seq<char>>,
    ctx: ExprContextView,
    failed_head: Seq<char>,
    error_head: Seq<char>,
    n: int,
) -> Option<Seq<char>>
    decreases n,
{
    if n <= 0 || n > asserts.len() {
        None
    } else {
        match assert_gate(asserts, ctx, failed_head, error_head, n - 1) {
            Some(m) => Some(m),
            None => match spec_eval_assertion(asserts[n - 1], ctx) {
                Ok(true) => None,
                Ok(false) => Some(failed_head + asserts[n - 1]),
                Err(e) => Some(error_head + error_message(e)),
            },
        }
    }
}

fn run_assert_gate(
    asserts: &Vec<String>,
    ctx: &ExprContext,
    failed_head: &str,
    error_head: &str,
) -> (r: Option<String>)
    ensures
        match r {
            Some(m) => assert_gate(asserts.deep_view(), ctx@, failed_head@, error_head@,
                asserts.deep_view().len() as int) == Some(m@),
            None => assert_gate(asserts.deep_view(), ctx@, failed_head@, error_head@,
                asserts.deep_view().len() as int) is None,
        },
{
    let n = asserts.len();
    let ghost av = asserts.deep_view();
    let mut i: usize = 0;
    while i < n
        invariant
            0 <= i <= n,
            n == asserts@.len(),
            av == asserts.deep_view(),
            av.len() == n,
            assert_gate(av, ctx@, failed_head@, error_head@, i as int) is None,
        decreases n - i,
    {
        proof {
            assert(av[i as int] == asserts@[i as int]@);
        }
        match evaluate_assertion(asserts[i].as_str(), ctx) {
            Ok(true) => {}
            Ok(false) => {
                let mut msg: Vec<char> = Vec::new();
                push_str_chars(failed_head, &mut msg);
                push_str_chars(asserts[i].as_str(), &mut msg);
                proof {
                    lemma_assert_gate_stays(av, ctx@, failed_head@, error_head@, i + 1,
                        av.len() as int);
                }
                return Some(chars_to_string(&msg));
            }
            Err(e) => {
                let mut msg: Vec<char> = Vec::new();
                push_str_chars(error_head, &mut msg);
                let em = e.message();
                push_str_chars(em.as_str(), &mut msg);
                proof {
                    lemma_assert_gate_stays(av, ctx@, failed_head@, error_head@, i + 1,
                        av.len() as int);
                }
                return Some(chars_to_string(&msg));
            }
        }
        i = i + 1;
    }
    None
}

proof fn lemma_assert_gate_stays(
    asserts: Seq<Seq<char>>,
    ctx: ExprContextView,
    failed_head: Seq<char>,
    error_head: Seq<char>,
    k: int,
    n: int,
)
    requires
        0 < k <= n <= asserts.len(),
        assert_gate(asserts, ctx, failed_head, error_head, k) is Some,
    ensures
        assert_gate(asserts, ctx, failed_head, error_head, n) == assert_gate(asserts, ctx,
            failed_head, error_head, k),
    decreases n - k,
{
    if k < n {
        lemma_assert_gate_stays(asserts, ctx, failed_head, error_head, k, n - 1);
    }
}

/// What the driver decides before a step body may run.
#[derive(Debug)]
pub enum StepGate {
    Skip,
    Fail(String),
    Proceed,
}

pub enum StepGateView {
    Skip,
    Fail(Seq<char>),
    Proceed,
}

impl View for StepGate {
    type V = StepGateView;

    open spec fn view(&self) -> StepGateView {
        match self {
            StepGate::Skip => StepGateView::Skip,
            StepGate::Fail(m) => StepGateView::Fail(m@),
            StepGate::Proceed => StepGateView::Proceed,
        }
    }
}

/// What is decided before a step may run: skip after an earlier
/// failure, fail on the first pre-assertion that does not pass, else
/// let it proceed.
pub open spec fn spec_begin_step(should_skip: bool, step: StepView, ctx: ExprContextView) -> StepGateView {
    if should_skip {
        StepGateView::Skip
    } else {
        match assert_gate(step.pre_assert, ctx, "Pre-assertion failed: "@,
            "Pre-assertion error: "@, step.pre_assert.len() as int) {
            Some(m) => StepGateView::Fail(m),
            None => StepGateView::Proceed,
        }
    }
}

/// One job's execution state while its steps are driven in order.
#[derive(Debug)]
pub struct JobRun {
    pub ctx: ExprContext,
    pub results: Vec<(String, StepResult)>,
    pub should_skip: bool,
}

pub struct JobRunView {
    pub ctx: ExprContextView,
    pub results: Seq<(Seq<char>, StepResultView)>,
    pub should_skip: bool,
}

impl View for JobRun {
    type V = JobRunView;

    open spec fn view(&self) -> JobRunView {
        JobRunView {
            ctx: self.ctx@,
            results: self.results.deep_view(),
            should_skip: self.should_skip,
        }
    }
}

impl JobRun {
    pub fn new(ctx: ExprContext) -> (r: Self)
        ensures
            r@.ctx == ctx@,
            r@.results.len() == 0,
            !r@.should_skip,
    {
        let r = JobRun { ctx, results: Vec::new(), should_skip: false };
        proof {
            assert(r@.results =~= Seq::<(Seq<char>, StepResultView)>::empty());
        }
        r
    }

    /// Decide whether the step may run: skip after an earlier failure,
    /// fail it on a failing pre-assertion, else let it proceed.
    pub fn begin_step(&self, step: &Step) -> (r: StepGate)
        ensures
            r@ == spec_begin_step(self@.should_skip, step@, self@.ctx),
    {
        if self.should_skip {
            return StepGate::Skip;
        }
        match run_assert_gate(&step.pre_assert, &self.ctx, "Pre-assertion failed: ",
            "Pre-assertion error: ") {
            Some(m) => StepGate::Fail(m),
            None => StepGate::Proceed,
        }
    }

    /// Evaluate the step's arguments in the current scope; the first
    /// expression error fails the step.
    pub fn prepare_args(&self, step: &Step) -> (r: Result<Dict<Val>, String>)
        ensures
            match r {
                Ok(args) => eval_entries(step@.with_args, step@.with_args.len() as int, self@.ctx)
                    == Ok::<Seq<(Seq<char>, ValView)>, ErrorView>(args@),
                Err(m) => exists|e: ErrorView|
                    eval_entries(step@.with_args, step@.with_args.len() as int, self@.ctx)
                        == Err::<Seq<(Seq<char>, ValView)>, ErrorView>(e) && m@
                        == "Args evaluation failed: "@ + error_message(e),
            },
    {
        let ghost wv = step@.with_args;
        let n = step.with_args.len();
        let mut out: Vec<(String, Val)> = Vec::new();
        let mut i: usize = 0;
        while i < n
            invariant
                0 <= i <= n,
                n == wv.len(),
                wv == step@.with_args,
                eval_entries(wv, i as int, self@.ctx) == Ok::<
                    Seq<(Seq<char>, ValView)>,
                    ErrorView,
                >(crate::value::entry_views_of_vec(out, out@.len() as int)),
                out@.len() == i,
            decreases n - i,
        {
            let key = step.with_args.key_at(i).clone();
            let v = step.with_args.val_at(i);
            proof {
                assert(wv[i as int] == (step.with_args@[i as int].0, step.with_args@[
                i as int].1));
            }
            match evaluate_value(v, &self.ctx) {
                Ok(ev) => {
                    let ghost out0 = out;
                    let ghost before = crate::value::entry_views_of_vec(out, out@.len() as int);
                    let ghost evv = ev@;
                    out.push((key, ev));
                    proof {
                        crate::value::lemma_entry_views_of_vec(out0, out0@.len() as int);
                        crate::value::lemma_entry_views_of_vec(out, out@.len() as int);
                        assert(crate::value::entry_views_of_vec(out, out@.len() as int)
                            =~= before.push((wv[i as int].0, evv)));
                    }
                }
                Err(e) => {
                    let mut msg: Vec<char> = Vec::new();
                    push_str_chars("Args evaluation failed: ", &mut msg);
                    let em = e.message();
                    push_str_chars(em.as_str(), &mut msg);
                    proof {
                        lemma_eval_entries_stays(wv, i + 1, wv.len() as int, self@.ctx);
                    }
                    return Err(chars_to_string(&msg));
                }
            }
            i = i + 1;
        }
        let r = Dict { entries: out };
        proof {
            crate::value::lemma_entry_views_of_vec(r.entries, r.entries@.len() as int);
            assert(r@ =~= crate::value::entry_views_of_vec(r.entries, r.entries@.len() as int));
        }
        Ok(r)
    }

    /// Record a step that never ran because an earlier one failed.
    pub fn record_skipped(&mut self, step: &Step)
        ensures
            final(self)@.ctx == old(self)@.ctx,
            final(self)@.should_skip == old(self)@.should_skip,
            final(self)@.results == old(self)@.results.push(
                (step_display_name(step@), StepResultView::Skipped),
            ),
    {
        let name = step_name_of(step);
        self.results.push((name, StepResult::Skipped));
        proof {
            assert(self@.results =~= old(self)@.results.push(
                (step_display_name(step@), StepResultView::Skipped)));
        }
    }

    /// Record a failed step; later steps are skipped unless the step is
    /// marked continue-on-error.
    pub fn record_failure(&mut self, step: &Step, nanos: u64, message: String)
        ensures
            final(self)@.ctx == old(self)@.ctx,
            final(self)@.should_skip == (old(self)@.should_skip || !step@.continue_on_error),
            final(self)@.results == old(self)@.results.push(
                (step_display_name(step@), StepResultView::Failed(nanos, message@)),
            ),
    {
        let name = step_name_of(step);
        let ghost mv = message@;
        self.results.push((name, StepResult::Failed(nanos, message)));
        if !step.continue_on_error {
            self.should_skip = true;
        }
        proof {
            assert(self@.results =~= old(self)@.results.push(
                (step_display_name(step@), StepResultView::Failed(nanos, mv))));
        }
    }

    /// Take a step body's outputs: store them under the step's id, then
    /// hold every post-assertion against them; a failing assertion fails
    /// the step, otherwise it passes.
    pub fn complete_step(&mut self, step: &Step, nanos: u64, outputs: StepOutputs)
        ensures
            final(self)@.ctx.steps == (match step@.id {
                Some(id) => spec_insert(old(self)@.ctx.steps, id, outputs@),
                None => old(self)@.ctx.steps,
            }),
            final(self)@.ctx.env == old(self)@.ctx.env,
            final(self)@.ctx.needs == old(self)@.ctx.needs,
            final(self)@.ctx.matrix == old(self)@.ctx.matrix,
            final(self)@.ctx.containers == old(self)@.ctx.containers,
            final(self)@.ctx.jobs == old(self)@.ctx.jobs,
            final(self)@.ctx.outputs == old(self)@.ctx.outputs,
            ({
                let gate = assert_gate(step@.post_assert, spec_post_ctx(final(self)@.ctx,
                    outputs@), "Post-assertion failed: "@, "Post-assertion error: "@,
                    step@.post_assert.len() as int);
                match gate {
                    Some(m) => final(self)@.results == old(self)@.results.push(
                        (step_display_name(step@), StepResultView::Failed(nanos, m)),
                    ) && final(self)@.should_skip == (old(self)@.should_skip
                        || !step@.continue_on_error),
                    None => final(self)@.results == old(self)@.results.push(
                        (step_display_name(step@), StepResultView::Passed(nanos)),
                    ) && final(self)@.should_skip == old(self)@.should_skip,
                }
            }),
    {
        match &step.id {
            Some(id) => {
                self.ctx.steps.insert(id.clone(), outputs.dup());
            }
            None => {}
        }
        let assert_ctx = self.ctx.with_outputs(outputs);
        proof {
            assert(assert_ctx@ == spec_post_ctx(self@.ctx, assert_ctx@.outputs->0));
        }
        match run_assert_gate(&step.post_assert, &assert_ctx, "Post-assertion failed: ",
            "Post-assertion error: ") {
            Some(m) => {
                let name = step_name_of(step);
                let ghost mv = m@;
                self.results.push((name, StepResult::Failed(nanos, m)));
                if !step.continue_on_error {
                    self.should_skip = true;
                }
                proof {
                    assert(self@.results =~= old(self)@.results.push(
                        (step_display_name(step@), StepResultView::Failed(nanos, mv))));
                }
            }
            None => {
                let name = step_name_of(step);
                self.results.push((name, StepResult::Passed(nanos)));
                proof {
                    assert(self@.results =~= old(self)@.results.push(
                        (step_display_name(step@), StepResultView::Passed(nanos))));
                }
            }
        }
    }

    /// Evaluate the job's declared outputs in the final scope; an entry
    /// whose expression fails is dropped without failing the job.
    pub fn job_outputs(&self, job: &Job) -> (r: JobOutputs)
        ensures
            r@ == spec_job_outputs(job@.outputs, self@.ctx, job@.outputs.len() as int),
    {
        evaluate_declared_outputs(&job.outputs, &self.ctx)
    }
}

proof fn lemma_eval_entries_stays(
    entries: Seq<(Seq<char>, ValView)>,
    k: int,
    n: int,
    ctx: ExprContextView,
)
    requires
        0 <= k <= n <= entries.len(),
        eval_entries(entries, k, ctx) is Err,
    ensures
        eval_entries(entries, n, ctx) == eval_entries(entries, k, ctx),
    decreases n - k,
{
    if k < n {
        lemma_eval_entries_stays(entries, k, n - 1, ctx);
    }
}

/// The scope a post-assertion sees: the step's own outputs layered over
/// the job scope.
pub open spec fn spec_post_ctx(ctx: ExprContextView, outputs: Seq<(Seq<char>, ValView)>) -> ExprContextView {
    ExprContextView {
        env: ctx.env,
        steps: ctx.steps,
        containers: ctx.containers,
        outputs: Some(outputs),
        needs: ctx.needs,
        matrix: ctx.matrix,
        jobs: ctx.jobs,
    }
}

/// The declared outputs of a job or reusable workflow, each evaluated in
/// the given scope; entries whose expression fails are dropped.
pub open spec fn spec_job_outputs(
    decls: Seq<(Seq<char>, Seq<char>)>,
    ctx: ExprContextView,
    n: int,
) -> Seq<(Seq<char>, ValView)>
    decreases n,
{
    if n <= 0 || n > decls.len() {
        Seq::empty()
    } else {
        let pre = spec_job_outputs(decls, ctx, n - 1);
        match spec_evaluate_value(ValView::Str(decls[n - 1].1), ctx) {
            Ok(v) => spec_insert(pre, decls[n - 1].0, v),
            Err(_) => pre,
        }
    }
}

fn evaluate_declared_outputs(decls: &Dict<String>, ctx: &ExprContext) -> (r: JobOutputs)
    ensures
        r@ == spec_job_outputs(decls@, ctx@, decls@.len() as int),
{
    let mut r = JobOutputs::new();
    let n = decls.len();
    let mut i: usize = 0;
    while i < n
        invariant
            0 <= i <= n,
            n == decls@.len(),
            r@ == spec_job_outputs(decls@, ctx@, i as int),
        decreases n - i,
    {
        let expr = Val::Str(decls.val_at(i).clone());
        proof {
            assert(expr@ == ValView::Str(decls@[i as int].1));
        }
        match evaluate_value(&expr, ctx) {
            Ok(v) => {
                r.insert(decls.key_at(i).clone(), v);
            }
            Err(_) => {}
        }
        i = i + 1;
    }
    r
}

/// The outputs a reusable workflow hands to its caller: each declared
/// `workflow_call` output evaluated in a scope whose `jobs` are the
/// sub-workflow's job outputs.
pub open spec fn spec_call_outputs(
    decls: Seq<(Seq<char>, crate::model::OutputDefView)>,
    ctx: ExprContextView,
    n: int,
) -> Seq<(Seq<char>, ValView)>
    decreases n,
{
    if n <= 0 || n > decls.len() {
        Seq::empty()
    } else {
        let pre = spec_call_outputs(decls, ctx, n - 1);
        match spec_evaluate_value(ValView::Str(decls[n - 1].1.value), ctx) {
            Ok(v) => spec_insert(pre, decls[n - 1].0, v),
            Err(_) => pre,
        }
    }
}

pub fn evaluate_call_outputs(config: &WorkflowCallConfig, ctx: &ExprContext) -> (r: JobOutputs)
    ensures
        r@ == spec_call_outputs(config@.outputs, ctx@, config@.outputs.len() as int),
{
    let mut r = JobOutputs::new();
    let n = config.outputs.len();
    let mut i: usize = 0;
    while i < n
        invariant
            0 <= i <= n,
            n == config@.outputs.len(),
            r@ == spec_call_outputs(config@.outputs, ctx@, i as int),
        decreases n - i,
    {
        let def: &OutputDef = config.outputs.val_at(i);
        let expr = Val::Str(def.value.clone());
        proof {
            assert(expr@ == ValView::Str(config@.outputs[i as int].1.value));
        }
        match evaluate_value(&expr, ctx) {
            Ok(v) => {
                r.insert(config.outputs.key_at(i).clone(), v);
            }
            Err(_) => {}
        }
        i = i + 1;
    }
    r
}

// ---------------------------------------------------------------------
// laws of the step driver

/// A failing step marked continue-on-error does not stop the job: the
/// driver does not enter the skipping state, and the next step goes on
/// to its own pre-assertions.
pub proof fn lemma_continue_on_error(
    run_skip: bool,
    step: StepView,
    next: StepView,
    ctx: ExprContextView,
)
    requires
        !run_skip,
        step.continue_on_error,
    ensures
        !(run_skip || !step.continue_on_error),
        spec_begin_step(run_skip || !step.continue_on_error, next, ctx) != StepGateView::Skip,
{
}

/// Recording every remaining step as skipped, front to back.
pub open spec fn spec_skip_rest(
    results: Seq<(Seq<char>, StepResultView)>,
    steps: Seq<StepView>,
    n: int,
) -> Seq<(Seq<char>, StepResultView)>
    decreases n,
{
    if n <= 0 || n > steps.len() {
        results
    } else {
        spec_skip_rest(results, steps, n - 1).push(
            (step_display_name(steps[n - 1]), StepResultView::Skipped),
        )
    }
}

/// After a failing step without continue-on-error the driver is in the
/// skipping state, and every later step of the job is recorded as
/// skipped, whatever it is.
pub proof fn lemma_skip_propagation(
    run_skip: bool,
    step: StepView,
    results: Seq<(Seq<char>, StepResultView)>,
    rest: Seq<StepView>,
    ctx: ExprContextView,
)
    requires
        !step.continue_on_error,
    ensures
        (run_skip || !step.continue_on_error) == true,
        forall|s: StepView| spec_begin_step(true, s, ctx) == StepGateView::Skip,
        forall|j: int| results.len() <= j < spec_skip_rest(results, rest,
            rest.len() as int).len() ==> (#[trigger] spec_skip_rest(results, rest,
            rest.len() as int)[j]).1 is Skipped,
        spec_skip_rest(results, rest, rest.len() as int).len() == results.len() + rest.len(),
{
    lemma_skip_rest_shape(results, rest, rest.len() as int);
}

proof fn lemma_skip_rest_shape(
    results: Seq<(Seq<char>, StepResultView)>,
    steps: Seq<StepView>,
    n: int,
)
    requires
        0 <= n <= steps.len(),
    ensures
        spec_skip_rest(results, steps, n).len() == results.len() + n,
        forall|j: int| 0 <= j < results.len() ==> #[trigger] spec_skip_rest(results, steps, n)[j]
            == results[j],
        forall|j: int| results.len() <= j < results.len() + n ==> (#[trigger] spec_skip_rest(
            results,
            steps,
            n,
        )[j]).1 is Skipped,
    decreases n,
{
    if n > 0 {
        lemma_skip_rest_shape(results, steps, n - 1);
    }
}

} // verus!
