use vstd::prelude::*;

use crate::dict::Dict;
use crate::value::{Val, ValView};

verus! {

/// Which jobs must run before a job: nothing, one, or a list.
#[derive(Debug)]
pub enum JobNeeds {
    Absent,
    Single(String),
    Multiple(Vec<String>),
}

impl View for JobNeeds {
    type V = Seq<Seq<char>>;

    /// The declared predecessors, normalised to a list.
    open spec fn view(&self) -> Seq<Seq<char>> {
        match self {
            JobNeeds::Absent => Seq::empty(),
            JobNeeds::Single(s) => seq![s@],
            JobNeeds::Multiple(v) => v.deep_view(),
        }
    }
}

impl DeepView for JobNeeds {
    type V = Seq<Seq<char>>;

    open spec fn deep_view(&self) -> Seq<Seq<char>> {
        self.view()
    }
}

impl JobNeeds {
    /// The declared predecessors as an owned list.
    pub fn as_vec(&self) -> (r: Vec<String>)
        ensures
            r.deep_view() == self@,
    {
        match self {
            JobNeeds::Absent => {
                let r: Vec<String> = Vec::new();
                proof {
                    assert(r.deep_view() =~= self@);
                }
                r
            }
            JobNeeds::Single(s) => {
                let mut r: Vec<String> = Vec::new();
                r.push(s.clone());
                proof {
                    assert(r.deep_view() =~= self@);
                }
                r
            }
            JobNeeds::Multiple(v) => {
                let mut r: Vec<String> = Vec::new();
                let n = v.len();
                let mut i: usize = 0;
                while i < n
                    invariant
                        0 <= i <= n,
                        n == v@.len(),
                        r@.len() == i,
                        forall|j: int| 0 <= j < i ==> (#[trigger] r@[j])@ == v@[j]@,
                    decreases n - i,
                {
                    r.push(v[i].clone());
                    i = i + 1;
                }
                proof {
                    assert(r.deep_view() =~= self@);
                }
                r
            }
        }
    }

    pub fn is_empty(&self) -> (r: bool)
        ensures
            r == (self@.len() == 0),
    {
        match self {
            JobNeeds::Absent => true,
            JobNeeds::Single(_) => false,
            JobNeeds::Multiple(v) => v.len() == 0,
        }
    }

    pub fn dup(&self) -> (r: Self)
        ensures
            r@ == self@,
    {
        match self {
            JobNeeds::Absent => JobNeeds::Absent,
            JobNeeds::Single(s) => JobNeeds::Single(s.clone()),
            JobNeeds::Multiple(v) => {
                let mut r: Vec<String> = Vec::new();
                let n = v.len();
                let mut i: usize = 0;
                while i < n
                    invariant
                        0 <= i <= n,
                        n == v@.len(),
                        r@.len() == i,
                        forall|j: int| 0 <= j < i ==> (#[trigger] r@[j])@ == v@[j]@,
                    decreases n - i,
                {
                    r.push(v[i].clone());
                    i = i + 1;
                }
                proof {
                    assert(r.deep_view() =~= v.deep_view());
                }
                JobNeeds::Multiple(r)
            }
        }
    }
}

/// A declared output of a reusable workflow.
#[derive(Debug)]
pub struct OutputDef {
    pub description: Option<String>,
    pub value: String,
}

pub struct OutputDefView {
    pub description: Option<Seq<char>>,
    pub value: Seq<char>,
}

impl View for OutputDef {
    type V = OutputDefView;

    open spec fn view(&self) -> OutputDefView {
        OutputDefView { description: self.description.deep_view(), value: self.value@ }
    }
}

impl DeepView for OutputDef {
    type V = OutputDefView;

    open spec fn deep_view(&self) -> OutputDefView {
        self.view()
    }
}

/// A declared input of a reusable workflow.
#[derive(Debug)]
pub struct InputDef {
    pub description: Option<String>,
    pub required: bool,
    pub default: Option<Val>,
    pub input_type: Option<String>,
}

pub struct InputDefView {
    pub description: Option<Seq<char>>,
    pub required: bool,
    pub default: Option<ValView>,
    pub input_type: Option<Seq<char>>,
}

impl View for InputDef {
    type V = InputDefView;

    open spec fn view(&self) -> InputDefView {
        InputDefView {
            description: self.description.deep_view(),
            required: self.required,
            default: self.default.deep_view(),
            input_type: self.input_type.deep_view(),
        }
    }
}

impl DeepView for InputDef {
    type V = InputDefView;

    open spec fn deep_view(&self) -> InputDefView {
        self.view()
    }
}

/// The `workflow_call` section of a reusable workflow.
#[derive(Debug)]
pub struct WorkflowCallConfig {
    pub inputs: Dict<InputDef>,
    pub outputs: Dict<OutputDef>,
}

pub struct WorkflowCallConfigView {
    pub inputs: Seq<(Seq<char>, InputDefView)>,
    pub outputs: Seq<(Seq<char>, OutputDefView)>,
}

impl View for WorkflowCallConfig {
    type V = WorkflowCallConfigView;

    open spec fn view(&self) -> WorkflowCallConfigView {
        WorkflowCallConfigView { inputs: self.inputs@, outputs: self.outputs@ }
    }
}

impl DeepView for WorkflowCallConfig {
    type V = WorkflowCallConfigView;

    open spec fn deep_view(&self) -> WorkflowCallConfigView {
        self.view()
    }
}

/// The trigger section of a workflow document.
#[derive(Debug)]
pub struct WorkflowTrigger {
    pub workflow_call: Option<WorkflowCallConfig>,
}

pub struct WorkflowTriggerView {
    pub workflow_call: Option<WorkflowCallConfigView>,
}

impl View for WorkflowTrigger {
    type V = WorkflowTriggerView;

    open spec fn view(&self) -> WorkflowTriggerView {
        WorkflowTriggerView { workflow_call: self.workflow_call.deep_view() }
    }
}

impl DeepView for WorkflowTrigger {
    type V = WorkflowTriggerView;

    open spec fn deep_view(&self) -> WorkflowTriggerView {
        self.view()
    }
}

/// The matrix of a job: value lists per key, rows appended verbatim, and
/// rows excluded from the product.
#[derive(Debug)]
pub struct Matrix {
    pub added: Vec<Dict<Val>>,
    pub exclude: Vec<Dict<Val>>,
    pub dimensions: Dict<Vec<Val>>,
}

pub struct MatrixView {
    pub added: Seq<Seq<(Seq<char>, ValView)>>,
    pub exclude: Seq<Seq<(Seq<char>, ValView)>>,
    pub dimensions: Seq<(Seq<char>, Seq<ValView>)>,
}

impl View for Matrix {
    type V = MatrixView;

    open spec fn view(&self) -> MatrixView {
        MatrixView {
            added: self.added.deep_view(),
            exclude: self.exclude.deep_view(),
            dimensions: self.dimensions@,
        }
    }
}

impl DeepView for Matrix {
    type V = MatrixView;

    open spec fn deep_view(&self) -> MatrixView {
        self.view()
    }
}

impl Matrix {
    pub fn new() -> (r: Self)
        ensures
            r@.added.len() == 0,
            r@.exclude.len() == 0,
            r@.dimensions.len() == 0,
    {
        let r = Matrix { added: Vec::new(), exclude: Vec::new(), dimensions: Dict::new() };
        proof {
            assert(r@.added =~= Seq::<Seq<(Seq<char>, ValView)>>::empty());
            assert(r@.exclude =~= Seq::<Seq<(Seq<char>, ValView)>>::empty());
        }
        r
    }
}

/// How a matrix job is driven.
#[derive(Debug)]
pub struct Strategy {
    pub matrix: Matrix,
    pub fail_fast: bool,
    pub max_parallel: Option<usize>,
}

pub struct StrategyView {
    pub matrix: MatrixView,
    pub fail_fast: bool,
    pub max_parallel: Option<usize>,
}

impl View for Strategy {
    type V = StrategyView;

    open spec fn view(&self) -> StrategyView {
        StrategyView {
            matrix: self.matrix@,
            fail_fast: self.fail_fast,
            max_parallel: self.max_parallel,
        }
    }
}

impl DeepView for Strategy {
    type V = StrategyView;

    open spec fn deep_view(&self) -> StrategyView {
        self.view()
    }
}

/// One step of a job.
#[derive(Debug)]
pub struct Step {
    pub name: Option<String>,
    pub id: Option<String>,
    pub uses: String,
    pub with_args: Dict<Val>,
    pub continue_on_error: bool,
    pub pre_assert: Vec<String>,
    pub post_assert: Vec<String>,
}

pub struct StepView {
    pub name: Option<Seq<char>>,
    pub id: Option<Seq<char>>,
    pub uses: Seq<char>,
    pub with_args: Seq<(Seq<char>, ValView)>,
    pub continue_on_error: bool,
    pub pre_assert: Seq<Seq<char>>,
    pub post_assert: Seq<Seq<char>>,
}

impl View for Step {
    type V = StepView;

    open spec fn view(&self) -> StepView {
        StepView {
            name: self.name.deep_view(),
            id: self.id.deep_view(),
            uses: self.uses@,
            with_args: self.with_args@,
            continue_on_error: self.continue_on_error,
            pre_assert: self.pre_assert.deep_view(),
            post_assert: self.post_assert.deep_view(),
        }
    }
}

impl DeepView for Step {
    type V = StepView;

    open spec fn deep_view(&self) -> StepView {
        self.view()
    }
}

/// One job of a workflow.
#[derive(Debug)]
pub struct Job {
    pub name: Option<String>,
    pub needs: JobNeeds,
    pub uses: Option<String>,
    pub with_args: Dict<Val>,
    pub strategy: Option<Strategy>,
    pub outputs: Dict<String>,
    pub env: Dict<String>,
    pub steps: Vec<Step>,
}

pub struct JobView {
    pub name: Option<Seq<char>>,
    pub needs: Seq<Seq<char>>,
    pub uses: Option<Seq<char>>,
    pub with_args: Seq<(Seq<char>, ValView)>,
    pub strategy: Option<StrategyView>,
    pub outputs: Seq<(Seq<char>, Seq<char>)>,
    pub env: Seq<(Seq<char>, Seq<char>)>,
    pub steps: Seq<StepView>,
}

impl View for Job {
    type V = JobView;

    open spec fn view(&self) -> JobView {
        JobView {
            name: self.name.deep_view(),
            needs: self.needs@,
            uses: self.uses.deep_view(),
            with_args: self.with_args@,
            strategy: self.strategy.deep_view(),
            outputs: self.outputs@,
            env: self.env@,
            steps: self.steps.deep_view(),
        }
    }
}

impl DeepView for Job {
    type V = JobView;

    open spec fn deep_view(&self) -> JobView {
        self.view()
    }
}

/// A whole workflow document.
#[derive(Debug)]
pub struct Workflow {
    pub name: String,
    pub on: Option<WorkflowTrigger>,
    pub env: Dict<String>,
    pub jobs: Dict<Job>,
}

pub struct WorkflowView {
    pub name: Seq<char>,
    pub on: Option<WorkflowTriggerView>,
    pub env: Seq<(Seq<char>, Seq<char>)>,
    pub jobs: Seq<(Seq<char>, JobView)>,
}

impl View for Workflow {
    type V = WorkflowView;

    open spec fn view(&self) -> WorkflowView {
        WorkflowView {
            name: self.name@,
            on: self.on.deep_view(),
            env: self.env@,
            jobs: self.jobs@,
        }
    }
}

impl DeepView for Workflow {
    type V = WorkflowView;

    open spec fn deep_view(&self) -> WorkflowView {
        self.view()
    }
}

/// A workflow is reusable exactly when its trigger declares `workflow_call`.
pub open spec fn spec_is_reusable(w: WorkflowView) -> bool {
    match w.on {
        Some(t) => t.workflow_call is Some,
        None => false,
    }
}

impl Workflow {
    pub fn is_reusable(&self) -> (r: bool)
        ensures
            r == spec_is_reusable(self@),
    {
        match &self.on {
            Some(t) => t.workflow_call.is_some(),
            None => false,
        }
    }
}

} // verus!
