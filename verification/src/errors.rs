use vstd::prelude::*;

use crate::strutil::chars_to_string;
use crate::value::push_str_chars;

verus! {

/// What a step body may report.
pub enum StepErrorView {
    Assertion(Seq<char>),
    Custom(Seq<char>),
}

#[derive(Debug)]
pub enum StepError {
    Assertion(String),
    Custom(String),
}

impl View for StepError {
    type V = StepErrorView;

    open spec fn view(&self) -> StepErrorView {
        match self {
            StepError::Assertion(m) => StepErrorView::Assertion(m@),
            StepError::Custom(m) => StepErrorView::Custom(m@),
        }
    }
}

/// The error kinds of the engine.
pub enum ErrorView {
    StepNotFound(Seq<char>),
    Args(Seq<char>),
    Expression(Seq<char>),
    Assertion(Seq<char>),
    Io(Seq<char>),
    Yaml(Seq<char>),
    Json(Seq<char>),
    Step(StepErrorView),
    Container(Seq<char>),
    EnvVar(Seq<char>),
    WorkflowNotFound { path: Seq<char> },
    JobNotFound { workflow: Seq<char>, job: Seq<char> },
    InvalidFileRef { uses: Seq<char> },
    CircularDependency { chain: Seq<char> },
    JobDependencyNotFound { job: Seq<char>, dependency: Seq<char> },
    Custom(Seq<char>),
}

#[derive(Debug)]
pub enum Error {
    StepNotFound(String),
    Args(String),
    Expression(String),
    Assertion(String),
    Io(String),
    Yaml(String),
    Json(String),
    Step(StepError),
    Container(String),
    EnvVar(String),
    WorkflowNotFound { path: String },
    JobNotFound { workflow: String, job: String },
    InvalidFileRef { uses: String },
    CircularDependency { chain: String },
    JobDependencyNotFound { job: String, dependency: String },
    Custom(String),
}

impl View for Error {
    type V = ErrorView;

    open spec fn view(&self) -> ErrorView {
        match self {
            Error::StepNotFound(m) => ErrorView::StepNotFound(m@),
            Error::Args(m) => ErrorView::Args(m@),
            Error::Expression(m) => ErrorView::Expression(m@),
            Error::Assertion(m) => ErrorView::Assertion(m@),
            Error::Io(m) => ErrorView::Io(m@),
            Error::Yaml(m) => ErrorView::Yaml(m@),
            Error::Json(m) => ErrorView::Json(m@),
            Error::Step(e) => ErrorView::Step(e@),
            Error::Container(m) => ErrorView::Container(m@),
            Error::EnvVar(m) => ErrorView::EnvVar(m@),
            Error::WorkflowNotFound { path } => ErrorView::WorkflowNotFound { path: path@ },
            Error::JobNotFound { workflow, job } => ErrorView::JobNotFound {
                workflow: workflow@,
                job: job@,
            },
            Error::InvalidFileRef { uses } => ErrorView::InvalidFileRef { uses: uses@ },
            Error::CircularDependency { chain } => ErrorView::CircularDependency { chain: chain@ },
            Error::JobDependencyNotFound { job, dependency } => ErrorView::JobDependencyNotFound {
                job: job@,
                dependency: dependency@,
            },
            Error::Custom(m) => ErrorView::Custom(m@),
        }
    }
}

pub open spec fn step_error_message(e: StepErrorView) -> Seq<char> {
    match e {
        StepErrorView::Assertion(m) => "Assertion failed: "@ + m,
        StepErrorView::Custom(m) => m,
    }
}

pub open spec fn error_message(e: ErrorView) -> Seq<char> {
    match e {
        ErrorView::StepNotFound(m) => "Step not found: "@ + m,
        ErrorView::Args(m) => "Args error: "@ + m,
        ErrorView::Expression(m) => "Expression error: "@ + m,
        ErrorView::Assertion(m) => "Assertion failed: "@ + m,
        ErrorView::Io(m) => "IO error: "@ + m,
        ErrorView::Yaml(m) => "YAML parse error: "@ + m,
        ErrorView::Json(m) => "JSON error: "@ + m,
        ErrorView::Step(e) => "Step error: "@ + step_error_message(e),
        ErrorView::Container(m) => "Container error: "@ + m,
        ErrorView::EnvVar(m) => "Environment variable not found: "@ + m,
        ErrorView::WorkflowNotFound { path } => "Workflow not found: "@ + path,
        ErrorView::JobNotFound { workflow, job } => "Job not found: "@ + job
            + " in workflow "@ + workflow,
        ErrorView::InvalidFileRef { uses } => "Invalid file reference: "@ + uses,
        ErrorView::CircularDependency { chain } => "Circular dependency detected: "@ + chain,
        ErrorView::JobDependencyNotFound { job, dependency } => "Job dependency not found: "@
            + job + " requires "@ + dependency,
        ErrorView::Custom(m) => m,
    }
}

impl StepError {
    pub fn assertion(msg: String) -> (r: Self)
        ensures
            r@ == StepErrorView::Assertion(msg@),
    {
        StepError::Assertion(msg)
    }

    pub fn custom(msg: String) -> (r: Self)
        ensures
            r@ == StepErrorView::Custom(msg@),
    {
        StepError::Custom(msg)
    }

    /// The one-line description of the error.
    pub fn message(&self) -> (r: String)
        ensures
            r@ == step_error_message(self@),
    {
        let mut out: Vec<char> = Vec::new();
        match self {
            StepError::Assertion(m) => {
                push_str_chars("Assertion failed: ", &mut out);
                push_str_chars(m.as_str(), &mut out);
            }
            StepError::Custom(m) => {
                push_str_chars(m.as_str(), &mut out);
            }
        }
        proof {
            assert(out@ =~= step_error_message(self@));
        }
        chars_to_string(&out)
    }
}

impl Error {
    /// The one-line description of the error.
    pub fn message(&self) -> (r: String)
        ensures
            r@ == error_message(self@),
    {
        let mut out: Vec<char> = Vec::new();
        match self {
            Error::StepNotFound(m) => {
                push_str_chars("Step not found: ", &mut out);
                push_str_chars(m.as_str(), &mut out);
            }
            Error::Args(m) => {
                push_str_chars("Args error: ", &mut out);
                push_str_chars(m.as_str(), &mut out);
            }
            Error::Expression(m) => {
                push_str_chars("Expression error: ", &mut out);
                push_str_chars(m.as_str(), &mut out);
            }
            Error::Assertion(m) => {
                push_str_chars("Assertion failed: ", &mut out);
                push_str_chars(m.as_str(), &mut out);
            }
            Error::Io(m) => {
                push_str_chars("IO error: ", &mut out);
                push_str_chars(m.as_str(), &mut out);
            }
            Error::Yaml(m) => {
                push_str_chars("YAML parse error: ", &mut out);
                push_str_chars(m.as_str(), &mut out);
            }
            Error::Json(m) => {
                push_str_chars("JSON error: ", &mut out);
                push_str_chars(m.as_str(), &mut out);
            }
            Error::Step(e) => {
                push_str_chars("Step error: ", &mut out);
                let inner = e.message();
                push_str_chars(inner.as_str(), &mut out);
            }
            Error::Container(m) => {
                push_str_chars("Container error: ", &mut out);
                push_str_chars(m.as_str(), &mut out);
            }
            Error::EnvVar(m) => {
                push_str_chars("Environment variable not found: ", &mut out);
                push_str_chars(m.as_str(), &mut out);
            }
            Error::WorkflowNotFound { path } => {
                push_str_chars("Workflow not found: ", &mut out);
                push_str_chars(path.as_str(), &mut out);
            }
            Error::JobNotFound { workflow, job } => {
                push_str_chars("Job not found: ", &mut out);
                push_str_chars(job.as_str(), &mut out);
                push_str_chars(" in workflow ", &mut out);
                push_str_chars(workflow.as_str(), &mut out);
            }
            Error::InvalidFileRef { uses } => {
                push_str_chars("Invalid file reference: ", &mut out);
                push_str_chars(uses.as_str(), &mut out);
            }
            Error::CircularDependency { chain } => {
                push_str_chars("Circular dependency detected: ", &mut out);
                push_str_chars(chain.as_str(), &mut out);
            }
            Error::JobDependencyNotFound { job, dependency } => {
                push_str_chars("Job dependency not found: ", &mut out);
                push_str_chars(job.as_str(), &mut out);
                push_str_chars(" requires ", &mut out);
                push_str_chars(dependency.as_str(), &mut out);
            }
            Error::Custom(m) => {
                push_str_chars(m.as_str(), &mut out);
            }
        }
        proof {
            assert(out@ =~= error_message(self@));
        }
        chars_to_string(&out)
    }
}

} // verus!
