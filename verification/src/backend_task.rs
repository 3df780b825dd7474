//! The task that takes backend requests in order. Each is executed on its own, and answered when
//! it is done.

use vstd::prelude::*;
use vstd::string::*;

use crate::text;
use crate::types;
use crate::types::{Backend, BackendResult, ResultView};

verus! {

/// What came of the execution of a request.
#[derive(Debug, PartialEq, Eq)]
pub enum Execution {
    /// The backend ran, with its message or its error
    Finished(Result<String, String>),
    /// The request was cancelled before the backend was done
    Cancelled,
    /// The backend was not there
    NotInitialized,
}

/// A backend's name in messages.
pub open spec fn short_name(backend: Backend) -> Seq<char> {
    match backend {
        Backend::Repomix => "repomix"@,
        Backend::Yek => "yek"@,
    }
}

/// The mathematical value of an [`Execution`].
pub enum ExecutionView {
    Finished(Result<Seq<char>, Seq<char>>),
    Cancelled,
    NotInitialized,
}

impl View for Execution {
    type V = ExecutionView;

    open spec fn view(&self) -> ExecutionView {
        match self {
            Execution::Finished(Ok(message)) => ExecutionView::Finished(Ok(message@)),
            Execution::Finished(Err(e)) => ExecutionView::Finished(Err(e@)),
            Execution::Cancelled => ExecutionView::Cancelled,
            Execution::NotInitialized => ExecutionView::NotInitialized,
        }
    }
}

/// The answer to a request that failed.
pub open spec fn failure(error: Seq<char>, request_id: u64) -> ResultView {
    ResultView {
        success: false,
        message: Seq::empty(),
        output_file: None,
        error: Some(error),
        request_id,
    }
}

/// The answer to a request whose backend could not be initialized.
pub open spec fn not_initialized(backend: Backend, error: Seq<char>, request_id: u64) -> ResultView {
    failure("Failed to initialize "@ + short_name(backend) + ": "@ + error, request_id)
}

/// The answer to a request, from what came of its execution. Only repomix writes output files.
pub open spec fn answered(
    backend: Backend,
    execution: ExecutionView,
    output_file: Option<Seq<char>>,
    request_id: u64,
) -> ResultView {
    match execution {
        ExecutionView::Finished(Ok(message)) => ResultView {
            success: true,
            message,
            output_file: match backend {
                Backend::Repomix => output_file,
                Backend::Yek => None,
            },
            error: None,
            request_id,
        },
        ExecutionView::Finished(Err(e)) => failure(
            "Error: "@ + short_name(backend) + " error "@ + e,
            request_id,
        ),
        ExecutionView::Cancelled => failure("Operation cancelled"@, request_id),
        ExecutionView::NotInitialized => failure(
            match backend {
                Backend::Repomix => "Repomix not initialized"@,
                Backend::Yek => "Yek not initialized"@,
            },
            request_id,
        ),
    }
}

/// The backends that the task has initialized so far. Each is initialized when it is first needed.
#[derive(Debug, Clone, Copy, PartialEq, Eq, Structural)]
pub struct BackendTask {
    pub repomix_initialized: bool,
    pub yek_initialized: bool,
}

impl BackendTask {
    /// Whether the backend has been initialized.
    pub open spec fn has(self, backend: Backend) -> bool {
        match backend {
            Backend::Repomix => self.repomix_initialized,
            Backend::Yek => self.yek_initialized,
        }
    }

    /// The task with the backend initialized.
    pub open spec fn with(self, backend: Backend) -> BackendTask {
        match backend {
            Backend::Repomix => BackendTask { repomix_initialized: true, ..self },
            Backend::Yek => BackendTask { yek_initialized: true, ..self },
        }
    }

    /// A task that has not initialized any backend.
    pub fn new() -> (r: Self)
        ensures
            forall|b: Backend| !r.has(b),
    {
        BackendTask { repomix_initialized: false, yek_initialized: false }
    }

    /// Whether the backend is to be initialized before a request for it is executed.
    pub fn needs_initialization(&self, backend: Backend) -> (r: bool)
        ensures
            r == !self.has(backend),
    {
        match backend {
            Backend::Repomix => !self.repomix_initialized,
            Backend::Yek => !self.yek_initialized,
        }
    }

    /// Takes note of what came of the initialization for a request: nothing to report where it
    /// succeeded, and else the answer to the request. A backend that failed is tried again for the
    /// next request.
    pub fn initialized(&mut self, backend: Backend, failure: Option<&str>, request_id: u64) -> (r:
        Option<BackendResult>)
        ensures
            r is Some <==> failure is Some,
            failure is None ==> *final(self) == old(self).with(backend),
            failure is Some ==> *final(self) == *old(self) && r->0@ == not_initialized(
                backend,
                failure->0@,
                request_id,
            ),
    {
        match failure {
            None => {
                match backend {
                    Backend::Repomix => {
                        self.repomix_initialized = true;
                    },
                    Backend::Yek => {
                        self.yek_initialized = true;
                    },
                }
                None
            },
            Some(e) => {
                let mut error = text::concat3("Failed to initialize ", name_of(backend), ": ");
                error.append(e);
                Some(failed(error, request_id))
            },
        }
    }
}

/// A backend's name in messages.
fn name_of(backend: Backend) -> (r: &'static str)
    ensures
        r@ == short_name(backend),
{
    match backend {
        Backend::Repomix => "repomix",
        Backend::Yek => "yek",
    }
}

/// The answer to a request that failed.
fn failed(error: String, request_id: u64) -> (r: BackendResult)
    ensures
        r@ == failure(error@, request_id),
{
    let message = String::new();
    assert(message@ =~= Seq::<char>::empty());
    BackendResult { success: false, message, output_file: None, error: Some(error), request_id }
}

/// The answer to a request, from what came of its execution. Only repomix writes output files.
pub fn answer(
    backend: Backend,
    execution: Execution,
    output_file: Option<String>,
    request_id: u64,
) -> (r: BackendResult)
    ensures
        r@ == answered(backend, execution@, types::optional_text(output_file), request_id),
{
    match execution {
        Execution::Finished(outcome) => match outcome {
            Ok(message) => BackendResult {
                success: true,
                message,
                output_file: match backend {
                    Backend::Repomix => output_file,
                    Backend::Yek => None,
                },
                error: None,
                request_id,
            },
            Err(e) => {
                let mut error = text::concat3("Error: ", name_of(backend), " error ");
                error.append(e.as_str());
                failed(error, request_id)
            },
        },
        Execution::Cancelled => failed("Operation cancelled".to_string(), request_id),
        Execution::NotInitialized => failed(
            match backend {
                Backend::Repomix => "Repomix not initialized".to_string(),
                Backend::Yek => "Yek not initialized".to_string(),
            },
            request_id,
        ),
    }
}

/// A request that has come to the task, with what comes of it: the error of the initialization of
/// its backend, where that is tried and fails, and what comes of its execution.
pub struct Job {
    pub backend: Backend,
    pub output_file: Option<Seq<char>>,
    pub request_id: u64,
    pub failure: Option<Seq<char>>,
    pub execution: ExecutionView,
}

/// Whether the job ends with the initialization of its backend.
pub open spec fn ends_early(task: BackendTask, job: Job) -> bool {
    !task.has(job.backend) && job.failure is Some
}

/// The answer of the task to a job.
pub open spec fn job_answer(task: BackendTask, job: Job) -> ResultView {
    if ends_early(task, job) {
        not_initialized(job.backend, job.failure->0, job.request_id)
    } else {
        answered(job.backend, job.execution, job.output_file, job.request_id)
    }
}

/// The task after a job.
pub open spec fn after_job(task: BackendTask, job: Job) -> BackendTask {
    if ends_early(task, job) {
        task
    } else {
        task.with(job.backend)
    }
}

/// The task after a list of jobs, and its answers to them.
pub open spec fn after_jobs(task: BackendTask, jobs: Seq<Job>) -> (BackendTask, Seq<ResultView>)
    decreases jobs.len(),
{
    if jobs.len() == 0 {
        (task, Seq::empty())
    } else {
        let (before, answers) = after_jobs(task, jobs.drop_last());
        (
            after_job(before, jobs.last()),
            answers.push(job_answer(before, jobs.last())),
        )
    }
}

/// Every request gets one answer, a failed initialization included. The answer carries the number
/// of the request; it is a success exactly where it has no error; a failure has no message and no
/// output file, and a success has the output file of the request with repomix and none with yek;
/// and an execution that was cut short says so.
pub proof fn lemma_every_request_answered(task: BackendTask, jobs: Seq<Job>)
    ensures
        after_jobs(task, jobs).1.len() == jobs.len(),
        forall|i: int|
            0 <= i < jobs.len() ==> {
                let a = #[trigger] after_jobs(task, jobs).1[i];
                let before = after_jobs(task, jobs.take(i)).0;
                &&& a.request_id == jobs[i].request_id
                &&& a.success <==> a.error is None
                &&& !a.success ==> a.message == Seq::<char>::empty() && a.output_file is None
                &&& a.success ==> a.output_file == (match jobs[i].backend {
                    Backend::Repomix => jobs[i].output_file,
                    Backend::Yek => None,
                })
                &&& jobs[i].execution is Cancelled && !ends_early(before, jobs[i]) ==> a.error
                    == Some("Operation cancelled"@)
            },
    decreases jobs.len(),
{
    if jobs.len() > 0 {
        let rest = jobs.drop_last();
        lemma_every_request_answered(task, rest);
        let answers = after_jobs(task, jobs).1;
        assert forall|i: int| 0 <= i < jobs.len() implies {
            let a = #[trigger] answers[i];
            let before = after_jobs(task, jobs.take(i)).0;
            &&& a.request_id == jobs[i].request_id
            &&& a.success <==> a.error is None
            &&& !a.success ==> a.message == Seq::<char>::empty() && a.output_file is None
            &&& a.success ==> a.output_file == (match jobs[i].backend {
                Backend::Repomix => jobs[i].output_file,
                Backend::Yek => None,
            })
            &&& jobs[i].execution is Cancelled && !ends_early(before, jobs[i]) ==> a.error == Some(
                "Operation cancelled"@,
            )
        } by {
            if i < rest.len() {
                assert(answers[i] == after_jobs(task, rest).1[i]);
                assert(rest.take(i) =~= jobs.take(i));
            } else {
                assert(jobs.take(i) =~= rest);
            }
        }
    }
}

/// A backend is initialized at most once with success: once the task has it, no job for it ends
/// with its initialization.
pub proof fn lemma_initialized_once(task: BackendTask, jobs: Seq<Job>, job: Job)
    requires
        task.has(job.backend),
    ensures
        after_jobs(task, jobs).0.has(job.backend),
        !ends_early(after_jobs(task, jobs).0, job),
    decreases jobs.len(),
{
    if jobs.len() > 0 {
        lemma_initialized_once(task, jobs.drop_last(), job);
    }
}

} // verus!
