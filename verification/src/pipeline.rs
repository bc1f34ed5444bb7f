//! Optimize and enrichment pipelines: step descriptions, and the decisions
//! of the executor that runs optimize steps one after another.
//!
//! The steps themselves run in the program (they are asynchronous and may
//! do I/O); after each one it reports the outcome here and is told whether
//! to go on.
use vstd::prelude::*;
use uuid::Uuid;
use crate::error::Error;
use crate::types::Document;

verus! {

/// What to do when a step fails.
#[derive(Debug, Clone, PartialEq, Eq)]
pub enum StepFallback {
    Skip,
    SkipDocument,
    Abort,
    Retry { max_attempts: u32, delay_ms: u64 },
}

impl Default for StepFallback {
    fn default() -> (f: StepFallback)
        ensures
            f is Skip,
    {
        StepFallback::Skip
    }
}

/// What an enrichment step produces.
#[derive(Debug, Clone)]
pub enum EnrichmentKind {
    Chunking,
    FullTextIndex,
    EmbeddingIndex,
    EntityExtraction,
    GeoIndex,
    TimelineIndex,
    Custom(String),
}

/// Cost estimate of an enrichment step.
#[derive(Debug, Clone, Copy)]
pub struct EnrichmentEstimate {
    pub storage_overhead: u64,
    pub compute_time_ms: u64,
    pub needs_gpu: bool,
    pub can_degrade: bool,
}

/// What an enrichment step did.
#[derive(Debug, Clone, Copy)]
pub struct EnrichmentMetrics {
    pub chunks_processed: u64,
    pub storage_added: u64,
    pub compute_time_ms: u64,
}

/// The source a pipeline works on.
#[derive(Debug, Clone)]
pub struct PipelineContext {
    pub source_id: Uuid,
    pub source_name: String,
    pub data_dir: String,
}

/// What one step of an executed pipeline did.
#[derive(Debug, Clone)]
pub struct StepResult {
    pub step_name: String,
    pub input_size: u64,
    pub output_size: u64,
    pub duration_ms: u64,
    pub skipped: bool,
}

/// What an executed pipeline did.
#[derive(Debug, Clone)]
pub struct PipelineResult {
    pub steps: Vec<StepResult>,
    pub total_duration_ms: u64,
}

/// How a step went.
#[derive(Debug, Clone, Copy)]
pub enum StepOutcome {
    /// The step is switched off and was not run.
    Disabled,
    /// The step turned input of `input_size` into output of `output_size`.
    Succeeded { input_size: u64, output_size: u64, duration_ms: u64 },
    /// The step failed on input of `input_size`; its input is gone.
    Failed { input_size: u64, duration_ms: u64 },
}

/// What the executor does next.
#[derive(Debug, Clone, Copy, PartialEq, Eq, Structural)]
pub enum RunAction {
    /// Run the next step.
    Continue,
    /// Stop here: there is no data left to pass on.
    Stop,
    /// Stop and return the step's own error.
    Abort,
}

/// The record of one step's outcome.
pub open spec fn result_for(name: Seq<char>, o: StepOutcome) -> (Seq<char>, u64, u64, u64, bool) {
    match o {
        StepOutcome::Disabled => (name, 0, 0, 0, true),
        StepOutcome::Succeeded { input_size, output_size, duration_ms } => (
            name,
            input_size,
            output_size,
            duration_ms,
            false,
        ),
        StepOutcome::Failed { input_size, duration_ms } => (name, input_size, 0, duration_ms, true),
    }
}

/// The view of a step result.
pub open spec fn result_view(r: StepResult) -> (Seq<char>, u64, u64, u64, bool) {
    (r.step_name@, r.input_size, r.output_size, r.duration_ms, r.skipped)
}

/// The executor's record of a run in progress.
#[derive(Debug)]
pub struct PipelineRun {
    steps: Vec<StepResult>,
    has_data: bool,
}

impl PipelineRun {
    /// The step results so far.
    pub closed spec fn recorded(&self) -> Seq<(Seq<char>, u64, u64, u64, bool)> {
        self.steps@.map_values(|r: StepResult| result_view(r))
    }

    /// Whether data is still flowing (no step has failed).
    pub closed spec fn flowing(&self) -> bool {
        self.has_data
    }

    /// A run that has the initial data and no results.
    pub fn new() -> (r: PipelineRun)
        ensures
            r.recorded().len() == 0,
            r.flowing(),
    {
        PipelineRun { steps: Vec::new(), has_data: true }
    }

    /// Records the outcome of the next step, named `name`: a disabled step
    /// is recorded as skipped and the run goes on; a successful one is
    /// recorded and the run goes on; a failed one aborts the run under the
    /// `Abort` fallback, and otherwise is recorded as skipped and ends the
    /// run without data.
    pub fn record(&mut self, name: &str, fallback: &StepFallback, outcome: StepOutcome) -> (a: RunAction)
        requires
            old(self).flowing(),
        ensures
            match outcome {
                StepOutcome::Failed { .. } => if *fallback is Abort {
                    a == RunAction::Abort && final(self).recorded() == old(self).recorded()
                        && final(self).flowing()
                } else {
                    a == RunAction::Stop && final(self).recorded() == old(self).recorded().push(
                        result_for(name@, outcome),
                    ) && !final(self).flowing()
                },
                _ => a == RunAction::Continue && final(self).recorded() == old(self).recorded().push(
                    result_for(name@, outcome),
                ) && final(self).flowing(),
            },
    {
        let ghost before = self.steps@;
        let r = match outcome {
            StepOutcome::Disabled => StepResult {
                step_name: String::from_str(name),
                input_size: 0,
                output_size: 0,
                duration_ms: 0,
                skipped: true,
            },
            StepOutcome::Succeeded { input_size, output_size, duration_ms } => StepResult {
                step_name: String::from_str(name),
                input_size,
                output_size,
                duration_ms,
                skipped: false,
            },
            StepOutcome::Failed { input_size, duration_ms } => {
                if let StepFallback::Abort = fallback {
                    return RunAction::Abort;
                }
                StepResult {
                    step_name: String::from_str(name),
                    input_size,
                    output_size: 0,
                    duration_ms,
                    skipped: true,
                }
            },
        };
        let failed = match outcome {
            StepOutcome::Failed { .. } => true,
            _ => false,
        };
        self.steps.push(r);
        assert(self.steps@.map_values(|r: StepResult| result_view(r)) =~= before.map_values(
            |r: StepResult| result_view(r),
        ).push(result_for(name@, outcome)));
        if failed {
            self.has_data = false;
            RunAction::Stop
        } else {
            RunAction::Continue
        }
    }

    /// The outcome of a finished run: its results, or the error that the
    /// pipeline produced no output when a step failed.
    pub fn finish(self, total_duration_ms: u64) -> (r: Result<PipelineResult, Error>)
        ensures
            self.flowing() ==> (r matches Ok(p) && p.steps@.map_values(|s: StepResult| result_view(s))
                == self.recorded() && p.total_duration_ms == total_duration_ms),
            !self.flowing() ==> (r matches Err(Error::Pipeline { step, message }) && step@
                == "executor"@ && message@ == "pipeline produced no output (all steps failed)"@),
    {
        if self.has_data {
            Ok(PipelineResult { steps: self.steps, total_duration_ms })
        } else {
            Err(
                Error::Pipeline {
                    step: String::from_str("executor"),
                    message: String::from_str("pipeline produced no output (all steps failed)"),
                },
            )
        }
    }
}

/// The total UTF-8 size of the texts of the first `n` documents.
pub open spec fn texts_size(docs: Seq<(Document, String)>, n: int) -> int
    decreases n,
{
    if n <= 0 {
        0
    } else {
        texts_size(docs, n - 1) + vstd::utf8::encode_utf8(docs[n - 1].1@).len()
    }
}

/// The size of a batch of documents: the bytes of their texts.
pub fn documents_size(docs: &[(Document, String)]) -> (r: u64)
    requires
        texts_size(docs@, docs@.len() as int) <= u64::MAX,
    ensures
        r == texts_size(docs@, docs@.len() as int),
{
    let mut total: u64 = 0;
    let mut i: usize = 0;
    while i < docs.len()
        invariant
            i <= docs@.len(),
            total == texts_size(docs@, i as int),
            texts_size(docs@, docs@.len() as int) <= u64::MAX,
        decreases docs.len() - i,
    {
        proof {
            lemma_texts_size_mono(docs@, i + 1, docs@.len() as int);
        }
        total = total + docs[i].1.as_str().as_bytes().len() as u64;
        i += 1;
    }
    total
}

proof fn lemma_texts_size_mono(docs: Seq<(Document, String)>, i: int, j: int)
    requires
        0 <= i <= j,
    ensures
        texts_size(docs, i) <= texts_size(docs, j),
    decreases j - i,
{
    if j > i {
        lemma_texts_size_mono(docs, i, j - 1);
    }
}

} // verus!
