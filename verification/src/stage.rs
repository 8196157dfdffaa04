//! The per-call state machine a pipeline stage must obey.
//!
//! The host asks a stage for documents one call at a time, handing it zero
//! or one input document per call.  The stage answers with a
//! [`GetNextResult`]: a document is ready, more input is needed first, or
//! the stream is finished (with an optional final document).
//!
//! A stage implements [`PipelineStage`].  Beside the executable `get_next`
//! the trait asks for a functional model — the outcome and the successor
//! state as spec functions of the current state and the input — and for a
//! proof that a call with no input always finishes the stream.  That proof
//! obligation is the termination-safety law: no stage, however written,
//! may answer a drained stream with anything but a terminal result.

use vstd::prelude::*;

use crate::document::{Document, ValueModel};

verus! {

/// The model of one document: its field list over sequences and integers.
pub type DocModel = Seq<(Seq<char>, ValueModel)>;

/// What one call of `get_next` tells the host.
#[derive(Debug, PartialEq, Eq)]
pub enum GetNextResult {
    /// A document is ready; call again for more.
    DocumentReady(Document),
    /// The input was consumed but nothing can be emitted yet; supply the
    /// next input document on the following call.
    NeedsNextDocument,
    /// The stream is finished; the optional document is the last one.
    /// After this the host must not call the stage again.
    EOF(Option<Document>),
}

/// The model of a call outcome, over document models.
pub enum StageOutcome {
    /// A document is ready.
    Ready(DocModel),
    /// More input is needed before anything can be emitted.
    Needs,
    /// The stream is finished, with an optional final document.
    Finished(Option<DocModel>),
}

/// The model of an optional document.
pub open spec fn input_model(i: Option<Document>) -> Option<DocModel> {
    match i {
        Some(d) => Some(d@),
        None => None,
    }
}

/// The model of a [`GetNextResult`].
pub open spec fn result_model(r: GetNextResult) -> StageOutcome {
    match r {
        GetNextResult::DocumentReady(d) => StageOutcome::Ready(d@),
        GetNextResult::NeedsNextDocument => StageOutcome::Needs,
        GetNextResult::EOF(od) => StageOutcome::Finished(input_model(od)),
    }
}

/// One stage of a document pipeline.
///
/// `get_next` is the whole call interface: the host delivers upstream
/// documents in arrival order, one per call, and a final call with no
/// input when the upstream is exhausted.  The two spec functions pin the
/// stage's behaviour exactly; `get_next` is proved to follow them.
pub trait PipelineStage: Sized {
    /// What a call in state `self` with this input answers.
    spec fn next_outcome(&self, input: Option<DocModel>) -> StageOutcome;

    /// The state after a call in state `self` with this input.
    spec fn next_state(&self, input: Option<DocModel>) -> Self;

    /// Termination safety: a call with no input always finishes the
    /// stream.  Every implementation must prove this of its own model.
    proof fn outcome_on_none_is_finished(&self)
        ensures
            self.next_outcome(None) is Finished,
    ;

    /// Answers one call from the host, following the stage's model.
    fn get_next(&mut self, input: Option<Document>) -> (r: GetNextResult)
        ensures
            *final(self) == old(self).next_state(input_model(input)),
            result_model(r) == old(self).next_outcome(input_model(input)),
    ;
}

/// Termination safety, for every stage at once: after a call with
/// `input = None` the result is terminal — never a ready document, never
/// a request for more input.
pub proof fn lemma_none_input_is_terminal<S: PipelineStage>(s: S, r: GetNextResult)
    requires
        result_model(r) == s.next_outcome(None),
    ensures
        r is EOF,
{
    s.outcome_on_none_is_finished();
}

} // verus!
