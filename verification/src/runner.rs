//! The host-call entry point: the one function the host invokes, once per
//! requested document.
//!
//! A [`StageRunner`] owns the singleton stage instance and a terminal
//! flag.  Each call takes the input buffer, parses it by the exchange
//! convention, drives the stage's state machine one step, and answers
//! with the encoded envelope.  Once a call has answered with a terminal
//! envelope the runner is done: any further call — which a correct host
//! never makes — is answered defensively with the same terminal envelope
//! and no document, and changes nothing.

use vstd::prelude::*;

use crate::exchange::{
    enc_envelope, encode_return_doc, envelope_fits, get_input_doc, input_parse, ReturnDocument,
    TransportError,
};
use crate::stage::{DocModel, GetNextResult, PipelineStage, StageOutcome};

verus! {

/// The singleton state behind the entry point: the stage instance and
/// whether a terminal answer has been given.
pub struct StageRunner<S: PipelineStage> {
    /// The one stage instance of this module.
    pub stage: S,
    /// True once a terminal envelope has been returned.
    pub done: bool,
}

impl<S: PipelineStage> StageRunner<S> {
    /// A runner around a freshly constructed stage.
    pub fn new(stage: S) -> (r: Self)
        ensures
            r.stage == stage,
            r.done == false,
    {
        StageRunner { stage, done: false }
    }

    /// The entry point's model: the runner afterwards, the envelope's
    /// terminal flag, and the envelope's optional document.
    pub open spec fn call_model(self, input: Option<DocModel>) -> (Self, bool, Option<DocModel>) {
        if self.done {
            (self, true, None)
        } else {
            let after = StageRunner {
                stage: self.stage.next_state(input),
                done: self.stage.next_outcome(input) is Finished,
            };
            match self.stage.next_outcome(input) {
                StageOutcome::Ready(d) => (after, false, Some(d)),
                StageOutcome::Needs => (after, false, None),
                StageOutcome::Finished(od) => (after, true, od),
            }
        }
    }

    /// Answers one call from the host.
    ///
    /// The input buffer is empty for the drained stream, or holds one
    /// record.  A corrupt buffer aborts the call with no other effect.
    /// Otherwise the stage advances one step and the answer is the
    /// encoded envelope of the step's outcome — unless the outcome's
    /// document is too long for the length prefix, which aborts the call
    /// after the stage has advanced.
    pub fn handle_call(&mut self, input: &Vec<u8>) -> (r: Result<Vec<u8>, TransportError>)
        ensures
            match input_parse(input@) {
                None => {
                    &&& r matches Err(e) && e == TransportError::Corrupt
                    &&& *final(self) == *old(self)
                },
                Some(inp) => {
                    let (after, terminal, outdoc) = old(self).call_model(inp);
                    &&& *final(self) == after
                    &&& if envelope_fits(outdoc) {
                        r matches Ok(b) && b@ == enc_envelope(terminal, outdoc)
                    } else {
                        r matches Err(e) && e == TransportError::Oversize
                    }
                },
            },
    {
        let parsed = match get_input_doc(input) {
            Ok(inp) => inp,
            Err(e) => {
                return Err(e);
            },
        };
        if self.done {
            let rd = ReturnDocument { is_eof: true, next_doc: None };
            match encode_return_doc(rd) {
                Ok(b) => Ok(b),
                Err(e) => {
                    proof {
                        assert(false);
                    }
                    Err(e)
                },
            }
        } else {
            let res = self.stage.get_next(parsed.doc);
            let (is_eof, next_doc) = match res {
                GetNextResult::DocumentReady(d) => (false, Some(d)),
                GetNextResult::NeedsNextDocument => (false, None),
                GetNextResult::EOF(od) => (true, od),
            };
            if is_eof {
                self.done = true;
            }
            let rd = ReturnDocument { is_eof, next_doc };
            encode_return_doc(rd)
        }
    }
}

/// Termination safety at the boundary: whatever the stage and its state,
/// a call that delivers no document is answered with the terminal flag
/// set.
pub proof fn lemma_none_input_terminal_flag<S: PipelineStage>(r: StageRunner<S>)
    ensures
        r.call_model(None).1 == true,
{
    if !r.done {
        r.stage.outcome_on_none_is_finished();
    }
}

/// Defensive idempotence: once the runner has answered a terminal
/// envelope, every further call leaves it unchanged and answers the
/// terminal envelope with no document.
pub proof fn lemma_post_terminal_call<S: PipelineStage>(
    r: StageRunner<S>,
    input: Option<DocModel>,
)
    requires
        r.done,
    ensures
        r.call_model(input) == (r, true, Option::<DocModel>::None),
{
}

} // verus!
