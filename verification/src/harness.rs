//! An in-process stand-in for the host: it replays a preloaded, ordered
//! sequence of documents through a stage, one call per document, then
//! makes the final call with no input — exactly the call pattern a real
//! host produces, without the isolation boundary.

use vstd::prelude::*;

use crate::document::Document;
use crate::stage::{input_model, DocModel, GetNextResult, PipelineStage, StageOutcome};
use crate::stages::{PassthroughStage, StatsStage};

verus! {

broadcast use {vstd::seq::group_seq_axioms, vstd::std_specs::vec::group_vec_axioms};

/// The models of a list of documents, in order.
pub open spec fn docs_model(v: Seq<Document>) -> Seq<DocModel> {
    Seq::new(
        v.len(),
        |i: int|
            if 0 <= i < v.len() {
                v[i]@
            } else {
                Seq::empty()
            },
    )
}

/// What a whole run of a stage yields: the emitted documents in order,
/// and the final document of the terminal call, if any.
///
/// The host feeds the inputs one per call; a `Ready` answer emits a
/// document, a `Needs` answer emits nothing, and a `Finished` answer ends
/// the run at once — later inputs are never delivered.  When the inputs
/// run out, the final call with no input ends the run.
pub open spec fn run_model<S: PipelineStage>(s: S, inputs: Seq<DocModel>) -> (
    Seq<DocModel>,
    Option<DocModel>,
)
    decreases inputs.len(),
{
    if inputs.len() == 0 {
        match s.next_outcome(None) {
            StageOutcome::Finished(od) => (Seq::empty(), od),
            _ => (Seq::empty(), None),
        }
    } else {
        let input = Some(inputs[0]);
        match s.next_outcome(input) {
            StageOutcome::Ready(d) => {
                let rest = run_model(s.next_state(input), inputs.drop_first());
                (seq![d] + rest.0, rest.1)
            },
            StageOutcome::Needs => run_model(s.next_state(input), inputs.drop_first()),
            StageOutcome::Finished(od) => (Seq::empty(), od),
        }
    }
}

/// A mock host: a finite, ordered sequence of documents to feed a stage.
pub struct MockHost {
    /// The documents still to be delivered, in order.
    pub docs: Vec<Document>,
}

impl MockHost {
    /// A mock host with no documents: its run makes only the final call.
    pub fn new() -> (r: MockHost)
        ensures
            r.docs@.len() == 0,
    {
        MockHost { docs: Vec::new() }
    }

    /// Appends one document at the end of the feed.
    pub fn load(&mut self, d: Document)
        ensures
            final(self).docs@ == old(self).docs@.push(d),
    {
        self.docs.push(d);
    }

    /// Replays the feed through `stage`: each document in order, then the
    /// final call with no input.  Returns the emitted documents in order
    /// and the terminal call's optional document — exactly the run's
    /// model.
    pub fn run<S: PipelineStage>(self, stage: &mut S) -> (r: (Vec<Document>, Option<Document>))
        ensures
            ({
                let out = run_model(*old(stage), docs_model(self.docs@));
                &&& docs_model(r.0@) == out.0
                &&& input_model(r.1) == out.1
            }),
    {
        let MockHost { mut docs } = self;
        let ghost s0 = *stage;
        let ghost all = docs_model(docs@);
        let mut emitted: Vec<Document> = Vec::new();
        proof {
            assert(docs_model(emitted@) + run_model(*stage, docs_model(docs@)).0
                =~= run_model(*stage, docs_model(docs@)).0);
        }
        while docs.len() > 0
            invariant
                s0 == *old(stage),
                all == docs_model(self.docs@),
                run_model(s0, all).0 == docs_model(emitted@) + run_model(
                    *stage,
                    docs_model(docs@),
                ).0,
                run_model(s0, all).1 == run_model(*stage, docs_model(docs@)).1,
            decreases docs.len(),
        {
            let ghost before = docs_model(docs@);
            let ghost scur = *stage;
            let d = docs.remove(0);
            proof {
                assert(docs_model(docs@) =~= before.drop_first());
                assert(d@ == before[0]);
            }
            let res = stage.get_next(Some(d));
            match res {
                GetNextResult::DocumentReady(doc) => {
                    proof {
                        let rest = run_model(*stage, docs_model(docs@));
                        assert(docs_model(emitted@) + (seq![doc@] + rest.0) =~= docs_model(
                            emitted@.push(doc),
                        ) + rest.0);
                    }
                    emitted.push(doc);
                },
                GetNextResult::NeedsNextDocument => {
                },
                GetNextResult::EOF(od) => {
                    proof {
                        assert(run_model(scur, before) == (
                            Seq::<DocModel>::empty(),
                            input_model(od),
                        ));
                        assert(docs_model(emitted@) + Seq::<DocModel>::empty()
                            =~= docs_model(emitted@));
                    }
                    return (emitted, od);
                },
            }
        }
        proof {
            assert(docs_model(docs@).len() == 0);
            assert(docs_model(docs@) =~= Seq::<DocModel>::empty());
        }
        let ghost scur = *stage;
        let res = stage.get_next(None);
        match res {
            GetNextResult::EOF(od) => {
                proof {
                    assert(docs_model(emitted@) + Seq::<DocModel>::empty() =~= docs_model(
                        emitted@,
                    ));
                }
                (emitted, od)
            },
            GetNextResult::DocumentReady(doc) => {
                proof {
                    scur.outcome_on_none_is_finished();
                    assert(false);
                }
                (emitted, Some(doc))
            },
            GetNextResult::NeedsNextDocument => {
                proof {
                    scur.outcome_on_none_is_finished();
                    assert(false);
                }
                (emitted, None)
            },
        }
    }
}

/// Order preservation: a passthrough run emits exactly its inputs, in the
/// same order, and the terminal call carries no document.
pub proof fn lemma_passthrough_preserves_order(inputs: Seq<DocModel>)
    ensures
        run_model(PassthroughStage, inputs).0 == inputs,
        run_model(PassthroughStage, inputs).1 is None,
    decreases inputs.len(),
{
    if inputs.len() == 0 {
        assert(run_model(PassthroughStage, inputs).0 =~= inputs);
    } else {
        lemma_passthrough_preserves_order(inputs.drop_first());
        assert(seq![inputs[0]] + inputs.drop_first() =~= inputs);
    }
}

/// The statistics state after observing a whole feed, document by
/// document.
pub open spec fn stats_after(s: StatsStage, inputs: Seq<DocModel>) -> StatsStage
    decreases inputs.len(),
{
    if inputs.len() == 0 {
        s
    } else {
        stats_after(s.observe_doc(inputs[0]), inputs.drop_first())
    }
}

/// Blocking aggregation: a statistics run emits nothing before the
/// terminal call, whatever the feed holds, and the terminal call carries
/// exactly one document — the summary of everything observed.
pub proof fn lemma_stats_blocks_until_summary(s: StatsStage, inputs: Seq<DocModel>)
    ensures
        run_model(s, inputs).0 == Seq::<DocModel>::empty(),
        run_model(s, inputs).1 == Some(stats_after(s, inputs).summary_model()),
    decreases inputs.len(),
{
    if inputs.len() == 0 {
    } else {
        lemma_stats_blocks_until_summary(s.observe_doc(inputs[0]), inputs.drop_first());
    }
}

} // verus!
