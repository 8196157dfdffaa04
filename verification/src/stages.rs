//! Sample pipeline stages: pass documents through, cut the stream after a
//! bound, drop one field everywhere, or summarize the whole input.
//!
//! These are consumers of the stage protocol, each with its model pinned
//! exactly: a passthrough emits every input unchanged; a limit stage ends
//! the stream with the n-th document; a projection removes one named field
//! from every document; a statistics stage buffers everything and flushes
//! one summary document when the input is exhausted.

use vstd::prelude::*;

use crate::document::{
    model_get, remove_key, Document, Value, ValueModel,
};
use crate::stage::{DocModel, GetNextResult, PipelineStage, StageOutcome};

verus! {

broadcast use vstd::string::group_string_axioms;

/// Emits every input document unchanged, in order.
pub struct PassthroughStage;

impl PipelineStage for PassthroughStage {
    open spec fn next_outcome(&self, input: Option<DocModel>) -> StageOutcome {
        match input {
            Some(d) => StageOutcome::Ready(d),
            None => StageOutcome::Finished(None),
        }
    }

    open spec fn next_state(&self, input: Option<DocModel>) -> Self {
        PassthroughStage
    }

    proof fn outcome_on_none_is_finished(&self) {
    }

    fn get_next(&mut self, input: Option<Document>) -> (r: GetNextResult) {
        match input {
            Some(d) => GetNextResult::DocumentReady(d),
            None => GetNextResult::EOF(None),
        }
    }
}

/// Passes documents through until a bound is reached: the document that
/// reaches the bound is returned as the stream's last, and later input is
/// never requested.
pub struct LimitStage {
    /// How many documents may pass in all.
    pub limit: u32,
    /// How many documents have been seen so far.
    pub num_seen: u32,
}

impl LimitStage {
    /// A stage that ends the stream with the `limit`-th document.
    pub fn new(limit: u32) -> (r: LimitStage)
        ensures
            r.limit == limit,
            r.num_seen == 0,
    {
        LimitStage { limit, num_seen: 0 }
    }
}

impl PipelineStage for LimitStage {
    open spec fn next_outcome(&self, input: Option<DocModel>) -> StageOutcome {
        match input {
            None => StageOutcome::Finished(None),
            Some(d) => if self.num_seen + 1 >= self.limit {
                StageOutcome::Finished(Some(d))
            } else {
                StageOutcome::Ready(d)
            },
        }
    }

    open spec fn next_state(&self, input: Option<DocModel>) -> Self {
        match input {
            None => *self,
            Some(d) => LimitStage {
                limit: self.limit,
                num_seen: if self.num_seen < u32::MAX {
                    (self.num_seen + 1) as u32
                } else {
                    u32::MAX
                },
            },
        }
    }

    proof fn outcome_on_none_is_finished(&self) {
    }

    fn get_next(&mut self, input: Option<Document>) -> (r: GetNextResult) {
        match input {
            None => GetNextResult::EOF(None),
            Some(d) => {
                let seen_now = if self.num_seen < u32::MAX {
                    self.num_seen + 1
                } else {
                    u32::MAX
                };
                self.num_seen = seen_now;
                if seen_now >= self.limit {
                    GetNextResult::EOF(Some(d))
                } else {
                    GetNextResult::DocumentReady(d)
                }
            },
        }
    }
}

/// Removes one named field from every document and emits the rest
/// unchanged.
pub struct ProjectStage {
    /// The name of the field to remove.
    pub field: String,
}

impl ProjectStage {
    /// A stage that removes the field named `field` from every document.
    pub fn new(field: String) -> (r: ProjectStage)
        ensures
            r.field == field,
    {
        ProjectStage { field }
    }
}

impl PipelineStage for ProjectStage {
    open spec fn next_outcome(&self, input: Option<DocModel>) -> StageOutcome {
        match input {
            Some(d) => StageOutcome::Ready(remove_key(d, self.field@)),
            None => StageOutcome::Finished(None),
        }
    }

    open spec fn next_state(&self, input: Option<DocModel>) -> Self {
        *self
    }

    proof fn outcome_on_none_is_finished(&self) {
    }

    fn get_next(&mut self, input: Option<Document>) -> (r: GetNextResult) {
        match input {
            Some(mut d) => {
                d.remove(self.field.as_str());
                GetNextResult::DocumentReady(d)
            },
            None => GetNextResult::EOF(None),
        }
    }
}

/// Addition on 64-bit integers that stops at the ends of the range.
pub open spec fn sat_add64(a: i64, b: i64) -> i64 {
    if a + b > i64::MAX {
        i64::MAX
    } else if a + b < i64::MIN {
        i64::MIN
    } else {
        (a + b) as i64
    }
}

/// Saturating addition, matching [`sat_add64`].
fn sat_add_i64(a: i64, b: i64) -> (r: i64)
    ensures
        r == sat_add64(a, b),
{
    if b >= 0 {
        if a > i64::MAX - b {
            i64::MAX
        } else {
            a + b
        }
    } else {
        if a < i64::MIN - b {
            i64::MIN
        } else {
            a + b
        }
    }
}

/// The quotient of `a` by `b`, rounded toward zero.
pub open spec fn trunc_div64(a: i64, b: i64) -> int
    recommends
        b > 0,
{
    if a >= 0 {
        a / b
    } else {
        0 - ((0 - a) / (b as int))
    }
}

/// Buffers every input document, reading its `value` field when that field
/// holds an integer, and answers the drained stream with one summary
/// document: how many integers were seen, their sum, mean, least and
/// greatest.  Sums saturate at the ends of the 64-bit range; a document
/// without an integer `value` field is skipped, never fatal.
pub struct StatsStage {
    /// How many integer observations arrived.
    pub count: i64,
    /// Their sum, saturating.
    pub sum: i64,
    /// The least observation, 0 before the first.
    pub min: i64,
    /// The greatest observation, 0 before the first.
    pub max: i64,
}

impl StatsStage {
    /// A stage with no observations yet.
    pub fn new() -> (r: StatsStage)
        ensures
            r == (StatsStage { count: 0, sum: 0, min: 0, max: 0 }),
    {
        StatsStage { count: 0, sum: 0, min: 0, max: 0 }
    }

    /// The state after one integer observation.
    pub open spec fn observed(self, i: i64) -> StatsStage {
        StatsStage {
            count: sat_add64(self.count, 1),
            sum: sat_add64(self.sum, i),
            min: if self.count == 0 || i < self.min {
                i
            } else {
                self.min
            },
            max: if self.count == 0 || i > self.max {
                i
            } else {
                self.max
            },
        }
    }

    /// The state after one document: observed when the document's `value`
    /// field holds an integer, unchanged otherwise.
    pub open spec fn observe_doc(self, d: DocModel) -> StatsStage {
        match model_get(d, "value"@) {
            Some(m) => match m {
                ValueModel::Int(i) => self.observed(i),
                _ => self,
            },
            None => self,
        }
    }

    /// The mean observation, rounded toward zero; 0 with no observations.
    pub open spec fn mean(self) -> i64 {
        if self.count <= 0 {
            0
        } else {
            trunc_div64(self.sum, self.count) as i64
        }
    }

    /// The summary document's model: count, sum, mean, min and max.
    pub open spec fn summary_model(self) -> DocModel {
        seq![
            ("count"@, ValueModel::Int(self.count)),
            ("sum"@, ValueModel::Int(self.sum)),
            ("mean"@, ValueModel::Int(self.mean())),
            ("min"@, ValueModel::Int(self.min)),
            ("max"@, ValueModel::Int(self.max)),
        ]
    }
}

impl PipelineStage for StatsStage {
    open spec fn next_outcome(&self, input: Option<DocModel>) -> StageOutcome {
        match input {
            Some(d) => StageOutcome::Needs,
            None => StageOutcome::Finished(Some(self.summary_model())),
        }
    }

    open spec fn next_state(&self, input: Option<DocModel>) -> Self {
        match input {
            Some(d) => self.observe_doc(d),
            None => *self,
        }
    }

    proof fn outcome_on_none_is_finished(&self) {
    }

    fn get_next(&mut self, input: Option<Document>) -> (r: GetNextResult) {
        match input {
            Some(d) => {
                match d.get("value") {
                    Some(v) => match v {
                        Value::Int(i) => {
                            let i = *i;
                            self.min = if self.count == 0 || i < self.min {
                                i
                            } else {
                                self.min
                            };
                            self.max = if self.count == 0 || i > self.max {
                                i
                            } else {
                                self.max
                            };
                            self.count = sat_add_i64(self.count, 1);
                            self.sum = sat_add_i64(self.sum, i);
                        },
                        _ => {},
                    },
                    None => {},
                }
                GetNextResult::NeedsNextDocument
            },
            None => {
                let m = self.mean_value();
                let mut doc = Document::new();
                doc.insert("count", Value::Int(self.count));
                doc.insert("sum", Value::Int(self.sum));
                doc.insert("mean", Value::Int(m));
                doc.insert("min", Value::Int(self.min));
                doc.insert("max", Value::Int(self.max));
                proof {
                    lemma_summary_fields(doc@, *self, m);
                }
                GetNextResult::EOF(Some(doc))
            },
        }
    }
}

impl StatsStage {
    /// The mean observation, rounded toward zero, matching [`StatsStage::mean`].
    pub fn mean_value(&self) -> (r: i64)
        ensures
            r == self.mean(),
    {
        if self.count <= 0 {
            0
        } else if self.sum >= 0 {
            self.sum / self.count
        } else {
            // |sum| as an unsigned word; sum + 1 first, so that the least
            // value negates without overflow.
            let t = -(self.sum + 1);
            let m = (t as u64) + 1;
            let q = m / (self.count as u64);
            proof {
                assert(m == 0 - (self.sum as int));
                assert(q == (0 - (self.sum as int)) / (self.count as int));
                assert(q <= m);
            }
            if q > i64::MAX as u64 {
                proof {
                    assert(q == 9223372036854775808);
                }
                i64::MIN
            } else {
                -(q as i64)
            }
        }
    }
}

/// The document built for the summary has exactly the summary model's
/// fields, in order.
proof fn lemma_summary_fields(built: DocModel, s: StatsStage, m: i64)
    requires
        m == s.mean(),
        built == remove_key(
            remove_key(
                remove_key(
                    remove_key(
                        remove_key(Seq::<(Seq<char>, ValueModel)>::empty(), "count"@).push(
                            ("count"@, ValueModel::Int(s.count)),
                        ),
                        "sum"@,
                    ).push(("sum"@, ValueModel::Int(s.sum))),
                    "mean"@,
                ).push(("mean"@, ValueModel::Int(m))),
                "min"@,
            ).push(("min"@, ValueModel::Int(s.min))),
            "max"@,
        ).push(("max"@, ValueModel::Int(s.max))),
    ensures
        built == s.summary_model(),
{
    reveal_strlit("count");
    reveal_strlit("sum");
    reveal_strlit("mean");
    reveal_strlit("min");
    reveal_strlit("max");
    assert("count"@.len() == 5);
    assert("sum"@.len() == 3);
    assert("mean"@.len() == 4);
    assert("min"@.len() == 3);
    assert("max"@.len() == 3);
    assert("sum"@[0] == 's' && "min"@[0] == 'm' && "max"@[0] == 'm');
    assert("min"@[1] == 'i' && "max"@[1] == 'a');
    assert("count"@ != "sum"@);
    assert("count"@ != "mean"@);
    assert("count"@ != "min"@);
    assert("count"@ != "max"@);
    assert("sum"@ != "mean"@);
    assert("sum"@ != "min"@);
    assert("sum"@ != "max"@);
    assert("mean"@ != "min"@);
    assert("mean"@ != "max"@);
    assert("min"@ != "max"@);
    let e = Seq::<(Seq<char>, ValueModel)>::empty();
    assert(remove_key(e, "count"@) =~= e);
    let d1 = seq![("count"@, ValueModel::Int(s.count))];
    assert(e.push(("count"@, ValueModel::Int(s.count))) =~= d1);
    crate::document::lemma_remove_key_absent(d1, "sum"@);
    let d2 = d1.push(("sum"@, ValueModel::Int(s.sum)));
    crate::document::lemma_remove_key_absent(d2, "mean"@);
    let d3 = d2.push(("mean"@, ValueModel::Int(m)));
    crate::document::lemma_remove_key_absent(d3, "min"@);
    let d4 = d3.push(("min"@, ValueModel::Int(s.min)));
    crate::document::lemma_remove_key_absent(d4, "max"@);
    let d5 = d4.push(("max"@, ValueModel::Int(s.max)));
    assert(built =~= d5);
    assert(d5 =~= s.summary_model());
}

} // verus!
