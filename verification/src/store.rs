//! The store of received batches and the query for the tree of one trace.

use crate::span::Batch;
use crate::span::BatchView;
use crate::span::Span;
use crate::span::SpanView;
use crate::span::hex_trace_id;
use crate::span::spans_view;
use crate::span_tree::SpanTree;
use crate::span_tree::TreeError;
use crate::span_tree::build_span_tree;
use crate::span_tree::is_span_tree;
use crate::span_tree::tree_outcome;
use vstd::prelude::*;

verus! {

/// Why a query for a trace gave no tree.
#[derive(Debug, Clone, Copy, PartialEq, Eq, Structural)]
pub enum TraceError {
    /// No stored span belongs to the trace.
    NotFound,
    /// The spans of the trace do not form a tree.
    Inconsistent(TreeError),
}

impl TraceError {
    /// A sentence that says why there is no tree.
    pub fn message(&self) -> (text: &'static str)
        ensures
            text@ == match *self {
                TraceError::NotFound => "No spans found for the trace"@,
                TraceError::Inconsistent(TreeError::Empty) => "Traces must include at least one span."@,
                TraceError::Inconsistent(TreeError::NoRoot) => "No root span found"@,
                TraceError::Inconsistent(TreeError::MultipleRoots) => "Multiple root spans found"@,
                TraceError::Inconsistent(TreeError::MissingParents) => "Spans found with missing parents"@,
            },
    {
        match self {
            TraceError::NotFound => "No spans found for the trace",
            TraceError::Inconsistent(e) => e.message(),
        }
    }
}

/// The spans of all batches, batch after batch.
pub open spec fn stored_spans(batches: Seq<BatchView>) -> Seq<SpanView>
    decreases batches.len(),
{
    if batches.len() == 0 {
        Seq::empty()
    } else {
        stored_spans(batches.drop_last()) + batches.last().spans
    }
}

/// The test whether a span belongs to the trace named `trace_id`.
pub open spec fn in_trace(trace_id: Seq<char>) -> spec_fn(SpanView) -> bool {
    |span: SpanView| hex_trace_id(span) == trace_id
}

/// The stored spans of the trace named `trace_id`, in the order in which they
/// were stored.
pub open spec fn spans_of_trace(batches: Seq<BatchView>, trace_id: Seq<char>) -> Seq<SpanView> {
    stored_spans(batches).filter(in_trace(trace_id))
}

/// What a query for a trace returns, given the spans found for it: nothing
/// found is an error of its own, anything else is up to the tree builder.
pub open spec fn trace_outcome(found: Seq<SpanView>) -> Result<(), TraceError> {
    if found.len() == 0 {
        Err(TraceError::NotFound)
    } else {
        match tree_outcome(found) {
            Ok(()) => Ok(()),
            Err(e) => Err(TraceError::Inconsistent(e)),
        }
    }
}

/// The batches received so far. A batch is appended once and never changed
/// or removed.
pub struct BatchStore {
    batches: Vec<Batch>,
}

/// The contents of a list of batches.
pub open spec fn batches_view(batches: Seq<Batch>) -> Seq<BatchView> {
    Seq::new(batches.len(), |i: int| batches[i]@)
}

impl View for BatchStore {
    type V = Seq<BatchView>;

    closed spec fn view(&self) -> Seq<BatchView> {
        batches_view(self.batches@)
    }
}

/// Builds the tree of a trace from the spans found for it.
pub fn trace_from_spans(spans: Vec<Span>) -> (result: Result<SpanTree, TraceError>)
    ensures
        match result {
            Ok(tree) => trace_outcome(spans_view(spans@)) is Ok && tree@.spans == spans@
                && is_span_tree(tree@),
            Err(e) => trace_outcome(spans_view(spans@)) == Err::<(), TraceError>(e),
        },
{
    if spans.len() == 0 {
        return Err(TraceError::NotFound);
    }
    match build_span_tree(spans) {
        Ok(tree) => Ok(tree),
        Err(e) => Err(TraceError::Inconsistent(e)),
    }
}

impl BatchStore {
    /// A store without batches.
    pub fn new() -> (store: BatchStore)
        ensures
            store@ == Seq::<BatchView>::empty(),
    {
        let store = BatchStore { batches: Vec::new() };
        store
    }

    /// The number of batches received.
    pub fn len(&self) -> (n: usize)
        ensures
            n == self@.len(),
    {
        self.batches.len()
    }

    /// Appends a batch. What was stored before stays as it was.
    pub fn append(&mut self, batch: Batch)
        ensures
            final(self)@ == old(self)@.push(batch@),
    {
        self.batches.push(batch);
    }

    /// A copy of the stored spans of the trace named `trace_id`, in the order
    /// in which they were stored.
    pub fn spans_of_trace(&self, trace_id: &str) -> (found: Vec<Span>)
        ensures
            spans_view(found@) == spans_of_trace(self@, trace_id@),
    {
        let wanted = trace_id.to_owned();
        let ghost keep = in_trace(trace_id@);
        let mut found: Vec<Span> = Vec::new();
        let mut b: usize = 0;
        assert(stored_spans(Seq::<BatchView>::empty()).filter(keep) =~= Seq::<SpanView>::empty()) by {
            reveal(Seq::filter);
        }
        while b < self.batches.len()
            invariant
                b <= self.batches.len(),
                wanted@ == trace_id@,
                keep == in_trace(trace_id@),
                spans_view(found@) == stored_spans(self@.take(b as int)).filter(keep),
            decreases self.batches.len() - b,
        {
            let batch = &self.batches[b];
            let ghost before = stored_spans(self@.take(b as int));
            let ghost here = self@[b as int].spans;
            let mut s: usize = 0;
            while s < batch.spans.len()
                invariant
                    s <= batch.spans.len(),
                    wanted@ == trace_id@,
                    keep == in_trace(trace_id@),
                    here == spans_view(batch.spans@),
                    spans_view(found@) == (before + here.take(s as int)).filter(keep),
                decreases batch.spans.len() - s,
            {
                let span = &batch.spans[s];
                let ghost seen = before + here.take(s as int);
                proof {
                    assert(before + here.take(s as int + 1) =~= seen.push(span@));
                    Seq::lemma_filter_push(seen, span@, keep);
                }
                if span.hex_trace_id() == wanted {
                    found.push(span.clone());
                }
                s += 1;
            }
            proof {
                assert(here.take(here.len() as int) =~= here);
                let upto = self@.take(b as int + 1);
                assert(upto.drop_last() =~= self@.take(b as int));
            }
            b += 1;
        }
        assert(self@.take(self@.len() as int) =~= self@);
        found
    }

    /// The tree of the trace named `trace_id`, built from a copy of its
    /// stored spans.
    pub fn get_trace(&self, trace_id: &str) -> (result: Result<SpanTree, TraceError>)
        ensures
            match result {
                Ok(tree) => trace_outcome(spans_of_trace(self@, trace_id@)) is Ok && spans_view(
                    tree@.spans,
                ) == spans_of_trace(self@, trace_id@) && is_span_tree(tree@),
                Err(e) => trace_outcome(spans_of_trace(self@, trace_id@)) == Err::<(), TraceError>(
                    e,
                ),
            },
    {
        trace_from_spans(self.spans_of_trace(trace_id))
    }
}

/// A batch that is appended takes nothing away from a trace: the spans of
/// the trace are those found before, followed by those of the new batch.
pub proof fn lemma_append_extends_trace(
    batches: Seq<BatchView>,
    batch: BatchView,
    trace_id: Seq<char>,
)
    ensures
        spans_of_trace(batches.push(batch), trace_id) == spans_of_trace(batches, trace_id)
            + batch.spans.filter(in_trace(trace_id)),
{
    assert(batches.push(batch).drop_last() =~= batches);
    Seq::filter_distributes_over_add(stored_spans(batches), batch.spans, in_trace(trace_id));
}

/// With no stored span of the trace, the outcome of a query is `NotFound`.
pub proof fn lemma_nothing_found_is_not_found(batches: Seq<BatchView>, trace_id: Seq<char>)
    requires
        spans_of_trace(batches, trace_id).len() == 0,
    ensures
        trace_outcome(spans_of_trace(batches, trace_id)) == Err::<(), TraceError>(
            TraceError::NotFound,
        ),
{
}

} // verus!
