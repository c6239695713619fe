//! The collector as one value: its address and the batches it has received.

use crate::span::BatchView;
use crate::span::spans_view;
use crate::span_tree::SpanTree;
use crate::span_tree::is_span_tree;
use crate::store::BatchStore;
use crate::store::TraceError;
use crate::store::spans_of_trace;
use crate::store::trace_outcome;
use crate::text::decimal;
use crate::text::push_decimal;
use crate::wire::DecodeError;
use crate::wire::batch_of;
use crate::wire::decode_batch;
use vstd::prelude::*;

verus! {

/// Status of a request that was served.
pub const STATUS_OK: u16 = 200;

/// Status of a request that failed on the server's side.
pub const STATUS_SERVER_ERROR: u16 = 500;

/// What storing the batch in `payload` leaves in the store: the old batches
/// and the new one behind them, or the old ones alone where `payload` is no
/// batch.
pub open spec fn after_ingest(batches: Seq<BatchView>, payload: Seq<u8>) -> Seq<BatchView> {
    match batch_of(payload) {
        Some(batch) => batches.push(batch),
        None => batches,
    }
}

/// Decodes the batch in `payload` and appends it to the store. A payload
/// that cannot be decoded leaves the store as it was.
pub fn ingest(store: &mut BatchStore, payload: &[u8]) -> (result: Result<(), DecodeError>)
    ensures
        result is Ok <==> batch_of(payload@) is Some,
        final(store)@ == after_ingest(old(store)@, payload@),
{
    match decode_batch(payload) {
        Ok(batch) => {
            store.append(batch);
            Ok(())
        },
        Err(e) => Err(e),
    }
}

/// Serves a post of traces: the status is `200` where the payload was stored
/// and `500` where it could not be decoded.
pub fn post_traces_handler(store: &mut BatchStore, payload: &[u8]) -> (status: u16)
    ensures
        status == (if batch_of(payload@) is Some {
            STATUS_OK
        } else {
            STATUS_SERVER_ERROR
        }),
        final(store)@ == after_ingest(old(store)@, payload@),
{
    match ingest(store, payload) {
        Ok(()) => STATUS_OK,
        Err(_) => STATUS_SERVER_ERROR,
    }
}

/// A collector that lives apart from whoever started it: the address under
/// which it is reached and the batches it has received.
pub struct DetachedMockOtelCollector {
    base_url: String,
    batch_store: BatchStore,
}

/// The mathematical content of a [`DetachedMockOtelCollector`].
pub struct CollectorView {
    pub base_url: Seq<char>,
    pub batches: Seq<BatchView>,
}

impl View for DetachedMockOtelCollector {
    type V = CollectorView;

    closed spec fn view(&self) -> CollectorView {
        CollectorView { base_url: self.base_url@, batches: self.batch_store@ }
    }
}

impl DetachedMockOtelCollector {
    /// A collector without batches that is reached under `base_url`.
    pub fn new(base_url: String) -> (collector: DetachedMockOtelCollector)
        ensures
            collector@.base_url == base_url@,
            collector@.batches == Seq::<BatchView>::empty(),
    {
        DetachedMockOtelCollector { base_url, batch_store: BatchStore::new() }
    }

    /// A collector without batches that listens on `port` of the local host.
    pub fn on_port(port: u16) -> (collector: DetachedMockOtelCollector)
        ensures
            collector@.base_url == "http://127.0.0.1:"@ + decimal(port as nat),
            collector@.batches == Seq::<BatchView>::empty(),
    {
        let mut base_url = String::from_str("http://127.0.0.1:");
        push_decimal(&mut base_url, port as u64);
        DetachedMockOtelCollector::new(base_url)
    }

    /// The address of the collector.
    pub fn base_url(&self) -> (url: String)
        ensures
            url@ == self@.base_url,
    {
        self.base_url.clone()
    }

    /// The address that answers once the collector accepts connections.
    pub fn ping_url(&self) -> (url: String)
        ensures
            url@ == self@.base_url + "/up"@,
    {
        self.base_url.clone().concat("/up")
    }

    /// The address that takes posted batches.
    pub fn traces_url(&self) -> (url: String)
        ensures
            url@ == self@.base_url + "/api/traces"@,
    {
        self.base_url.clone().concat("/api/traces")
    }

    /// The batches received so far.
    pub fn batch_store(&self) -> (store: &BatchStore)
        ensures
            store@ == self@.batches,
    {
        &self.batch_store
    }

    /// Decodes the batch in `payload` and stores it; a payload that cannot be
    /// decoded changes nothing.
    pub fn ingest(&mut self, payload: &[u8]) -> (result: Result<(), DecodeError>)
        ensures
            result is Ok <==> batch_of(payload@) is Some,
            final(self)@.batches == after_ingest(old(self)@.batches, payload@),
            final(self)@.base_url == old(self)@.base_url,
    {
        ingest(&mut self.batch_store, payload)
    }

    /// The tree of the trace named `trace_id`, built from the spans received
    /// so far.
    pub fn get_trace(&self, trace_id: &str) -> (result: Result<SpanTree, TraceError>)
        ensures
            match result {
                Ok(tree) => trace_outcome(spans_of_trace(self@.batches, trace_id@)) is Ok
                    && spans_view(tree@.spans) == spans_of_trace(self@.batches, trace_id@)
                    && is_span_tree(tree@),
                Err(e) => trace_outcome(spans_of_trace(self@.batches, trace_id@)) == Err::<
                    (),
                    TraceError,
                >(e),
            },
    {
        self.batch_store.get_trace(trace_id)
    }
}

} // verus!
