use mock_otel_collector::collector::{
    ingest, post_traces_handler, DetachedMockOtelCollector, STATUS_OK, STATUS_SERVER_ERROR,
};
use mock_otel_collector::span::{Batch, Span};
use mock_otel_collector::span_tree::TreeError;
use mock_otel_collector::store::{trace_from_spans, BatchStore, TraceError};
use thrift::protocol::{
    TBinaryOutputProtocol, TFieldIdentifier, TListIdentifier, TOutputProtocol, TStructIdentifier,
    TType,
};

const TRACE: &str = "00000000000000010000000000000002";

fn span(high: i64, low: i64, span_id: i64, parent_span_id: i64) -> Span {
    Span {
        trace_id_low: low,
        trace_id_high: high,
        span_id,
        parent_span_id,
        operation_name: format!("op-{}", span_id),
        tags: None,
    }
}

fn batch(spans: Vec<Span>) -> Batch {
    Batch {
        service_name: "cart_server".to_string(),
        spans,
    }
}

/// A span as a reporting agent writes it, with all the fields it sends.
fn write_span(out: &mut TBinaryOutputProtocol<Vec<u8>>, span: &Span, tag: Option<(&str, i64)>) {
    out.write_struct_begin(&TStructIdentifier::new("Span")).unwrap();
    let longs = [
        ("traceIdLow", 1, span.trace_id_low),
        ("traceIdHigh", 2, span.trace_id_high),
        ("spanId", 3, span.span_id),
        ("parentSpanId", 4, span.parent_span_id),
    ];
    for (name, id, value) in longs {
        out.write_field_begin(&TFieldIdentifier::new(name, TType::I64, id)).unwrap();
        out.write_i64(value).unwrap();
        out.write_field_end().unwrap();
    }
    out.write_field_begin(&TFieldIdentifier::new("operationName", TType::String, 5)).unwrap();
    out.write_string(&span.operation_name).unwrap();
    out.write_field_end().unwrap();
    out.write_field_begin(&TFieldIdentifier::new("flags", TType::I32, 7)).unwrap();
    out.write_i32(1).unwrap();
    out.write_field_end().unwrap();
    out.write_field_begin(&TFieldIdentifier::new("startTime", TType::I64, 8)).unwrap();
    out.write_i64(1_700_000_000_000_000).unwrap();
    out.write_field_end().unwrap();
    out.write_field_begin(&TFieldIdentifier::new("duration", TType::I64, 9)).unwrap();
    out.write_i64(1_500).unwrap();
    out.write_field_end().unwrap();
    if let Some((key, value)) = tag {
        out.write_field_begin(&TFieldIdentifier::new("tags", TType::List, 10)).unwrap();
        out.write_list_begin(&TListIdentifier::new(TType::Struct, 1)).unwrap();
        out.write_struct_begin(&TStructIdentifier::new("Tag")).unwrap();
        out.write_field_begin(&TFieldIdentifier::new("key", TType::String, 1)).unwrap();
        out.write_string(key).unwrap();
        out.write_field_end().unwrap();
        out.write_field_begin(&TFieldIdentifier::new("vType", TType::I32, 2)).unwrap();
        out.write_i32(3).unwrap();
        out.write_field_end().unwrap();
        out.write_field_begin(&TFieldIdentifier::new("vLong", TType::I64, 6)).unwrap();
        out.write_i64(value).unwrap();
        out.write_field_end().unwrap();
        out.write_field_stop().unwrap();
        out.write_struct_end().unwrap();
        out.write_list_end().unwrap();
        out.write_field_end().unwrap();
    }
    out.write_field_stop().unwrap();
    out.write_struct_end().unwrap();
}

/// A batch as a reporting agent writes it.
fn written_batch(service: &str, spans: &[Span], tag: Option<(&str, i64)>) -> Vec<u8> {
    let mut out = TBinaryOutputProtocol::new(Vec::new(), true);
    out.write_struct_begin(&TStructIdentifier::new("Batch")).unwrap();
    out.write_field_begin(&TFieldIdentifier::new("process", TType::Struct, 1)).unwrap();
    out.write_struct_begin(&TStructIdentifier::new("Process")).unwrap();
    out.write_field_begin(&TFieldIdentifier::new("serviceName", TType::String, 1)).unwrap();
    out.write_string(service).unwrap();
    out.write_field_end().unwrap();
    out.write_field_stop().unwrap();
    out.write_struct_end().unwrap();
    out.write_field_end().unwrap();
    out.write_field_begin(&TFieldIdentifier::new("spans", TType::List, 2)).unwrap();
    out.write_list_begin(&TListIdentifier::new(TType::Struct, spans.len() as i32)).unwrap();
    for span in spans {
        write_span(&mut out, span, tag);
    }
    out.write_list_end().unwrap();
    out.write_field_end().unwrap();
    out.write_field_stop().unwrap();
    out.write_struct_end().unwrap();
    out.flush().unwrap();
    out.transport
}

#[test]
fn a_posted_batch_can_be_queried_as_a_tree() {
    let mut collector = DetachedMockOtelCollector::on_port(14268);
    let bytes = written_batch(
        "cart_server",
        &[span(0x1, 0x2, 10, 0), span(0x1, 0x2, 11, 10)],
        Some(("http.status_code", 200)),
    );
    assert_eq!(collector.ingest(&bytes), Ok(()));
    let tree = collector.get_trace(TRACE).expect("tree");
    assert_eq!(tree.len(), 2);
    assert_eq!(tree.root().span_id, 10);
    assert_eq!(tree.children(0), Some(&vec![1]));
    assert_eq!(tree.span(1).expect("child").span_id, 11);
    assert_eq!(tree.span(1).expect("child").parent_span_id, 10);
    assert_eq!(tree.children(1), Some(&vec![]));
    let tag = tree.root().get_tag("http.status_code").expect("tag");
    assert_eq!(
        tag.value(),
        Ok(mock_otel_collector::span::TagValue::Long(200))
    );
}

#[test]
fn a_query_without_matching_spans_finds_nothing() {
    let collector = DetachedMockOtelCollector::new("http://127.0.0.1:1".to_string());
    assert_eq!(collector.get_trace(TRACE).err(), Some(TraceError::NotFound));
    let mut store = BatchStore::new();
    assert_eq!(store.get_trace(TRACE).err(), Some(TraceError::NotFound));
    store.append(batch(vec![span(1, 3, 10, 0)]));
    store.append(batch(vec![]));
    assert_eq!(store.get_trace(TRACE).err(), Some(TraceError::NotFound));
    assert_eq!(store.get_trace("").err(), Some(TraceError::NotFound));
    assert_eq!(
        store.get_trace("00000000000000010000000000000002 ").err(),
        Some(TraceError::NotFound)
    );
    assert_eq!(
        store.get_trace("0000000000000001000000000000000").err(),
        Some(TraceError::NotFound)
    );
}

#[test]
fn no_spans_are_not_found_rather_than_an_empty_tree() {
    assert_eq!(trace_from_spans(vec![]).err(), Some(TraceError::NotFound));
}

#[test]
fn a_trace_is_gathered_from_all_batches() {
    let mut store = BatchStore::new();
    store.append(batch(vec![span(1, 2, 11, 10), span(9, 9, 1, 0)]));
    store.append(batch(vec![span(9, 9, 2, 1)]));
    store.append(batch(vec![span(1, 2, 10, 0), span(1, 2, 12, 11)]));
    assert_eq!(store.len(), 3);
    let found: Vec<i64> = store
        .spans_of_trace(TRACE)
        .iter()
        .map(|s| s.span_id)
        .collect();
    assert_eq!(found, vec![11, 10, 12]);
    let tree = store.get_trace(TRACE).expect("tree");
    assert_eq!(tree.len(), 3);
    assert_eq!(tree.root().span_id, 10);
    let other = store
        .get_trace("00000000000000090000000000000009")
        .expect("tree");
    assert_eq!(other.len(), 2);
    assert_eq!(other.root().span_id, 1);
}

#[test]
fn the_identifier_in_a_query_is_lower_case() {
    let mut store = BatchStore::new();
    store.append(batch(vec![span(0xab, 0xcd, 1, 0)]));
    assert!(store
        .get_trace("00000000000000ab00000000000000cd")
        .is_ok());
    assert_eq!(
        store.get_trace("00000000000000AB00000000000000CD").err(),
        Some(TraceError::NotFound)
    );
}

#[test]
fn a_trace_that_is_no_tree_says_why() {
    let mut store = BatchStore::new();
    store.append(batch(vec![span(1, 2, 11, 10)]));
    assert_eq!(
        store.get_trace(TRACE).err(),
        Some(TraceError::Inconsistent(TreeError::NoRoot))
    );
    store.append(batch(vec![span(1, 2, 10, 0), span(1, 2, 20, 0)]));
    assert_eq!(
        store.get_trace(TRACE).err(),
        Some(TraceError::Inconsistent(TreeError::MultipleRoots))
    );
    let mut store = BatchStore::new();
    store.append(batch(vec![span(1, 2, 10, 0), span(1, 2, 12, 11)]));
    assert_eq!(
        store.get_trace(TRACE).err(),
        Some(TraceError::Inconsistent(TreeError::MissingParents))
    );
    store.append(batch(vec![span(1, 2, 11, 10)]));
    assert_eq!(store.get_trace(TRACE).expect("tree").len(), 3);
}

#[test]
fn a_payload_that_is_no_batch_leaves_the_store_as_it_was() {
    let mut store = BatchStore::new();
    let good = written_batch("svc", &[span(1, 2, 10, 0)], None);
    assert_eq!(post_traces_handler(&mut store, &good), STATUS_OK);
    assert_eq!(store.len(), 1);
    let cut = &good[..good.len() - 1];
    assert_eq!(post_traces_handler(&mut store, cut), STATUS_SERVER_ERROR);
    assert_eq!(post_traces_handler(&mut store, &[]), STATUS_SERVER_ERROR);
    assert!(ingest(&mut store, &[1, 2, 3]).is_err());
    assert_eq!(store.len(), 1);
    assert_eq!(store.get_trace(TRACE).expect("tree").len(), 1);
    assert_eq!(post_traces_handler(&mut store, &good), STATUS_OK);
    assert_eq!(store.len(), 2);
}

#[test]
fn the_collector_knows_its_addresses() {
    let collector = DetachedMockOtelCollector::on_port(8080);
    assert_eq!(collector.base_url(), "http://127.0.0.1:8080");
    assert_eq!(collector.ping_url(), "http://127.0.0.1:8080/up");
    assert_eq!(collector.traces_url(), "http://127.0.0.1:8080/api/traces");
    assert_eq!(collector.batch_store().len(), 0);
    let other = DetachedMockOtelCollector::new("http://collector".to_string());
    assert_eq!(other.base_url(), "http://collector");
    assert_eq!(DetachedMockOtelCollector::on_port(0).base_url(), "http://127.0.0.1:0");
    assert_eq!(
        DetachedMockOtelCollector::on_port(65535).base_url(),
        "http://127.0.0.1:65535"
    );
}

#[test]
fn ingest_of_the_collector_appends_in_order() {
    let mut collector = DetachedMockOtelCollector::on_port(1);
    let first = written_batch("a", &[span(1, 2, 11, 10)], None);
    let second = written_batch("b", &[span(1, 2, 10, 0)], None);
    assert!(collector.ingest(&first).is_ok());
    assert!(collector.ingest(&[0xff]).is_err());
    assert!(collector.ingest(&second).is_ok());
    assert_eq!(collector.batch_store().len(), 2);
    let found: Vec<i64> = collector
        .batch_store()
        .spans_of_trace(TRACE)
        .iter()
        .map(|s| s.span_id)
        .collect();
    assert_eq!(found, vec![11, 10]);
}

#[test]
fn trace_errors_say_why_there_is_no_tree() {
    assert_eq!(TraceError::NotFound.message(), "No spans found for the trace");
    assert_eq!(
        TraceError::Inconsistent(TreeError::NoRoot).message(),
        "No root span found"
    );
    assert_eq!(
        TraceError::Inconsistent(TreeError::MissingParents).message(),
        TreeError::MissingParents.message()
    );
}
