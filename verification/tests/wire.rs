use mock_otel_collector::span::{TagValue, TAG_TYPE_BINARY, TAG_TYPE_DOUBLE, TAG_TYPE_LONG};
use mock_otel_collector::wire::{decode_batch, DecodeError};

const STOP: u8 = 0;
const BOOL: u8 = 2;
const BYTE: u8 = 3;
const DOUBLE: u8 = 4;
const I16: u8 = 6;
const I32: u8 = 8;
const I64: u8 = 10;
const STRING: u8 = 11;
const STRUCT: u8 = 12;
const MAP: u8 = 13;
const SET: u8 = 14;
const LIST: u8 = 15;
const UUID: u8 = 16;

fn field(ttype: u8, id: i16, value: &[u8]) -> Vec<u8> {
    let mut out = vec![ttype];
    out.extend_from_slice(&id.to_be_bytes());
    out.extend_from_slice(value);
    out
}

fn text(s: &str) -> Vec<u8> {
    blob(s.as_bytes())
}

fn blob(b: &[u8]) -> Vec<u8> {
    let mut out = (b.len() as i32).to_be_bytes().to_vec();
    out.extend_from_slice(b);
    out
}

fn list(of: u8, items: &[Vec<u8>]) -> Vec<u8> {
    let mut out = vec![of];
    out.extend_from_slice(&(items.len() as i32).to_be_bytes());
    for item in items {
        out.extend_from_slice(item);
    }
    out
}

fn record(fields: &[Vec<u8>]) -> Vec<u8> {
    let mut out = Vec::new();
    for f in fields {
        out.extend_from_slice(f);
    }
    out.push(STOP);
    out
}

fn process(name: &str) -> Vec<u8> {
    record(&[field(STRING, 1, &text(name))])
}

fn span(high: i64, low: i64, id: i64, parent: i64, name: &str, more: &[Vec<u8>]) -> Vec<u8> {
    let mut fields = vec![
        field(I64, 1, &low.to_be_bytes()),
        field(I64, 2, &high.to_be_bytes()),
        field(I64, 3, &id.to_be_bytes()),
        field(I64, 4, &parent.to_be_bytes()),
        field(STRING, 5, &text(name)),
    ];
    fields.extend_from_slice(more);
    record(&fields)
}

fn batch(name: &str, spans: &[Vec<u8>]) -> Vec<u8> {
    record(&[
        field(STRUCT, 1, &process(name)),
        field(LIST, 2, &list(STRUCT, spans)),
    ])
}

#[test]
fn a_batch_of_two_spans_is_read() {
    let bytes = batch(
        "cart_server",
        &[
            span(1, 2, 10, 0, "POST /items", &[]),
            span(1, 2, 11, 10, "GET /stock/42", &[]),
        ],
    );
    let batch = decode_batch(&bytes).expect("batch");
    assert_eq!(batch.service_name, "cart_server");
    assert_eq!(batch.spans.len(), 2);
    assert_eq!(batch.spans[0].trace_id_high, 1);
    assert_eq!(batch.spans[0].trace_id_low, 2);
    assert_eq!(batch.spans[0].span_id, 10);
    assert_eq!(batch.spans[0].parent_span_id, 0);
    assert_eq!(batch.spans[0].operation_name, "POST /items");
    assert!(batch.spans[0].tags.is_none());
    assert_eq!(batch.spans[1].span_id, 11);
    assert_eq!(batch.spans[1].parent_span_id, 10);
    assert_eq!(batch.spans[1].operation_name, "GET /stock/42");
}

#[test]
fn the_bytes_of_the_smallest_batch_are_read() {
    let bytes: Vec<u8> = vec![
        12, 0, 1, // process
        11, 0, 1, 0, 0, 0, 1, b'a', // service name
        0,  // end of process
        15, 0, 2, 12, 0, 0, 0, 0, // no spans
        0, // end of batch
    ];
    let batch = decode_batch(&bytes).expect("batch");
    assert_eq!(batch.service_name, "a");
    assert!(batch.spans.is_empty());
}

#[test]
fn integers_are_big_endian_and_signed() {
    let bytes = batch(
        "s",
        &[span(
            -1,
            0x0102_0304_0506_0708,
            i64::MIN,
            i64::MAX,
            "op",
            &[],
        )],
    );
    let batch = decode_batch(&bytes).expect("batch");
    assert_eq!(batch.spans[0].trace_id_high, -1);
    assert_eq!(batch.spans[0].trace_id_low, 0x0102_0304_0506_0708);
    assert_eq!(batch.spans[0].span_id, i64::MIN);
    assert_eq!(batch.spans[0].parent_span_id, i64::MAX);
}

#[test]
fn tags_of_every_type_are_read() {
    let tags = list(
        STRUCT,
        &[
            record(&[
                field(STRING, 1, &text("http.method")),
                field(I32, 2, &0i32.to_be_bytes()),
                field(STRING, 3, &text("GET")),
            ]),
            record(&[
                field(STRING, 1, &text("ratio")),
                field(I32, 2, &TAG_TYPE_DOUBLE.to_be_bytes()),
                field(DOUBLE, 4, &1.5f64.to_be_bytes()),
            ]),
            record(&[
                field(STRING, 1, &text("error")),
                field(I32, 2, &2i32.to_be_bytes()),
                field(BOOL, 5, &[1]),
            ]),
            record(&[
                field(STRING, 1, &text("http.status_code")),
                field(I32, 2, &TAG_TYPE_LONG.to_be_bytes()),
                field(I64, 6, &500i64.to_be_bytes()),
            ]),
            record(&[
                field(STRING, 1, &text("blob")),
                field(I32, 2, &TAG_TYPE_BINARY.to_be_bytes()),
                field(STRING, 7, &blob(&[0xff, 0x00, 0x80])),
            ]),
            record(&[
                field(I32, 2, &99i32.to_be_bytes()),
                field(STRING, 1, &text("odd")),
                field(BOOL, 5, &[0]),
            ]),
        ],
    );
    let bytes = batch("s", &[span(1, 2, 10, 0, "op", &[field(LIST, 10, &tags)])]);
    let batch = decode_batch(&bytes).expect("batch");
    let span = &batch.spans[0];
    assert_eq!(span.tags.as_ref().expect("tags").len(), 6);
    assert_eq!(
        span.get_tag("http.method").expect("tag").value(),
        Ok(TagValue::String("GET"))
    );
    assert_eq!(
        span.get_tag("ratio").expect("tag").value(),
        Ok(TagValue::Double(1.5f64.to_bits()))
    );
    assert_eq!(
        span.get_tag("error").expect("tag").value(),
        Ok(TagValue::Bool(true))
    );
    assert_eq!(
        span.get_tag("http.status_code").expect("tag").value(),
        Ok(TagValue::Long(500))
    );
    assert_eq!(
        span.get_tag("blob").expect("tag").value(),
        Ok(TagValue::Binary(&vec![0xff, 0x00, 0x80]))
    );
    let odd = span.get_tag("odd").expect("tag");
    assert_eq!(odd.v_type, 99);
    assert_eq!(odd.v_bool, Some(false));
}

#[test]
fn any_byte_but_zero_is_true() {
    let tags = list(
        STRUCT,
        &[record(&[
            field(STRING, 1, &text("flag")),
            field(I32, 2, &2i32.to_be_bytes()),
            field(BOOL, 5, &[0x80]),
        ])],
    );
    let bytes = batch("s", &[span(1, 2, 10, 0, "op", &[field(LIST, 10, &tags)])]);
    let batch = decode_batch(&bytes).expect("batch");
    assert_eq!(batch.spans[0].tags.as_ref().expect("tags")[0].v_bool, Some(true));
}

#[test]
fn fields_that_are_not_kept_are_passed_over() {
    let reference = record(&[
        field(I32, 1, &0i32.to_be_bytes()),
        field(I64, 2, &2i64.to_be_bytes()),
        field(I64, 3, &1i64.to_be_bytes()),
        field(I64, 4, &10i64.to_be_bytes()),
    ]);
    let log = record(&[
        field(I64, 1, &123i64.to_be_bytes()),
        field(LIST, 2, &list(STRUCT, &[])),
    ]);
    let mut map = vec![STRING, I32];
    map.extend_from_slice(&2i32.to_be_bytes());
    map.extend_from_slice(&text("a"));
    map.extend_from_slice(&1i32.to_be_bytes());
    map.extend_from_slice(&text("b"));
    map.extend_from_slice(&2i32.to_be_bytes());
    let more = vec![
        field(LIST, 6, &list(STRUCT, &[reference])),
        field(I32, 7, &1i32.to_be_bytes()),
        field(I64, 8, &1_000i64.to_be_bytes()),
        field(I64, 9, &25i64.to_be_bytes()),
        field(LIST, 11, &list(STRUCT, &[log])),
        field(MAP, 20, &map),
        field(SET, 21, &list(I16, &[vec![0, 1], vec![0, 2]])),
        field(BYTE, 22, &[7]),
        field(UUID, 23, &[0; 16]),
        field(DOUBLE, 24, &2.5f64.to_be_bytes()),
        field(BOOL, 25, &[1]),
        field(I16, 26, &[0, 9]),
        field(STRING, 27, &blob(&[0xff, 0xfe])),
    ];
    let mut fields = vec![
        field(I64, 3, &4i64.to_be_bytes()),
        field(STRUCT, 1, &record(&[
            field(LIST, 2, &list(STRUCT, &[])),
            field(STRING, 1, &text("svc")),
        ])),
        field(LIST, 2, &list(STRUCT, &[span(1, 2, 10, 0, "op", &more)])),
    ];
    fields.push(field(STRUCT, 4, &record(&[field(I64, 1, &0i64.to_be_bytes())])));
    let bytes = record(&fields);
    let batch = decode_batch(&bytes).expect("batch");
    assert_eq!(batch.service_name, "svc");
    assert_eq!(batch.spans.len(), 1);
    assert_eq!(batch.spans[0].span_id, 10);
    assert_eq!(batch.spans[0].operation_name, "op");
}

#[test]
fn a_known_number_with_another_type_is_passed_over() {
    let bytes = batch(
        "s",
        &[span(1, 2, 10, 0, "op", &[field(I32, 3, &77i32.to_be_bytes())])],
    );
    let batch = decode_batch(&bytes).expect("batch");
    assert_eq!(batch.spans[0].span_id, 10);
}

#[test]
fn of_a_field_that_comes_twice_the_later_value_stays() {
    let bytes = batch(
        "s",
        &[span(1, 2, 10, 0, "op", &[field(I64, 3, &12i64.to_be_bytes())])],
    );
    let batch = decode_batch(&bytes).expect("batch");
    assert_eq!(batch.spans[0].span_id, 12);
}

#[test]
fn what_follows_the_batch_is_not_looked_at() {
    let mut bytes = batch("s", &[span(1, 2, 10, 0, "op", &[])]);
    bytes.extend_from_slice(&[0xff, 0xff, 0xff]);
    let batch = decode_batch(&bytes).expect("batch");
    assert_eq!(batch.spans.len(), 1);
}

#[test]
fn names_may_hold_any_characters() {
    let bytes = batch("сервис", &[span(1, 2, 10, 0, "opération ✓ 🚀", &[])]);
    let batch = decode_batch(&bytes).expect("batch");
    assert_eq!(batch.service_name, "сервис");
    assert_eq!(batch.spans[0].operation_name, "opération ✓ 🚀");
}

#[test]
fn a_name_that_is_not_utf8_is_refused() {
    let mut fields = vec![
        field(I64, 1, &2i64.to_be_bytes()),
        field(I64, 2, &1i64.to_be_bytes()),
        field(I64, 3, &10i64.to_be_bytes()),
        field(I64, 4, &0i64.to_be_bytes()),
    ];
    fields.push(field(STRING, 5, &blob(&[b'o', 0xff, b'p'])));
    let bytes = batch("s", &[record(&fields)]);
    assert_eq!(decode_batch(&bytes).err(), Some(DecodeError));
    let overlong = batch("s", &[{
        let mut f = fields.clone();
        f.pop();
        f.push(field(STRING, 5, &blob(&[0xc0, 0x80])));
        record(&f)
    }]);
    assert_eq!(decode_batch(&overlong).err(), Some(DecodeError));
}

#[test]
fn every_cut_of_a_batch_is_refused() {
    let bytes = batch(
        "cart_server",
        &[
            span(1, 2, 10, 0, "POST /items", &[]),
            span(1, 2, 11, 10, "GET /stock/42", &[]),
        ],
    );
    assert!(decode_batch(&bytes).is_ok());
    for cut in 0..bytes.len() {
        assert_eq!(decode_batch(&bytes[..cut]).err(), Some(DecodeError));
    }
}

#[test]
fn no_bytes_are_no_batch() {
    assert_eq!(decode_batch(&[]).err(), Some(DecodeError));
}

#[test]
fn a_batch_without_process_or_spans_is_refused() {
    assert_eq!(decode_batch(&[STOP]).err(), Some(DecodeError));
    let only_process = record(&[field(STRUCT, 1, &process("s"))]);
    assert_eq!(decode_batch(&only_process).err(), Some(DecodeError));
    let only_spans = record(&[field(LIST, 2, &list(STRUCT, &[]))]);
    assert_eq!(decode_batch(&only_spans).err(), Some(DecodeError));
    let nameless = record(&[
        field(STRUCT, 1, &record(&[])),
        field(LIST, 2, &list(STRUCT, &[])),
    ]);
    assert_eq!(decode_batch(&nameless).err(), Some(DecodeError));
}

#[test]
fn a_span_that_lacks_an_identifier_is_refused() {
    for missing in 1..=5 {
        let mut fields = Vec::new();
        for id in 1..=4i16 {
            if id != missing {
                fields.push(field(I64, id, &1i64.to_be_bytes()));
            }
        }
        if missing != 5 {
            fields.push(field(STRING, 5, &text("op")));
        }
        let bytes = batch("s", &[record(&fields)]);
        assert_eq!(decode_batch(&bytes).err(), Some(DecodeError));
    }
}

#[test]
fn a_tag_without_key_or_type_is_refused() {
    let no_key = list(STRUCT, &[record(&[field(I32, 2, &3i32.to_be_bytes())])]);
    let bytes = batch("s", &[span(1, 2, 10, 0, "op", &[field(LIST, 10, &no_key)])]);
    assert_eq!(decode_batch(&bytes).err(), Some(DecodeError));
    let no_type = list(STRUCT, &[record(&[field(STRING, 1, &text("k"))])]);
    let bytes = batch("s", &[span(1, 2, 10, 0, "op", &[field(LIST, 10, &no_type)])]);
    assert_eq!(decode_batch(&bytes).err(), Some(DecodeError));
}

#[test]
fn a_negative_length_or_count_is_refused() {
    let bytes = record(&[
        field(STRUCT, 1, &record(&[field(STRING, 1, &(-1i32).to_be_bytes())])),
        field(LIST, 2, &list(STRUCT, &[])),
    ]);
    assert_eq!(decode_batch(&bytes).err(), Some(DecodeError));
    let mut spans = vec![STRUCT];
    spans.extend_from_slice(&(-1i32).to_be_bytes());
    let bytes = record(&[field(STRUCT, 1, &process("s")), field(LIST, 2, &spans)]);
    assert_eq!(decode_batch(&bytes).err(), Some(DecodeError));
}

#[test]
fn a_list_of_spans_that_holds_no_structs_is_refused() {
    let bytes = record(&[
        field(STRUCT, 1, &process("s")),
        field(LIST, 2, &list(I64, &[])),
    ]);
    assert_eq!(decode_batch(&bytes).err(), Some(DecodeError));
}

#[test]
fn a_count_beyond_the_bytes_is_refused() {
    let mut spans = vec![STRUCT];
    spans.extend_from_slice(&i32::MAX.to_be_bytes());
    spans.extend_from_slice(&span(1, 2, 10, 0, "op", &[]));
    let bytes = record(&[field(STRUCT, 1, &process("s")), field(LIST, 2, &spans)]);
    assert_eq!(decode_batch(&bytes).err(), Some(DecodeError));
}

#[test]
fn a_type_byte_that_is_none_is_refused() {
    for ttype in [1u8, 5, 7, 9, 17, 255] {
        let bytes = record(&[
            field(STRUCT, 1, &process("s")),
            field(LIST, 2, &list(STRUCT, &[])),
            field(ttype, 9, &[0; 16]),
        ]);
        assert_eq!(decode_batch(&bytes).err(), Some(DecodeError));
    }
    let bytes = record(&[
        field(STRUCT, 1, &process("s")),
        field(LIST, 2, &list(STRUCT, &[])),
        field(LIST, 9, &list(5, &[])),
    ]);
    assert_eq!(decode_batch(&bytes).err(), Some(DecodeError));
}

#[test]
fn values_that_nest_too_deep_are_refused() {
    let nested = |depth: usize| {
        let mut value = record(&[]);
        for _ in 0..depth {
            value = record(&[field(STRUCT, 1, &value)]);
        }
        record(&[
            field(STRUCT, 1, &process("s")),
            field(LIST, 2, &list(STRUCT, &[])),
            field(STRUCT, 9, &value),
        ])
    };
    assert!(decode_batch(&nested(0)).is_ok());
    assert!(decode_batch(&nested(63)).is_ok());
    assert_eq!(decode_batch(&nested(64)).err(), Some(DecodeError));
    assert_eq!(decode_batch(&nested(200)).err(), Some(DecodeError));
}
