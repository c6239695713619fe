use mock_otel_collector::span::{Batch, Span, Tag};
use mock_otel_collector::wire::decode_batch;
use thrift::protocol::{TBinaryInputProtocol, TInputProtocol, TType};

type Reader<'a> = TBinaryInputProtocol<&'a [u8]>;

fn read_tag(p: &mut Reader) -> Option<Tag> {
    let mut key = None;
    let mut v_type = None;
    let mut tag = Tag {
        key: String::new(),
        v_type: 0,
        v_str: None,
        v_double: None,
        v_bool: None,
        v_long: None,
        v_binary: None,
    };
    p.read_struct_begin().ok()?;
    loop {
        let field = p.read_field_begin().ok()?;
        match (field.id, field.field_type) {
            (_, TType::Stop) => break,
            (Some(1), TType::String) => key = Some(p.read_string().ok()?),
            (Some(2), TType::I32) => v_type = Some(p.read_i32().ok()?),
            (Some(3), TType::String) => tag.v_str = Some(p.read_string().ok()?),
            (Some(4), TType::Double) => tag.v_double = Some(p.read_double().ok()?.to_bits()),
            (Some(5), TType::Bool) => tag.v_bool = Some(p.read_bool().ok()?),
            (Some(6), TType::I64) => tag.v_long = Some(p.read_i64().ok()?),
            (Some(7), TType::String) => tag.v_binary = Some(p.read_bytes().ok()?),
            (_, other) => p.skip(other).ok()?,
        }
        p.read_field_end().ok()?;
    }
    p.read_struct_end().ok()?;
    tag.key = key?;
    tag.v_type = v_type?;
    Some(tag)
}

fn read_span(p: &mut Reader) -> Option<Span> {
    let mut ids: [Option<i64>; 4] = [None; 4];
    let mut operation_name = None;
    let mut tags = None;
    p.read_struct_begin().ok()?;
    loop {
        let field = p.read_field_begin().ok()?;
        match (field.id, field.field_type) {
            (_, TType::Stop) => break,
            (Some(id @ 1..=4), TType::I64) => ids[id as usize - 1] = Some(p.read_i64().ok()?),
            (Some(5), TType::String) => operation_name = Some(p.read_string().ok()?),
            (Some(10), TType::List) => {
                let head = p.read_list_begin().ok()?;
                if head.element_type != TType::Struct {
                    return None;
                }
                let mut list = Vec::new();
                for _ in 0..head.size {
                    list.push(read_tag(p)?);
                }
                p.read_list_end().ok()?;
                tags = Some(list);
            }
            (_, other) => p.skip(other).ok()?,
        }
        p.read_field_end().ok()?;
    }
    p.read_struct_end().ok()?;
    Some(Span {
        trace_id_low: ids[0]?,
        trace_id_high: ids[1]?,
        span_id: ids[2]?,
        parent_span_id: ids[3]?,
        operation_name: operation_name?,
        tags,
    })
}

fn read_process(p: &mut Reader) -> Option<String> {
    let mut name = None;
    p.read_struct_begin().ok()?;
    loop {
        let field = p.read_field_begin().ok()?;
        match (field.id, field.field_type) {
            (_, TType::Stop) => break,
            (Some(1), TType::String) => name = Some(p.read_string().ok()?),
            (_, other) => p.skip(other).ok()?,
        }
        p.read_field_end().ok()?;
    }
    p.read_struct_end().ok()?;
    name
}

/// The batch as a reader built on the protocol of the `thrift` crate sees it.
fn read_batch(bytes: &[u8]) -> Option<Batch> {
    let mut p = TBinaryInputProtocol::new(bytes, false);
    let mut service_name = None;
    let mut spans = None;
    p.read_struct_begin().ok()?;
    loop {
        let field = p.read_field_begin().ok()?;
        match (field.id, field.field_type) {
            (_, TType::Stop) => break,
            (Some(1), TType::Struct) => service_name = Some(read_process(&mut p)?),
            (Some(2), TType::List) => {
                let head = p.read_list_begin().ok()?;
                if head.element_type != TType::Struct {
                    return None;
                }
                let mut list = Vec::new();
                for _ in 0..head.size {
                    list.push(read_span(&mut p)?);
                }
                p.read_list_end().ok()?;
                spans = Some(list);
            }
            (_, other) => p.skip(other).ok()?,
        }
        p.read_field_end().ok()?;
    }
    p.read_struct_end().ok()?;
    Some(Batch {
        service_name: service_name?,
        spans: spans?,
    })
}

fn assert_agreement(bytes: &[u8]) {
    assert_eq!(decode_batch(bytes).ok(), read_batch(bytes), "on {:?}", bytes);
}

fn sample() -> Vec<u8> {
    let mut out: Vec<u8> = Vec::new();
    let text = |out: &mut Vec<u8>, s: &str| {
        out.extend_from_slice(&(s.len() as i32).to_be_bytes());
        out.extend_from_slice(s.as_bytes());
    };
    out.extend_from_slice(&[12, 0, 1, 11, 0, 1]);
    text(&mut out, "svc");
    out.extend_from_slice(&[15, 0, 2, 11, 0, 0, 0, 1]);
    text(&mut out, "x");
    out.push(0);
    out.extend_from_slice(&[15, 0, 2, 12, 0, 0, 0, 2]);
    for (id, parent) in [(10i64, 0i64), (11, 10)] {
        for (field, value) in [(1u8, 2i64), (2, 1), (3, id), (4, parent)] {
            out.extend_from_slice(&[10, 0, field]);
            out.extend_from_slice(&value.to_be_bytes());
        }
        out.extend_from_slice(&[11, 0, 5]);
        text(&mut out, "GET /stock/é");
        out.extend_from_slice(&[8, 0, 7, 0, 0, 0, 1]);
        out.extend_from_slice(&[13, 0, 12, 11, 8, 0, 0, 0, 1]);
        text(&mut out, "k");
        out.extend_from_slice(&[0, 0, 0, 9]);
        out.extend_from_slice(&[15, 0, 10, 12, 0, 0, 0, 2]);
        out.extend_from_slice(&[11, 0, 1]);
        text(&mut out, "http.status_code");
        out.extend_from_slice(&[8, 0, 2, 0, 0, 0, 3, 10, 0, 6]);
        out.extend_from_slice(&200i64.to_be_bytes());
        out.push(0);
        out.extend_from_slice(&[11, 0, 1]);
        text(&mut out, "ok");
        out.extend_from_slice(&[8, 0, 2, 0, 0, 0, 2, 2, 0, 5, 1]);
        out.extend_from_slice(&[4, 0, 4]);
        out.extend_from_slice(&0.5f64.to_be_bytes());
        out.extend_from_slice(&[11, 0, 7, 0, 0, 0, 2, 0xff, 0x00]);
        out.push(0);
        out.push(0);
    }
    out.push(0);
    out
}

#[test]
fn both_readers_read_the_sample() {
    let bytes = sample();
    let batch = decode_batch(&bytes).expect("batch");
    assert_eq!(batch.service_name, "svc");
    assert_eq!(batch.spans.len(), 2);
    assert_eq!(batch.spans[1].tags.as_ref().expect("tags").len(), 2);
    assert_agreement(&bytes);
}

#[test]
fn both_readers_agree_on_every_cut_of_the_sample() {
    let bytes = sample();
    for cut in 0..=bytes.len() {
        assert_agreement(&bytes[..cut]);
    }
}

#[test]
fn both_readers_agree_when_one_byte_is_changed() {
    let bytes = sample();
    for at in 0..bytes.len() {
        for value in [0u8, 1, 2, 3, 4, 5, 8, 10, 11, 12, 13, 14, 15, 16, 17, 0x7f, 0x80, 0xff] {
            let mut changed = bytes.clone();
            changed[at] = value;
            assert_agreement(&changed);
        }
    }
}

#[test]
fn both_readers_agree_when_bytes_are_changed_at_random() {
    let bytes = sample();
    let mut state: u64 = 0x2545_f491_4f6c_dd1d;
    let mut next = move || {
        state ^= state << 13;
        state ^= state >> 7;
        state ^= state << 17;
        state
    };
    for _ in 0..3000 {
        let mut changed = bytes.clone();
        let changes = 1 + next() % 4;
        for _ in 0..changes {
            let at = (next() % changed.len() as u64) as usize;
            match next() % 3 {
                0 => changed[at] = (next() % 18) as u8,
                1 => {
                    changed.remove(at);
                }
                _ => changed.insert(at, (next() % 256) as u8),
            }
            if changed.is_empty() {
                break;
            }
        }
        assert_agreement(&changed);
    }
}
