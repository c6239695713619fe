//! The wire format of a batch: the binary struct encoding that tracing agents
//! post to a collector.
//!
//! A struct is a run of fields closed by a stop byte. A field is one byte for
//! the type of its value, two bytes for its number, and the value. Integers
//! are big endian; strings and byte strings carry a four-byte length in
//! front; lists and sets carry the type of their elements and a four-byte
//! count, maps the two types and a count. A field whose number or type the
//! reader does not know is passed over by its type.

use crate::span::Batch;
use crate::span::BatchView;
use crate::span::Span;
use crate::span::SpanView;
use crate::span::Tag;
use crate::span::TagView;
use crate::span::spans_view;
use crate::span::tags_view;
use vstd::prelude::*;
use vstd::utf8::decode_utf8;
use vstd::utf8::valid_utf8;

verus! {

/// Type byte that closes a struct.
pub const T_STOP: u8 = 0;

/// Type byte of a boolean, one byte wide.
pub const T_BOOL: u8 = 2;

/// Type byte of a signed byte.
pub const T_BYTE: u8 = 3;

/// Type byte of a 64-bit float.
pub const T_DOUBLE: u8 = 4;

/// Type byte of a 16-bit integer.
pub const T_I16: u8 = 6;

/// Type byte of a 32-bit integer.
pub const T_I32: u8 = 8;

/// Type byte of a 64-bit integer.
pub const T_I64: u8 = 10;

/// Type byte of a string or byte string.
pub const T_STRING: u8 = 11;

/// Type byte of a struct.
pub const T_STRUCT: u8 = 12;

/// Type byte of a map.
pub const T_MAP: u8 = 13;

/// Type byte of a set.
pub const T_SET: u8 = 14;

/// Type byte of a list.
pub const T_LIST: u8 = 15;

/// Type byte of a 16-byte identifier.
pub const T_UUID: u8 = 16;

/// How many containers deep a value that is passed over may reach.
pub const SKIP_DEPTH: u8 = 64;

/// The bytes could not be read as a batch.
#[derive(Debug, Clone, Copy, PartialEq, Eq, Structural)]
pub struct DecodeError;

/// Whether `ttype` is one of the type bytes of the format.
pub open spec fn is_type_byte(ttype: u8) -> bool {
    ttype <= 4 || ttype == T_I16 || ttype == T_I32 || (T_I64 <= ttype <= T_UUID)
}

/// The big-endian value of two bytes.
pub open spec fn be_u16(b0: u8, b1: u8) -> u16 {
    ((b0 as u16) << 8) | (b1 as u16)
}

/// The big-endian value of four bytes.
pub open spec fn be_u32(b0: u8, b1: u8, b2: u8, b3: u8) -> u32 {
    ((b0 as u32) << 24) | ((b1 as u32) << 16) | ((b2 as u32) << 8) | (b3 as u32)
}

/// The big-endian value of the eight bytes of `bytes` from `pos` on.
pub open spec fn be_u64(bytes: Seq<u8>, pos: int) -> u64 {
    ((bytes[pos] as u64) << 56) | ((bytes[pos + 1] as u64) << 48) | ((bytes[pos + 2] as u64) << 40)
        | ((bytes[pos + 3] as u64) << 32) | ((bytes[pos + 4] as u64) << 24) | ((bytes[pos
        + 5] as u64) << 16) | ((bytes[pos + 6] as u64) << 8) | (bytes[pos + 7] as u64)
}

/// Whether `width` bytes lie at `pos`.
pub open spec fn has_bytes(bytes: Seq<u8>, pos: int, width: int) -> bool {
    0 <= pos && pos + width <= bytes.len()
}

/// The 16-bit integer at `pos`.
pub open spec fn i16_at(bytes: Seq<u8>, pos: int) -> Option<i16> {
    if has_bytes(bytes, pos, 2) {
        Some(be_u16(bytes[pos], bytes[pos + 1]) as i16)
    } else {
        None
    }
}

/// The 32-bit integer at `pos`.
pub open spec fn i32_at(bytes: Seq<u8>, pos: int) -> Option<i32> {
    if has_bytes(bytes, pos, 4) {
        Some(be_u32(bytes[pos], bytes[pos + 1], bytes[pos + 2], bytes[pos + 3]) as i32)
    } else {
        None
    }
}

/// The 64-bit word at `pos`.
pub open spec fn u64_at(bytes: Seq<u8>, pos: int) -> Option<u64> {
    if has_bytes(bytes, pos, 8) {
        Some(be_u64(bytes, pos))
    } else {
        None
    }
}

/// The 64-bit integer at `pos`.
pub open spec fn i64_at(bytes: Seq<u8>, pos: int) -> Option<i64> {
    match u64_at(bytes, pos) {
        Some(word) => Some(word as i64),
        None => None,
    }
}

/// The byte string at `pos`, with the place behind it: a length that is not
/// negative, then as many bytes.
pub open spec fn bytes_at(bytes: Seq<u8>, pos: int) -> Option<(Seq<u8>, int)> {
    match i32_at(bytes, pos) {
        Some(n) => if n >= 0 && pos + 4 + n <= bytes.len() {
            Some((bytes.subrange(pos + 4, pos + 4 + n), pos + 4 + n))
        } else {
            None
        },
        None => None,
    }
}

/// The string at `pos`, with the place behind it: a byte string that is valid
/// UTF-8.
pub open spec fn string_at(bytes: Seq<u8>, pos: int) -> Option<(Seq<char>, int)> {
    match bytes_at(bytes, pos) {
        Some((raw, next)) => if valid_utf8(raw) {
            Some((decode_utf8(raw), next))
        } else {
            None
        },
        None => None,
    }
}

/// The head of a list or set at `pos`: the type byte of the elements and
/// their number, which is not negative.
pub open spec fn list_head_at(bytes: Seq<u8>, pos: int) -> Option<(u8, nat)> {
    match i32_at(bytes, pos + 1) {
        Some(count) => if pos >= 0 && is_type_byte(bytes[pos]) && count >= 0 {
            Some((bytes[pos], count as nat))
        } else {
            None
        },
        None => None,
    }
}

/// The head of a map at `pos`: the type bytes of keys and values and the
/// number of entries, which is not negative.
pub open spec fn map_head_at(bytes: Seq<u8>, pos: int) -> Option<(u8, u8, nat)> {
    match i32_at(bytes, pos + 2) {
        Some(count) => if pos >= 0 && is_type_byte(bytes[pos]) && is_type_byte(bytes[pos + 1])
            && count >= 0 {
            Some((bytes[pos], bytes[pos + 1], count as nat))
        } else {
            None
        },
        None => None,
    }
}

/// The place behind `width` bytes at `pos`.
pub open spec fn behind(bytes: Seq<u8>, pos: int, width: int) -> Option<int> {
    if has_bytes(bytes, pos, width) {
        Some(pos + width)
    } else {
        None
    }
}

/// The place behind the value of type `ttype` at `pos`, which may reach
/// `depth` containers deep.
pub open spec fn skip_value(bytes: Seq<u8>, pos: int, ttype: u8, depth: nat) -> Option<int>
    decreases depth, 0nat, 0nat,
{
    if depth == 0 {
        None
    } else if ttype == T_BOOL || ttype == T_BYTE {
        behind(bytes, pos, 1)
    } else if ttype == T_I16 {
        behind(bytes, pos, 2)
    } else if ttype == T_I32 {
        behind(bytes, pos, 4)
    } else if ttype == T_I64 || ttype == T_DOUBLE {
        behind(bytes, pos, 8)
    } else if ttype == T_UUID {
        behind(bytes, pos, 16)
    } else if ttype == T_STRING {
        match bytes_at(bytes, pos) {
            Some((raw, next)) => Some(next),
            None => None,
        }
    } else if ttype == T_STRUCT {
        skip_fields(bytes, pos, (depth - 1) as nat)
    } else if ttype == T_LIST || ttype == T_SET {
        match list_head_at(bytes, pos) {
            Some((of, count)) => skip_elements(bytes, pos + 5, of, count, (depth - 1) as nat),
            None => None,
        }
    } else if ttype == T_MAP {
        match map_head_at(bytes, pos) {
            Some((key, value, count)) => skip_entries(
                bytes,
                pos + 6,
                key,
                value,
                count,
                (depth - 1) as nat,
            ),
            None => None,
        }
    } else {
        None
    }
}

/// The place behind the fields of a struct that are left at `pos`, and its
/// stop byte.
pub open spec fn skip_fields(bytes: Seq<u8>, pos: int, depth: nat) -> Option<int>
    decreases depth, 1nat, bytes.len() - pos,
{
    if pos < 0 || pos >= bytes.len() {
        None
    } else if bytes[pos] == T_STOP {
        Some(pos + 1)
    } else if pos + 3 > bytes.len() {
        None
    } else {
        match skip_value(bytes, pos + 3, bytes[pos], depth) {
            Some(next) => if pos < next <= bytes.len() {
                skip_fields(bytes, next, depth)
            } else {
                None
            },
            None => None,
        }
    }
}

/// The place behind `count` values of type `of` at `pos`.
pub open spec fn skip_elements(bytes: Seq<u8>, pos: int, of: u8, count: nat, depth: nat) -> Option<
    int,
>
    decreases depth, 1nat, count,
{
    if count == 0 {
        Some(pos)
    } else {
        match skip_value(bytes, pos, of, depth) {
            Some(next) => skip_elements(bytes, next, of, (count - 1) as nat, depth),
            None => None,
        }
    }
}

/// The place behind `count` pairs of a key and a value at `pos`.
pub open spec fn skip_entries(
    bytes: Seq<u8>,
    pos: int,
    key: u8,
    value: u8,
    count: nat,
    depth: nat,
) -> Option<int>
    decreases depth, 1nat, count,
{
    if count == 0 {
        Some(pos)
    } else {
        match skip_value(bytes, pos, key, depth) {
            Some(middle) => match skip_value(bytes, middle, value, depth) {
                Some(next) => skip_entries(bytes, next, key, value, (count - 1) as nat, depth),
                None => None,
            },
            None => None,
        }
    }
}

fn is_type(ttype: u8) -> (known: bool)
    ensures
        known == is_type_byte(ttype),
{
    ttype <= 4 || ttype == T_I16 || ttype == T_I32 || (T_I64 <= ttype && ttype <= T_UUID)
}

fn in_reach(bytes: &[u8], pos: usize, width: usize) -> (enough: bool)
    ensures
        enough == has_bytes(bytes@, pos as int, width as int),
        enough ==> pos + width <= usize::MAX,
{
    pos <= bytes.len() && bytes.len() - pos >= width
}

fn read_i16(bytes: &[u8], pos: usize) -> (value: Option<i16>)
    ensures
        value == i16_at(bytes@, pos as int),
{
    if in_reach(bytes, pos, 2) {
        Some((((bytes[pos] as u16) << 8) | (bytes[pos + 1] as u16)) as i16)
    } else {
        None
    }
}

fn read_i32(bytes: &[u8], pos: usize) -> (value: Option<i32>)
    ensures
        value == i32_at(bytes@, pos as int),
{
    if in_reach(bytes, pos, 4) {
        Some(
            (((bytes[pos] as u32) << 24) | ((bytes[pos + 1] as u32) << 16) | ((bytes[pos
                + 2] as u32) << 8) | (bytes[pos + 3] as u32)) as i32,
        )
    } else {
        None
    }
}

fn read_u64(bytes: &[u8], pos: usize) -> (value: Option<u64>)
    ensures
        value == u64_at(bytes@, pos as int),
{
    if in_reach(bytes, pos, 8) {
        Some(
            ((bytes[pos] as u64) << 56) | ((bytes[pos + 1] as u64) << 48) | ((bytes[pos
                + 2] as u64) << 40) | ((bytes[pos + 3] as u64) << 32) | ((bytes[pos + 4] as u64)
                << 24) | ((bytes[pos + 5] as u64) << 16) | ((bytes[pos + 6] as u64) << 8) | (
            bytes[pos + 7] as u64),
        )
    } else {
        None
    }
}

fn read_i64(bytes: &[u8], pos: usize) -> (value: Option<i64>)
    ensures
        value == i64_at(bytes@, pos as int),
{
    match read_u64(bytes, pos) {
        Some(word) => Some(word as i64),
        None => None,
    }
}

/// The bounds of the byte string at `pos`: where it starts and where it ends.
fn read_bytes_bounds(bytes: &[u8], pos: usize) -> (bounds: Option<(usize, usize)>)
    ensures
        match bounds {
            Some((from, to)) => from == pos + 4 && from <= to <= bytes.len() && bytes_at(
                bytes@,
                pos as int,
            ) == Some((bytes@.subrange(from as int, to as int), to as int)),
            None => bytes_at(bytes@, pos as int) is None,
        },
{
    match read_i32(bytes, pos) {
        Some(n) => {
            if n >= 0 && bytes.len() - pos - 4 >= n as usize {
                Some((pos + 4, pos + 4 + n as usize))
            } else {
                None
            }
        },
        None => None,
    }
}

fn read_list_head(bytes: &[u8], pos: usize) -> (head: Option<(u8, u32)>)
    ensures
        match head {
            Some((of, count)) => list_head_at(bytes@, pos as int) == Some((of, count as nat))
                && pos + 5 <= bytes.len(),
            None => list_head_at(bytes@, pos as int) is None,
        },
{
    if !in_reach(bytes, pos, 5) {
        return None;
    }
    match read_i32(bytes, pos + 1) {
        Some(count) => {
            if is_type(bytes[pos]) && count >= 0 {
                Some((bytes[pos], count as u32))
            } else {
                None
            }
        },
        None => None,
    }
}

fn read_map_head(bytes: &[u8], pos: usize) -> (head: Option<(u8, u8, u32)>)
    ensures
        match head {
            Some((key, value, count)) => map_head_at(bytes@, pos as int) == Some(
                (key, value, count as nat),
            ) && pos + 6 <= bytes.len(),
            None => map_head_at(bytes@, pos as int) is None,
        },
{
    if !in_reach(bytes, pos, 6) {
        return None;
    }
    match read_i32(bytes, pos + 2) {
        Some(count) => {
            if is_type(bytes[pos]) && is_type(bytes[pos + 1]) && count >= 0 {
                Some((bytes[pos], bytes[pos + 1], count as u32))
            } else {
                None
            }
        },
        None => None,
    }
}

fn step(bytes: &[u8], pos: usize, width: usize) -> (next: Option<usize>)
    ensures
        match next {
            Some(to) => behind(bytes@, pos as int, width as int) == Some(to as int) && to
                == pos + width && to <= bytes.len(),
            None => behind(bytes@, pos as int, width as int) is None,
        },
{
    if in_reach(bytes, pos, width) {
        Some(pos + width)
    } else {
        None
    }
}

/// Passes over the value of type `ttype` at `pos`.
#[verifier::loop_isolation(false)]
fn skip(bytes: &[u8], pos: usize, ttype: u8, depth: u8) -> (next: Option<usize>)
    ensures
        match next {
            Some(to) => skip_value(bytes@, pos as int, ttype, depth as nat) == Some(to as int)
                && pos < to <= bytes.len(),
            None => skip_value(bytes@, pos as int, ttype, depth as nat) is None,
        },
    decreases depth,
{
    if depth == 0 {
        None
    } else if ttype == T_BOOL || ttype == T_BYTE {
        step(bytes, pos, 1)
    } else if ttype == T_I16 {
        step(bytes, pos, 2)
    } else if ttype == T_I32 {
        step(bytes, pos, 4)
    } else if ttype == T_I64 || ttype == T_DOUBLE {
        step(bytes, pos, 8)
    } else if ttype == T_UUID {
        step(bytes, pos, 16)
    } else if ttype == T_STRING {
        match read_bytes_bounds(bytes, pos) {
            Some((from, to)) => Some(to),
            None => None,
        }
    } else if ttype == T_STRUCT {
        let mut at = pos;
        loop
            invariant
                pos <= at,
                skip_fields(bytes@, pos as int, (depth - 1) as nat) == skip_fields(
                    bytes@,
                    at as int,
                    (depth - 1) as nat,
                ),
            decreases bytes.len() - at,
        {
            if !in_reach(bytes, at, 1) {
                return None;
            }
            if bytes[at] == T_STOP {
                return Some(at + 1);
            }
            if !in_reach(bytes, at, 3) {
                return None;
            }
            match skip(bytes, at + 3, bytes[at], depth - 1) {
                Some(to) => {
                    at = to;
                },
                None => {
                    return None;
                },
            }
        }
    } else if ttype == T_LIST || ttype == T_SET {
        match read_list_head(bytes, pos) {
            Some((of, count)) => {
                let mut at = pos + 5;
                let mut left = count;
                while left > 0
                    invariant
                        pos + 5 <= at <= bytes.len(),
                        skip_elements(bytes@, pos + 5, of, count as nat, (depth - 1) as nat)
                            == skip_elements(bytes@, at as int, of, left as nat, (depth - 1) as nat),
                    decreases left,
                {
                    match skip(bytes, at, of, depth - 1) {
                        Some(to) => {
                            at = to;
                            left -= 1;
                        },
                        None => {
                            return None;
                        },
                    }
                }
                Some(at)
            },
            None => None,
        }
    } else if ttype == T_MAP {
        match read_map_head(bytes, pos) {
            Some((key, value, count)) => {
                let mut at = pos + 6;
                let mut left = count;
                while left > 0
                    invariant
                        pos + 6 <= at <= bytes.len(),
                        skip_entries(bytes@, pos + 6, key, value, count as nat, (depth - 1) as nat)
                            == skip_entries(
                            bytes@,
                            at as int,
                            key,
                            value,
                            left as nat,
                            (depth - 1) as nat,
                        ),
                    decreases left,
                {
                    let middle = match skip(bytes, at, key, depth - 1) {
                        Some(to) => to,
                        None => {
                            return None;
                        },
                    };
                    match skip(bytes, middle, value, depth - 1) {
                        Some(to) => {
                            at = to;
                            left -= 1;
                        },
                        None => {
                            return None;
                        },
                    }
                }
                Some(at)
            },
            None => None,
        }
    } else {
        None
    }
}

/// `String::from_utf8`: the string that the bytes encode, or `None` where
/// they are not valid UTF-8.
#[verifier::external_body]
fn string_from_utf8(raw: Vec<u8>) -> (text: Option<String>)
    ensures
        match text {
            Some(s) => valid_utf8(raw@) && s@ == decode_utf8(raw@),
            None => !valid_utf8(raw@),
        },
{
    String::from_utf8(raw).ok()
}

fn copy_range(bytes: &[u8], from: usize, to: usize) -> (copy: Vec<u8>)
    requires
        from <= to <= bytes.len(),
    ensures
        copy@ == bytes@.subrange(from as int, to as int),
{
    let mut copy: Vec<u8> = Vec::new();
    let mut at = from;
    while at < to
        invariant
            from <= at <= to <= bytes.len(),
            copy@ == bytes@.subrange(from as int, at as int),
        decreases to - at,
    {
        copy.push(bytes[at]);
        at += 1;
    }
    copy
}

fn read_blob(bytes: &[u8], pos: usize) -> (blob: Option<(Vec<u8>, usize)>)
    ensures
        match blob {
            Some((raw, next)) => bytes_at(bytes@, pos as int) == Some((raw@, next as int)) && pos
                < next <= bytes.len(),
            None => bytes_at(bytes@, pos as int) is None,
        },
{
    match read_bytes_bounds(bytes, pos) {
        Some((from, to)) => Some((copy_range(bytes, from, to), to)),
        None => None,
    }
}

fn read_string(bytes: &[u8], pos: usize) -> (text: Option<(String, usize)>)
    ensures
        match text {
            Some((s, next)) => string_at(bytes@, pos as int) == Some((s@, next as int)) && pos
                < next <= bytes.len(),
            None => string_at(bytes@, pos as int) is None,
        },
{
    match read_blob(bytes, pos) {
        Some((raw, next)) => match string_from_utf8(raw) {
            Some(s) => Some((s, next)),
            None => None,
        },
        None => None,
    }
}

/// What has been read of a tag so far.
pub struct TagParts {
    pub key: Option<Seq<char>>,
    pub v_type: Option<i32>,
    pub v_str: Option<Seq<char>>,
    pub v_double: Option<u64>,
    pub v_bool: Option<bool>,
    pub v_long: Option<i64>,
    pub v_binary: Option<Seq<u8>>,
}

/// What has been read of a span so far.
pub struct SpanParts {
    pub trace_id_low: Option<i64>,
    pub trace_id_high: Option<i64>,
    pub span_id: Option<i64>,
    pub parent_span_id: Option<i64>,
    pub operation_name: Option<Seq<char>>,
    pub tags: Option<Seq<TagView>>,
}

/// What has been read of a batch so far.
pub struct BatchParts {
    pub service_name: Option<Seq<char>>,
    pub spans: Option<Seq<SpanView>>,
}

/// A tag of which nothing has been read.
pub open spec fn no_tag_parts() -> TagParts {
    TagParts {
        key: None,
        v_type: None,
        v_str: None,
        v_double: None,
        v_bool: None,
        v_long: None,
        v_binary: None,
    }
}

/// A span of which nothing has been read.
pub open spec fn no_span_parts() -> SpanParts {
    SpanParts {
        trace_id_low: None,
        trace_id_high: None,
        span_id: None,
        parent_span_id: None,
        operation_name: None,
        tags: None,
    }
}

/// The value of a field that is not kept: it is passed over by its type.
pub open spec fn other_field(bytes: Seq<u8>, pos: int, ttype: u8) -> Option<int> {
    skip_value(bytes, pos, ttype, SKIP_DEPTH as nat)
}

/// Reads the value at `pos` of field `id` of a tag into `parts`. Field 1 is
/// the key, 2 the declared type, 3 to 7 the slots for a string, a float, a
/// boolean (any byte but zero is true), an integer and a byte string.
pub open spec fn tag_field(bytes: Seq<u8>, pos: int, ttype: u8, id: i16, parts: TagParts) -> Option<
    (TagParts, int),
> {
    if id == 1 && ttype == T_STRING {
        match string_at(bytes, pos) {
            Some((s, next)) => Some((TagParts { key: Some(s), ..parts }, next)),
            None => None,
        }
    } else if id == 2 && ttype == T_I32 {
        match i32_at(bytes, pos) {
            Some(n) => Some((TagParts { v_type: Some(n), ..parts }, pos + 4)),
            None => None,
        }
    } else if id == 3 && ttype == T_STRING {
        match string_at(bytes, pos) {
            Some((s, next)) => Some((TagParts { v_str: Some(s), ..parts }, next)),
            None => None,
        }
    } else if id == 4 && ttype == T_DOUBLE {
        match u64_at(bytes, pos) {
            Some(bits) => Some((TagParts { v_double: Some(bits), ..parts }, pos + 8)),
            None => None,
        }
    } else if id == 5 && ttype == T_BOOL {
        if has_bytes(bytes, pos, 1) {
            Some((TagParts { v_bool: Some(bytes[pos] != 0), ..parts }, pos + 1))
        } else {
            None
        }
    } else if id == 6 && ttype == T_I64 {
        match i64_at(bytes, pos) {
            Some(n) => Some((TagParts { v_long: Some(n), ..parts }, pos + 8)),
            None => None,
        }
    } else if id == 7 && ttype == T_STRING {
        match bytes_at(bytes, pos) {
            Some((raw, next)) => Some((TagParts { v_binary: Some(raw), ..parts }, next)),
            None => None,
        }
    } else {
        match other_field(bytes, pos, ttype) {
            Some(next) => Some((parts, next)),
            None => None,
        }
    }
}

/// Reads the fields of a tag that are left at `pos`, up to the stop byte. Of
/// a field that comes twice the later value stays.
pub open spec fn tag_fields(bytes: Seq<u8>, pos: int, parts: TagParts) -> Option<(TagParts, int)>
    decreases bytes.len() - pos,
{
    if pos < 0 || pos >= bytes.len() {
        None
    } else if bytes[pos] == T_STOP {
        Some((parts, pos + 1))
    } else {
        match i16_at(bytes, pos + 1) {
            Some(id) => match tag_field(bytes, pos + 3, bytes[pos], id, parts) {
                Some((more, next)) => if pos < next <= bytes.len() {
                    tag_fields(bytes, next, more)
                } else {
                    None
                },
                None => None,
            },
            None => None,
        }
    }
}

/// The tag at `pos` with the place behind it. Key and declared type must be
/// there.
pub open spec fn tag_at(bytes: Seq<u8>, pos: int) -> Option<(TagView, int)> {
    match tag_fields(bytes, pos, no_tag_parts()) {
        Some((parts, next)) => if parts.key is Some && parts.v_type is Some {
            Some(
                (
                    TagView {
                        key: parts.key->Some_0,
                        v_type: parts.v_type->Some_0,
                        v_str: parts.v_str,
                        v_double: parts.v_double,
                        v_bool: parts.v_bool,
                        v_long: parts.v_long,
                        v_binary: parts.v_binary,
                    },
                    next,
                ),
            )
        } else {
            None
        },
        None => None,
    }
}

/// Reads `left` more tags at `pos` behind those in `read`.
pub open spec fn tags_from(bytes: Seq<u8>, pos: int, left: nat, read: Seq<TagView>) -> Option<
    (Seq<TagView>, int),
>
    decreases left,
{
    if left == 0 {
        Some((read, pos))
    } else {
        match tag_at(bytes, pos) {
            Some((tag, next)) => tags_from(bytes, next, (left - 1) as nat, read.push(tag)),
            None => None,
        }
    }
}

/// The list of tags at `pos`: a list of structs.
pub open spec fn tag_list_at(bytes: Seq<u8>, pos: int) -> Option<(Seq<TagView>, int)> {
    match list_head_at(bytes, pos) {
        Some((of, count)) => if of == T_STRUCT {
            tags_from(bytes, pos + 5, count, Seq::empty())
        } else {
            None
        },
        None => None,
    }
}

/// Reads the value at `pos` of field `id` of a span into `parts`. Fields 1
/// to 4 are the low and high half of the trace identifier, the span
/// identifier and the parent identifier, 5 is the operation name, 10 the
/// tags.
pub open spec fn span_field(bytes: Seq<u8>, pos: int, ttype: u8, id: i16, parts: SpanParts) -> Option<
    (SpanParts, int),
> {
    if 1 <= id <= 4 && ttype == T_I64 {
        match i64_at(bytes, pos) {
            Some(n) => Some(
                (
                    if id == 1 {
                        SpanParts { trace_id_low: Some(n), ..parts }
                    } else if id == 2 {
                        SpanParts { trace_id_high: Some(n), ..parts }
                    } else if id == 3 {
                        SpanParts { span_id: Some(n), ..parts }
                    } else {
                        SpanParts { parent_span_id: Some(n), ..parts }
                    },
                    pos + 8,
                ),
            ),
            None => None,
        }
    } else if id == 5 && ttype == T_STRING {
        match string_at(bytes, pos) {
            Some((s, next)) => Some((SpanParts { operation_name: Some(s), ..parts }, next)),
            None => None,
        }
    } else if id == 10 && ttype == T_LIST {
        match tag_list_at(bytes, pos) {
            Some((tags, next)) => Some((SpanParts { tags: Some(tags), ..parts }, next)),
            None => None,
        }
    } else {
        match other_field(bytes, pos, ttype) {
            Some(next) => Some((parts, next)),
            None => None,
        }
    }
}

/// Reads the fields of a span that are left at `pos`, up to the stop byte.
pub open spec fn span_fields(bytes: Seq<u8>, pos: int, parts: SpanParts) -> Option<(SpanParts, int)>
    decreases bytes.len() - pos,
{
    if pos < 0 || pos >= bytes.len() {
        None
    } else if bytes[pos] == T_STOP {
        Some((parts, pos + 1))
    } else {
        match i16_at(bytes, pos + 1) {
            Some(id) => match span_field(bytes, pos + 3, bytes[pos], id, parts) {
                Some((more, next)) => if pos < next <= bytes.len() {
                    span_fields(bytes, next, more)
                } else {
                    None
                },
                None => None,
            },
            None => None,
        }
    }
}

/// The span at `pos` with the place behind it. The four identifiers and the
/// operation name must be there; the tags need not.
pub open spec fn span_at(bytes: Seq<u8>, pos: int) -> Option<(SpanView, int)> {
    match span_fields(bytes, pos, no_span_parts()) {
        Some((parts, next)) => if parts.trace_id_low is Some && parts.trace_id_high is Some
            && parts.span_id is Some && parts.parent_span_id is Some && parts.operation_name
            is Some {
            Some(
                (
                    SpanView {
                        trace_id_low: parts.trace_id_low->Some_0,
                        trace_id_high: parts.trace_id_high->Some_0,
                        span_id: parts.span_id->Some_0,
                        parent_span_id: parts.parent_span_id->Some_0,
                        operation_name: parts.operation_name->Some_0,
                        tags: parts.tags,
                    },
                    next,
                ),
            )
        } else {
            None
        },
        None => None,
    }
}

/// Reads `left` more spans at `pos` behind those in `read`.
pub open spec fn spans_from(bytes: Seq<u8>, pos: int, left: nat, read: Seq<SpanView>) -> Option<
    (Seq<SpanView>, int),
>
    decreases left,
{
    if left == 0 {
        Some((read, pos))
    } else {
        match span_at(bytes, pos) {
            Some((span, next)) => spans_from(bytes, next, (left - 1) as nat, read.push(span)),
            None => None,
        }
    }
}

/// The list of spans at `pos`: a list of structs.
pub open spec fn span_list_at(bytes: Seq<u8>, pos: int) -> Option<(Seq<SpanView>, int)> {
    match list_head_at(bytes, pos) {
        Some((of, count)) => if of == T_STRUCT {
            spans_from(bytes, pos + 5, count, Seq::empty())
        } else {
            None
        },
        None => None,
    }
}

/// Reads the fields of a process that are left at `pos`, up to the stop
/// byte. Field 1 is the service name.
pub open spec fn process_fields(bytes: Seq<u8>, pos: int, name: Option<Seq<char>>) -> Option<
    (Option<Seq<char>>, int),
>
    decreases bytes.len() - pos,
{
    if pos < 0 || pos >= bytes.len() {
        None
    } else if bytes[pos] == T_STOP {
        Some((name, pos + 1))
    } else {
        match i16_at(bytes, pos + 1) {
            Some(id) => if id == 1 && bytes[pos] == T_STRING {
                match string_at(bytes, pos + 3) {
                    Some((s, next)) => if pos < next <= bytes.len() {
                        process_fields(bytes, next, Some(s))
                    } else {
                        None
                    },
                    None => None,
                }
            } else {
                match other_field(bytes, pos + 3, bytes[pos]) {
                    Some(next) => if pos < next <= bytes.len() {
                        process_fields(bytes, next, name)
                    } else {
                        None
                    },
                    None => None,
                }
            },
            None => None,
        }
    }
}

/// The service name of the process at `pos`, which must be there, with the
/// place behind the process.
pub open spec fn process_at(bytes: Seq<u8>, pos: int) -> Option<(Seq<char>, int)> {
    match process_fields(bytes, pos, None) {
        Some((Some(name), next)) => Some((name, next)),
        _ => None,
    }
}

/// Reads the value at `pos` of field `id` of a batch into `parts`. Field 1
/// is the process, 2 the spans.
pub open spec fn batch_field(bytes: Seq<u8>, pos: int, ttype: u8, id: i16, parts: BatchParts) -> Option<
    (BatchParts, int),
> {
    if id == 1 && ttype == T_STRUCT {
        match process_at(bytes, pos) {
            Some((name, next)) => Some((BatchParts { service_name: Some(name), ..parts }, next)),
            None => None,
        }
    } else if id == 2 && ttype == T_LIST {
        match span_list_at(bytes, pos) {
            Some((spans, next)) => Some((BatchParts { spans: Some(spans), ..parts }, next)),
            None => None,
        }
    } else {
        match other_field(bytes, pos, ttype) {
            Some(next) => Some((parts, next)),
            None => None,
        }
    }
}

/// Reads the fields of a batch that are left at `pos`, up to the stop byte.
pub open spec fn batch_fields(bytes: Seq<u8>, pos: int, parts: BatchParts) -> Option<
    (BatchParts, int),
>
    decreases bytes.len() - pos,
{
    if pos < 0 || pos >= bytes.len() {
        None
    } else if bytes[pos] == T_STOP {
        Some((parts, pos + 1))
    } else {
        match i16_at(bytes, pos + 1) {
            Some(id) => match batch_field(bytes, pos + 3, bytes[pos], id, parts) {
                Some((more, next)) => if pos < next <= bytes.len() {
                    batch_fields(bytes, next, more)
                } else {
                    None
                },
                None => None,
            },
            None => None,
        }
    }
}

/// The batch that `bytes` start with, if they start with one. Process and
/// spans must be there; what follows the batch is not looked at.
pub open spec fn batch_of(bytes: Seq<u8>) -> Option<BatchView> {
    match batch_fields(bytes, 0, BatchParts { service_name: None, spans: None }) {
        Some((parts, next)) => if parts.service_name is Some && parts.spans is Some {
            Some(BatchView { service_name: parts.service_name->Some_0, spans: parts.spans->Some_0 })
        } else {
            None
        },
        None => None,
    }
}

proof fn lemma_heads_stay(bytes: Seq<u8>, more: Seq<u8>, pos: int)
    ensures
        forall|width: int|
            has_bytes(bytes, pos, width) ==> #[trigger] has_bytes(bytes + more, pos, width),
        i16_at(bytes, pos) is Some ==> i16_at(bytes + more, pos) == i16_at(bytes, pos),
        i32_at(bytes, pos) is Some ==> i32_at(bytes + more, pos) == i32_at(bytes, pos),
        u64_at(bytes, pos) is Some ==> u64_at(bytes + more, pos) == u64_at(bytes, pos),
        i64_at(bytes, pos) is Some ==> i64_at(bytes + more, pos) == i64_at(bytes, pos),
        bytes_at(bytes, pos) is Some ==> bytes_at(bytes + more, pos) == bytes_at(bytes, pos),
        string_at(bytes, pos) is Some ==> string_at(bytes + more, pos) == string_at(bytes, pos),
        list_head_at(bytes, pos) is Some ==> list_head_at(bytes + more, pos) == list_head_at(
            bytes,
            pos,
        ),
        map_head_at(bytes, pos) is Some ==> map_head_at(bytes + more, pos) == map_head_at(
            bytes,
            pos,
        ),
{
    let all = bytes + more;
    if bytes_at(bytes, pos) is Some {
        let n = i32_at(bytes, pos)->Some_0;
        assert(all.subrange(pos + 4, pos + 4 + n) =~= bytes.subrange(pos + 4, pos + 4 + n));
    }
}

proof fn lemma_skip_value_stays(bytes: Seq<u8>, more: Seq<u8>, pos: int, ttype: u8, depth: nat)
    requires
        skip_value(bytes, pos, ttype, depth) is Some,
    ensures
        skip_value(bytes + more, pos, ttype, depth) == skip_value(bytes, pos, ttype, depth),
    decreases depth, 0nat, 0nat,
{
    lemma_heads_stay(bytes, more, pos);
    if ttype == T_STRUCT {
        lemma_skip_fields_stay(bytes, more, pos, (depth - 1) as nat);
    } else if ttype == T_LIST || ttype == T_SET {
        let (of, count) = list_head_at(bytes, pos)->Some_0;
        lemma_skip_elements_stay(bytes, more, pos + 5, of, count, (depth - 1) as nat);
    } else if ttype == T_MAP {
        let (key, value, count) = map_head_at(bytes, pos)->Some_0;
        lemma_skip_entries_stay(bytes, more, pos + 6, key, value, count, (depth - 1) as nat);
    }
}

proof fn lemma_skip_fields_stay(bytes: Seq<u8>, more: Seq<u8>, pos: int, depth: nat)
    requires
        skip_fields(bytes, pos, depth) is Some,
    ensures
        skip_fields(bytes + more, pos, depth) == skip_fields(bytes, pos, depth),
    decreases depth, 1nat, bytes.len() - pos,
{
    if bytes[pos] != T_STOP {
        lemma_skip_value_stays(bytes, more, pos + 3, bytes[pos], depth);
        let next = skip_value(bytes, pos + 3, bytes[pos], depth)->Some_0;
        lemma_skip_fields_stay(bytes, more, next, depth);
    }
}

proof fn lemma_skip_elements_stay(
    bytes: Seq<u8>,
    more: Seq<u8>,
    pos: int,
    of: u8,
    count: nat,
    depth: nat,
)
    requires
        skip_elements(bytes, pos, of, count, depth) is Some,
    ensures
        skip_elements(bytes + more, pos, of, count, depth) == skip_elements(
            bytes,
            pos,
            of,
            count,
            depth,
        ),
    decreases depth, 1nat, count,
{
    if count > 0 {
        lemma_skip_value_stays(bytes, more, pos, of, depth);
        let next = skip_value(bytes, pos, of, depth)->Some_0;
        lemma_skip_elements_stay(bytes, more, next, of, (count - 1) as nat, depth);
    }
}

proof fn lemma_skip_entries_stay(
    bytes: Seq<u8>,
    more: Seq<u8>,
    pos: int,
    key: u8,
    value: u8,
    count: nat,
    depth: nat,
)
    requires
        skip_entries(bytes, pos, key, value, count, depth) is Some,
    ensures
        skip_entries(bytes + more, pos, key, value, count, depth) == skip_entries(
            bytes,
            pos,
            key,
            value,
            count,
            depth,
        ),
    decreases depth, 1nat, count,
{
    if count > 0 {
        lemma_skip_value_stays(bytes, more, pos, key, depth);
        let middle = skip_value(bytes, pos, key, depth)->Some_0;
        lemma_skip_value_stays(bytes, more, middle, value, depth);
        let next = skip_value(bytes, middle, value, depth)->Some_0;
        lemma_skip_entries_stay(bytes, more, next, key, value, (count - 1) as nat, depth);
    }
}

proof fn lemma_tag_fields_stay(bytes: Seq<u8>, more: Seq<u8>, pos: int, parts: TagParts)
    requires
        tag_fields(bytes, pos, parts) is Some,
    ensures
        tag_fields(bytes + more, pos, parts) == tag_fields(bytes, pos, parts),
    decreases bytes.len() - pos,
{
    let all = bytes + more;
    if bytes[pos] != T_STOP {
        let ttype = bytes[pos];
        lemma_heads_stay(bytes, more, pos + 1);
        lemma_heads_stay(bytes, more, pos + 3);
        let id = i16_at(bytes, pos + 1)->Some_0;
        if other_field(bytes, pos + 3, ttype) is Some {
            lemma_skip_value_stays(bytes, more, pos + 3, ttype, SKIP_DEPTH as nat);
        }
        assert(tag_field(all, pos + 3, ttype, id, parts) == tag_field(
            bytes,
            pos + 3,
            ttype,
            id,
            parts,
        ));
        let (further, next) = tag_field(bytes, pos + 3, ttype, id, parts)->Some_0;
        lemma_tag_fields_stay(bytes, more, next, further);
    }
}

proof fn lemma_tags_stay(bytes: Seq<u8>, more: Seq<u8>, pos: int, left: nat, read: Seq<TagView>)
    requires
        tags_from(bytes, pos, left, read) is Some,
    ensures
        tags_from(bytes + more, pos, left, read) == tags_from(bytes, pos, left, read),
    decreases left,
{
    if left > 0 {
        lemma_tag_fields_stay(bytes, more, pos, no_tag_parts());
        let (tag, next) = tag_at(bytes, pos)->Some_0;
        lemma_tags_stay(bytes, more, next, (left - 1) as nat, read.push(tag));
    }
}

proof fn lemma_span_fields_stay(bytes: Seq<u8>, more: Seq<u8>, pos: int, parts: SpanParts)
    requires
        span_fields(bytes, pos, parts) is Some,
    ensures
        span_fields(bytes + more, pos, parts) == span_fields(bytes, pos, parts),
    decreases bytes.len() - pos,
{
    let all = bytes + more;
    if bytes[pos] != T_STOP {
        let ttype = bytes[pos];
        lemma_heads_stay(bytes, more, pos + 1);
        lemma_heads_stay(bytes, more, pos + 3);
        let id = i16_at(bytes, pos + 1)->Some_0;
        if id == 10 && ttype == T_LIST {
            let (of, count) = list_head_at(bytes, pos + 3)->Some_0;
            lemma_tags_stay(bytes, more, pos + 8, count, Seq::empty());
        } else if other_field(bytes, pos + 3, ttype) is Some {
            lemma_skip_value_stays(bytes, more, pos + 3, ttype, SKIP_DEPTH as nat);
        }
        assert(span_field(all, pos + 3, ttype, id, parts) == span_field(
            bytes,
            pos + 3,
            ttype,
            id,
            parts,
        ));
        let (further, next) = span_field(bytes, pos + 3, ttype, id, parts)->Some_0;
        lemma_span_fields_stay(bytes, more, next, further);
    }
}

proof fn lemma_spans_stay(bytes: Seq<u8>, more: Seq<u8>, pos: int, left: nat, read: Seq<SpanView>)
    requires
        spans_from(bytes, pos, left, read) is Some,
    ensures
        spans_from(bytes + more, pos, left, read) == spans_from(bytes, pos, left, read),
    decreases left,
{
    if left > 0 {
        lemma_span_fields_stay(bytes, more, pos, no_span_parts());
        let (span, next) = span_at(bytes, pos)->Some_0;
        lemma_spans_stay(bytes, more, next, (left - 1) as nat, read.push(span));
    }
}

proof fn lemma_process_fields_stay(
    bytes: Seq<u8>,
    more: Seq<u8>,
    pos: int,
    name: Option<Seq<char>>,
)
    requires
        process_fields(bytes, pos, name) is Some,
    ensures
        process_fields(bytes + more, pos, name) == process_fields(bytes, pos, name),
    decreases bytes.len() - pos,
{
    if bytes[pos] != T_STOP {
        let ttype = bytes[pos];
        lemma_heads_stay(bytes, more, pos + 1);
        lemma_heads_stay(bytes, more, pos + 3);
        let id = i16_at(bytes, pos + 1)->Some_0;
        if id == 1 && ttype == T_STRING {
            let (s, next) = string_at(bytes, pos + 3)->Some_0;
            lemma_process_fields_stay(bytes, more, next, Some(s));
        } else {
            lemma_skip_value_stays(bytes, more, pos + 3, ttype, SKIP_DEPTH as nat);
            let next = other_field(bytes, pos + 3, ttype)->Some_0;
            lemma_process_fields_stay(bytes, more, next, name);
        }
    }
}

proof fn lemma_batch_fields_stay(bytes: Seq<u8>, more: Seq<u8>, pos: int, parts: BatchParts)
    requires
        batch_fields(bytes, pos, parts) is Some,
    ensures
        batch_fields(bytes + more, pos, parts) == batch_fields(bytes, pos, parts),
    decreases bytes.len() - pos,
{
    let all = bytes + more;
    if bytes[pos] != T_STOP {
        let ttype = bytes[pos];
        lemma_heads_stay(bytes, more, pos + 1);
        lemma_heads_stay(bytes, more, pos + 3);
        let id = i16_at(bytes, pos + 1)->Some_0;
        if id == 1 && ttype == T_STRUCT {
            lemma_process_fields_stay(bytes, more, pos + 3, None);
        } else if id == 2 && ttype == T_LIST {
            let (of, count) = list_head_at(bytes, pos + 3)->Some_0;
            lemma_spans_stay(bytes, more, pos + 8, count, Seq::empty());
        } else {
            lemma_skip_value_stays(bytes, more, pos + 3, ttype, SKIP_DEPTH as nat);
        }
        assert(batch_field(all, pos + 3, ttype, id, parts) == batch_field(
            bytes,
            pos + 3,
            ttype,
            id,
            parts,
        ));
        let (further, next) = batch_field(bytes, pos + 3, ttype, id, parts)->Some_0;
        lemma_batch_fields_stay(bytes, more, next, further);
    }
}

/// What follows a batch is not looked at: bytes that start with a batch
/// still start with the same batch when more bytes are put behind them.
pub proof fn lemma_batch_ignores_what_follows(bytes: Seq<u8>, more: Seq<u8>)
    requires
        batch_of(bytes) is Some,
    ensures
        batch_of(bytes + more) == batch_of(bytes),
{
    lemma_batch_fields_stay(bytes, more, 0, BatchParts { service_name: None, spans: None });
}

spec fn text_of(text: Option<String>) -> Option<Seq<char>> {
    match text {
        Some(s) => Some(s@),
        None => None,
    }
}

spec fn blob_of(blob: Option<Vec<u8>>) -> Option<Seq<u8>> {
    match blob {
        Some(b) => Some(b@),
        None => None,
    }
}

spec fn tags_of(tags: Option<Vec<Tag>>) -> Option<Seq<TagView>> {
    match tags {
        Some(t) => Some(tags_view(t@)),
        None => None,
    }
}

spec fn spans_of(spans: Option<Vec<Span>>) -> Option<Seq<SpanView>> {
    match spans {
        Some(s) => Some(spans_view(s@)),
        None => None,
    }
}

#[verifier::loop_isolation(false)]
fn read_tag(bytes: &[u8], pos: usize) -> (read: Option<(Tag, usize)>)
    ensures
        match read {
            Some((tag, next)) => tag_at(bytes@, pos as int) == Some((tag@, next as int)) && pos
                < next <= bytes.len(),
            None => tag_at(bytes@, pos as int) is None,
        },
{
    let mut key: Option<String> = None;
    let mut v_type: Option<i32> = None;
    let mut v_str: Option<String> = None;
    let mut v_double: Option<u64> = None;
    let mut v_bool: Option<bool> = None;
    let mut v_long: Option<i64> = None;
    let mut v_binary: Option<Vec<u8>> = None;
    let mut at = pos;
    loop
        invariant
            pos <= at,
            tag_fields(bytes@, pos as int, no_tag_parts()) == tag_fields(
                bytes@,
                at as int,
                TagParts {
                    key: text_of(key),
                    v_type,
                    v_str: text_of(v_str),
                    v_double,
                    v_bool,
                    v_long,
                    v_binary: blob_of(v_binary),
                },
            ),
        decreases bytes.len() - at,
    {
        if !in_reach(bytes, at, 1) {
            return None;
        }
        let ttype = bytes[at];
        if ttype == T_STOP {
            return match (key, v_type) {
                (Some(key), Some(v_type)) => Some(
                    (Tag { key, v_type, v_str, v_double, v_bool, v_long, v_binary }, at + 1),
                ),
                _ => None,
            };
        }
        let id = match read_i16(bytes, at + 1) {
            Some(id) => id,
            None => {
                return None;
            },
        };
        let from = at + 3;
        if id == 1 && ttype == T_STRING {
            match read_string(bytes, from) {
                Some((s, next)) => {
                    key = Some(s);
                    at = next;
                },
                None => {
                    return None;
                },
            }
        } else if id == 2 && ttype == T_I32 {
            match read_i32(bytes, from) {
                Some(n) => {
                    v_type = Some(n);
                    at = from + 4;
                },
                None => {
                    return None;
                },
            }
        } else if id == 3 && ttype == T_STRING {
            match read_string(bytes, from) {
                Some((s, next)) => {
                    v_str = Some(s);
                    at = next;
                },
                None => {
                    return None;
                },
            }
        } else if id == 4 && ttype == T_DOUBLE {
            match read_u64(bytes, from) {
                Some(bits) => {
                    v_double = Some(bits);
                    at = from + 8;
                },
                None => {
                    return None;
                },
            }
        } else if id == 5 && ttype == T_BOOL {
            if in_reach(bytes, from, 1) {
                v_bool = Some(bytes[from] != 0);
                at = from + 1;
            } else {
                return None;
            }
        } else if id == 6 && ttype == T_I64 {
            match read_i64(bytes, from) {
                Some(n) => {
                    v_long = Some(n);
                    at = from + 8;
                },
                None => {
                    return None;
                },
            }
        } else if id == 7 && ttype == T_STRING {
            match read_blob(bytes, from) {
                Some((raw, next)) => {
                    v_binary = Some(raw);
                    at = next;
                },
                None => {
                    return None;
                },
            }
        } else {
            match skip(bytes, from, ttype, SKIP_DEPTH) {
                Some(next) => {
                    at = next;
                },
                None => {
                    return None;
                },
            }
        }
    }
}

#[verifier::loop_isolation(false)]
fn read_tag_list(bytes: &[u8], pos: usize) -> (read: Option<(Vec<Tag>, usize)>)
    ensures
        match read {
            Some((tags, next)) => tag_list_at(bytes@, pos as int) == Some(
                (tags_view(tags@), next as int),
            ) && pos < next <= bytes.len(),
            None => tag_list_at(bytes@, pos as int) is None,
        },
{
    let (of, count) = match read_list_head(bytes, pos) {
        Some(head) => head,
        None => {
            return None;
        },
    };
    if of != T_STRUCT {
        return None;
    }
    let mut tags: Vec<Tag> = Vec::new();
    let mut at = pos + 5;
    let mut left = count;
    assert(tags_view(tags@) =~= Seq::<TagView>::empty());
    while left > 0
        invariant
            pos + 5 <= at <= bytes.len(),
            tags_from(bytes@, pos + 5, count as nat, Seq::empty()) == tags_from(
                bytes@,
                at as int,
                left as nat,
                tags_view(tags@),
            ),
        decreases left,
    {
        match read_tag(bytes, at) {
            Some((tag, next)) => {
                let ghost before = tags_view(tags@);
                tags.push(tag);
                assert(tags_view(tags@) =~= before.push(tag@));
                at = next;
                left -= 1;
            },
            None => {
                return None;
            },
        }
    }
    Some((tags, at))
}

#[verifier::loop_isolation(false)]
fn read_span(bytes: &[u8], pos: usize) -> (read: Option<(Span, usize)>)
    ensures
        match read {
            Some((span, next)) => span_at(bytes@, pos as int) == Some((span@, next as int)) && pos
                < next <= bytes.len(),
            None => span_at(bytes@, pos as int) is None,
        },
{
    let mut trace_id_low: Option<i64> = None;
    let mut trace_id_high: Option<i64> = None;
    let mut span_id: Option<i64> = None;
    let mut parent_span_id: Option<i64> = None;
    let mut operation_name: Option<String> = None;
    let mut tags: Option<Vec<Tag>> = None;
    let mut at = pos;
    loop
        invariant
            pos <= at,
            span_fields(bytes@, pos as int, no_span_parts()) == span_fields(
                bytes@,
                at as int,
                SpanParts {
                    trace_id_low,
                    trace_id_high,
                    span_id,
                    parent_span_id,
                    operation_name: text_of(operation_name),
                    tags: tags_of(tags),
                },
            ),
        decreases bytes.len() - at,
    {
        if !in_reach(bytes, at, 1) {
            return None;
        }
        let ttype = bytes[at];
        if ttype == T_STOP {
            return match (trace_id_low, trace_id_high, span_id, parent_span_id, operation_name) {
                (
                    Some(trace_id_low),
                    Some(trace_id_high),
                    Some(span_id),
                    Some(parent_span_id),
                    Some(operation_name),
                ) => Some(
                    (
                        Span {
                            trace_id_low,
                            trace_id_high,
                            span_id,
                            parent_span_id,
                            operation_name,
                            tags,
                        },
                        at + 1,
                    ),
                ),
                _ => None,
            };
        }
        let id = match read_i16(bytes, at + 1) {
            Some(id) => id,
            None => {
                return None;
            },
        };
        let from = at + 3;
        if 1 <= id && id <= 4 && ttype == T_I64 {
            match read_i64(bytes, from) {
                Some(n) => {
                    if id == 1 {
                        trace_id_low = Some(n);
                    } else if id == 2 {
                        trace_id_high = Some(n);
                    } else if id == 3 {
                        span_id = Some(n);
                    } else {
                        parent_span_id = Some(n);
                    }
                    at = from + 8;
                },
                None => {
                    return None;
                },
            }
        } else if id == 5 && ttype == T_STRING {
            match read_string(bytes, from) {
                Some((s, next)) => {
                    operation_name = Some(s);
                    at = next;
                },
                None => {
                    return None;
                },
            }
        } else if id == 10 && ttype == T_LIST {
            match read_tag_list(bytes, from) {
                Some((list, next)) => {
                    tags = Some(list);
                    at = next;
                },
                None => {
                    return None;
                },
            }
        } else {
            match skip(bytes, from, ttype, SKIP_DEPTH) {
                Some(next) => {
                    at = next;
                },
                None => {
                    return None;
                },
            }
        }
    }
}

#[verifier::loop_isolation(false)]
fn read_span_list(bytes: &[u8], pos: usize) -> (read: Option<(Vec<Span>, usize)>)
    ensures
        match read {
            Some((spans, next)) => span_list_at(bytes@, pos as int) == Some(
                (spans_view(spans@), next as int),
            ) && pos < next <= bytes.len(),
            None => span_list_at(bytes@, pos as int) is None,
        },
{
    let (of, count) = match read_list_head(bytes, pos) {
        Some(head) => head,
        None => {
            return None;
        },
    };
    if of != T_STRUCT {
        return None;
    }
    let mut spans: Vec<Span> = Vec::new();
    let mut at = pos + 5;
    let mut left = count;
    assert(spans_view(spans@) =~= Seq::<SpanView>::empty());
    while left > 0
        invariant
            pos + 5 <= at <= bytes.len(),
            spans_from(bytes@, pos + 5, count as nat, Seq::empty()) == spans_from(
                bytes@,
                at as int,
                left as nat,
                spans_view(spans@),
            ),
        decreases left,
    {
        match read_span(bytes, at) {
            Some((span, next)) => {
                let ghost before = spans_view(spans@);
                spans.push(span);
                assert(spans_view(spans@) =~= before.push(span@));
                at = next;
                left -= 1;
            },
            None => {
                return None;
            },
        }
    }
    Some((spans, at))
}

#[verifier::loop_isolation(false)]
fn read_process(bytes: &[u8], pos: usize) -> (read: Option<(String, usize)>)
    ensures
        match read {
            Some((name, next)) => process_at(bytes@, pos as int) == Some((name@, next as int))
                && pos < next <= bytes.len(),
            None => process_at(bytes@, pos as int) is None,
        },
{
    let mut name: Option<String> = None;
    let mut at = pos;
    loop
        invariant
            pos <= at,
            process_fields(bytes@, pos as int, None) == process_fields(
                bytes@,
                at as int,
                text_of(name),
            ),
        decreases bytes.len() - at,
    {
        if !in_reach(bytes, at, 1) {
            return None;
        }
        let ttype = bytes[at];
        if ttype == T_STOP {
            return match name {
                Some(name) => Some((name, at + 1)),
                None => None,
            };
        }
        let id = match read_i16(bytes, at + 1) {
            Some(id) => id,
            None => {
                return None;
            },
        };
        let from = at + 3;
        if id == 1 && ttype == T_STRING {
            match read_string(bytes, from) {
                Some((s, next)) => {
                    name = Some(s);
                    at = next;
                },
                None => {
                    return None;
                },
            }
        } else {
            match skip(bytes, from, ttype, SKIP_DEPTH) {
                Some(next) => {
                    at = next;
                },
                None => {
                    return None;
                },
            }
        }
    }
}

/// Reads the batch that `bytes` start with. Nothing is returned of a batch
/// that cannot be read to its end.
#[verifier::loop_isolation(false)]
pub fn decode_batch(bytes: &[u8]) -> (result: Result<Batch, DecodeError>)
    ensures
        match result {
            Ok(batch) => batch_of(bytes@) == Some(batch@),
            Err(e) => batch_of(bytes@) is None,
        },
{
    let mut service_name: Option<String> = None;
    let mut spans: Option<Vec<Span>> = None;
    let mut at: usize = 0;
    loop
        invariant
            batch_fields(bytes@, 0, BatchParts { service_name: None, spans: None })
                == batch_fields(
                bytes@,
                at as int,
                BatchParts { service_name: text_of(service_name), spans: spans_of(spans) },
            ),
        decreases bytes.len() - at,
    {
        if !in_reach(bytes, at, 1) {
            return Err(DecodeError);
        }
        let ttype = bytes[at];
        if ttype == T_STOP {
            return match (service_name, spans) {
                (Some(service_name), Some(spans)) => Ok(Batch { service_name, spans }),
                _ => Err(DecodeError),
            };
        }
        let id = match read_i16(bytes, at + 1) {
            Some(id) => id,
            None => {
                return Err(DecodeError);
            },
        };
        let from = at + 3;
        if id == 1 && ttype == T_STRUCT {
            match read_process(bytes, from) {
                Some((name, next)) => {
                    service_name = Some(name);
                    at = next;
                },
                None => {
                    return Err(DecodeError);
                },
            }
        } else if id == 2 && ttype == T_LIST {
            match read_span_list(bytes, from) {
                Some((list, next)) => {
                    spans = Some(list);
                    at = next;
                },
                None => {
                    return Err(DecodeError);
                },
            }
        } else {
            match skip(bytes, from, ttype, SKIP_DEPTH) {
                Some(next) => {
                    at = next;
                },
                None => {
                    return Err(DecodeError);
                },
            }
        }
    }
}

} // verus!
