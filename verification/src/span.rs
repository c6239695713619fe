//! Spans, tags and batches, and what can be read off a single span.

use crate::text::hex_digit;
use crate::text::hex_digit_str;
use crate::text::push_signed_decimal;
use crate::text::signed_decimal;
use vstd::prelude::*;

verus! {

/// Declared type code of a tag whose value is a string.
pub const TAG_TYPE_STRING: i32 = 0;

/// Declared type code of a tag whose value is a 64-bit float.
pub const TAG_TYPE_DOUBLE: i32 = 1;

/// Declared type code of a tag whose value is a boolean.
pub const TAG_TYPE_BOOL: i32 = 2;

/// Declared type code of a tag whose value is a signed 64-bit integer.
pub const TAG_TYPE_LONG: i32 = 3;

/// Declared type code of a tag whose value is a byte string.
pub const TAG_TYPE_BINARY: i32 = 4;

/// A typed key/value annotation as it arrives on the wire: a declared type
/// code and one optional slot per type.
///
/// The float slot holds the IEEE 754 bit pattern of the value, so that a tag
/// is made of integers, booleans, strings and bytes only.
#[derive(Debug, PartialEq, Eq)]
pub struct Tag {
    pub key: String,
    pub v_type: i32,
    pub v_str: Option<String>,
    pub v_double: Option<u64>,
    pub v_bool: Option<bool>,
    pub v_long: Option<i64>,
    pub v_binary: Option<Vec<u8>>,
}

/// The mathematical content of a [`Tag`].
pub struct TagView {
    pub key: Seq<char>,
    pub v_type: i32,
    pub v_str: Option<Seq<char>>,
    pub v_double: Option<u64>,
    pub v_bool: Option<bool>,
    pub v_long: Option<i64>,
    pub v_binary: Option<Seq<u8>>,
}

impl View for Tag {
    type V = TagView;

    open spec fn view(&self) -> TagView {
        TagView {
            key: self.key@,
            v_type: self.v_type,
            v_str: match self.v_str {
                Some(s) => Some(s@),
                None => None,
            },
            v_double: self.v_double,
            v_bool: self.v_bool,
            v_long: self.v_long,
            v_binary: match self.v_binary {
                Some(b) => Some(b@),
                None => None,
            },
        }
    }
}

/// The value a tag carries, once its declared type has been resolved.
/// `Double` holds the IEEE 754 bit pattern of the float.
#[derive(Debug, PartialEq)]
pub enum TagValue<'t> {
    String(&'t str),
    Double(u64),
    Bool(bool),
    Long(i64),
    Binary(&'t Vec<u8>),
}

/// The mathematical content of a [`TagValue`].
pub enum TagValueView {
    String(Seq<char>),
    Double(u64),
    Bool(bool),
    Long(i64),
    Binary(Seq<u8>),
}

impl<'t> View for TagValue<'t> {
    type V = TagValueView;

    open spec fn view(&self) -> TagValueView {
        match *self {
            TagValue::String(s) => TagValueView::String(s@),
            TagValue::Double(bits) => TagValueView::Double(bits),
            TagValue::Bool(b) => TagValueView::Bool(b),
            TagValue::Long(n) => TagValueView::Long(n),
            TagValue::Binary(b) => TagValueView::Binary(b@),
        }
    }
}

/// Why a tag has no value.
#[derive(Debug, Clone, Copy, PartialEq, Eq, Structural)]
pub enum TagTypeError {
    /// The slot that belongs to the declared type, whose code is given, is empty.
    MissingValue(i32),
    /// The declared type code, which is given, is none of the five known ones.
    UnknownType(i32),
}

/// The name of the type with the code `v_type`, which is one of the five
/// known ones.
pub open spec fn tag_type_name(v_type: i32) -> Seq<char> {
    if v_type == TAG_TYPE_STRING {
        "string"@
    } else if v_type == TAG_TYPE_DOUBLE {
        "double"@
    } else if v_type == TAG_TYPE_BOOL {
        "bool"@
    } else if v_type == TAG_TYPE_LONG {
        "long"@
    } else {
        "binary"@
    }
}

/// The sentence that says what is wrong with a tag.
pub open spec fn tag_error_message(error: TagTypeError) -> Seq<char> {
    match error {
        TagTypeError::MissingValue(v_type) => "Tag type was "@ + tag_type_name(v_type)
            + " but no value was found"@,
        TagTypeError::UnknownType(v_type) => "Unknown tag type: "@ + signed_decimal(v_type as int),
    }
}

impl TagTypeError {
    /// A sentence that says what is wrong with the tag; for a type code that
    /// is not known it ends with the code.
    pub fn message(&self) -> (text: String)
        ensures
            text@ == tag_error_message(*self),
    {
        match *self {
            TagTypeError::MissingValue(v_type) => {
                let name = if v_type == TAG_TYPE_STRING {
                    "string"
                } else if v_type == TAG_TYPE_DOUBLE {
                    "double"
                } else if v_type == TAG_TYPE_BOOL {
                    "bool"
                } else if v_type == TAG_TYPE_LONG {
                    "long"
                } else {
                    "binary"
                };
                String::from_str("Tag type was ").concat(name).concat(" but no value was found")
            },
            TagTypeError::UnknownType(v_type) => {
                let mut text = String::from_str("Unknown tag type: ");
                push_signed_decimal(&mut text, v_type as i64);
                text
            },
        }
    }
}

/// The value of the slot that `v_type` selects, or the reason there is none.
pub open spec fn tag_value(tag: TagView) -> Result<TagValueView, TagTypeError> {
    if tag.v_type == TAG_TYPE_STRING {
        match tag.v_str {
            Some(s) => Ok(TagValueView::String(s)),
            None => Err(TagTypeError::MissingValue(tag.v_type)),
        }
    } else if tag.v_type == TAG_TYPE_DOUBLE {
        match tag.v_double {
            Some(bits) => Ok(TagValueView::Double(bits)),
            None => Err(TagTypeError::MissingValue(tag.v_type)),
        }
    } else if tag.v_type == TAG_TYPE_BOOL {
        match tag.v_bool {
            Some(b) => Ok(TagValueView::Bool(b)),
            None => Err(TagTypeError::MissingValue(tag.v_type)),
        }
    } else if tag.v_type == TAG_TYPE_LONG {
        match tag.v_long {
            Some(n) => Ok(TagValueView::Long(n)),
            None => Err(TagTypeError::MissingValue(tag.v_type)),
        }
    } else if tag.v_type == TAG_TYPE_BINARY {
        match tag.v_binary {
            Some(b) => Ok(TagValueView::Binary(b)),
            None => Err(TagTypeError::MissingValue(tag.v_type)),
        }
    } else {
        Err(TagTypeError::UnknownType(tag.v_type))
    }
}

/// How many of the five value slots are filled.
pub open spec fn filled_slots(tag: TagView) -> int {
    (if tag.v_str is Some { 1int } else { 0 }) + (if tag.v_double is Some { 1int } else { 0 }) + (
    if tag.v_bool is Some { 1int } else { 0 }) + (if tag.v_long is Some { 1int } else { 0 }) + (
    if tag.v_binary is Some { 1int } else { 0 })
}

/// A tag is well formed when exactly one slot is filled and it is the one
/// that the declared type selects.
pub open spec fn tag_well_formed(tag: TagView) -> bool {
    filled_slots(tag) == 1 && tag_value(tag) is Ok
}

impl Tag {
    /// Resolves the declared type into the value of the matching slot.
    pub fn value(&self) -> (result: Result<TagValue<'_>, TagTypeError>)
        ensures
            match result {
                Ok(v) => tag_value(self@) == Ok::<TagValueView, TagTypeError>(v@),
                Err(e) => tag_value(self@) == Err::<TagValueView, TagTypeError>(e),
            },
    {
        if self.v_type == TAG_TYPE_BINARY {
            match &self.v_binary {
                Some(b) => Ok(TagValue::Binary(b)),
                None => Err(TagTypeError::MissingValue(self.v_type)),
            }
        } else if self.v_type == TAG_TYPE_BOOL {
            match self.v_bool {
                Some(b) => Ok(TagValue::Bool(b)),
                None => Err(TagTypeError::MissingValue(self.v_type)),
            }
        } else if self.v_type == TAG_TYPE_DOUBLE {
            match self.v_double {
                Some(bits) => Ok(TagValue::Double(bits)),
                None => Err(TagTypeError::MissingValue(self.v_type)),
            }
        } else if self.v_type == TAG_TYPE_LONG {
            match self.v_long {
                Some(n) => Ok(TagValue::Long(n)),
                None => Err(TagTypeError::MissingValue(self.v_type)),
            }
        } else if self.v_type == TAG_TYPE_STRING {
            match &self.v_str {
                Some(s) => Ok(TagValue::String(s.as_str())),
                None => Err(TagTypeError::MissingValue(self.v_type)),
            }
        } else {
            Err(TagTypeError::UnknownType(self.v_type))
        }
    }

    /// Whether exactly one slot is filled, the one of the declared type.
    pub fn is_well_formed(&self) -> (ok: bool)
        ensures
            ok == tag_well_formed(self@),
    {
        let filled: u8 = (if self.v_str.is_some() { 1u8 } else { 0u8 }) + (if self.v_double.is_some() {
            1u8
        } else {
            0u8
        }) + (if self.v_bool.is_some() { 1u8 } else { 0u8 }) + (if self.v_long.is_some() {
            1u8
        } else {
            0u8
        }) + (if self.v_binary.is_some() { 1u8 } else { 0u8 });
        filled == 1 && self.value().is_ok()
    }
}

impl Clone for Tag {
    fn clone(&self) -> (copy: Tag)
        ensures
            copy@ == self@,
    {
        Tag {
            key: self.key.clone(),
            v_type: self.v_type,
            v_str: match &self.v_str {
                Some(s) => Some(s.clone()),
                None => None,
            },
            v_double: self.v_double,
            v_bool: self.v_bool,
            v_long: self.v_long,
            v_binary: match &self.v_binary {
                Some(b) => Some(b.clone()),
                None => None,
            },
        }
    }
}

/// Every well-formed tag has a value, and the value is of the declared type.
pub proof fn lemma_well_formed_tag_has_value(tag: TagView)
    requires
        tag_well_formed(tag),
    ensures
        tag_value(tag) is Ok,
        tag.v_type == TAG_TYPE_STRING <==> tag_value(tag)->Ok_0 is String,
        tag.v_type == TAG_TYPE_DOUBLE <==> tag_value(tag)->Ok_0 is Double,
        tag.v_type == TAG_TYPE_BOOL <==> tag_value(tag)->Ok_0 is Bool,
        tag.v_type == TAG_TYPE_LONG <==> tag_value(tag)->Ok_0 is Long,
        tag.v_type == TAG_TYPE_BINARY <==> tag_value(tag)->Ok_0 is Binary,
{
}

/// One finished operation of a trace. A `parent_span_id` of `0` marks a span
/// without parent.
#[derive(Debug, PartialEq, Eq)]
pub struct Span {
    pub trace_id_low: i64,
    pub trace_id_high: i64,
    pub span_id: i64,
    pub parent_span_id: i64,
    pub operation_name: String,
    pub tags: Option<Vec<Tag>>,
}

/// The mathematical content of a [`Span`].
pub struct SpanView {
    pub trace_id_low: i64,
    pub trace_id_high: i64,
    pub span_id: i64,
    pub parent_span_id: i64,
    pub operation_name: Seq<char>,
    pub tags: Option<Seq<TagView>>,
}

/// The contents of a list of tags.
pub open spec fn tags_view(tags: Seq<Tag>) -> Seq<TagView> {
    Seq::new(tags.len(), |i: int| tags[i]@)
}

impl View for Span {
    type V = SpanView;

    open spec fn view(&self) -> SpanView {
        SpanView {
            trace_id_low: self.trace_id_low,
            trace_id_high: self.trace_id_high,
            span_id: self.span_id,
            parent_span_id: self.parent_span_id,
            operation_name: self.operation_name@,
            tags: match self.tags {
                Some(tags) => Some(tags_view(tags@)),
                None => None,
            },
        }
    }
}

/// The contents of a list of spans.
pub open spec fn spans_view(spans: Seq<Span>) -> Seq<SpanView> {
    Seq::new(spans.len(), |i: int| spans[i]@)
}

/// The sixteen hexadecimal digits of a 64-bit word, most significant first.
pub open spec fn hex16(word: u64) -> Seq<char> {
    Seq::new(16, |i: int| hex_digit((word >> ((60 - 4 * i) as u64)) & 0xf))
}

/// The 32 hexadecimal digits that name the trace of a span: the high half of
/// the identifier, then the low half, each taken as an unsigned word.
pub open spec fn hex_trace_id(span: SpanView) -> Seq<char> {
    hex16(span.trace_id_high as u64) + hex16(span.trace_id_low as u64)
}

/// `index` is the place of the first tag in `tags` whose key is `key`.
pub open spec fn is_first_tag_with_key(tags: Seq<TagView>, key: Seq<char>, index: int) -> bool {
    &&& 0 <= index < tags.len()
    &&& tags[index].key == key
    &&& forall|j: int| 0 <= j < index ==> (#[trigger] tags[j]).key != key
}

fn push_hex16(out: &mut String, word: u64)
    ensures
        final(out)@ == old(out)@ + hex16(word),
{
    let mut i: u64 = 0;
    while i < 16
        invariant
            i <= 16,
            out@ == old(out)@ + hex16(word).take(i as int),
        decreases 16 - i,
    {
        let nibble = (word >> (60 - 4 * i)) & 0xf;
        out.append(hex_digit_str(nibble));
        proof {
            assert(hex16(word).take(i as int + 1) =~= hex16(word).take(i as int).push(
                hex16(word)[i as int],
            ));
        }
        i += 1;
    }
}

impl Span {
    /// The first tag of the span whose key is `key`, if there is one.
    pub fn get_tag(&self, key: &str) -> (found: Option<&Tag>)
        ensures
            match found {
                Some(tag) => self@.tags is Some && exists|i: int|
                    is_first_tag_with_key(self@.tags->Some_0, key@, i) && self.tags->Some_0@[i]
                        == *tag,
                None => self@.tags matches Some(tags) ==> forall|i: int|
                    0 <= i < tags.len() ==> (#[trigger] tags[i]).key != key@,
            },
    {
        match &self.tags {
            None => None,
            Some(tags) => {
                let wanted = key.to_owned();
                let mut i: usize = 0;
                while i < tags.len()
                    invariant
                        i <= tags.len(),
                        wanted@ == key@,
                        self.tags == Some(*tags),
                        forall|j: int| 0 <= j < i ==> (#[trigger] tags_view(tags@)[j]).key != key@,
                    decreases tags.len() - i,
                {
                    if tags[i].key == wanted {
                        return Some(&tags[i]);
                    }
                    i += 1;
                }
                None
            },
        }
    }

    /// The identifier of the span's trace as 32 lower-case hexadecimal digits.
    pub fn hex_trace_id(&self) -> (id: String)
        ensures
            id@ == hex_trace_id(self@),
    {
        let mut id = String::new();
        push_hex16(&mut id, self.trace_id_high as u64);
        push_hex16(&mut id, self.trace_id_low as u64);
        id
    }
}

fn clone_tags(tags: &Vec<Tag>) -> (copy: Vec<Tag>)
    ensures
        tags_view(copy@) == tags_view(tags@),
{
    let mut copy: Vec<Tag> = Vec::new();
    let mut i: usize = 0;
    while i < tags.len()
        invariant
            i <= tags.len(),
            copy.len() == i,
            forall|j: int| 0 <= j < i ==> copy[j]@ == tags[j]@,
        decreases tags.len() - i,
    {
        copy.push(tags[i].clone());
        i += 1;
    }
    copy
}

impl Clone for Span {
    fn clone(&self) -> (copy: Span)
        ensures
            copy@ == self@,
    {
        Span {
            trace_id_low: self.trace_id_low,
            trace_id_high: self.trace_id_high,
            span_id: self.span_id,
            parent_span_id: self.parent_span_id,
            operation_name: self.operation_name.clone(),
            tags: match &self.tags {
                Some(tags) => Some(clone_tags(tags)),
                None => None,
            },
        }
    }
}

/// The spans that one reporter submitted together, under its service name.
#[derive(Debug, PartialEq, Eq)]
pub struct Batch {
    pub service_name: String,
    pub spans: Vec<Span>,
}

/// The mathematical content of a [`Batch`].
pub struct BatchView {
    pub service_name: Seq<char>,
    pub spans: Seq<SpanView>,
}

impl View for Batch {
    type V = BatchView;

    open spec fn view(&self) -> BatchView {
        BatchView { service_name: self.service_name@, spans: spans_view(self.spans@) }
    }
}

} // verus!
