//! How the fields of a message are laid out on the wire and found again.
//!
//! A field that holds its default value is left out. Of a field that occurs more
//! than once the last value counts, a list takes every value, and the parts of an
//! embedded message are read one after the other.

use vstd::prelude::*;
use vstd::utf8;

use crate::protocol::wire;
use crate::protocol::wire::{Field, FieldView, ValueView, WireValue};
use crate::text;

verus! {

/// An IEEE 754 double, held as its bit pattern.
#[derive(Clone, Copy, Debug, PartialEq, Eq, Structural)]
pub struct Float64 {
    pub bits: u64,
}

impl Float64 {
    /// Whether the number is zero, of either sign.
    pub open spec fn zero(self) -> bool {
        self.bits == 0 || self.bits == 0x8000_0000_0000_0000
    }

    /// Whether the number is zero, of either sign.
    pub fn is_zero(self) -> (zero: bool)
        ensures
            zero == self.zero(),
    {
        self.bits == 0 || self.bits == 0x8000_0000_0000_0000
    }
}

// ---------------------------------------------------------------------------
// Numbers
// ---------------------------------------------------------------------------

/// The 32-bit number that a varint stands for.
pub open spec fn low_u32(v: u64) -> u32 {
    (v % 0x1_0000_0000) as u32
}

/// The signed 32-bit number that a varint stands for.
pub open spec fn low_i32(v: u64) -> i32 {
    let low = v as int % 0x1_0000_0000;
    if low < 0x8000_0000 {
        low as i32
    } else {
        (low - 0x1_0000_0000) as i32
    }
}

/// A signed 32-bit number as a varint, in two's complement.
pub open spec fn wide_i32(x: i32) -> u64 {
    if x >= 0 {
        x as u64
    } else {
        (0x1_0000_0000_0000_0000 + x) as u64
    }
}

/// The 32-bit number that a varint stands for.
pub fn narrow_u32(v: u64) -> (x: u32)
    ensures
        x == low_u32(v),
{
    assert(v & 0xFFFF_FFFF == v % 0x1_0000_0000) by (bit_vector);
    (v & 0xFFFF_FFFF) as u32
}

/// The signed 32-bit number that a varint stands for.
pub fn narrow_i32(v: u64) -> (x: i32)
    ensures
        x == low_i32(v),
{
    let low: u32 = narrow_u32(v);
    if low < 0x8000_0000 {
        low as i32
    } else {
        (low as i64 - 0x1_0000_0000) as i32
    }
}

/// A signed 32-bit number as a varint, in two's complement.
pub fn widen_i32(x: i32) -> (v: u64)
    ensures
        v == wide_i32(x),
{
    if x >= 0 {
        x as u64
    } else {
        (x as i128 + 0x1_0000_0000_0000_0000) as u64
    }
}

/// Widening and narrowing a signed number changes nothing.
pub proof fn lemma_i32(x: i32)
    ensures
        low_i32(wide_i32(x)) == x,
        wide_i32(x) == 0 <==> x == 0,
{
}

/// How a truth value is written.
pub open spec fn flag(b: bool) -> u64 {
    if b {
        1
    } else {
        0
    }
}

/// How a truth value is written.
pub(crate) fn flag_value(b: bool) -> (v: u64)
    ensures
        v == flag(b),
{
    if b {
        1
    } else {
        0
    }
}

// ---------------------------------------------------------------------------
// Laying fields out
// ---------------------------------------------------------------------------

/// A number, left out where it is zero.
pub open spec fn varint_field(tag: u32, v: u64) -> Seq<FieldView> {
    if v == 0 {
        Seq::empty()
    } else {
        seq![FieldView { tag, value: ValueView::Varint(v) }]
    }
}

/// A double, left out where it is zero.
pub open spec fn double_field(tag: u32, v: Float64) -> Seq<FieldView> {
    if v.zero() {
        Seq::empty()
    } else {
        seq![FieldView { tag, value: ValueView::Fixed64(v.bits) }]
    }
}

/// Bytes, left out where there are none.
pub open spec fn bytes_field(tag: u32, v: Seq<u8>) -> Seq<FieldView> {
    if v.len() == 0 {
        Seq::empty()
    } else {
        seq![FieldView { tag, value: ValueView::Bytes(v) }]
    }
}

/// A text in UTF-8, left out where it is empty.
pub open spec fn text_field(tag: u32, v: Seq<char>) -> Seq<FieldView> {
    if v.len() == 0 {
        Seq::empty()
    } else {
        seq![FieldView { tag, value: ValueView::Bytes(utf8::encode_utf8(v)) }]
    }
}

/// A list of texts in UTF-8, one field for each.
pub open spec fn texts_field(tag: u32, v: Seq<Seq<char>>) -> Seq<FieldView> {
    Seq::new(v.len(), |i: int| FieldView { tag, value: ValueView::Bytes(utf8::encode_utf8(v[i])) })
}

/// An embedded message with the given fields.
pub open spec fn message_field(tag: u32, v: Seq<FieldView>) -> Seq<FieldView> {
    seq![FieldView { tag, value: ValueView::Bytes(wire::fields_bytes(v)) }]
}

/// An embedded message that may be absent.
pub open spec fn optional_field(tag: u32, v: Option<Seq<FieldView>>) -> Seq<FieldView> {
    match v {
        Some(v) => message_field(tag, v),
        None => Seq::empty(),
    }
}

// ---------------------------------------------------------------------------
// Finding fields
// ---------------------------------------------------------------------------

/// The values of the fields with tag `tag`, in order.
pub open spec fn values(fields: Seq<FieldView>, tag: u32) -> Seq<ValueView>
    decreases fields.len(),
{
    if fields.len() == 0 {
        Seq::empty()
    } else if fields.last().tag == tag {
        values(fields.drop_last(), tag).push(fields.last().value)
    } else {
        values(fields.drop_last(), tag)
    }
}

/// The number in field `tag`: the last one, zero where there is none; `None`
/// where one of them is not a number.
pub open spec fn varint_in(fields: Seq<FieldView>, tag: u32) -> Option<u64> {
    let found = values(fields, tag);
    if forall|i: int| 0 <= i < found.len() ==> (#[trigger] found[i]) is Varint {
        Some(
            if found.len() == 0 {
                0
            } else {
                found.last()->Varint_0
            },
        )
    } else {
        None
    }
}

/// The double in field `tag`.
pub open spec fn double_in(fields: Seq<FieldView>, tag: u32) -> Option<Float64> {
    let found = values(fields, tag);
    if forall|i: int| 0 <= i < found.len() ==> (#[trigger] found[i]) is Fixed64 {
        Some(
            Float64 {
                bits: if found.len() == 0 {
                    0
                } else {
                    found.last()->Fixed64_0
                },
            },
        )
    } else {
        None
    }
}

/// The bytes in field `tag`.
pub open spec fn bytes_in(fields: Seq<FieldView>, tag: u32) -> Option<Seq<u8>> {
    let found = values(fields, tag);
    if forall|i: int| 0 <= i < found.len() ==> (#[trigger] found[i]) is Bytes {
        Some(
            if found.len() == 0 {
                Seq::empty()
            } else {
                found.last()->Bytes_0
            },
        )
    } else {
        None
    }
}

/// Whether a value is a text in UTF-8.
pub open spec fn is_text(value: ValueView) -> bool {
    value is Bytes && utf8::valid_utf8(value->Bytes_0)
}

/// The list of texts in field `tag`.
pub open spec fn texts_in(fields: Seq<FieldView>, tag: u32) -> Option<Seq<Seq<char>>> {
    let found = values(fields, tag);
    if forall|i: int| 0 <= i < found.len() ==> is_text(#[trigger] found[i]) {
        Some(Seq::new(found.len(), |i: int| utf8::decode_utf8(found[i]->Bytes_0)))
    } else {
        None
    }
}

/// The text in field `tag`.
pub open spec fn text_in(fields: Seq<FieldView>, tag: u32) -> Option<Seq<char>> {
    match texts_in(fields, tag) {
        Some(list) => Some(
            if list.len() == 0 {
                Seq::empty()
            } else {
                list.last()
            },
        ),
        None => None,
    }
}

/// The fields of an embedded message that came in the given parts.
pub open spec fn parts_fields(parts: Seq<ValueView>, room: nat) -> Option<Seq<FieldView>>
    decreases parts.len(),
{
    if parts.len() == 0 {
        Some(Seq::empty())
    } else {
        match (parts_fields(parts.drop_last(), room), parts.last()) {
            (Some(before), ValueView::Bytes(part)) => match wire::read_fields(part, room) {
                Some(more) => Some(before + more),
                None => None,
            },
            _ => None,
        }
    }
}

/// The fields of the embedded message in field `tag`, if it is there; the outer
/// `None` where it cannot be read.
pub open spec fn message_in(fields: Seq<FieldView>, tag: u32, room: nat) -> Option<
    Option<Seq<FieldView>>,
> {
    let found = values(fields, tag);
    match parts_fields(found, room) {
        Some(inner) => Some(
            if found.len() == 0 {
                None
            } else {
                Some(inner)
            },
        ),
        None => None,
    }
}

// ---------------------------------------------------------------------------
// Facts about laid-out fields
// ---------------------------------------------------------------------------

/// Every field of the run can be written.
pub open spec fn all_writable(fields: Seq<FieldView>) -> bool {
    forall|i: int| 0 <= i < fields.len() ==> wire::writable(#[trigger] fields[i])
}

/// A field whose tag fits a key and whose value is of a kind that messages hold.
pub open spec fn shaped(field: FieldView) -> bool {
    &&& 1 <= field.tag <= wire::MAX_TAG
    &&& field.value is Varint || field.value is Fixed64 || field.value is Bytes
}

/// Every field of the run is of a kind that messages hold.
pub open spec fn all_shaped(fields: Seq<FieldView>) -> bool {
    forall|i: int| 0 <= i < fields.len() ==> shaped(#[trigger] fields[i])
}

/// A run of fields that takes less than 2^64 bytes can be written.
pub proof fn lemma_writable(fields: Seq<FieldView>)
    requires
        all_shaped(fields),
        wire::fields_bytes(fields).len() <= u64::MAX,
    ensures
        all_writable(fields),
{
    assert forall|i: int| 0 <= i < fields.len() implies wire::writable(#[trigger] fields[i]) by {
        wire::lemma_field_within(fields, i);
        assert(shaped(fields[i]));
    }
}

/// An embedded message that is part of a run of less than 2^64 bytes can be written.
pub proof fn lemma_message_writable(tag: u32, inner: Seq<FieldView>)
    requires
        all_shaped(inner),
        wire::fields_bytes(message_field(tag, inner)).len() <= u64::MAX,
    ensures
        all_writable(inner),
{
    wire::lemma_field_within(message_field(tag, inner), 0);
    lemma_writable(inner);
}

/// Two runs of fields of kinds that messages hold, one after the other.
pub broadcast proof fn lemma_shaped_add(a: Seq<FieldView>, b: Seq<FieldView>)
    requires
        all_shaped(a),
        all_shaped(b),
    ensures
        #[trigger] all_shaped(a + b),
{
    assert forall|i: int| 0 <= i < (a + b).len() implies shaped(#[trigger] (a + b)[i]) by {
        if i < a.len() {
            assert(shaped(a[i]));
        } else {
            assert(shaped(b[i - a.len()]));
        }
    }
}

/// Every way to lay a field out gives a kind that messages hold.
pub proof fn lemma_shaped_fields(tag: u32)
    requires
        1 <= tag <= wire::MAX_TAG,
    ensures
        forall|v: u64| all_shaped(#[trigger] varint_field(tag, v)),
        forall|v: Float64| all_shaped(#[trigger] double_field(tag, v)),
        forall|v: Seq<u8>| all_shaped(#[trigger] bytes_field(tag, v)),
        forall|v: Seq<char>| all_shaped(#[trigger] text_field(tag, v)),
        forall|v: Seq<Seq<char>>| all_shaped(#[trigger] texts_field(tag, v)),
        forall|v: Seq<FieldView>| all_shaped(#[trigger] message_field(tag, v)),
        forall|v: Option<Seq<FieldView>>| all_shaped(#[trigger] optional_field(tag, v)),
{
}

/// The values found in two runs of fields, one after the other.
pub broadcast proof fn lemma_values_add(a: Seq<FieldView>, b: Seq<FieldView>, tag: u32)
    ensures
        #[trigger] values(a + b, tag) == values(a, tag) + values(b, tag),
    decreases b.len(),
{
    if b.len() == 0 {
        assert(a + b =~= a);
        assert(values(a, tag) + values(b, tag) =~= values(a, tag));
    } else {
        lemma_values_add(a, b.drop_last(), tag);
        assert((a + b).drop_last() =~= a + b.drop_last());
        assert((a + b).last() == b.last());
        assert(values(a + b, tag) =~= values(a, tag) + values(b, tag));
    }
}

proof fn lemma_values_one(field: FieldView, tag: u32)
    ensures
        values(seq![field], tag) == if field.tag == tag {
            seq![field.value]
        } else {
            Seq::empty()
        },
{
    let one = seq![field];
    assert(values(one.drop_last(), tag) =~= Seq::empty());
    assert(values(one, tag) =~= if field.tag == tag {
        seq![field.value]
    } else {
        Seq::empty()
    });
}

/// What is found of a number.
pub broadcast proof fn lemma_varint_field(at: u32, v: u64, tag: u32)
    ensures
        #[trigger] values(varint_field(at, v), tag) == if at == tag && v != 0 {
            seq![ValueView::Varint(v)]
        } else {
            Seq::empty()
        },
{
    lemma_values_one(FieldView { tag: at, value: ValueView::Varint(v) }, tag);
}

/// What is found of a double.
pub broadcast proof fn lemma_double_field(at: u32, v: Float64, tag: u32)
    ensures
        #[trigger] values(double_field(at, v), tag) == if at == tag && !v.zero() {
            seq![ValueView::Fixed64(v.bits)]
        } else {
            Seq::empty()
        },
{
    lemma_values_one(FieldView { tag: at, value: ValueView::Fixed64(v.bits) }, tag);
}

/// What is found of bytes.
pub broadcast proof fn lemma_bytes_field(at: u32, v: Seq<u8>, tag: u32)
    ensures
        #[trigger] values(bytes_field(at, v), tag) == if at == tag && v.len() != 0 {
            seq![ValueView::Bytes(v)]
        } else {
            Seq::empty()
        },
{
    lemma_values_one(FieldView { tag: at, value: ValueView::Bytes(v) }, tag);
}

/// What is found of a text.
pub broadcast proof fn lemma_text_field(at: u32, v: Seq<char>, tag: u32)
    ensures
        #[trigger] values(text_field(at, v), tag) == if at == tag && v.len() != 0 {
            seq![ValueView::Bytes(utf8::encode_utf8(v))]
        } else {
            Seq::empty()
        },
{
    lemma_values_one(FieldView { tag: at, value: ValueView::Bytes(utf8::encode_utf8(v)) }, tag);
}

/// What is found of a list of texts.
pub broadcast proof fn lemma_texts_field(at: u32, v: Seq<Seq<char>>, tag: u32)
    ensures
        #[trigger] values(texts_field(at, v), tag) == if at == tag {
            Seq::new(v.len(), |i: int| ValueView::Bytes(utf8::encode_utf8(v[i])))
        } else {
            Seq::empty()
        },
    decreases v.len(),
{
    let all = texts_field(at, v);
    if v.len() > 0 {
        lemma_texts_field(at, v.drop_last(), tag);
        assert(all.drop_last() =~= texts_field(at, v.drop_last()));
        assert(all.last().value == ValueView::Bytes(utf8::encode_utf8(v.last())));
    }
    assert(values(all, tag) =~= if at == tag {
        Seq::new(v.len(), |i: int| ValueView::Bytes(utf8::encode_utf8(v[i])))
    } else {
        Seq::empty()
    });
}

/// What is found of an embedded message.
pub broadcast proof fn lemma_message_field(at: u32, v: Seq<FieldView>, tag: u32)
    ensures
        #[trigger] values(message_field(at, v), tag) == if at == tag {
            seq![ValueView::Bytes(wire::fields_bytes(v))]
        } else {
            Seq::empty()
        },
{
    lemma_values_one(FieldView { tag: at, value: ValueView::Bytes(wire::fields_bytes(v)) }, tag);
}

/// What is found of an embedded message that may be absent.
pub broadcast proof fn lemma_optional_field(at: u32, v: Option<Seq<FieldView>>, tag: u32)
    ensures
        #[trigger] values(optional_field(at, v), tag) == match v {
            Some(v) => values(message_field(at, v), tag),
            None => Seq::empty(),
        },
{
}

/// What the laid-out fields of a message hold is found again.
pub broadcast group group_values {
    lemma_values_add,
    lemma_varint_field,
    lemma_double_field,
    lemma_bytes_field,
    lemma_text_field,
    lemma_texts_field,
    lemma_message_field,
    lemma_optional_field,
}

/// A number is found where exactly its field was found.
pub proof fn lemma_varint_in(fields: Seq<FieldView>, tag: u32, v: u64)
    requires
        values(fields, tag) == values(varint_field(tag, v), tag),
    ensures
        varint_in(fields, tag) == Some(v),
{
    lemma_varint_field(tag, v, tag);
}

/// A double is found where exactly its field was found, but for the sign of zero.
pub proof fn lemma_double_in(fields: Seq<FieldView>, tag: u32, v: Float64)
    requires
        values(fields, tag) == values(double_field(tag, v), tag),
        v.bits != 0x8000_0000_0000_0000,
    ensures
        double_in(fields, tag) == Some(v),
{
    lemma_double_field(tag, v, tag);
}

/// Bytes are found where exactly their field was found.
pub proof fn lemma_bytes_in(fields: Seq<FieldView>, tag: u32, v: Seq<u8>)
    requires
        values(fields, tag) == values(bytes_field(tag, v), tag),
    ensures
        bytes_in(fields, tag) == Some(v),
{
    lemma_bytes_field(tag, v, tag);
    assert(v.len() == 0 ==> v =~= Seq::empty());
}

/// A list of texts is found where exactly its fields were found.
pub proof fn lemma_texts_in(fields: Seq<FieldView>, tag: u32, v: Seq<Seq<char>>)
    requires
        values(fields, tag) == values(texts_field(tag, v), tag),
    ensures
        texts_in(fields, tag) == Some(v),
{
    lemma_texts_field(tag, v, tag);
    let found = values(fields, tag);
    assert forall|i: int| 0 <= i < found.len() implies is_text(#[trigger] found[i])
        && utf8::decode_utf8(found[i]->Bytes_0) == v[i] by {
        utf8::encode_utf8_valid_utf8(v[i]);
        utf8::encode_utf8_decode_utf8(v[i]);
    }
    assert(Seq::new(found.len(), |i: int| utf8::decode_utf8(found[i]->Bytes_0)) =~= v);
}

/// A text is found where exactly its field was found.
pub proof fn lemma_text_in(fields: Seq<FieldView>, tag: u32, v: Seq<char>)
    requires
        values(fields, tag) == values(text_field(tag, v), tag),
    ensures
        text_in(fields, tag) == Some(v),
{
    lemma_text_field(tag, v, tag);
    let list = if v.len() == 0 {
        Seq::empty()
    } else {
        seq![v]
    };
    lemma_texts_field(tag, list, tag);
    assert(values(fields, tag) =~= values(texts_field(tag, list), tag));
    lemma_texts_in(fields, tag, list);
    assert(v.len() == 0 ==> v =~= Seq::empty());
}

/// The fields of an embedded message are found where exactly its field was found.
pub proof fn lemma_message_in(
    fields: Seq<FieldView>,
    tag: u32,
    v: Option<Seq<FieldView>>,
    room: nat,
)
    requires
        values(fields, tag) == values(optional_field(tag, v), tag),
        v matches Some(inner) ==> all_writable(inner),
    ensures
        message_in(fields, tag, room) == Some(v),
{
    lemma_optional_field(tag, v, tag);
    let found = values(fields, tag);
    if let Some(inner) = v {
        lemma_message_field(tag, inner, tag);
        wire::lemma_read_fields(inner, room);
        assert(found.drop_last() =~= Seq::empty());
        assert(parts_fields(found.drop_last(), room) == Some(Seq::<FieldView>::empty()));
        assert(Seq::<FieldView>::empty() + inner =~= inner);
    }
}

// ---------------------------------------------------------------------------
// Laying fields out, executable
// ---------------------------------------------------------------------------

fn push_field(out: &mut Vec<Field>, field: Field)
    requires
        wire::writable(field@),
        all_writable(wire::field_views(old(out)@)),
    ensures
        wire::field_views(final(out)@) == wire::field_views(old(out)@) + seq![field@],
        all_writable(wire::field_views(final(out)@)),
{
    let ghost before = wire::field_views(out@);
    let ghost view = field@;
    out.push(field);
    assert(wire::field_views(out@) =~= before + seq![view]);
    assert forall|i: int| 0 <= i < wire::field_views(out@).len() implies wire::writable(
        #[trigger] wire::field_views(out@)[i],
    ) by {
        if i < before.len() {
            assert(wire::writable(before[i]));
        }
    }
}

/// Add a number, unless it is zero.
pub(crate) fn add_varint(out: &mut Vec<Field>, tag: u32, v: u64)
    requires
        1 <= tag <= wire::MAX_TAG,
        all_writable(wire::field_views(old(out)@)),
    ensures
        wire::field_views(final(out)@) == wire::field_views(old(out)@) + varint_field(tag, v),
        all_writable(wire::field_views(final(out)@)),
{
    if v != 0 {
        push_field(out, Field { tag, value: WireValue::Varint(v) });
    } else {
        assert(wire::field_views(out@) =~= wire::field_views(out@) + varint_field(tag, v));
    }
}

/// Add a double, unless it is zero.
pub(crate) fn add_double(out: &mut Vec<Field>, tag: u32, v: Float64)
    requires
        1 <= tag <= wire::MAX_TAG,
        all_writable(wire::field_views(old(out)@)),
    ensures
        wire::field_views(final(out)@) == wire::field_views(old(out)@) + double_field(tag, v),
        all_writable(wire::field_views(final(out)@)),
{
    if !v.is_zero() {
        push_field(out, Field { tag, value: WireValue::Fixed64(v.bits) });
    } else {
        assert(wire::field_views(out@) =~= wire::field_views(out@) + double_field(tag, v));
    }
}

fn copy_bytes(bytes: &[u8]) -> (copy: Vec<u8>)
    ensures
        copy@ == bytes@,
        bytes@.len() <= usize::MAX,
{
    let copy = vstd::slice::slice_to_vec(bytes);
    assert(copy@ =~= bytes@ && copy.len() == copy@.len());
    copy
}

/// Add bytes, unless there are none.
pub(crate) fn add_bytes(out: &mut Vec<Field>, tag: u32, v: &[u8])
    requires
        1 <= tag <= wire::MAX_TAG,
        all_writable(wire::field_views(old(out)@)),
    ensures
        wire::field_views(final(out)@) == wire::field_views(old(out)@) + bytes_field(tag, v@),
        all_writable(wire::field_views(final(out)@)),
{
    if v.len() != 0 {
        push_field(out, Field { tag, value: WireValue::Bytes(copy_bytes(v)) });
    } else {
        assert(wire::field_views(out@) =~= wire::field_views(out@) + bytes_field(tag, v@));
    }
}

/// Add a text, unless it is empty.
pub(crate) fn add_text(out: &mut Vec<Field>, tag: u32, v: &str)
    requires
        1 <= tag <= wire::MAX_TAG,
        all_writable(wire::field_views(old(out)@)),
    ensures
        wire::field_views(final(out)@) == wire::field_views(old(out)@) + text_field(tag, v@),
        all_writable(wire::field_views(final(out)@)),
{
    if !v.is_empty() {
        push_field(out, Field { tag, value: WireValue::Bytes(copy_bytes(v.as_bytes())) });
    } else {
        assert(wire::field_views(out@) =~= wire::field_views(out@) + text_field(tag, v@));
    }
}

/// Add every text of a list.
pub(crate) fn add_texts(out: &mut Vec<Field>, tag: u32, v: &Vec<String>)
    requires
        1 <= tag <= wire::MAX_TAG,
        all_writable(wire::field_views(old(out)@)),
    ensures
        wire::field_views(final(out)@) == wire::field_views(old(out)@) + texts_field(
            tag,
            text::texts(v@),
        ),
        all_writable(wire::field_views(final(out)@)),
{
    let ghost before = wire::field_views(out@);
    let ghost list = text::texts(v@);
    let mut i: usize = 0;
    assert(before =~= before + texts_field(tag, list.take(0)));
    while i < v.len()
        invariant
            i <= v.len(),
            list == text::texts(v@),
            1 <= tag <= wire::MAX_TAG,
            wire::field_views(out@) == before + texts_field(tag, list.take(i as int)),
            all_writable(wire::field_views(out@)),
        decreases v.len() - i,
    {
        let ghost shown = texts_field(tag, list.take(i as int));
        let text: &str = v[i].as_str();
        push_field(out, Field { tag, value: WireValue::Bytes(copy_bytes(text.as_bytes())) });
        assert(wire::field_views(out@) =~= before + texts_field(tag, list.take(i + 1)));
        i += 1;
    }
    assert(list.take(i as int) =~= list);
}

/// Add an embedded message with the given fields.
pub(crate) fn add_message(out: &mut Vec<Field>, tag: u32, v: &Vec<Field>)
    requires
        1 <= tag <= wire::MAX_TAG,
        all_writable(wire::field_views(old(out)@)),
        all_writable(wire::field_views(v@)),
    ensures
        wire::field_views(final(out)@) == wire::field_views(old(out)@) + message_field(
            tag,
            wire::field_views(v@),
        ),
        all_writable(wire::field_views(final(out)@)),
{
    proof {
        assert forall|i: int| 0 <= i < v@.len() implies wire::writable(#[trigger] v@[i]@) by {
            assert(wire::writable(wire::field_views(v@)[i]));
        }
    }
    let bytes: Vec<u8> = wire::write_fields(v);
    push_field(out, Field { tag, value: WireValue::Bytes(bytes) });
}

// ---------------------------------------------------------------------------
// Finding fields, executable
// ---------------------------------------------------------------------------

proof fn lemma_values_step(fields: Seq<Field>, i: int, tag: u32)
    requires
        0 <= i < fields.len(),
    ensures
        values(wire::field_views(fields.take(i + 1)), tag) == if fields[i].tag == tag {
            values(wire::field_views(fields.take(i)), tag).push(fields[i].value@)
        } else {
            values(wire::field_views(fields.take(i)), tag)
        },
{
    let next = wire::field_views(fields.take(i + 1));
    assert(next.drop_last() =~= wire::field_views(fields.take(i)));
}

/// The values of the fields with tag `tag`, in order.
fn matching<'a>(fields: &'a Vec<Field>, tag: u32) -> (found: Vec<&'a WireValue>)
    ensures
        found@.len() == values(wire::field_views(fields@), tag).len(),
        forall|i: int| #![trigger found@[i]]
            0 <= i < found@.len() ==> found@[i]@ == values(wire::field_views(fields@), tag)[i],
{
    let mut found: Vec<&'a WireValue> = Vec::new();
    let mut i: usize = 0;
    while i < fields.len()
        invariant
            i <= fields.len(),
            found@.len() == values(wire::field_views(fields@.take(i as int)), tag).len(),
            forall|j: int| #![trigger found@[j]]
                0 <= j < found@.len() ==> found@[j]@ == values(
                    wire::field_views(fields@.take(i as int)),
                    tag,
                )[j],
        decreases fields.len() - i,
    {
        proof {
            lemma_values_step(fields@, i as int, tag);
        }
        if fields[i].tag == tag {
            found.push(&fields[i].value);
        }
        i += 1;
    }
    assert(fields@.take(i as int) =~= fields@);
    found
}

/// The number in field `tag`.
pub(crate) fn find_varint(fields: &Vec<Field>, tag: u32) -> (v: Option<u64>)
    ensures
        v == varint_in(wire::field_views(fields@), tag),
{
    let found = matching(fields, tag);
    let ghost want = values(wire::field_views(fields@), tag);
    let mut v: u64 = 0;
    let mut i: usize = 0;
    while i < found.len()
        invariant
            i <= found.len() == want.len(),
            forall|j: int| #![trigger found@[j]] 0 <= j < found@.len() ==> found@[j]@ == want[j],
            forall|j: int| 0 <= j < i ==> (#[trigger] want[j]) is Varint,
            i == 0 ==> v == 0,
            i > 0 ==> v == want[i - 1]->Varint_0,
            want == values(wire::field_views(fields@), tag),
        decreases found.len() - i,
    {
        assert(found@[i as int]@ == want[i as int]);
        match found[i] {
            WireValue::Varint(x) => {
                v = *x;
            },
            _ => {
                return None;
            },
        }
        i += 1;
    }
    Some(v)
}

/// The double in field `tag`.
pub(crate) fn find_double(fields: &Vec<Field>, tag: u32) -> (v: Option<Float64>)
    ensures
        v == double_in(wire::field_views(fields@), tag),
{
    let found = matching(fields, tag);
    let ghost want = values(wire::field_views(fields@), tag);
    let mut v: u64 = 0;
    let mut i: usize = 0;
    while i < found.len()
        invariant
            i <= found.len() == want.len(),
            forall|j: int| #![trigger found@[j]] 0 <= j < found@.len() ==> found@[j]@ == want[j],
            forall|j: int| 0 <= j < i ==> (#[trigger] want[j]) is Fixed64,
            i == 0 ==> v == 0,
            i > 0 ==> v == want[i - 1]->Fixed64_0,
            want == values(wire::field_views(fields@), tag),
        decreases found.len() - i,
    {
        assert(found@[i as int]@ == want[i as int]);
        match found[i] {
            WireValue::Fixed64(x) => {
                v = *x;
            },
            _ => {
                return None;
            },
        }
        i += 1;
    }
    Some(Float64 { bits: v })
}

/// The bytes in field `tag`.
pub(crate) fn find_bytes(fields: &Vec<Field>, tag: u32) -> (v: Option<Vec<u8>>)
    ensures
        match v {
            Some(v) => bytes_in(wire::field_views(fields@), tag) == Some(v@),
            None => bytes_in(wire::field_views(fields@), tag) is None,
        },
{
    let found = matching(fields, tag);
    let ghost want = values(wire::field_views(fields@), tag);
    let mut v: Vec<u8> = Vec::new();
    let mut i: usize = 0;
    while i < found.len()
        invariant
            i <= found.len() == want.len(),
            forall|j: int| #![trigger found@[j]] 0 <= j < found@.len() ==> found@[j]@ == want[j],
            forall|j: int| 0 <= j < i ==> (#[trigger] want[j]) is Bytes,
            i == 0 ==> v@ == Seq::<u8>::empty(),
            i > 0 ==> v@ == want[i - 1]->Bytes_0,
            want == values(wire::field_views(fields@), tag),
        decreases found.len() - i,
    {
        assert(found@[i as int]@ == want[i as int]);
        match found[i] {
            WireValue::Bytes(x) => {
                v = copy_bytes(x.as_slice());
            },
            _ => {
                return None;
            },
        }
        i += 1;
    }
    Some(v)
}

/// The list of texts in field `tag`.
pub(crate) fn find_texts(fields: &Vec<Field>, tag: u32) -> (v: Option<Vec<String>>)
    ensures
        match v {
            Some(v) => texts_in(wire::field_views(fields@), tag) == Some(text::texts(v@)),
            None => texts_in(wire::field_views(fields@), tag) is None,
        },
{
    let found = matching(fields, tag);
    let ghost want = values(wire::field_views(fields@), tag);
    let mut v: Vec<String> = Vec::new();
    let mut i: usize = 0;
    while i < found.len()
        invariant
            i <= found.len() == want.len(),
            forall|j: int| #![trigger found@[j]] 0 <= j < found@.len() ==> found@[j]@ == want[j],
            forall|j: int| 0 <= j < i ==> is_text(#[trigger] want[j]),
            v@.len() == i,
            forall|j: int| #![trigger v@[j]]
                0 <= j < i ==> v@[j]@ == utf8::decode_utf8(want[j]->Bytes_0),
            want == values(wire::field_views(fields@), tag),
        decreases found.len() - i,
    {
        assert(found@[i as int]@ == want[i as int]);
        match found[i] {
            WireValue::Bytes(x) => match wire::utf8_text(copy_bytes(x.as_slice())) {
                Some(text) => {
                    v.push(text);
                },
                None => {
                    assert(!is_text(want[i as int]));
                    return None;
                },
            },
            _ => {
                assert(!is_text(want[i as int]));
                return None;
            },
        }
        i += 1;
    }
    assert(text::texts(v@) =~= Seq::new(want.len(), |j: int| utf8::decode_utf8(want[j]->Bytes_0)));
    Some(v)
}

/// The text in field `tag`.
pub(crate) fn find_text(fields: &Vec<Field>, tag: u32) -> (v: Option<String>)
    ensures
        match v {
            Some(v) => text_in(wire::field_views(fields@), tag) == Some(v@),
            None => text_in(wire::field_views(fields@), tag) is None,
        },
{
    match find_texts(fields, tag) {
        Some(mut list) => match list.pop() {
            Some(text) => Some(text),
            None => Some(String::new()),
        },
        None => None,
    }
}

/// The fields of the embedded message in field `tag`, if it is there.
pub(crate) fn find_message(fields: &Vec<Field>, tag: u32, room: u32) -> (v: Option<
    Option<Vec<Field>>,
>)
    ensures
        match v {
            Some(Some(inner)) => message_in(wire::field_views(fields@), tag, room as nat) == Some(
                Some(wire::field_views(inner@)),
            ),
            Some(None) => message_in(wire::field_views(fields@), tag, room as nat) == Some(
                None::<Seq<FieldView>>,
            ),
            None => message_in(wire::field_views(fields@), tag, room as nat) is None,
        },
{
    let found = matching(fields, tag);
    let ghost want = values(wire::field_views(fields@), tag);
    let mut inner: Vec<Field> = Vec::new();
    let mut i: usize = 0;
    assert(wire::field_views(inner@) =~= Seq::empty());
    while i < found.len()
        invariant
            i <= found.len() == want.len(),
            forall|j: int| #![trigger found@[j]] 0 <= j < found@.len() ==> found@[j]@ == want[j],
            parts_fields(want.take(i as int), room as nat) == Some(wire::field_views(inner@)),
            want == values(wire::field_views(fields@), tag),
        decreases found.len() - i,
    {
        proof {
            assert(found@[i as int]@ == want[i as int]);
            assert(want.take(i + 1).drop_last() =~= want.take(i as int));
            lemma_parts_fail(want, i + 1, room as nat);
        }
        match found[i] {
            WireValue::Bytes(part) => match wire::parse_fields(part.as_slice(), room) {
                Some(mut more) => {
                    let ghost before = wire::field_views(inner@);
                    let ghost added = wire::field_views(more@);
                    inner.append(&mut more);
                    assert(wire::field_views(inner@) =~= before + added);
                },
                None => {
                    return None;
                },
            },
            _ => {
                return None;
            },
        }
        i += 1;
    }
    assert(want.take(i as int) =~= want);
    if found.len() == 0 {
        Some(None)
    } else {
        Some(Some(inner))
    }
}

/// Parts that cannot be read stay so whatever follows.
proof fn lemma_parts_fail(parts: Seq<ValueView>, i: int, room: nat)
    requires
        0 <= i <= parts.len(),
    ensures
        parts_fields(parts.take(i), room) is None ==> parts_fields(parts, room) is None,
    decreases parts.len() - i,
{
    if i < parts.len() {
        assert(parts.take(i + 1).drop_last() =~= parts.take(i));
        lemma_parts_fail(parts, i + 1, room);
    } else {
        assert(parts.take(i) =~= parts);
    }
}

// ---------------------------------------------------------------------------
// Laws
// ---------------------------------------------------------------------------

/// What stands on the wire for a number: nothing for zero.
pub open spec fn number_values(v: u64) -> Seq<ValueView> {
    if v == 0 {
        Seq::empty()
    } else {
        seq![ValueView::Varint(v)]
    }
}

/// What stands on the wire for a truth value: a one, or nothing.
pub open spec fn flag_values(b: bool) -> Seq<ValueView> {
    if b {
        seq![ValueView::Varint(1)]
    } else {
        Seq::empty()
    }
}

/// What stands on the wire for a double: nothing for zero.
pub open spec fn double_values(v: Float64) -> Seq<ValueView> {
    if v.bits == 0 || v.bits == 0x8000_0000_0000_0000 {
        Seq::empty()
    } else {
        seq![ValueView::Fixed64(v.bits)]
    }
}

/// What stands on the wire for bytes: nothing where there are none.
pub open spec fn bytes_values(v: Seq<u8>) -> Seq<ValueView> {
    if v.len() == 0 {
        Seq::empty()
    } else {
        seq![ValueView::Bytes(v)]
    }
}

/// What stands on the wire for a text: its UTF-8 form, or nothing where it is empty.
pub open spec fn text_values(v: Seq<char>) -> Seq<ValueView> {
    if v.len() == 0 {
        Seq::empty()
    } else {
        seq![ValueView::Bytes(utf8::encode_utf8(v))]
    }
}

/// What stands on the wire for a list of texts: the UTF-8 form of each, in order.
pub open spec fn texts_values(v: Seq<Seq<char>>) -> Seq<ValueView> {
    Seq::new(v.len(), |i: int| ValueView::Bytes(utf8::encode_utf8(v[i])))
}

/// What stands on the wire for an embedded message: its bytes, where it is there.
pub open spec fn embedded_values(v: Option<Seq<FieldView>>) -> Seq<ValueView> {
    match v {
        Some(fields) => seq![ValueView::Bytes(wire::fields_bytes(fields))],
        None => Seq::empty(),
    }
}

/// Finding goes field by field: the values of two runs of fields are those of the first,
/// then those of the second, and a field is found under its own tag only.
pub proof fn law_values(a: Seq<FieldView>, b: Seq<FieldView>, one: FieldView, tag: u32)
    ensures
        values(a + b, tag) == values(a, tag) + values(b, tag),
        one.tag == tag ==> values(seq![one], tag) == seq![one.value],
        one.tag != tag ==> values(seq![one], tag).len() == 0,
{
    lemma_values_add(a, b, tag);
    lemma_values_one(one, tag);
}

/// A field can be read exactly where every value under its tag is of the right kind; then
/// the last one counts, and without any there is the default.
pub proof fn law_last_counts(fields: Seq<FieldView>, tag: u32)
    ensures
        ({
            let found = values(fields, tag);
            &&& varint_in(fields, tag) is Some <==> forall|i: int|
                0 <= i < found.len() ==> (#[trigger] found[i]) is Varint
            &&& double_in(fields, tag) is Some <==> forall|i: int|
                0 <= i < found.len() ==> (#[trigger] found[i]) is Fixed64
            &&& bytes_in(fields, tag) is Some <==> forall|i: int|
                0 <= i < found.len() ==> (#[trigger] found[i]) is Bytes
            &&& text_in(fields, tag) is Some <==> forall|i: int|
                0 <= i < found.len() ==> (#[trigger] found[i]) is Bytes && utf8::valid_utf8(
                    found[i]->Bytes_0,
                )
            &&& found.len() == 0 ==> varint_in(fields, tag) == Some(0u64) && double_in(fields, tag)
                == Some(Float64 { bits: 0 }) && bytes_in(fields, tag) == Some(Seq::<u8>::empty())
                && text_in(fields, tag) == Some(Seq::<char>::empty())
            &&& found.len() > 0 ==> {
                &&& varint_in(fields, tag) matches Some(v) ==> found.last() == ValueView::Varint(v)
                &&& double_in(fields, tag) matches Some(v) ==> found.last() == ValueView::Fixed64(
                    v.bits,
                )
                &&& bytes_in(fields, tag) matches Some(v) ==> found.last() == ValueView::Bytes(v)
                &&& text_in(fields, tag) matches Some(v) ==> v == utf8::decode_utf8(
                    found.last()->Bytes_0,
                )
            }
        }),
{
}

/// A list takes every value, in order, and can be read exactly where every one is a text.
pub proof fn law_list(fields: Seq<FieldView>, tag: u32)
    ensures
        ({
            let found = values(fields, tag);
            &&& texts_in(fields, tag) is Some <==> forall|i: int|
                0 <= i < found.len() ==> (#[trigger] found[i]) is Bytes && utf8::valid_utf8(
                    found[i]->Bytes_0,
                )
            &&& texts_in(fields, tag) matches Some(list) ==> list.len() == found.len()
                && forall|i: int| #![trigger list[i]]
                0 <= i < list.len() ==> list[i] == utf8::decode_utf8(found[i]->Bytes_0)
        }),
{
}

/// A field under another tag is not found.
pub proof fn lemma_unknown(a: Seq<FieldView>, one: FieldView, b: Seq<FieldView>, tag: u32)
    requires
        one.tag != tag,
    ensures
        values(a + seq![one] + b, tag) == values(a + b, tag),
{
    lemma_values_add(a + seq![one], b, tag);
    lemma_values_add(a, seq![one], tag);
    lemma_values_add(a, b, tag);
    lemma_values_one(one, tag);
    assert(values(a + seq![one], tag) =~= values(a, tag));
}

/// An embedded message that came in parts is all its parts, in order; it can be read
/// exactly where every part can, and it is there exactly where a part is.
pub proof fn law_parts(
    fields: Seq<FieldView>,
    tag: u32,
    a: Seq<ValueView>,
    b: Seq<ValueView>,
    room: nat,
)
    ensures
        parts_fields(a + b, room) == match (parts_fields(a, room), parts_fields(b, room)) {
            (Some(x), Some(y)) => Some(x + y),
            _ => None,
        },
        message_in(fields, tag, room) == Some(None::<Seq<FieldView>>) <==> values(fields, tag).len()
            == 0,
        message_in(fields, tag, room) matches Some(Some(inner)) ==> parts_fields(
            values(fields, tag),
            room,
        ) == Some(inner),
    decreases b.len(),
{
    if b.len() == 0 {
        assert(a + b =~= a);
        if let Some(x) = parts_fields(a, room) {
            assert(x + Seq::empty() =~= x);
        }
    } else {
        law_parts(fields, tag, a, b.drop_last(), room);
        assert((a + b).drop_last() =~= a + b.drop_last());
        match (parts_fields(a, room), parts_fields(b.drop_last(), room), b.last()) {
            (Some(x), Some(y), ValueView::Bytes(part)) => {
                if let Some(more) = wire::read_fields(part, room) {
                    assert((x + y) + more =~= x + (y + more));
                }
            },
            _ => {},
        }
    }
}

/// Narrowing and widening keep the low bits: a number changes by whole turns only.
pub proof fn law_turns(v: u64, x: i32)
    ensures
        (v - low_u32(v)) % 0x1_0000_0000 == 0,
        (v - low_i32(v)) % 0x1_0000_0000 == 0,
        (wide_i32(x) - x) % 0x1_0000_0000_0000_0000 == 0,
        low_i32(wide_i32(x)) == x,
        x >= 0 ==> wide_i32(x) == x,
{
    lemma_i32(x);
}

} // verus!
