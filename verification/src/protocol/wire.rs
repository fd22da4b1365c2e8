//! The Protobuf wire format: a message is a run of fields, each a key (tag and
//! wire type) followed by a value.
//!
//! Single values are written and read by `prost::encoding`; this module states
//! what a run of fields is and proves that reading gives back what was written.

use prost::encoding::DecodeContext;
use vstd::prelude::*;
use vstd::slice::slice_subrange;
use vstd::utf8;

verus! {

/// Highest field number that a key can carry.
pub const MAX_TAG: u32 = 0x1FFF_FFFF;

/// How many messages and groups may lie within each other.
pub const NESTING_LIMIT: u32 = 100;

/// An error of the `prost` decoder.
#[verifier::external_type_specification]
#[verifier::external_body]
pub struct ExDecodeError(prost::DecodeError);

/// The wire types of the Protobuf encoding.
#[derive(Clone, Copy, Debug, PartialEq, Eq, Structural)]
pub enum WireType {
    Varint,
    SixtyFourBit,
    LengthDelimited,
    StartGroup,
    EndGroup,
    ThirtyTwoBit,
}

/// The value of one field. What a group or a 32-bit value holds is not kept:
/// no message of this protocol has such a field.
#[derive(Debug)]
pub enum WireValue {
    Varint(u64),
    Fixed64(u64),
    Bytes(Vec<u8>),
    Fixed32,
    Group,
}

/// One field of a message.
#[derive(Debug)]
pub struct Field {
    pub tag: u32,
    pub value: WireValue,
}

/// The model of [`WireValue`].
#[verifier::ext_equal]
pub enum ValueView {
    Varint(u64),
    Fixed64(u64),
    Bytes(Seq<u8>),
    Fixed32,
    Group,
}

/// The model of [`Field`].
#[verifier::ext_equal]
pub struct FieldView {
    pub tag: u32,
    pub value: ValueView,
}

impl View for WireValue {
    type V = ValueView;

    open spec fn view(&self) -> ValueView {
        match self {
            WireValue::Varint(v) => ValueView::Varint(*v),
            WireValue::Fixed64(v) => ValueView::Fixed64(*v),
            WireValue::Bytes(v) => ValueView::Bytes(v@),
            WireValue::Fixed32 => ValueView::Fixed32,
            WireValue::Group => ValueView::Group,
        }
    }
}

impl View for Field {
    type V = FieldView;

    open spec fn view(&self) -> FieldView {
        FieldView { tag: self.tag, value: self.value@ }
    }
}

/// The models of a run of fields.
pub open spec fn field_views(fields: Seq<Field>) -> Seq<FieldView> {
    Seq::new(fields.len(), |i: int| fields[i]@)
}

// ---------------------------------------------------------------------------
// Single values
// ---------------------------------------------------------------------------

/// The base-128 form of `v`, least significant group first; every byte but the
/// last has its top bit set.
pub open spec fn varint_bytes(v: nat) -> Seq<u8>
    decreases v,
{
    if v < 128 {
        seq![v as u8]
    } else {
        seq![(v % 128 + 128) as u8] + varint_bytes(v / 128)
    }
}

/// The number at the front of `s` in base-128 form, in at most `max` bytes, and
/// how many bytes it takes.
pub open spec fn read_groups(s: Seq<u8>, max: nat) -> Option<(nat, nat)>
    decreases max,
{
    if s.len() == 0 || max == 0 {
        None
    } else if s[0] < 128 {
        Some((s[0] as nat, 1))
    } else {
        match read_groups(s.skip(1), (max - 1) as nat) {
            Some((v, n)) => Some(((s[0] - 128 + 128 * v) as nat, n + 1)),
            None => None,
        }
    }
}

/// The 64-bit number at the front of `s`, and how many bytes it takes: at most
/// ten, and none where the number does not fit.
pub open spec fn read_varint(s: Seq<u8>) -> Option<(u64, nat)> {
    match read_groups(s, 10) {
        Some((v, n)) => if v <= u64::MAX {
            Some((v as u64, n))
        } else {
            None
        },
        None => None,
    }
}

/// The wire type with the given number.
pub open spec fn wire_type_of(n: int) -> Option<WireType> {
    if n == 0 {
        Some(WireType::Varint)
    } else if n == 1 {
        Some(WireType::SixtyFourBit)
    } else if n == 2 {
        Some(WireType::LengthDelimited)
    } else if n == 3 {
        Some(WireType::StartGroup)
    } else if n == 4 {
        Some(WireType::EndGroup)
    } else if n == 5 {
        Some(WireType::ThirtyTwoBit)
    } else {
        None
    }
}

/// The key of a field: its tag above three bits of wire type.
pub open spec fn key_bytes(tag: u32, wire_type: int) -> Seq<u8> {
    varint_bytes((tag * 8 + wire_type) as nat)
}

/// The key at the front of `s`, and how many bytes it takes.
pub open spec fn read_key(s: Seq<u8>) -> Option<(u32, WireType, nat)> {
    match read_varint(s) {
        Some((key, n)) => if key > u32::MAX || key / 8 == 0 {
            None
        } else {
            match wire_type_of((key % 8) as int) {
                Some(wire_type) => Some(((key / 8) as u32, wire_type, n)),
                None => None,
            }
        },
        None => None,
    }
}

/// The `n` lowest bytes of `v`, least significant first.
pub open spec fn le_bytes(v: nat, n: nat) -> Seq<u8>
    decreases n,
{
    if n == 0 {
        Seq::empty()
    } else {
        seq![(v % 256) as u8] + le_bytes(v / 256, (n - 1) as nat)
    }
}

/// The number whose bytes, least significant first, are `s`.
pub open spec fn le_value(s: Seq<u8>) -> nat
    decreases s.len(),
{
    if s.len() == 0 {
        0
    } else {
        s[0] as nat + 256 * le_value(s.skip(1))
    }
}

// ---------------------------------------------------------------------------
// Fields
// ---------------------------------------------------------------------------

/// How many bytes at the front of `s` the value of a field to be passed over
/// takes; `room` is how many more levels of groups may open.
pub open spec fn skipped(s: Seq<u8>, wire_type: WireType, tag: u32, room: nat) -> Option<nat>
    decreases room, s.len(), 1nat,
{
    if room == 0 {
        None
    } else {
        match wire_type {
            WireType::Varint => match read_varint(s) {
                Some((_, n)) => Some(n),
                None => None,
            },
            WireType::SixtyFourBit => if s.len() >= 8 {
                Some(8)
            } else {
                None
            },
            WireType::LengthDelimited => match read_varint(s) {
                Some((len, n)) => if len <= s.len() - n {
                    Some(n + len as nat)
                } else {
                    None
                },
                None => None,
            },
            WireType::StartGroup => skipped_group(s, tag, room),
            WireType::EndGroup => None,
            WireType::ThirtyTwoBit => if s.len() >= 4 {
                Some(4)
            } else {
                None
            },
        }
    }
}

/// How many bytes at the front of `s` the rest of group `tag` takes, its end
/// included.
pub open spec fn skipped_group(s: Seq<u8>, tag: u32, room: nat) -> Option<nat>
    decreases room, s.len(), 0nat,
{
    match read_key(s) {
        Some((inner, wire_type, n)) => if wire_type is EndGroup {
            if inner == tag {
                Some(n)
            } else {
                None
            }
        } else if room == 0 {
            None
        } else {
            match skipped(s.skip(n as int), wire_type, inner, (room - 1) as nat) {
                Some(m) => if 0 < n + m <= s.len() {
                    match skipped_group(s.skip((n + m) as int), tag, room) {
                        Some(rest) => Some(n + m + rest),
                        None => None,
                    }
                } else {
                    None
                },
                None => None,
            }
        },
        None => None,
    }
}

/// The value of wire type `wire_type` at the front of `s`, and how many bytes
/// it takes.
pub open spec fn read_value(s: Seq<u8>, wire_type: WireType, tag: u32, room: nat) -> Option<
    (ValueView, nat),
> {
    match wire_type {
        WireType::Varint => match read_varint(s) {
            Some((v, n)) => Some((ValueView::Varint(v), n)),
            None => None,
        },
        WireType::SixtyFourBit => if s.len() >= 8 {
            Some((ValueView::Fixed64(le_value(s.take(8)) as u64), 8))
        } else {
            None
        },
        WireType::LengthDelimited => match read_varint(s) {
            Some((len, n)) => if len <= s.len() - n {
                Some((ValueView::Bytes(s.subrange(n as int, n + len)), n + len as nat))
            } else {
                None
            },
            None => None,
        },
        WireType::StartGroup => match skipped(s, wire_type, tag, room) {
            Some(n) => Some((ValueView::Group, n)),
            None => None,
        },
        WireType::EndGroup => None,
        WireType::ThirtyTwoBit => if s.len() >= 4 {
            Some((ValueView::Fixed32, 4))
        } else {
            None
        },
    }
}

/// The field at the front of `s`, and how many bytes it takes.
pub open spec fn read_field(s: Seq<u8>, room: nat) -> Option<(FieldView, nat)> {
    match read_key(s) {
        Some((tag, wire_type, n)) => match read_value(s.skip(n as int), wire_type, tag, room) {
            Some((value, m)) => Some((FieldView { tag, value }, n + m)),
            None => None,
        },
        None => None,
    }
}

/// The fields that `s` is made of.
pub open spec fn read_fields(s: Seq<u8>, room: nat) -> Option<Seq<FieldView>>
    decreases s.len(),
{
    if s.len() == 0 {
        Some(Seq::empty())
    } else {
        match read_field(s, room) {
            Some((field, n)) => if 0 < n <= s.len() {
                match read_fields(s.skip(n as int), room) {
                    Some(rest) => Some(seq![field] + rest),
                    None => None,
                }
            } else {
                None
            },
            None => None,
        }
    }
}

/// The bytes of one field.
pub open spec fn field_bytes(field: FieldView) -> Seq<u8> {
    match field.value {
        ValueView::Varint(v) => key_bytes(field.tag, 0) + varint_bytes(v as nat),
        ValueView::Fixed64(v) => key_bytes(field.tag, 1) + le_bytes(v as nat, 8),
        ValueView::Bytes(v) => key_bytes(field.tag, 2) + varint_bytes(v.len()) + v,
        ValueView::Fixed32 => Seq::empty(),
        ValueView::Group => Seq::empty(),
    }
}

/// The bytes of a run of fields.
pub open spec fn fields_bytes(fields: Seq<FieldView>) -> Seq<u8>
    decreases fields.len(),
{
    if fields.len() == 0 {
        Seq::empty()
    } else {
        field_bytes(fields[0]) + fields_bytes(fields.drop_first())
    }
}

/// A field that can be written: its tag fits a key, its value is of a kind that
/// messages hold, and its length fits a length prefix.
pub open spec fn writable(field: FieldView) -> bool {
    &&& 1 <= field.tag <= MAX_TAG
    &&& match field.value {
        ValueView::Varint(_) => true,
        ValueView::Fixed64(_) => true,
        ValueView::Bytes(v) => v.len() <= u64::MAX,
        ValueView::Fixed32 => false,
        ValueView::Group => false,
    }
}

// ---------------------------------------------------------------------------
// Reading gives back what was written
// ---------------------------------------------------------------------------

/// Powers of 128.
pub open spec fn pow128(n: nat) -> nat
    decreases n,
{
    if n == 0 {
        1
    } else {
        128 * pow128((n - 1) as nat)
    }
}

proof fn lemma_read_groups(v: nat, rest: Seq<u8>, max: nat)
    requires
        v < pow128(max),
        max > 0,
    ensures
        read_groups(varint_bytes(v) + rest, max) == Some((v, varint_bytes(v).len())),
        varint_bytes(v).len() > 0,
    decreases max,
{
    let s = varint_bytes(v) + rest;
    if v < 128 {
        assert(s[0] == v as u8);
    } else {
        assert(max > 1) by {
            if max == 1 {
                reveal_with_fuel(pow128, 2);
            }
        }
        assert(v / 128 < pow128((max - 1) as nat));
        lemma_read_groups(v / 128, rest, (max - 1) as nat);
        assert(s[0] == (v % 128 + 128) as u8);
        assert(s.skip(1) =~= varint_bytes(v / 128) + rest);
    }
}

/// A number that was written is read back, whatever follows it.
pub proof fn lemma_read_varint(v: u64, rest: Seq<u8>)
    ensures
        read_varint(varint_bytes(v as nat) + rest) == Some((v, varint_bytes(v as nat).len())),
        varint_bytes(v as nat).len() > 0,
{
    assert(pow128(10) > u64::MAX) by {
        reveal_with_fuel(pow128, 11);
    }
    lemma_read_groups(v as nat, rest, 10);
}

/// What is read lies at the front of the input.
pub proof fn lemma_read_varint_len(s: Seq<u8>)
    ensures
        read_varint(s) matches Some((_, n)) ==> 0 < n <= s.len(),
{
    lemma_read_groups_len(s, 10);
}

proof fn lemma_read_groups_len(s: Seq<u8>, max: nat)
    ensures
        read_groups(s, max) matches Some((_, n)) ==> 0 < n <= s.len(),
    decreases max,
{
    if s.len() > 0 && max > 0 && s[0] >= 128 {
        lemma_read_groups_len(s.skip(1), (max - 1) as nat);
    }
}

proof fn lemma_read_key(tag: u32, wire_type: int, rest: Seq<u8>)
    requires
        1 <= tag <= MAX_TAG,
        0 <= wire_type <= 5,
    ensures
        read_key(key_bytes(tag, wire_type) + rest) == Some(
            (tag, wire_type_of(wire_type)->0, key_bytes(tag, wire_type).len()),
        ),
        key_bytes(tag, wire_type).len() > 0,
{
    let key = (tag * 8 + wire_type) as u64;
    lemma_read_varint(key, rest);
    assert(key / 8 == tag);
    assert(key % 8 == wire_type);
}

/// Powers of 256.
pub open spec fn pow256(n: nat) -> nat
    decreases n,
{
    if n == 0 {
        1
    } else {
        256 * pow256((n - 1) as nat)
    }
}

/// A number that fits `n` bytes has the value of its bytes.
pub proof fn lemma_le(v: nat, n: nat)
    requires
        v < pow256(n),
    ensures
        le_bytes(v, n).len() == n,
        le_value(le_bytes(v, n)) == v,
    decreases n,
{
    if n > 0 {
        lemma_le(v / 256, (n - 1) as nat);
        assert(le_bytes(v, n).skip(1) =~= le_bytes(v / 256, (n - 1) as nat));
    }
}

/// The value of `n` bytes fits `n` bytes.
pub proof fn lemma_le_bound(s: Seq<u8>)
    ensures
        le_value(s) < pow256(s.len()),
    decreases s.len(),
{
    if s.len() > 0 {
        lemma_le_bound(s.skip(1));
    }
}

proof fn lemma_pow256_8()
    ensures
        pow256(8) == u64::MAX + 1,
{
    reveal_with_fuel(pow256, 9);
}

proof fn lemma_read_varint_field(tag: u32, v: u64, rest: Seq<u8>, room: nat)
    requires
        1 <= tag <= MAX_TAG,
    ensures
        ({
            let field = FieldView { tag, value: ValueView::Varint(v) };
            read_field(field_bytes(field) + rest, room) == Some((field, field_bytes(field).len()))
        }),
{
    let key = key_bytes(tag, 0);
    let body = varint_bytes(v as nat) + rest;
    lemma_read_key(tag, 0, body);
    lemma_read_varint(v, rest);
    let s = key + varint_bytes(v as nat) + rest;
    assert(s =~= key + body);
    assert(s.skip(key.len() as int) =~= body);
    assert(read_value(body, WireType::Varint, tag, room) == Some(
        (ValueView::Varint(v), varint_bytes(v as nat).len()),
    ));
}

proof fn lemma_read_fixed64_field(tag: u32, v: u64, rest: Seq<u8>, room: nat)
    requires
        1 <= tag <= MAX_TAG,
    ensures
        ({
            let field = FieldView { tag, value: ValueView::Fixed64(v) };
            read_field(field_bytes(field) + rest, room) == Some((field, field_bytes(field).len()))
        }),
{
    let key = key_bytes(tag, 1);
    let body = le_bytes(v as nat, 8) + rest;
    lemma_read_key(tag, 1, body);
    lemma_pow256_8();
    lemma_le(v as nat, 8);
    let s = key + le_bytes(v as nat, 8) + rest;
    assert(s =~= key + body);
    assert(s.skip(key.len() as int) =~= body);
    assert(body.take(8) =~= le_bytes(v as nat, 8));
    assert(read_value(body, WireType::SixtyFourBit, tag, room) == Some(
        (ValueView::Fixed64(v), 8nat),
    ));
}

proof fn lemma_read_bytes_field(tag: u32, v: Seq<u8>, rest: Seq<u8>, room: nat)
    requires
        1 <= tag <= MAX_TAG,
        v.len() <= u64::MAX,
    ensures
        ({
            let field = FieldView { tag, value: ValueView::Bytes(v) };
            read_field(field_bytes(field) + rest, room) == Some((field, field_bytes(field).len()))
        }),
{
    let key = key_bytes(tag, 2);
    let len = varint_bytes(v.len());
    let body = len + (v + rest);
    lemma_read_key(tag, 2, body);
    lemma_read_varint(v.len() as u64, v + rest);
    let s = key + len + v + rest;
    assert(s =~= key + body);
    assert(s.skip(key.len() as int) =~= body);
    assert(body.subrange(len.len() as int, (len.len() + v.len()) as int) =~= v);
    assert(read_value(body, WireType::LengthDelimited, tag, room) == Some(
        (ValueView::Bytes(v), len.len() + v.len()),
    ));
}

proof fn lemma_read_field(field: FieldView, rest: Seq<u8>, room: nat)
    requires
        writable(field),
    ensures
        read_field(field_bytes(field) + rest, room) == Some((field, field_bytes(field).len())),
        field_bytes(field).len() > 0,
{
    lemma_read_key(field.tag, 0, rest);
    lemma_read_key(field.tag, 1, rest);
    lemma_read_key(field.tag, 2, rest);
    match field.value {
        ValueView::Varint(v) => lemma_read_varint_field(field.tag, v, rest, room),
        ValueView::Fixed64(v) => lemma_read_fixed64_field(field.tag, v, rest, room),
        ValueView::Bytes(v) => lemma_read_bytes_field(field.tag, v, rest, room),
        _ => {},
    }
}

/// A run of fields that was written is read back.
pub proof fn lemma_read_fields(fields: Seq<FieldView>, room: nat)
    requires
        forall|i: int| 0 <= i < fields.len() ==> writable(#[trigger] fields[i]),
    ensures
        read_fields(fields_bytes(fields), room) == Some(fields),
    decreases fields.len(),
{
    if fields.len() > 0 {
        let rest = fields.drop_first();
        assert forall|i: int| 0 <= i < rest.len() implies writable(#[trigger] rest[i]) by {
            assert(rest[i] == fields[i + 1]);
        }
        lemma_read_fields(rest, room);
        lemma_read_field(fields[0], fields_bytes(rest), room);
        let s = fields_bytes(fields);
        let n = field_bytes(fields[0]).len() as int;
        assert(s.skip(n) =~= fields_bytes(rest));
        assert(seq![fields[0]] + rest =~= fields);
    } else {
        assert(fields =~= Seq::empty());
    }
}

/// The bytes of a run of fields that one more was added to.
pub proof fn lemma_fields_bytes_push(fields: Seq<FieldView>, field: FieldView)
    ensures
        fields_bytes(fields.push(field)) == fields_bytes(fields) + field_bytes(field),
    decreases fields.len(),
{
    let all = fields.push(field);
    if fields.len() == 0 {
        assert(fields_bytes(all.drop_first()) =~= Seq::<u8>::empty());
        assert(fields_bytes(all) =~= fields_bytes(fields) + field_bytes(field));
    } else {
        lemma_fields_bytes_push(fields.drop_first(), field);
        assert(all.drop_first() =~= fields.drop_first().push(field));
        assert(fields_bytes(all) =~= fields_bytes(fields) + field_bytes(field));
    }
}

/// The bytes of two runs of fields, one after the other.
pub broadcast proof fn lemma_fields_bytes_add(a: Seq<FieldView>, b: Seq<FieldView>)
    ensures
        #[trigger] fields_bytes(a + b) == fields_bytes(a) + fields_bytes(b),
    decreases b.len(),
{
    if b.len() == 0 {
        assert(a + b =~= a);
    } else {
        let before = b.drop_last();
        lemma_fields_bytes_add(a, before);
        lemma_fields_bytes_push(before, b.last());
        lemma_fields_bytes_push(a + before, b.last());
        assert(before.push(b.last()) =~= b);
        assert((a + before).push(b.last()) =~= a + b);
        assert(fields_bytes(a + b) =~= fields_bytes(a) + fields_bytes(b));
    }
}

/// A field is no longer than the run it is part of.
pub proof fn lemma_field_within(fields: Seq<FieldView>, i: int)
    requires
        0 <= i < fields.len(),
    ensures
        field_bytes(fields[i]).len() <= fields_bytes(fields).len(),
    decreases fields.len(),
{
    if i > 0 {
        lemma_field_within(fields.drop_first(), i - 1);
    }
}

// ---------------------------------------------------------------------------
// Calls into `prost::encoding`
// ---------------------------------------------------------------------------

/// `prost::encoding::uint64::encode` appends a key of wire type 0 and the
/// base-128 form of the value. It asks for a tag that fits a key.
#[verifier::external_body]
fn put_varint(tag: u32, value: u64, buf: &mut Vec<u8>)
    requires
        1 <= tag <= MAX_TAG,
    ensures
        final(buf)@ == old(buf)@ + (key_bytes(tag, 0) + varint_bytes(value as nat)),
{
    prost::encoding::uint64::encode(tag, &value, buf)
}

/// `prost::encoding::fixed64::encode` appends a key of wire type 1 and the eight
/// bytes of the value, least significant first. It asks for a tag that fits a key.
#[verifier::external_body]
fn put_fixed64(tag: u32, value: u64, buf: &mut Vec<u8>)
    requires
        1 <= tag <= MAX_TAG,
    ensures
        final(buf)@ == old(buf)@ + (key_bytes(tag, 1) + le_bytes(value as nat, 8)),
{
    prost::encoding::fixed64::encode(tag, &value, buf)
}

/// `prost::encoding::bytes::encode` appends a key of wire type 2, the number of
/// bytes in base-128 form and the bytes. It asks for a tag that fits a key.
#[verifier::external_body]
fn put_bytes(tag: u32, value: &Vec<u8>, buf: &mut Vec<u8>)
    requires
        1 <= tag <= MAX_TAG,
    ensures
        final(buf)@ == old(buf)@ + (key_bytes(tag, 2) + varint_bytes(value@.len()) + value@),
{
    prost::encoding::bytes::encode(tag, value, buf)
}

/// `prost::encoding::decode_varint` takes a number in base-128 form off the
/// front of the input: at most ten bytes, and an error where the input ends
/// first or the number does not fit 64 bits.
#[verifier::external_body]
fn get_varint(buf: &mut &[u8]) -> (value: Result<u64, prost::DecodeError>)
    ensures
        match read_varint(old(buf)@) {
            Some((v, n)) => {
                &&& value == Ok::<u64, prost::DecodeError>(v)
                &&& final(buf)@ == old(buf)@.skip(n as int)
            },
            None => value is Err,
        },
{
    prost::encoding::decode_varint(buf)
}

/// `prost::encoding::decode_key` takes a key off the front of the input; it is an
/// error where there is no number, the number does not fit 32 bits, the tag is
/// zero or the wire type is not one of the six.
#[verifier::external_body]
fn get_key(buf: &mut &[u8]) -> (key: Result<(u32, WireType), prost::DecodeError>)
    ensures
        match read_key(old(buf)@) {
            Some((tag, wire_type, n)) => key == Ok::<(u32, WireType), prost::DecodeError>(
                (tag, wire_type),
            ) && final(buf)@ == old(buf)@.skip(n as int),
            None => key is Err,
        },
{
    match prost::encoding::decode_key(buf)? {
        (tag, prost::encoding::WireType::Varint) => Ok((tag, WireType::Varint)),
        (tag, prost::encoding::WireType::SixtyFourBit) => Ok((tag, WireType::SixtyFourBit)),
        (tag, prost::encoding::WireType::LengthDelimited) => Ok((tag, WireType::LengthDelimited)),
        (tag, prost::encoding::WireType::StartGroup) => Ok((tag, WireType::StartGroup)),
        (tag, prost::encoding::WireType::EndGroup) => Ok((tag, WireType::EndGroup)),
        (tag, prost::encoding::WireType::ThirtyTwoBit) => Ok((tag, WireType::ThirtyTwoBit)),
    }
}

/// `prost::encoding::fixed64::merge`, told that the wire type is right, takes
/// eight bytes, least significant first, off the front of the input; it is an
/// error where there are fewer.
#[verifier::external_body]
fn get_fixed64(buf: &mut &[u8]) -> (value: Result<u64, prost::DecodeError>)
    ensures
        if old(buf)@.len() >= 8 {
            &&& value == Ok::<u64, prost::DecodeError>(le_value(old(buf)@.take(8)) as u64)
            &&& final(buf)@ == old(buf)@.skip(8)
        } else {
            value is Err
        },
{
    let mut value: u64 = 0;
    let wire_type = prost::encoding::WireType::SixtyFourBit;
    prost::encoding::fixed64::merge(wire_type, &mut value, buf, DecodeContext::default())?;
    Ok(value)
}

/// `prost::encoding::bytes::merge`, told that the wire type is right, takes a
/// length in base-128 form and that many bytes off the front of the input; it is
/// an error where there is no length or there are fewer bytes.
#[verifier::external_body]
fn get_bytes(buf: &mut &[u8]) -> (value: Result<Vec<u8>, prost::DecodeError>)
    ensures
        match read_varint(old(buf)@) {
            Some((len, n)) => if len <= old(buf)@.len() - n {
                &&& value matches Ok(v)
                &&& v@ == old(buf)@.subrange(n as int, n + len)
                &&& final(buf)@ == old(buf)@.skip(n + len)
            } else {
                value is Err
            },
            None => value is Err,
        },
{
    let mut value: Vec<u8> = Vec::new();
    let wire_type = prost::encoding::WireType::LengthDelimited;
    prost::encoding::bytes::merge(wire_type, &mut value, buf, DecodeContext::default())?;
    Ok(value)
}

/// `String::from_utf8` gives the text that the bytes encode in UTF-8, and an
/// error where they are no such encoding.
#[verifier::external_body]
pub(crate) fn utf8_text(bytes: Vec<u8>) -> (text: Option<String>)
    ensures
        match text {
            Some(text) => utf8::valid_utf8(bytes@) && text@ == utf8::decode_utf8(bytes@),
            None => !utf8::valid_utf8(bytes@),
        },
{
    String::from_utf8(bytes).ok()
}

// ---------------------------------------------------------------------------
// Reading and writing
// ---------------------------------------------------------------------------

/// Drop the first `n` bytes of the input.
fn advance(buf: &mut &[u8], n: usize)
    requires
        n <= old(buf)@.len(),
    ensures
        final(buf)@ == old(buf)@.skip(n as int),
{
    let len: usize = buf.len();
    *buf = slice_subrange(*buf, n, len);
}

/// Pass over the value of a field. The nesting limit counts the messages around
/// the field, which `prost::encoding::skip_field` cannot be told of.
fn skip_value(buf: &mut &[u8], wire_type: WireType, tag: u32, room: u32) -> (done: bool)
    ensures
        match skipped(old(buf)@, wire_type, tag, room as nat) {
            Some(n) => done && n <= old(buf)@.len() && final(buf)@ == old(buf)@.skip(n as int),
            None => !done,
        },
    decreases room, old(buf)@.len(), 1nat,
{
    if room == 0 {
        return false;
    }
    let ghost s = buf@;
    proof {
        lemma_read_varint_len(s);
    }
    match wire_type {
        WireType::Varint => get_varint(buf).is_ok(),
        WireType::SixtyFourBit => {
            if buf.len() < 8 {
                return false;
            }
            advance(buf, 8);
            true
        },
        WireType::LengthDelimited => match get_varint(buf) {
            Ok(len) => {
                if len > buf.len() as u64 {
                    return false;
                }
                let ghost n = (read_varint(s)->0).1 as int;
                advance(buf, len as usize);
                assert(s.skip(n).skip(len as int) =~= s.skip(n + len));
                true
            },
            Err(_) => false,
        },
        WireType::StartGroup => skip_group(buf, tag, room),
        WireType::EndGroup => false,
        WireType::ThirtyTwoBit => {
            if buf.len() < 4 {
                return false;
            }
            advance(buf, 4);
            true
        },
    }
}

/// Pass over the rest of a group, its end included.
fn skip_group(buf: &mut &[u8], tag: u32, room: u32) -> (done: bool)
    ensures
        match skipped_group(old(buf)@, tag, room as nat) {
            Some(n) => done && n <= old(buf)@.len() && final(buf)@ == old(buf)@.skip(n as int),
            None => !done,
        },
    decreases room, old(buf)@.len(), 0nat,
{
    let ghost s = buf@;
    proof {
        lemma_read_varint_len(s);
    }
    match get_key(buf) {
        Ok((inner, wire_type)) => {
            if wire_type == WireType::EndGroup {
                return inner == tag;
            }
            if room == 0 {
                return false;
            }
            let ghost n = (read_key(s)->0).2 as int;
            if !skip_value(buf, wire_type, inner, room - 1) {
                return false;
            }
            let ghost m = skipped(s.skip(n), wire_type, inner, (room - 1) as nat)->0 as int;
            assert(s.skip(n).skip(m) =~= s.skip(n + m));
            let done = skip_group(buf, tag, room);
            proof {
                if done {
                    let rest = skipped_group(s.skip(n + m), tag, room as nat)->0 as int;
                    assert(s.skip(n + m).skip(rest) =~= s.skip(n + m + rest));
                }
            }
            done
        },
        Err(_) => false,
    }
}

/// Take one field off the front of the input.
fn get_field(buf: &mut &[u8], room: u32) -> (field: Option<Field>)
    ensures
        match read_field(old(buf)@, room as nat) {
            Some((view, n)) => {
                &&& field matches Some(field)
                &&& field@ == view
                &&& 0 < n <= old(buf)@.len()
                &&& final(buf)@ == old(buf)@.skip(n as int)
            },
            None => field is None,
        },
{
    let ghost s = buf@;
    proof {
        lemma_read_varint_len(s);
    }
    match get_key(buf) {
        Ok((tag, wire_type)) => {
            let ghost n = (read_key(s)->0).2 as int;
            let ghost body = buf@;
            proof {
                lemma_read_varint_len(body);
                assert forall|m: int| 0 <= m <= body.len() implies #[trigger] body.skip(m)
                    == s.skip(n + m) by {
                    assert(body.skip(m) =~= s.skip(n + m));
                }
            }
            match wire_type {
                WireType::Varint => match get_varint(buf) {
                    Ok(v) => Some(Field { tag, value: WireValue::Varint(v) }),
                    Err(_) => None,
                },
                WireType::SixtyFourBit => match get_fixed64(buf) {
                    Ok(v) => Some(Field { tag, value: WireValue::Fixed64(v) }),
                    Err(_) => None,
                },
                WireType::LengthDelimited => match get_bytes(buf) {
                    Ok(v) => Some(Field { tag, value: WireValue::Bytes(v) }),
                    Err(_) => None,
                },
                WireType::StartGroup => {
                    if skip_value(buf, wire_type, tag, room) {
                        Some(Field { tag, value: WireValue::Group })
                    } else {
                        None
                    }
                },
                WireType::EndGroup => None,
                WireType::ThirtyTwoBit => {
                    if buf.len() < 4 {
                        return None;
                    }
                    advance(buf, 4);
                    Some(Field { tag, value: WireValue::Fixed32 })
                },
            }
        },
        Err(_) => None,
    }
}

/// The fields that `bytes` is made of; `None` where it is no run of fields.
/// `room` is how many more levels of groups may open.
pub fn parse_fields(bytes: &[u8], room: u32) -> (fields: Option<Vec<Field>>)
    ensures
        match fields {
            Some(fields) => read_fields(bytes@, room as nat) == Some(field_views(fields@)),
            None => read_fields(bytes@, room as nat) is None,
        },
{
    let mut fields: Vec<Field> = Vec::new();
    let mut buf: &[u8] = bytes;
    proof {
        assert(field_views(fields@) =~= Seq::empty());
        if let Some(all) = read_fields(bytes@, room as nat) {
            assert(Seq::<FieldView>::empty() + all =~= all);
        }
    }
    while buf.len() > 0
        invariant
            match read_fields(buf@, room as nat) {
                Some(rest) => read_fields(bytes@, room as nat) == Some(
                    field_views(fields@) + rest,
                ),
                None => read_fields(bytes@, room as nat) is None,
            },
        decreases buf@.len(),
    {
        let ghost before = buf@;
        let ghost seen = fields@;
        match get_field(&mut buf, room) {
            Some(field) => {
                let ghost view = field@;
                fields.push(field);
                proof {
                    assert(field_views(fields@) =~= field_views(seen).push(view));
                    if let Some(rest) = read_fields(buf@, room as nat) {
                        assert(field_views(seen) + (seq![view] + rest) =~= field_views(fields@)
                            + rest);
                    }
                }
            },
            None => {
                return None;
            },
        }
    }
    assert(field_views(fields@) + Seq::empty() =~= field_views(fields@));
    Some(fields)
}

/// The bytes of a run of fields.
pub fn write_fields(fields: &Vec<Field>) -> (bytes: Vec<u8>)
    requires
        forall|i: int| 0 <= i < fields@.len() ==> writable(#[trigger] fields@[i]@),
    ensures
        bytes@ == fields_bytes(field_views(fields@)),
        bytes@.len() <= usize::MAX,
{
    let mut bytes: Vec<u8> = Vec::new();
    let mut i: usize = 0;
    while i < fields.len()
        invariant
            i <= fields.len(),
            forall|j: int| 0 <= j < fields@.len() ==> writable(#[trigger] fields@[j]@),
            bytes@ == fields_bytes(field_views(fields@.take(i as int))),
        decreases fields.len() - i,
    {
        proof {
            assert(writable(fields@[i as int]@));
            lemma_fields_bytes_push(field_views(fields@.take(i as int)), fields@[i as int]@);
            assert(field_views(fields@.take(i + 1)) =~= field_views(fields@.take(i as int)).push(
                fields@[i as int]@,
            ));
        }
        let tag: u32 = fields[i].tag;
        match &fields[i].value {
            WireValue::Varint(v) => put_varint(tag, *v, &mut bytes),
            WireValue::Fixed64(v) => put_fixed64(tag, *v, &mut bytes),
            WireValue::Bytes(v) => put_bytes(tag, v, &mut bytes),
            WireValue::Fixed32 => {},
            WireValue::Group => {},
        }
        i += 1;
    }
    assert(fields@.take(i as int) =~= fields@ && bytes.len() == bytes@.len());
    bytes
}

// ---------------------------------------------------------------------------
// Laws
// ---------------------------------------------------------------------------

/// A varint gives seven bits to each byte, the lowest first, and every byte but the last
/// says that more follow.
pub proof fn law_varint(v: nat, i: nat)
    requires
        i < varint_bytes(v).len(),
    ensures
        varint_bytes(v)[i as int] as nat % 128 == (v / pow128(i)) % 128,
        varint_bytes(v)[i as int] >= 128 <==> i + 1 < varint_bytes(v).len(),
        v / pow128(varint_bytes(v).len()) == 0,
    decreases v,
{
    let one = pow128(0);
    assert(v / one == v) by (nonlinear_arith)
        requires
            one == 1,
    ;
    if v < 128 {
        assert(pow128(1) == 128) by {
            reveal_with_fuel(pow128, 2);
        }
    } else {
        let rest = varint_bytes(v / 128);
        lemma_varint_some(v / 128);
        assert(varint_bytes(v) =~= seq![(v % 128 + 128) as u8] + rest);
        let n = rest.len();
        lemma_pow128_positive(n);
        vstd::arithmetic::div_mod::lemma_div_denominator(v as int, 128, pow128(n) as int);
        assert(pow128(n + 1) == 128 * pow128(n));
        if i > 0 {
            law_varint(v / 128, (i - 1) as nat);
            let p = pow128((i - 1) as nat);
            lemma_pow128_positive((i - 1) as nat);
            vstd::arithmetic::div_mod::lemma_div_denominator(v as int, 128, p as int);
            assert(pow128(i) == 128 * p);
        } else {
            law_varint(v / 128, 0);
        }
    }
}

/// A varint has a byte.
proof fn lemma_varint_some(v: nat)
    ensures
        varint_bytes(v).len() > 0,
{
}

/// A power is not zero.
proof fn lemma_pow128_positive(n: nat)
    ensures
        pow128(n) > 0,
    decreases n,
{
    if n > 0 {
        lemma_pow128_positive((n - 1) as nat);
    }
}

/// A power is not zero.
proof fn lemma_pow256_positive(n: nat)
    ensures
        pow256(n) > 0,
    decreases n,
{
    if n > 0 {
        lemma_pow256_positive((n - 1) as nat);
    }
}

/// A fixed number gives eight bits to each byte, the lowest first.
pub proof fn law_fixed(v: nat, n: nat, i: nat)
    requires
        i < n,
    ensures
        le_bytes(v, n).len() == n,
        le_bytes(v, n)[i as int] as nat == (v / pow256(i)) % 256,
    decreases n,
{
    let rest = le_bytes(v / 256, (n - 1) as nat);
    if i > 0 {
        law_fixed(v / 256, (n - 1) as nat, (i - 1) as nat);
        let p = pow256((i - 1) as nat);
        lemma_pow256_positive((i - 1) as nat);
        vstd::arithmetic::div_mod::lemma_div_denominator(v as int, 256, p as int);
        assert(pow256(i) == 256 * p);
    } else {
        assert(pow256(0) == 1);
        if n > 1 {
            law_fixed(v / 256, (n - 1) as nat, 0);
        }
    }
    assert(le_bytes(v, n) =~= seq![(v % 256) as u8] + rest);
}

/// Reading goes field by field: behind a written field the rest is read as it stands.
pub proof fn law_field_first(field: FieldView, rest: Seq<u8>, room: nat)
    requires
        writable(field),
    ensures
        read_fields(field_bytes(field) + rest, room) == match read_fields(rest, room) {
            Some(fields) => Some(seq![field] + fields),
            None => None,
        },
{
    lemma_read_field(field, rest, room);
    let n = field_bytes(field).len() as int;
    assert((field_bytes(field) + rest).skip(n) =~= rest);
}

/// What is read as a varint is the bytes up to the first that says that no more follow, ten
/// at most, each with seven bits of the number.
pub proof fn law_read_varint(s: Seq<u8>, i: nat)
    ensures
        read_varint(s) matches Some((v, n)) ==> {
            &&& 0 < n <= 10 && n <= s.len()
            &&& s[n - 1] < 128
            &&& i + 1 < n ==> s[i as int] >= 128
            &&& i < n ==> s[i as int] as nat % 128 == (v as nat / pow128(i)) % 128
        },
        (forall|j: int| 0 <= j < s.len() ==> #[trigger] s[j] >= 128) ==> read_varint(s) is None,
{
    lemma_read_groups_digits(s, 10, i);
}

/// The groups of seven bits that were read, one by one.
proof fn lemma_read_groups_digits(s: Seq<u8>, max: nat, i: nat)
    ensures
        read_groups(s, max) matches Some((v, n)) ==> {
            &&& 0 < n <= max && n <= s.len()
            &&& s[n - 1] < 128
            &&& i + 1 < n ==> s[i as int] >= 128
            &&& i < n ==> s[i as int] as nat % 128 == (v / pow128(i)) % 128
        },
        (forall|j: int| 0 <= j < s.len() ==> #[trigger] s[j] >= 128) ==> read_groups(s, max)
            is None,
    decreases max,
{
    let one = pow128(0);
    assert forall|v: nat| #[trigger] (v / one) == v by {
        assert(v / one == v) by (nonlinear_arith)
            requires
                one == 1,
        ;
    }
    if s.len() > 0 && max > 0 && s[0] >= 128 {
        let rest = s.skip(1);
        assert((forall|j: int| 0 <= j < s.len() ==> #[trigger] s[j] >= 128) ==> (forall|j: int|
            0 <= j < rest.len() ==> #[trigger] rest[j] >= 128)) by {
            assert forall|j: int| 0 <= j < rest.len() implies #[trigger] rest[j] == s[j + 1] by {}
        }
        if i > 0 {
            lemma_read_groups_digits(rest, (max - 1) as nat, (i - 1) as nat);
            if let Some((w, n)) = read_groups(rest, (max - 1) as nat) {
                let v = (s[0] - 128 + 128 * w) as nat;
                assert(v / 128 == w);
                let p = pow128((i - 1) as nat);
                lemma_pow128_positive((i - 1) as nat);
                vstd::arithmetic::div_mod::lemma_div_denominator(v as int, 128, p as int);
                assert(pow128(i) == 128 * p);
            }
        } else {
            lemma_read_groups_digits(rest, (max - 1) as nat, 0);
        }
    }
}

} // verus!
