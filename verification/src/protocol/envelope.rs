//! The envelope that every message travels in.

use crate::protocol::codec;
use crate::protocol::messages::control::{
    HandshakeRequest, HandshakeRequestView, HandshakeResponse, HandshakeResponseView,
    HeartbeatRequest, HeartbeatResponse, SetPausedRequest, SetPausedResponse,
    SetPausedResponseView, StartSessionRequest, StartSessionRequestView, StartSessionResponse,
    StartSessionResponseView, StopSessionRequest, StopSessionRequestView, StopSessionResponse,
    StopSessionResponseView,
};
use crate::protocol::messages::events::{
    AudioFrame, AudioFrameView, ErrorEvent, ErrorEventView, MetricsEvent, StatusEvent,
    StatusEventView, SubtitleEvent, SubtitleEventView,
};
use crate::protocol::wire;
use crate::protocol::wire::{Field, FieldView, ValueView, WireValue};
use vstd::prelude::*;

verus! {

/// The lowest tag that a payload can stand under.
pub const FIRST_PAYLOAD_TAG: u32 = 10;

/// The highest tag that a payload can stand under.
pub const LAST_PAYLOAD_TAG: u32 = 24;

/// What an envelope carries.
#[derive(Debug, PartialEq)]
pub enum Payload {
    HandshakeRequest(HandshakeRequest),
    HandshakeResponse(HandshakeResponse),
    StartSessionRequest(StartSessionRequest),
    StartSessionResponse(StartSessionResponse),
    StopSessionRequest(StopSessionRequest),
    StopSessionResponse(StopSessionResponse),
    SetPausedRequest(SetPausedRequest),
    SetPausedResponse(SetPausedResponse),
    AudioFrame(AudioFrame),
    SubtitleEvent(SubtitleEvent),
    StatusEvent(StatusEvent),
    MetricsEvent(MetricsEvent),
    ErrorEvent(ErrorEvent),
    HeartbeatRequest(HeartbeatRequest),
    HeartbeatResponse(HeartbeatResponse),
}

/// The model of [`Payload`].
#[verifier::ext_equal]
pub enum PayloadView {
    HandshakeRequest(HandshakeRequestView),
    HandshakeResponse(HandshakeResponseView),
    StartSessionRequest(StartSessionRequestView),
    StartSessionResponse(StartSessionResponseView),
    StopSessionRequest(StopSessionRequestView),
    StopSessionResponse(StopSessionResponseView),
    SetPausedRequest(SetPausedRequest),
    SetPausedResponse(SetPausedResponseView),
    AudioFrame(AudioFrameView),
    SubtitleEvent(SubtitleEventView),
    StatusEvent(StatusEventView),
    MetricsEvent(MetricsEvent),
    ErrorEvent(ErrorEventView),
    HeartbeatRequest(HeartbeatRequest),
    HeartbeatResponse(HeartbeatResponse),
}

impl View for Payload {
    type V = PayloadView;

    open spec fn view(&self) -> PayloadView {
        match self {
            Payload::HandshakeRequest(m) => PayloadView::HandshakeRequest(m@),
            Payload::HandshakeResponse(m) => PayloadView::HandshakeResponse(m@),
            Payload::StartSessionRequest(m) => PayloadView::StartSessionRequest(m@),
            Payload::StartSessionResponse(m) => PayloadView::StartSessionResponse(m@),
            Payload::StopSessionRequest(m) => PayloadView::StopSessionRequest(m@),
            Payload::StopSessionResponse(m) => PayloadView::StopSessionResponse(m@),
            Payload::SetPausedRequest(m) => PayloadView::SetPausedRequest(m@),
            Payload::SetPausedResponse(m) => PayloadView::SetPausedResponse(m@),
            Payload::AudioFrame(m) => PayloadView::AudioFrame(m@),
            Payload::SubtitleEvent(m) => PayloadView::SubtitleEvent(m@),
            Payload::StatusEvent(m) => PayloadView::StatusEvent(m@),
            Payload::MetricsEvent(m) => PayloadView::MetricsEvent(m@),
            Payload::ErrorEvent(m) => PayloadView::ErrorEvent(m@),
            Payload::HeartbeatRequest(m) => PayloadView::HeartbeatRequest(m@),
            Payload::HeartbeatResponse(m) => PayloadView::HeartbeatResponse(m@),
        }
    }
}

impl PayloadView {
    /// The tag of the field that holds the payload.
    pub open spec fn tag(self) -> u32 {
        match self {
            PayloadView::HandshakeRequest(_) => 10,
            PayloadView::HandshakeResponse(_) => 11,
            PayloadView::StartSessionRequest(_) => 12,
            PayloadView::StartSessionResponse(_) => 13,
            PayloadView::StopSessionRequest(_) => 14,
            PayloadView::StopSessionResponse(_) => 15,
            PayloadView::SetPausedRequest(_) => 16,
            PayloadView::SetPausedResponse(_) => 17,
            PayloadView::AudioFrame(_) => 18,
            PayloadView::SubtitleEvent(_) => 19,
            PayloadView::StatusEvent(_) => 20,
            PayloadView::MetricsEvent(_) => 21,
            PayloadView::ErrorEvent(_) => 22,
            PayloadView::HeartbeatRequest(_) => 23,
            PayloadView::HeartbeatResponse(_) => 24,
        }
    }

    /// The fields of the message in the payload.
    pub open spec fn encoded(self) -> Seq<FieldView> {
        match self {
            PayloadView::HandshakeRequest(m) => m.encoded(),
            PayloadView::HandshakeResponse(m) => m.encoded(),
            PayloadView::StartSessionRequest(m) => m.encoded(),
            PayloadView::StartSessionResponse(m) => m.encoded(),
            PayloadView::StopSessionRequest(m) => m.encoded(),
            PayloadView::StopSessionResponse(m) => m.encoded(),
            PayloadView::SetPausedRequest(m) => m.encoded(),
            PayloadView::SetPausedResponse(m) => m.encoded(),
            PayloadView::AudioFrame(m) => m.encoded(),
            PayloadView::SubtitleEvent(m) => m.encoded(),
            PayloadView::StatusEvent(m) => m.encoded(),
            PayloadView::MetricsEvent(m) => m.encoded(),
            PayloadView::ErrorEvent(m) => m.encoded(),
            PayloadView::HeartbeatRequest(m) => m.encoded(),
            PayloadView::HeartbeatResponse(m) => m.encoded(),
        }
    }

    /// The payload under tag `tag` with the given fields.
    pub open spec fn decoded(tag: u32, fields: Seq<FieldView>, room: nat) -> Option<PayloadView> {
        if tag == 10 {
            match HandshakeRequestView::decoded(fields) {
                Some(m) => Some(PayloadView::HandshakeRequest(m)),
                None => None,
            }
        } else if tag == 11 {
            match HandshakeResponseView::decoded(fields) {
                Some(m) => Some(PayloadView::HandshakeResponse(m)),
                None => None,
            }
        } else if tag == 12 {
            match StartSessionRequestView::decoded(fields, room) {
                Some(m) => Some(PayloadView::StartSessionRequest(m)),
                None => None,
            }
        } else if tag == 13 {
            match StartSessionResponseView::decoded(fields) {
                Some(m) => Some(PayloadView::StartSessionResponse(m)),
                None => None,
            }
        } else if tag == 14 {
            match StopSessionRequestView::decoded(fields) {
                Some(m) => Some(PayloadView::StopSessionRequest(m)),
                None => None,
            }
        } else if tag == 15 {
            match StopSessionResponseView::decoded(fields) {
                Some(m) => Some(PayloadView::StopSessionResponse(m)),
                None => None,
            }
        } else if tag == 16 {
            match SetPausedRequest::decoded(fields) {
                Some(m) => Some(PayloadView::SetPausedRequest(m)),
                None => None,
            }
        } else if tag == 17 {
            match SetPausedResponseView::decoded(fields) {
                Some(m) => Some(PayloadView::SetPausedResponse(m)),
                None => None,
            }
        } else if tag == 18 {
            match AudioFrameView::decoded(fields, room) {
                Some(m) => Some(PayloadView::AudioFrame(m)),
                None => None,
            }
        } else if tag == 19 {
            match SubtitleEventView::decoded(fields) {
                Some(m) => Some(PayloadView::SubtitleEvent(m)),
                None => None,
            }
        } else if tag == 20 {
            match StatusEventView::decoded(fields) {
                Some(m) => Some(PayloadView::StatusEvent(m)),
                None => None,
            }
        } else if tag == 21 {
            match MetricsEvent::decoded(fields) {
                Some(m) => Some(PayloadView::MetricsEvent(m)),
                None => None,
            }
        } else if tag == 22 {
            match ErrorEventView::decoded(fields) {
                Some(m) => Some(PayloadView::ErrorEvent(m)),
                None => None,
            }
        } else if tag == 23 {
            match HeartbeatRequest::decoded(fields) {
                Some(m) => Some(PayloadView::HeartbeatRequest(m)),
                None => None,
            }
        } else if tag == 24 {
            match HeartbeatResponse::decoded(fields) {
                Some(m) => Some(PayloadView::HeartbeatResponse(m)),
                None => None,
            }
        } else {
            None
        }
    }

    /// No number in the payload is a negative zero, which the wire does not carry.
    pub open spec fn canonical(self) -> bool {
        match self {
            PayloadView::SubtitleEvent(m) => m.confidence.bits != 0x8000_0000_0000_0000,
            PayloadView::MetricsEvent(m) => m.speech_ratio.bits != 0x8000_0000_0000_0000,
            _ => true,
        }
    }

    /// The fields of a payload give the payload back.
    pub proof fn lemma_round_trip(self, room: nat)
        requires
            room > 0,
            self.canonical(),
            wire::fields_bytes(self.encoded()).len() <= u64::MAX,
        ensures
            PayloadView::decoded(self.tag(), self.encoded(), room) == Some(self),
            codec::all_writable(self.encoded()),
    {
        match self {
            PayloadView::HandshakeRequest(m) => m.lemma_round_trip(),
            PayloadView::HandshakeResponse(m) => m.lemma_round_trip(),
            PayloadView::StartSessionRequest(m) => m.lemma_round_trip(room),
            PayloadView::StartSessionResponse(m) => m.lemma_round_trip(),
            PayloadView::StopSessionRequest(m) => m.lemma_round_trip(),
            PayloadView::StopSessionResponse(m) => m.lemma_round_trip(),
            PayloadView::SetPausedRequest(m) => m.lemma_round_trip(),
            PayloadView::SetPausedResponse(m) => m.lemma_round_trip(),
            PayloadView::AudioFrame(m) => m.lemma_round_trip(room),
            PayloadView::SubtitleEvent(m) => m.lemma_round_trip(),
            PayloadView::StatusEvent(m) => m.lemma_round_trip(),
            PayloadView::MetricsEvent(m) => m.lemma_round_trip(),
            PayloadView::ErrorEvent(m) => m.lemma_round_trip(),
            PayloadView::HeartbeatRequest(m) => m.lemma_round_trip(),
            PayloadView::HeartbeatResponse(m) => m.lemma_round_trip(),
        }
        codec::lemma_writable(self.encoded());
    }
}

impl Payload {
    /// The tag of the field that holds the payload.
    pub fn tag(&self) -> (tag: u32)
        ensures
            tag == self@.tag(),
            FIRST_PAYLOAD_TAG <= tag <= LAST_PAYLOAD_TAG,
    {
        match self {
            Payload::HandshakeRequest(_) => 10,
            Payload::HandshakeResponse(_) => 11,
            Payload::StartSessionRequest(_) => 12,
            Payload::StartSessionResponse(_) => 13,
            Payload::StopSessionRequest(_) => 14,
            Payload::StopSessionResponse(_) => 15,
            Payload::SetPausedRequest(_) => 16,
            Payload::SetPausedResponse(_) => 17,
            Payload::AudioFrame(_) => 18,
            Payload::SubtitleEvent(_) => 19,
            Payload::StatusEvent(_) => 20,
            Payload::MetricsEvent(_) => 21,
            Payload::ErrorEvent(_) => 22,
            Payload::HeartbeatRequest(_) => 23,
            Payload::HeartbeatResponse(_) => 24,
        }
    }

    /// The fields of the message in the payload.
    pub fn fields(&self) -> (fields: Vec<Field>)
        ensures
            wire::field_views(fields@) == self@.encoded(),
            codec::all_writable(wire::field_views(fields@)),
    {
        match self {
            Payload::HandshakeRequest(m) => m.fields(),
            Payload::HandshakeResponse(m) => m.fields(),
            Payload::StartSessionRequest(m) => m.fields(),
            Payload::StartSessionResponse(m) => m.fields(),
            Payload::StopSessionRequest(m) => m.fields(),
            Payload::StopSessionResponse(m) => m.fields(),
            Payload::SetPausedRequest(m) => m.fields(),
            Payload::SetPausedResponse(m) => m.fields(),
            Payload::AudioFrame(m) => m.fields(),
            Payload::SubtitleEvent(m) => m.fields(),
            Payload::StatusEvent(m) => m.fields(),
            Payload::MetricsEvent(m) => m.fields(),
            Payload::ErrorEvent(m) => m.fields(),
            Payload::HeartbeatRequest(m) => m.fields(),
            Payload::HeartbeatResponse(m) => m.fields(),
        }
    }

    /// The payload under tag `tag` with the given fields.
    pub fn of(tag: u32, fields: &Vec<Field>, room: u32) -> (payload: Option<Payload>)
        requires
            room > 0,
        ensures
            match payload {
                Some(payload) => PayloadView::decoded(
                    tag,
                    wire::field_views(fields@),
                    room as nat,
                ) == Some(payload@),
                None => PayloadView::decoded(tag, wire::field_views(fields@), room as nat) is None,
            },
    {
        match tag {
            10 => Some(Payload::HandshakeRequest(HandshakeRequest::of(fields)?)),
            11 => Some(Payload::HandshakeResponse(HandshakeResponse::of(fields)?)),
            12 => Some(Payload::StartSessionRequest(StartSessionRequest::of(fields, room)?)),
            13 => Some(Payload::StartSessionResponse(StartSessionResponse::of(fields)?)),
            14 => Some(Payload::StopSessionRequest(StopSessionRequest::of(fields)?)),
            15 => Some(Payload::StopSessionResponse(StopSessionResponse::of(fields)?)),
            16 => Some(Payload::SetPausedRequest(SetPausedRequest::of(fields)?)),
            17 => Some(Payload::SetPausedResponse(SetPausedResponse::of(fields)?)),
            18 => Some(Payload::AudioFrame(AudioFrame::of(fields, room)?)),
            19 => Some(Payload::SubtitleEvent(SubtitleEvent::of(fields)?)),
            20 => Some(Payload::StatusEvent(StatusEvent::of(fields)?)),
            21 => Some(Payload::MetricsEvent(MetricsEvent::of(fields)?)),
            22 => Some(Payload::ErrorEvent(ErrorEvent::of(fields)?)),
            23 => Some(Payload::HeartbeatRequest(HeartbeatRequest::of(fields)?)),
            24 => Some(Payload::HeartbeatResponse(HeartbeatResponse::of(fields)?)),
            _ => None,
        }
    }
}

/// One message of the conversation.
#[derive(Debug, PartialEq)]
pub struct Envelope {
    pub seq: u32,
    pub payload: Option<Payload>,
}

/// The model of [`Envelope`].
#[verifier::ext_equal]
pub struct EnvelopeView {
    pub seq: u32,
    pub payload: Option<PayloadView>,
}

impl View for Envelope {
    type V = EnvelopeView;

    open spec fn view(&self) -> EnvelopeView {
        EnvelopeView {
            seq: self.seq,
            payload: match self.payload {
                Some(payload) => Some(payload@),
                None => None,
            },
        }
    }
}

/// What the payload fields read so far amount to: the tag of the last one, and the
/// fields of the parts that stand under that tag without another in between.
pub open spec fn last_payload(fields: Seq<FieldView>, room: nat) -> Option<
    Option<(u32, Seq<FieldView>)>,
>
    decreases fields.len(),
{
    if fields.len() == 0 {
        Some(None)
    } else {
        let field = fields.last();
        match last_payload(fields.drop_last(), room) {
            Some(before) => if FIRST_PAYLOAD_TAG <= field.tag <= LAST_PAYLOAD_TAG {
                match payload_part(field, room) {
                    Some(part) => Some(Some((field.tag, parts_so_far(before, field.tag) + part))),
                    None => None,
                }
            } else {
                Some(before)
            },
            None => None,
        }
    }
}

/// The fields in one part of a payload, where they make up a message.
pub open spec fn payload_part(field: FieldView, room: nat) -> Option<Seq<FieldView>> {
    match field.value {
        ValueView::Bytes(part) => match wire::read_fields(part, room) {
            Some(fields) => if PayloadView::decoded(field.tag, fields, room) is Some {
                Some(fields)
            } else {
                None
            },
            None => None,
        },
        _ => None,
    }
}

/// The fields that a further part under tag `tag` continues.
pub open spec fn parts_so_far(before: Option<(u32, Seq<FieldView>)>, tag: u32) -> Seq<FieldView> {
    match before {
        Some((last, fields)) => if last == tag {
            fields
        } else {
            Seq::empty()
        },
        None => Seq::empty(),
    }
}

impl EnvelopeView {
    /// The fields of the envelope.
    pub open spec fn encoded(self) -> Seq<FieldView> {
        codec::varint_field(1, self.seq as u64) + match self.payload {
            Some(payload) => codec::message_field(payload.tag(), payload.encoded()),
            None => Seq::empty(),
        }
    }

    /// The envelope with the given fields, if they are those of one.
    pub open spec fn decoded(fields: Seq<FieldView>, room: nat) -> Option<EnvelopeView> {
        match (codec::varint_in(fields, 1), last_payload(fields, (room - 1) as nat)) {
            (Some(seq), Some(Some((tag, parts)))) => match PayloadView::decoded(
                tag,
                parts,
                (room - 1) as nat,
            ) {
                Some(payload) => Some(
                    EnvelopeView { seq: codec::low_u32(seq), payload: Some(payload) },
                ),
                None => None,
            },
            (Some(seq), Some(None)) => Some(
                EnvelopeView { seq: codec::low_u32(seq), payload: None },
            ),
            _ => None,
        }
    }

    /// No number in the envelope is a negative zero, which the wire does not carry.
    pub open spec fn canonical(self) -> bool {
        self.payload matches Some(payload) ==> payload.canonical()
    }

    /// The envelope as it is written.
    pub open spec fn bytes(self) -> Seq<u8> {
        wire::fields_bytes(self.encoded())
    }

    /// The envelope that `bytes` holds, if it holds one.
    pub open spec fn read(bytes: Seq<u8>) -> Option<EnvelopeView> {
        match wire::read_fields(bytes, wire::NESTING_LIMIT as nat) {
            Some(fields) => EnvelopeView::decoded(fields, wire::NESTING_LIMIT as nat),
            None => None,
        }
    }

    /// An envelope that was written is read back.
    pub proof fn lemma_round_trip(self)
        requires
            self.canonical(),
            self.bytes().len() <= u64::MAX,
        ensures
            EnvelopeView::read(self.bytes()) == Some(self),
    {
        broadcast use {codec::group_values, codec::lemma_shaped_add};

        let room = (wire::NESTING_LIMIT - 1) as nat;
        let seq_part = codec::varint_field(1, self.seq as u64);
        let all = self.encoded();
        codec::lemma_shaped_fields(1);
        match self.payload {
            Some(payload) => {
                codec::lemma_shaped_fields(payload.tag());
                codec::lemma_writable(all);
                let field = all.last();
                assert(field == codec::message_field(payload.tag(), payload.encoded())[0]);
                assert(all.drop_last() =~= seq_part);
                wire::lemma_field_within(all, all.len() - 1);
                payload.lemma_round_trip(room);
                wire::lemma_read_fields(payload.encoded(), room);
                assert(seq_part.len() > 0 ==> seq_part.drop_last() =~= Seq::empty());
                assert(last_payload(Seq::empty(), room) == Some(None::<(u32, Seq<FieldView>)>));
                assert(last_payload(seq_part, room) == Some(None::<(u32, Seq<FieldView>)>));
                assert(Seq::<FieldView>::empty() + payload.encoded() =~= payload.encoded());
                assert(last_payload(all, room) == Some(Some((payload.tag(), payload.encoded()))));
                assert(codec::values(all, 1) =~= codec::values(seq_part, 1));
            },
            None => {
                assert(all =~= seq_part);
                codec::lemma_writable(all);
                assert(seq_part.len() > 0 ==> seq_part.drop_last() =~= Seq::empty());
                assert(last_payload(Seq::empty(), room) == Some(None::<(u32, Seq<FieldView>)>));
                assert(last_payload(all, room) == Some(None::<(u32, Seq<FieldView>)>));
            },
        }
        codec::lemma_varint_in(all, 1, self.seq as u64);
        wire::lemma_read_fields(all, wire::NESTING_LIMIT as nat);
    }
}

/// A payload that cannot be read stays so whatever follows.
proof fn lemma_last_payload_fails(fields: Seq<FieldView>, i: int, room: nat)
    requires
        0 <= i <= fields.len(),
    ensures
        last_payload(fields.take(i), room) is None ==> last_payload(fields, room) is None,
    decreases fields.len() - i,
{
    if i < fields.len() {
        assert(fields.take(i + 1).drop_last() =~= fields.take(i));
        lemma_last_payload_fails(fields, i + 1, room);
    } else {
        assert(fields.take(i) =~= fields);
    }
}

/// The fields in one part of a payload, where they make up a message.
fn find_part(field: &Field, room: u32) -> (part: Option<Vec<Field>>)
    requires
        room > 0,
    ensures
        match part {
            Some(part) => payload_part(field@, room as nat) == Some(wire::field_views(part@)),
            None => payload_part(field@, room as nat) is None,
        },
{
    match &field.value {
        WireValue::Bytes(bytes) => {
            let fields: Vec<Field> = wire::parse_fields(bytes.as_slice(), room)?;
            Payload::of(field.tag, &fields, room)?;
            Some(fields)
        },
        _ => None,
    }
}

/// The tag and the fields of the payload among `fields`.
fn find_payload(fields: &Vec<Field>, room: u32) -> (found: Option<Option<(u32, Vec<Field>)>>)
    requires
        room > 0,
    ensures
        match found {
            Some(Some((tag, parts))) => last_payload(wire::field_views(fields@), room as nat)
                == Some(Some((tag, wire::field_views(parts@)))),
            Some(None) => last_payload(wire::field_views(fields@), room as nat) == Some(
                None::<(u32, Seq<FieldView>)>,
            ),
            None => last_payload(wire::field_views(fields@), room as nat) is None,
        },
{
    let ghost views = wire::field_views(fields@);
    let mut found: bool = false;
    let mut tag: u32 = 0;
    let mut parts: Vec<Field> = Vec::new();
    let mut i: usize = 0;
    assert(views.take(0) =~= Seq::empty());
    while i < fields.len()
        invariant
            i <= fields.len(),
            room > 0,
            views == wire::field_views(fields@),
            last_payload(views.take(i as int), room as nat) == Some(
                if found {
                    Some((tag, wire::field_views(parts@)))
                } else {
                    None
                },
            ),
        decreases fields.len() - i,
    {
        let field: &Field = &fields[i];
        proof {
            assert(views.take(i + 1).drop_last() =~= views.take(i as int));
            assert(views.take(i + 1).last() == field@);
            lemma_last_payload_fails(views, i + 1, room as nat);
        }
        if FIRST_PAYLOAD_TAG <= field.tag && field.tag <= LAST_PAYLOAD_TAG {
            match find_part(field, room) {
                Some(mut part) => {
                    let ghost more = wire::field_views(part@);
                    if found && tag == field.tag {
                        let ghost before = wire::field_views(parts@);
                        parts.append(&mut part);
                        assert(wire::field_views(parts@) =~= before + more);
                    } else {
                        assert(Seq::<FieldView>::empty() + more =~= more);
                        parts = part;
                    }
                    found = true;
                    tag = field.tag;
                },
                None => {
                    return None;
                },
            }
        }
        i += 1;
    }
    assert(views.take(i as int) =~= views);
    if found {
        Some(Some((tag, parts)))
    } else {
        Some(None)
    }
}

impl Envelope {
    /// The fields of the envelope.
    pub fn fields(&self) -> (fields: Vec<Field>)
        ensures
            wire::field_views(fields@) == self@.encoded(),
            codec::all_writable(wire::field_views(fields@)),
    {
        let mut out: Vec<Field> = Vec::new();
        codec::add_varint(&mut out, 1, self.seq as u64);
        assert(wire::field_views(out@) =~= codec::varint_field(1, self.seq as u64));
        if let Some(payload) = &self.payload {
            codec::add_message(&mut out, payload.tag(), &payload.fields());
        }
        assert(wire::field_views(out@) =~= self@.encoded());
        out
    }

    /// The envelope with the given fields, if they are those of one.
    pub fn of(fields: &Vec<Field>, room: u32) -> (envelope: Option<Envelope>)
        requires
            room > 1,
        ensures
            match envelope {
                Some(envelope) => EnvelopeView::decoded(wire::field_views(fields@), room as nat)
                    == Some(envelope@),
                None => EnvelopeView::decoded(wire::field_views(fields@), room as nat) is None,
            },
    {
        let seq: u32 = codec::narrow_u32(codec::find_varint(fields, 1)?);
        match find_payload(fields, room - 1)? {
            Some((tag, parts)) => {
                let payload: Payload = Payload::of(tag, &parts, room - 1)?;
                Some(Envelope { seq, payload: Some(payload) })
            },
            None => Some(Envelope { seq, payload: None }),
        }
    }

    /// The envelope as it is written.
    pub fn encode_to_vec(&self) -> (bytes: Vec<u8>)
        ensures
            bytes@ == self@.bytes(),
            bytes@.len() <= usize::MAX,
    {
        let fields: Vec<Field> = self.fields();
        proof {
            assert forall|i: int| 0 <= i < fields@.len() implies wire::writable(
                #[trigger] fields@[i]@,
            ) by {
                assert(wire::writable(wire::field_views(fields@)[i]));
            }
        }
        wire::write_fields(&fields)
    }

    /// The envelope that `bytes` holds, if it holds one.
    pub fn decode(bytes: &[u8]) -> (envelope: Option<Envelope>)
        ensures
            match envelope {
                Some(envelope) => EnvelopeView::read(bytes@) == Some(envelope@),
                None => EnvelopeView::read(bytes@) is None,
            },
    {
        let fields: Vec<Field> = wire::parse_fields(bytes, wire::NESTING_LIMIT)?;
        Envelope::of(&fields, wire::NESTING_LIMIT)
    }
}


/// The number stands under the first tag and the payload under its own; nothing else is
/// written.
pub proof fn law_fields(envelope: EnvelopeView, tag: u32)
    ensures
        codec::values(envelope.encoded(), 1) == codec::number_values(envelope.seq as u64),
        envelope.payload matches Some(payload) ==> {
            &&& FIRST_PAYLOAD_TAG <= payload.tag() <= LAST_PAYLOAD_TAG
            &&& codec::values(envelope.encoded(), payload.tag()) == seq![
                ValueView::Bytes(wire::fields_bytes(payload.encoded())),
            ]
            &&& tag != 1 && tag != payload.tag() ==> codec::values(envelope.encoded(), tag).len()
                == 0
        },
        envelope.payload is None && tag != 1 ==> codec::values(envelope.encoded(), tag).len() == 0,
{
    broadcast use codec::group_values;

    assert(codec::values(envelope.encoded(), 1) =~= codec::number_values(envelope.seq as u64));
    if let Some(payload) = envelope.payload {
        assert(codec::values(envelope.encoded(), payload.tag()) =~= seq![
            ValueView::Bytes(wire::fields_bytes(payload.encoded())),
        ]);
    }
}

/// What is read under a tag is the payload of that tag, and no other tag holds one.
pub proof fn law_tag(tag: u32, fields: Seq<FieldView>, room: nat)
    ensures
        PayloadView::decoded(tag, fields, room) matches Some(payload) ==> payload.tag() == tag,
        PayloadView::decoded(tag, fields, room) is Some ==> FIRST_PAYLOAD_TAG <= tag
            <= LAST_PAYLOAD_TAG,
{
}

/// A field that is neither the number nor a payload changes nothing.
pub proof fn law_unknown(fields: Seq<FieldView>, one: FieldView, room: nat)
    requires
        one.tag != 1,
        one.tag < FIRST_PAYLOAD_TAG || one.tag > LAST_PAYLOAD_TAG,
    ensures
        EnvelopeView::decoded(fields.push(one), room) == EnvelopeView::decoded(fields, room),
{
    let more = fields.push(one);
    assert(more.drop_last() =~= fields);
    codec::lemma_unknown(fields, one, Seq::empty(), 1);
    assert(fields + seq![one] + Seq::empty() =~= more);
    assert(fields + Seq::empty() =~= fields);
}

/// The last payload counts: behind whatever could be read, a payload of another sort takes
/// the place of the one before it, and the number stays.
pub proof fn law_last_payload(fields: Seq<FieldView>, payload: PayloadView, room: nat)
    requires
        room > 1,
        payload.canonical(),
        wire::fields_bytes(payload.encoded()).len() <= u64::MAX,
        EnvelopeView::decoded(fields, room) is Some,
        EnvelopeView::decoded(fields, room)->0.payload matches Some(before) ==> before.tag()
            != payload.tag(),
    ensures
        EnvelopeView::decoded(
            fields + codec::message_field(payload.tag(), payload.encoded()),
            room,
        ) == Some(
            EnvelopeView {
                seq: EnvelopeView::decoded(fields, room)->0.seq,
                payload: Some(payload),
            },
        ),
{
    let inner = (room - 1) as nat;
    let one = codec::message_field(payload.tag(), payload.encoded())[0];
    let more = fields + codec::message_field(payload.tag(), payload.encoded());
    assert(more.drop_last() =~= fields);
    assert(more.last() == one);
    payload.lemma_round_trip(inner);
    wire::lemma_read_fields(payload.encoded(), inner);
    codec::lemma_unknown(fields, one, Seq::empty(), 1);
    assert(fields + seq![one] + Seq::empty() =~= more);
    assert(fields + Seq::empty() =~= fields);
    if let Some(Some((tag, parts))) = last_payload(fields, inner) {
        law_tag(tag, parts, inner);
    }
    assert(Seq::<FieldView>::empty() + payload.encoded() =~= payload.encoded());
}

/// A payload that comes in parts of one sort is all its parts together, in order.
pub proof fn law_merged(
    fields: Seq<FieldView>,
    parts: Seq<FieldView>,
    payload: PayloadView,
    room: nat,
)
    requires
        room > 0,
        payload.canonical(),
        wire::fields_bytes(payload.encoded()).len() <= u64::MAX,
        last_payload(fields, room) == Some(Some((payload.tag(), parts))),
    ensures
        last_payload(
            fields + codec::message_field(payload.tag(), payload.encoded()),
            room,
        ) == Some(Some((payload.tag(), parts + payload.encoded()))),
{
    let more = fields + codec::message_field(payload.tag(), payload.encoded());
    assert(more.drop_last() =~= fields);
    payload.lemma_round_trip(room);
    wire::lemma_read_fields(payload.encoded(), room);
}

} // verus!
