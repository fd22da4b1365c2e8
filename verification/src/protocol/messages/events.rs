//! Audio that comes in, and what the core reports without being asked.

use crate::protocol::codec;
use crate::protocol::codec::Float64;
use crate::protocol::messages::config::AudioFormat;
use crate::protocol::wire;
use crate::protocol::wire::Field;
use crate::protocol::wire::FieldView;
use crate::text;
use vstd::prelude::*;

verus! {

/// A chunk of interleaved PCM audio.
#[derive(Debug, PartialEq)]
pub struct AudioFrame {
    pub session_id: String,
    pub timestamp_us: u64,
    pub format: Option<AudioFormat>,
    pub frames: u32,
    pub pcm: Vec<u8>,
}

/// The model of [`AudioFrame`].
#[verifier::ext_equal]
pub struct AudioFrameView {
    pub session_id: Seq<char>,
    pub timestamp_us: u64,
    pub format: Option<AudioFormat>,
    pub frames: u32,
    pub pcm: Seq<u8>,
}

impl View for AudioFrame {
    type V = AudioFrameView;

    open spec fn view(&self) -> AudioFrameView {
        AudioFrameView {
            session_id: self.session_id@,
            timestamp_us: self.timestamp_us,
            format: match self.format {
                Some(inner) => Some(inner@),
                None => None,
            },
            frames: self.frames,
            pcm: self.pcm@,
        }
    }
}

impl AudioFrameView {
    /// The fields of the message.
    #[verifier::opaque]
    pub open spec fn encoded(self) -> Seq<FieldView> {
        codec::text_field(1, self.session_id)
            + codec::varint_field(2, self.timestamp_us)
            + codec::optional_field(3, AudioFormat::optional_encoded(self.format))
            + codec::varint_field(4, self.frames as u64)
            + codec::bytes_field(5, self.pcm)
    }

    /// The message with the given fields, if they are those of one.
    #[verifier::opaque]
    pub open spec fn decoded(fields: Seq<FieldView>, room: nat) -> Option<AudioFrameView> {
        match (
            codec::text_in(fields, 1),
            codec::varint_in(fields, 2),
            AudioFormat::optional_decoded(codec::message_in(fields, 3, (room - 1) as nat)),
            codec::varint_in(fields, 4),
            codec::bytes_in(fields, 5),
        ) {
            (Some(session_id), Some(timestamp_us), Some(format), Some(frames), Some(pcm)) => Some(
                AudioFrameView {
                    session_id,
                    timestamp_us,
                    format,
                    frames: codec::low_u32(frames),
                    pcm,
                },
            ),
            _ => None,
        }
    }

    /// The fields of a message give the message back.
    pub proof fn lemma_round_trip(self, room: nat)
        requires
            room > 0,
            wire::fields_bytes(self.encoded()).len() <= u64::MAX,
        ensures
            AudioFrameView::decoded(self.encoded(), room) == Some(self),
            codec::all_shaped(self.encoded()),
    {
        broadcast use {codec::group_values, codec::lemma_shaped_add, wire::lemma_fields_bytes_add};

        reveal(AudioFrameView::encoded);
        reveal(AudioFrameView::decoded);
        let all = self.encoded();
        codec::lemma_shaped_fields(1);
        codec::lemma_shaped_fields(2);
        codec::lemma_shaped_fields(3);
        codec::lemma_shaped_fields(4);
        codec::lemma_shaped_fields(5);
        let session_id = codec::text_field(1, self.session_id);
        assert(codec::values(all, 1) =~= codec::values(session_id, 1));
        codec::lemma_text_in(all, 1, self.session_id);
        let timestamp_us = codec::varint_field(2, self.timestamp_us);
        assert(codec::values(all, 2) =~= codec::values(timestamp_us, 2));
        codec::lemma_varint_in(all, 2, self.timestamp_us);
        let format = codec::optional_field(3, AudioFormat::optional_encoded(self.format));
        assert(codec::values(all, 3) =~= codec::values(format, 3));
        if let Some(inner) = self.format {
            inner.lemma_round_trip();
            codec::lemma_message_writable(3, inner.encoded());
        }
        codec::lemma_message_in(
            all,
            3,
            AudioFormat::optional_encoded(self.format),
            (room - 1) as nat,
        );
        let frames = codec::varint_field(4, self.frames as u64);
        assert(codec::values(all, 4) =~= codec::values(frames, 4));
        codec::lemma_varint_in(all, 4, self.frames as u64);
        let pcm = codec::bytes_field(5, self.pcm);
        assert(codec::values(all, 5) =~= codec::values(pcm, 5));
        codec::lemma_bytes_in(all, 5, self.pcm);
    }

    /// Every part of the message is written under its own tag, and nothing else is.
    pub proof fn law_fields(self, tag: u32)
        ensures
            codec::values(self.encoded(), 1) == codec::text_values(self.session_id),
            codec::values(self.encoded(), 2) == codec::number_values(self.timestamp_us),
            codec::values(self.encoded(), 3) == codec::embedded_values(
                AudioFormat::optional_encoded(self.format),
            ),
            codec::values(self.encoded(), 4) == codec::number_values(self.frames as u64),
            codec::values(self.encoded(), 5) == codec::bytes_values(self.pcm),
            tag == 0 || tag > 5 ==> codec::values(self.encoded(), tag).len() == 0,
    {
        broadcast use codec::group_values;

        reveal(AudioFrameView::encoded);
        assert(codec::values(self.encoded(), 1) =~= codec::text_values(self.session_id));
        assert(codec::values(self.encoded(), 2) =~= codec::number_values(self.timestamp_us));
        assert(
            codec::values(self.encoded(), 3) =~= codec::embedded_values(
                AudioFormat::optional_encoded(self.format),
            )
        );
        assert(codec::values(self.encoded(), 4) =~= codec::number_values(self.frames as u64));
        assert(codec::values(self.encoded(), 5) =~= codec::bytes_values(self.pcm));
    }

    /// A field under any other tag changes nothing, wherever it stands.
    pub proof fn law_unknown(a: Seq<FieldView>, one: FieldView, b: Seq<FieldView>, room: nat)
        requires
            one.tag == 0 || one.tag > 5,
        ensures
            AudioFrameView::decoded(
                a + seq![one] + b,
                room,
            ) == AudioFrameView::decoded(a + b, room),
    {
        reveal(AudioFrameView::decoded);
        codec::lemma_unknown(a, one, b, 1);
        codec::lemma_unknown(a, one, b, 2);
        codec::lemma_unknown(a, one, b, 3);
        codec::lemma_unknown(a, one, b, 4);
        codec::lemma_unknown(a, one, b, 5);
    }
}

impl AudioFrame {
    /// The fields of the message.
    pub fn fields(&self) -> (out: Vec<Field>)
        ensures
            wire::field_views(out@) == self@.encoded(),
            codec::all_writable(wire::field_views(out@)),
    {
        proof {
            reveal(AudioFrameView::encoded);
        }
        let mut out: Vec<Field> = Vec::new();
        codec::add_text(&mut out, 1, self.session_id.as_str());
        assert(wire::field_views(out@) =~= codec::text_field(1, self@.session_id));
        codec::add_varint(&mut out, 2, self.timestamp_us);
        match &self.format {
            Some(inner) => codec::add_message(&mut out, 3, &inner.fields()),
            None => {
                assert(
                    wire::field_views(out@) =~= wire::field_views(out@) + codec::optional_field(
                        3,
                        AudioFormat::optional_encoded(self@.format),
                    )
                );
            },
        }
        codec::add_varint(&mut out, 4, self.frames as u64);
        codec::add_bytes(&mut out, 5, self.pcm.as_slice());
        out
    }

    /// The message with the given fields, if they are those of one.
    pub fn of(fields: &Vec<Field>, room: u32) -> (message: Option<AudioFrame>)
        requires
            room > 0,
        ensures
            match message {
                Some(message) => AudioFrameView::decoded(
                    wire::field_views(fields@),
                    room as nat,
                ) == Some(message@),
                None => AudioFrameView::decoded(wire::field_views(fields@), room as nat) is None,
            },
    {
        proof {
            reveal(AudioFrameView::decoded);
        }
        let session_id: String = codec::find_text(fields, 1)?;
        let timestamp_us: u64 = codec::find_varint(fields, 2)?;
        let format: Option<AudioFormat> = match codec::find_message(fields, 3, room - 1)? {
            Some(inner) => Some(AudioFormat::of(&inner)?),
            None => None,
        };
        let frames: u32 = codec::narrow_u32(codec::find_varint(fields, 4)?);
        let pcm: Vec<u8> = codec::find_bytes(fields, 5)?;
        Some(AudioFrame { session_id, timestamp_us, format, frames, pcm })
    }
}

/// The text block that should be on screen now.
#[derive(Debug, PartialEq)]
pub struct SubtitleEvent {
    pub session_id: String,
    pub seq: u64,
    pub kind: i32,
    pub text: String,
    pub translated_text: String,
    pub language: String,
    pub start_us: u64,
    pub end_us: u64,
    pub confidence: Float64,
    pub lines: Vec<String>,
}

/// The model of [`SubtitleEvent`].
#[verifier::ext_equal]
pub struct SubtitleEventView {
    pub session_id: Seq<char>,
    pub seq: u64,
    pub kind: i32,
    pub text: Seq<char>,
    pub translated_text: Seq<char>,
    pub language: Seq<char>,
    pub start_us: u64,
    pub end_us: u64,
    pub confidence: Float64,
    pub lines: Seq<Seq<char>>,
}

impl View for SubtitleEvent {
    type V = SubtitleEventView;

    open spec fn view(&self) -> SubtitleEventView {
        SubtitleEventView {
            session_id: self.session_id@,
            seq: self.seq,
            kind: self.kind,
            text: self.text@,
            translated_text: self.translated_text@,
            language: self.language@,
            start_us: self.start_us,
            end_us: self.end_us,
            confidence: self.confidence,
            lines: text::texts(self.lines@),
        }
    }
}

impl SubtitleEventView {
    /// The fields of the message.
    #[verifier::opaque]
    pub open spec fn encoded(self) -> Seq<FieldView> {
        codec::text_field(1, self.session_id)
            + codec::varint_field(2, self.seq)
            + codec::varint_field(3, codec::wide_i32(self.kind))
            + codec::text_field(4, self.text)
            + codec::text_field(5, self.translated_text)
            + codec::text_field(6, self.language)
            + codec::varint_field(7, self.start_us)
            + codec::varint_field(8, self.end_us)
            + codec::double_field(9, self.confidence)
            + codec::texts_field(10, self.lines)
    }

    /// The message with the given fields, if they are those of one.
    #[verifier::opaque]
    pub open spec fn decoded(fields: Seq<FieldView>) -> Option<SubtitleEventView> {
        match (
            codec::text_in(fields, 1),
            codec::varint_in(fields, 2),
            codec::varint_in(fields, 3),
            codec::text_in(fields, 4),
            codec::text_in(fields, 5),
            codec::text_in(fields, 6),
            codec::varint_in(fields, 7),
            codec::varint_in(fields, 8),
            codec::double_in(fields, 9),
            codec::texts_in(fields, 10),
        ) {
            (
                Some(session_id),
                Some(seq),
                Some(kind),
                Some(text),
                Some(translated_text),
                Some(language),
                Some(start_us),
                Some(end_us),
                Some(confidence),
                Some(lines),
            ) => Some(
                SubtitleEventView {
                    session_id,
                    seq,
                    kind: codec::low_i32(kind),
                    text,
                    translated_text,
                    language,
                    start_us,
                    end_us,
                    confidence,
                    lines,
                },
            ),
            _ => None,
        }
    }

    /// The fields of a message give the message back.
    pub proof fn lemma_round_trip(self)
        requires
            self.confidence.bits != 0x8000_0000_0000_0000,
        ensures
            SubtitleEventView::decoded(self.encoded()) == Some(self),
            codec::all_shaped(self.encoded()),
    {
        broadcast use {codec::group_values, codec::lemma_shaped_add};

        reveal(SubtitleEventView::encoded);
        reveal(SubtitleEventView::decoded);
        let all = self.encoded();
        codec::lemma_shaped_fields(1);
        codec::lemma_shaped_fields(2);
        codec::lemma_shaped_fields(3);
        codec::lemma_shaped_fields(4);
        codec::lemma_shaped_fields(5);
        codec::lemma_shaped_fields(6);
        codec::lemma_shaped_fields(7);
        codec::lemma_shaped_fields(8);
        codec::lemma_shaped_fields(9);
        codec::lemma_shaped_fields(10);
        let session_id = codec::text_field(1, self.session_id);
        assert(codec::values(all, 1) =~= codec::values(session_id, 1));
        codec::lemma_text_in(all, 1, self.session_id);
        let seq = codec::varint_field(2, self.seq);
        assert(codec::values(all, 2) =~= codec::values(seq, 2));
        codec::lemma_varint_in(all, 2, self.seq);
        let kind = codec::varint_field(3, codec::wide_i32(self.kind));
        assert(codec::values(all, 3) =~= codec::values(kind, 3));
        codec::lemma_varint_in(all, 3, codec::wide_i32(self.kind));
        codec::lemma_i32(self.kind);
        let text = codec::text_field(4, self.text);
        assert(codec::values(all, 4) =~= codec::values(text, 4));
        codec::lemma_text_in(all, 4, self.text);
        let translated_text = codec::text_field(5, self.translated_text);
        assert(codec::values(all, 5) =~= codec::values(translated_text, 5));
        codec::lemma_text_in(all, 5, self.translated_text);
        let language = codec::text_field(6, self.language);
        assert(codec::values(all, 6) =~= codec::values(language, 6));
        codec::lemma_text_in(all, 6, self.language);
        let start_us = codec::varint_field(7, self.start_us);
        assert(codec::values(all, 7) =~= codec::values(start_us, 7));
        codec::lemma_varint_in(all, 7, self.start_us);
        let end_us = codec::varint_field(8, self.end_us);
        assert(codec::values(all, 8) =~= codec::values(end_us, 8));
        codec::lemma_varint_in(all, 8, self.end_us);
        let confidence = codec::double_field(9, self.confidence);
        assert(codec::values(all, 9) =~= codec::values(confidence, 9));
        codec::lemma_double_in(all, 9, self.confidence);
        let lines = codec::texts_field(10, self.lines);
        assert(codec::values(all, 10) =~= codec::values(lines, 10));
        codec::lemma_texts_in(all, 10, self.lines);
    }

    /// Every part of the message is written under its own tag, and nothing else is.
    pub proof fn law_fields(self, tag: u32)
        ensures
            codec::values(self.encoded(), 1) == codec::text_values(self.session_id),
            codec::values(self.encoded(), 2) == codec::number_values(self.seq),
            codec::values(self.encoded(), 3) == codec::number_values(codec::wide_i32(self.kind)),
            codec::values(self.encoded(), 4) == codec::text_values(self.text),
            codec::values(self.encoded(), 5) == codec::text_values(self.translated_text),
            codec::values(self.encoded(), 6) == codec::text_values(self.language),
            codec::values(self.encoded(), 7) == codec::number_values(self.start_us),
            codec::values(self.encoded(), 8) == codec::number_values(self.end_us),
            codec::values(self.encoded(), 9) == codec::double_values(self.confidence),
            codec::values(self.encoded(), 10) == codec::texts_values(self.lines),
            tag == 0 || tag > 10 ==> codec::values(self.encoded(), tag).len() == 0,
    {
        broadcast use codec::group_values;

        reveal(SubtitleEventView::encoded);
        assert(codec::values(self.encoded(), 1) =~= codec::text_values(self.session_id));
        assert(codec::values(self.encoded(), 2) =~= codec::number_values(self.seq));
        assert(
            codec::values(self.encoded(), 3) =~= codec::number_values(codec::wide_i32(self.kind))
        );
        assert(codec::values(self.encoded(), 4) =~= codec::text_values(self.text));
        assert(codec::values(self.encoded(), 5) =~= codec::text_values(self.translated_text));
        assert(codec::values(self.encoded(), 6) =~= codec::text_values(self.language));
        assert(codec::values(self.encoded(), 7) =~= codec::number_values(self.start_us));
        assert(codec::values(self.encoded(), 8) =~= codec::number_values(self.end_us));
        assert(codec::values(self.encoded(), 9) =~= codec::double_values(self.confidence));
        assert(codec::values(self.encoded(), 10) =~= codec::texts_values(self.lines));
    }

    /// A field under any other tag changes nothing, wherever it stands.
    pub proof fn law_unknown(a: Seq<FieldView>, one: FieldView, b: Seq<FieldView>)
        requires
            one.tag == 0 || one.tag > 10,
        ensures
            SubtitleEventView::decoded(a + seq![one] + b) == SubtitleEventView::decoded(a + b),
    {
        reveal(SubtitleEventView::decoded);
        codec::lemma_unknown(a, one, b, 1);
        codec::lemma_unknown(a, one, b, 2);
        codec::lemma_unknown(a, one, b, 3);
        codec::lemma_unknown(a, one, b, 4);
        codec::lemma_unknown(a, one, b, 5);
        codec::lemma_unknown(a, one, b, 6);
        codec::lemma_unknown(a, one, b, 7);
        codec::lemma_unknown(a, one, b, 8);
        codec::lemma_unknown(a, one, b, 9);
        codec::lemma_unknown(a, one, b, 10);
    }
}

impl SubtitleEvent {
    /// The fields of the message.
    pub fn fields(&self) -> (out: Vec<Field>)
        ensures
            wire::field_views(out@) == self@.encoded(),
            codec::all_writable(wire::field_views(out@)),
    {
        proof {
            reveal(SubtitleEventView::encoded);
        }
        let mut out: Vec<Field> = Vec::new();
        codec::add_text(&mut out, 1, self.session_id.as_str());
        assert(wire::field_views(out@) =~= codec::text_field(1, self@.session_id));
        codec::add_varint(&mut out, 2, self.seq);
        codec::add_varint(&mut out, 3, codec::widen_i32(self.kind));
        codec::add_text(&mut out, 4, self.text.as_str());
        codec::add_text(&mut out, 5, self.translated_text.as_str());
        codec::add_text(&mut out, 6, self.language.as_str());
        codec::add_varint(&mut out, 7, self.start_us);
        codec::add_varint(&mut out, 8, self.end_us);
        codec::add_double(&mut out, 9, self.confidence);
        codec::add_texts(&mut out, 10, &self.lines);
        out
    }

    /// The message with the given fields, if they are those of one.
    pub fn of(fields: &Vec<Field>) -> (message: Option<SubtitleEvent>)
        ensures
            match message {
                Some(message) => SubtitleEventView::decoded(
                    wire::field_views(fields@),
                ) == Some(message@),
                None => SubtitleEventView::decoded(wire::field_views(fields@)) is None,
            },
    {
        proof {
            reveal(SubtitleEventView::decoded);
        }
        let session_id: String = codec::find_text(fields, 1)?;
        let seq: u64 = codec::find_varint(fields, 2)?;
        let kind: i32 = codec::narrow_i32(codec::find_varint(fields, 3)?);
        let text: String = codec::find_text(fields, 4)?;
        let translated_text: String = codec::find_text(fields, 5)?;
        let language: String = codec::find_text(fields, 6)?;
        let start_us: u64 = codec::find_varint(fields, 7)?;
        let end_us: u64 = codec::find_varint(fields, 8)?;
        let confidence: Float64 = codec::find_double(fields, 9)?;
        let lines: Vec<String> = codec::find_texts(fields, 10)?;
        Some(
            SubtitleEvent {
                session_id,
                seq,
                kind,
                text,
                translated_text,
                language,
                start_us,
                end_us,
                confidence,
                lines,
            },
        )
    }
}

/// A change of the core's status.
#[derive(Debug, PartialEq)]
pub struct StatusEvent {
    pub status: i32,
    pub detail: String,
    pub timestamp_us: u64,
}

/// The model of [`StatusEvent`].
#[verifier::ext_equal]
pub struct StatusEventView {
    pub status: i32,
    pub detail: Seq<char>,
    pub timestamp_us: u64,
}

impl View for StatusEvent {
    type V = StatusEventView;

    open spec fn view(&self) -> StatusEventView {
        StatusEventView {
            status: self.status,
            detail: self.detail@,
            timestamp_us: self.timestamp_us,
        }
    }
}

impl StatusEventView {
    /// The fields of the message.
    #[verifier::opaque]
    pub open spec fn encoded(self) -> Seq<FieldView> {
        codec::varint_field(1, codec::wide_i32(self.status))
            + codec::text_field(2, self.detail)
            + codec::varint_field(3, self.timestamp_us)
    }

    /// The message with the given fields, if they are those of one.
    #[verifier::opaque]
    pub open spec fn decoded(fields: Seq<FieldView>) -> Option<StatusEventView> {
        match (
            codec::varint_in(fields, 1),
            codec::text_in(fields, 2),
            codec::varint_in(fields, 3),
        ) {
            (Some(status), Some(detail), Some(timestamp_us)) => Some(
                StatusEventView {
                    status: codec::low_i32(status),
                    detail,
                    timestamp_us,
                },
            ),
            _ => None,
        }
    }

    /// The fields of a message give the message back.
    pub proof fn lemma_round_trip(self)
        ensures
            StatusEventView::decoded(self.encoded()) == Some(self),
            codec::all_shaped(self.encoded()),
    {
        broadcast use {codec::group_values, codec::lemma_shaped_add};

        reveal(StatusEventView::encoded);
        reveal(StatusEventView::decoded);
        let all = self.encoded();
        codec::lemma_shaped_fields(1);
        codec::lemma_shaped_fields(2);
        codec::lemma_shaped_fields(3);
        let status = codec::varint_field(1, codec::wide_i32(self.status));
        assert(codec::values(all, 1) =~= codec::values(status, 1));
        codec::lemma_varint_in(all, 1, codec::wide_i32(self.status));
        codec::lemma_i32(self.status);
        let detail = codec::text_field(2, self.detail);
        assert(codec::values(all, 2) =~= codec::values(detail, 2));
        codec::lemma_text_in(all, 2, self.detail);
        let timestamp_us = codec::varint_field(3, self.timestamp_us);
        assert(codec::values(all, 3) =~= codec::values(timestamp_us, 3));
        codec::lemma_varint_in(all, 3, self.timestamp_us);
    }

    /// Every part of the message is written under its own tag, and nothing else is.
    pub proof fn law_fields(self, tag: u32)
        ensures
            codec::values(self.encoded(), 1) == codec::number_values(codec::wide_i32(self.status)),
            codec::values(self.encoded(), 2) == codec::text_values(self.detail),
            codec::values(self.encoded(), 3) == codec::number_values(self.timestamp_us),
            tag == 0 || tag > 3 ==> codec::values(self.encoded(), tag).len() == 0,
    {
        broadcast use codec::group_values;

        reveal(StatusEventView::encoded);
        assert(
            codec::values(self.encoded(), 1) =~= codec::number_values(codec::wide_i32(self.status))
        );
        assert(codec::values(self.encoded(), 2) =~= codec::text_values(self.detail));
        assert(codec::values(self.encoded(), 3) =~= codec::number_values(self.timestamp_us));
    }

    /// A field under any other tag changes nothing, wherever it stands.
    pub proof fn law_unknown(a: Seq<FieldView>, one: FieldView, b: Seq<FieldView>)
        requires
            one.tag == 0 || one.tag > 3,
        ensures
            StatusEventView::decoded(a + seq![one] + b) == StatusEventView::decoded(a + b),
    {
        reveal(StatusEventView::decoded);
        codec::lemma_unknown(a, one, b, 1);
        codec::lemma_unknown(a, one, b, 2);
        codec::lemma_unknown(a, one, b, 3);
    }
}

impl StatusEvent {
    /// The fields of the message.
    pub fn fields(&self) -> (out: Vec<Field>)
        ensures
            wire::field_views(out@) == self@.encoded(),
            codec::all_writable(wire::field_views(out@)),
    {
        proof {
            reveal(StatusEventView::encoded);
        }
        let mut out: Vec<Field> = Vec::new();
        codec::add_varint(&mut out, 1, codec::widen_i32(self.status));
        assert(wire::field_views(out@) =~= codec::varint_field(1, codec::wide_i32(self@.status)));
        codec::add_text(&mut out, 2, self.detail.as_str());
        codec::add_varint(&mut out, 3, self.timestamp_us);
        out
    }

    /// The message with the given fields, if they are those of one.
    pub fn of(fields: &Vec<Field>) -> (message: Option<StatusEvent>)
        ensures
            match message {
                Some(message) => StatusEventView::decoded(
                    wire::field_views(fields@),
                ) == Some(message@),
                None => StatusEventView::decoded(wire::field_views(fields@)) is None,
            },
    {
        proof {
            reveal(StatusEventView::decoded);
        }
        let status: i32 = codec::narrow_i32(codec::find_varint(fields, 1)?);
        let detail: String = codec::find_text(fields, 2)?;
        let timestamp_us: u64 = codec::find_varint(fields, 3)?;
        Some(StatusEvent { status, detail, timestamp_us })
    }
}

/// Counters of the running session.
#[derive(Debug, Clone, Copy, PartialEq, Eq, Structural)]
pub struct MetricsEvent {
    pub audio_frames: u64,
    pub audio_bytes: u64,
    pub audio_ms: u64,
    pub dropped_frames: u64,
    pub speech_ratio: Float64,
    pub subtitle_events: u64,
}

impl View for MetricsEvent {
    type V = MetricsEvent;

    open spec fn view(&self) -> MetricsEvent {
        *self
    }
}

impl MetricsEvent {
    /// The fields of the message.
    #[verifier::opaque]
    pub open spec fn encoded(self) -> Seq<FieldView> {
        codec::varint_field(1, self.audio_frames)
            + codec::varint_field(2, self.audio_bytes)
            + codec::varint_field(3, self.audio_ms)
            + codec::varint_field(4, self.dropped_frames)
            + codec::double_field(5, self.speech_ratio)
            + codec::varint_field(6, self.subtitle_events)
    }

    /// The message with the given fields, if they are those of one.
    #[verifier::opaque]
    pub open spec fn decoded(fields: Seq<FieldView>) -> Option<MetricsEvent> {
        match (
            codec::varint_in(fields, 1),
            codec::varint_in(fields, 2),
            codec::varint_in(fields, 3),
            codec::varint_in(fields, 4),
            codec::double_in(fields, 5),
            codec::varint_in(fields, 6),
        ) {
            (
                Some(audio_frames),
                Some(audio_bytes),
                Some(audio_ms),
                Some(dropped_frames),
                Some(speech_ratio),
                Some(subtitle_events),
            ) => Some(
                MetricsEvent {
                    audio_frames,
                    audio_bytes,
                    audio_ms,
                    dropped_frames,
                    speech_ratio,
                    subtitle_events,
                },
            ),
            _ => None,
        }
    }

    /// The fields of a message give the message back.
    pub proof fn lemma_round_trip(self)
        requires
            self.speech_ratio.bits != 0x8000_0000_0000_0000,
        ensures
            MetricsEvent::decoded(self.encoded()) == Some(self),
            codec::all_shaped(self.encoded()),
    {
        broadcast use {codec::group_values, codec::lemma_shaped_add};

        reveal(MetricsEvent::encoded);
        reveal(MetricsEvent::decoded);
        let all = self.encoded();
        codec::lemma_shaped_fields(1);
        codec::lemma_shaped_fields(2);
        codec::lemma_shaped_fields(3);
        codec::lemma_shaped_fields(4);
        codec::lemma_shaped_fields(5);
        codec::lemma_shaped_fields(6);
        let audio_frames = codec::varint_field(1, self.audio_frames);
        assert(codec::values(all, 1) =~= codec::values(audio_frames, 1));
        codec::lemma_varint_in(all, 1, self.audio_frames);
        let audio_bytes = codec::varint_field(2, self.audio_bytes);
        assert(codec::values(all, 2) =~= codec::values(audio_bytes, 2));
        codec::lemma_varint_in(all, 2, self.audio_bytes);
        let audio_ms = codec::varint_field(3, self.audio_ms);
        assert(codec::values(all, 3) =~= codec::values(audio_ms, 3));
        codec::lemma_varint_in(all, 3, self.audio_ms);
        let dropped_frames = codec::varint_field(4, self.dropped_frames);
        assert(codec::values(all, 4) =~= codec::values(dropped_frames, 4));
        codec::lemma_varint_in(all, 4, self.dropped_frames);
        let speech_ratio = codec::double_field(5, self.speech_ratio);
        assert(codec::values(all, 5) =~= codec::values(speech_ratio, 5));
        codec::lemma_double_in(all, 5, self.speech_ratio);
        let subtitle_events = codec::varint_field(6, self.subtitle_events);
        assert(codec::values(all, 6) =~= codec::values(subtitle_events, 6));
        codec::lemma_varint_in(all, 6, self.subtitle_events);
    }

    /// Every part of the message is written under its own tag, and nothing else is.
    pub proof fn law_fields(self, tag: u32)
        ensures
            codec::values(self.encoded(), 1) == codec::number_values(self.audio_frames),
            codec::values(self.encoded(), 2) == codec::number_values(self.audio_bytes),
            codec::values(self.encoded(), 3) == codec::number_values(self.audio_ms),
            codec::values(self.encoded(), 4) == codec::number_values(self.dropped_frames),
            codec::values(self.encoded(), 5) == codec::double_values(self.speech_ratio),
            codec::values(self.encoded(), 6) == codec::number_values(self.subtitle_events),
            tag == 0 || tag > 6 ==> codec::values(self.encoded(), tag).len() == 0,
    {
        broadcast use codec::group_values;

        reveal(MetricsEvent::encoded);
        assert(codec::values(self.encoded(), 1) =~= codec::number_values(self.audio_frames));
        assert(codec::values(self.encoded(), 2) =~= codec::number_values(self.audio_bytes));
        assert(codec::values(self.encoded(), 3) =~= codec::number_values(self.audio_ms));
        assert(codec::values(self.encoded(), 4) =~= codec::number_values(self.dropped_frames));
        assert(codec::values(self.encoded(), 5) =~= codec::double_values(self.speech_ratio));
        assert(codec::values(self.encoded(), 6) =~= codec::number_values(self.subtitle_events));
    }

    /// A field under any other tag changes nothing, wherever it stands.
    pub proof fn law_unknown(a: Seq<FieldView>, one: FieldView, b: Seq<FieldView>)
        requires
            one.tag == 0 || one.tag > 6,
        ensures
            MetricsEvent::decoded(a + seq![one] + b) == MetricsEvent::decoded(a + b),
    {
        reveal(MetricsEvent::decoded);
        codec::lemma_unknown(a, one, b, 1);
        codec::lemma_unknown(a, one, b, 2);
        codec::lemma_unknown(a, one, b, 3);
        codec::lemma_unknown(a, one, b, 4);
        codec::lemma_unknown(a, one, b, 5);
        codec::lemma_unknown(a, one, b, 6);
    }
}

impl MetricsEvent {
    /// The fields of the message.
    pub fn fields(&self) -> (out: Vec<Field>)
        ensures
            wire::field_views(out@) == self@.encoded(),
            codec::all_writable(wire::field_views(out@)),
    {
        proof {
            reveal(MetricsEvent::encoded);
        }
        let mut out: Vec<Field> = Vec::new();
        codec::add_varint(&mut out, 1, self.audio_frames);
        assert(wire::field_views(out@) =~= codec::varint_field(1, self@.audio_frames));
        codec::add_varint(&mut out, 2, self.audio_bytes);
        codec::add_varint(&mut out, 3, self.audio_ms);
        codec::add_varint(&mut out, 4, self.dropped_frames);
        codec::add_double(&mut out, 5, self.speech_ratio);
        codec::add_varint(&mut out, 6, self.subtitle_events);
        out
    }

    /// The message with the given fields, if they are those of one.
    pub fn of(fields: &Vec<Field>) -> (message: Option<MetricsEvent>)
        ensures
            match message {
                Some(message) => MetricsEvent::decoded(
                    wire::field_views(fields@),
                ) == Some(message@),
                None => MetricsEvent::decoded(wire::field_views(fields@)) is None,
            },
    {
        proof {
            reveal(MetricsEvent::decoded);
        }
        let audio_frames: u64 = codec::find_varint(fields, 1)?;
        let audio_bytes: u64 = codec::find_varint(fields, 2)?;
        let audio_ms: u64 = codec::find_varint(fields, 3)?;
        let dropped_frames: u64 = codec::find_varint(fields, 4)?;
        let speech_ratio: Float64 = codec::find_double(fields, 5)?;
        let subtitle_events: u64 = codec::find_varint(fields, 6)?;
        Some(
            MetricsEvent {
                audio_frames,
                audio_bytes,
                audio_ms,
                dropped_frames,
                speech_ratio,
                subtitle_events,
            },
        )
    }
}

/// Something went wrong.
#[derive(Debug, PartialEq)]
pub struct ErrorEvent {
    pub code: i32,
    pub message: String,
    pub fatal: bool,
}

/// The model of [`ErrorEvent`].
#[verifier::ext_equal]
pub struct ErrorEventView {
    pub code: i32,
    pub message: Seq<char>,
    pub fatal: bool,
}

impl View for ErrorEvent {
    type V = ErrorEventView;

    open spec fn view(&self) -> ErrorEventView {
        ErrorEventView {
            code: self.code,
            message: self.message@,
            fatal: self.fatal,
        }
    }
}

impl ErrorEventView {
    /// The fields of the message.
    #[verifier::opaque]
    pub open spec fn encoded(self) -> Seq<FieldView> {
        codec::varint_field(1, codec::wide_i32(self.code))
            + codec::text_field(2, self.message)
            + codec::varint_field(3, codec::flag(self.fatal))
    }

    /// The message with the given fields, if they are those of one.
    #[verifier::opaque]
    pub open spec fn decoded(fields: Seq<FieldView>) -> Option<ErrorEventView> {
        match (
            codec::varint_in(fields, 1),
            codec::text_in(fields, 2),
            codec::varint_in(fields, 3),
        ) {
            (Some(code), Some(message), Some(fatal)) => Some(
                ErrorEventView {
                    code: codec::low_i32(code),
                    message,
                    fatal: fatal != 0,
                },
            ),
            _ => None,
        }
    }

    /// The fields of a message give the message back.
    pub proof fn lemma_round_trip(self)
        ensures
            ErrorEventView::decoded(self.encoded()) == Some(self),
            codec::all_shaped(self.encoded()),
    {
        broadcast use {codec::group_values, codec::lemma_shaped_add};

        reveal(ErrorEventView::encoded);
        reveal(ErrorEventView::decoded);
        let all = self.encoded();
        codec::lemma_shaped_fields(1);
        codec::lemma_shaped_fields(2);
        codec::lemma_shaped_fields(3);
        let code = codec::varint_field(1, codec::wide_i32(self.code));
        assert(codec::values(all, 1) =~= codec::values(code, 1));
        codec::lemma_varint_in(all, 1, codec::wide_i32(self.code));
        codec::lemma_i32(self.code);
        let message = codec::text_field(2, self.message);
        assert(codec::values(all, 2) =~= codec::values(message, 2));
        codec::lemma_text_in(all, 2, self.message);
        let fatal = codec::varint_field(3, codec::flag(self.fatal));
        assert(codec::values(all, 3) =~= codec::values(fatal, 3));
        codec::lemma_varint_in(all, 3, codec::flag(self.fatal));
    }

    /// Every part of the message is written under its own tag, and nothing else is.
    pub proof fn law_fields(self, tag: u32)
        ensures
            codec::values(self.encoded(), 1) == codec::number_values(codec::wide_i32(self.code)),
            codec::values(self.encoded(), 2) == codec::text_values(self.message),
            codec::values(self.encoded(), 3) == codec::flag_values(self.fatal),
            tag == 0 || tag > 3 ==> codec::values(self.encoded(), tag).len() == 0,
    {
        broadcast use codec::group_values;

        reveal(ErrorEventView::encoded);
        assert(
            codec::values(self.encoded(), 1) =~= codec::number_values(codec::wide_i32(self.code))
        );
        assert(codec::values(self.encoded(), 2) =~= codec::text_values(self.message));
        assert(codec::values(self.encoded(), 3) =~= codec::flag_values(self.fatal));
    }

    /// A field under any other tag changes nothing, wherever it stands.
    pub proof fn law_unknown(a: Seq<FieldView>, one: FieldView, b: Seq<FieldView>)
        requires
            one.tag == 0 || one.tag > 3,
        ensures
            ErrorEventView::decoded(a + seq![one] + b) == ErrorEventView::decoded(a + b),
    {
        reveal(ErrorEventView::decoded);
        codec::lemma_unknown(a, one, b, 1);
        codec::lemma_unknown(a, one, b, 2);
        codec::lemma_unknown(a, one, b, 3);
    }
}

impl ErrorEvent {
    /// The fields of the message.
    pub fn fields(&self) -> (out: Vec<Field>)
        ensures
            wire::field_views(out@) == self@.encoded(),
            codec::all_writable(wire::field_views(out@)),
    {
        proof {
            reveal(ErrorEventView::encoded);
        }
        let mut out: Vec<Field> = Vec::new();
        codec::add_varint(&mut out, 1, codec::widen_i32(self.code));
        assert(wire::field_views(out@) =~= codec::varint_field(1, codec::wide_i32(self@.code)));
        codec::add_text(&mut out, 2, self.message.as_str());
        codec::add_varint(&mut out, 3, codec::flag_value(self.fatal));
        out
    }

    /// The message with the given fields, if they are those of one.
    pub fn of(fields: &Vec<Field>) -> (message: Option<ErrorEvent>)
        ensures
            match message {
                Some(message) => ErrorEventView::decoded(
                    wire::field_views(fields@),
                ) == Some(message@),
                None => ErrorEventView::decoded(wire::field_views(fields@)) is None,
            },
    {
        proof {
            reveal(ErrorEventView::decoded);
        }
        let code: i32 = codec::narrow_i32(codec::find_varint(fields, 1)?);
        let message: String = codec::find_text(fields, 2)?;
        let fatal: bool = codec::find_varint(fields, 3)? != 0;
        Some(ErrorEvent { code, message, fatal })
    }
}

} // verus!
