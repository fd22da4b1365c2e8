//! Requests of the client and the answers to them.

use crate::protocol::codec;
use crate::protocol::messages::config::AsrConfig;
use crate::protocol::messages::config::AudioFormat;
use crate::protocol::messages::config::SubtitleConfig;
use crate::protocol::messages::config::TranslationConfig;
use crate::protocol::messages::config::AsrConfigView;
use crate::protocol::messages::config::TranslationConfigView;
use crate::protocol::wire;
use crate::protocol::wire::Field;
use crate::protocol::wire::FieldView;
use crate::text;
use vstd::prelude::*;

verus! {

/// Opens the conversation; the protocol versions must match.
#[derive(Debug, PartialEq)]
pub struct HandshakeRequest {
    pub protocol_version: u32,
    pub client_id: String,
    pub client_version: String,
    pub features: Vec<String>,
}

/// The model of [`HandshakeRequest`].
#[verifier::ext_equal]
pub struct HandshakeRequestView {
    pub protocol_version: u32,
    pub client_id: Seq<char>,
    pub client_version: Seq<char>,
    pub features: Seq<Seq<char>>,
}

impl View for HandshakeRequest {
    type V = HandshakeRequestView;

    open spec fn view(&self) -> HandshakeRequestView {
        HandshakeRequestView {
            protocol_version: self.protocol_version,
            client_id: self.client_id@,
            client_version: self.client_version@,
            features: text::texts(self.features@),
        }
    }
}

impl HandshakeRequestView {
    /// The fields of the message.
    #[verifier::opaque]
    pub open spec fn encoded(self) -> Seq<FieldView> {
        codec::varint_field(1, self.protocol_version as u64)
            + codec::text_field(2, self.client_id)
            + codec::text_field(3, self.client_version)
            + codec::texts_field(4, self.features)
    }

    /// The message with the given fields, if they are those of one.
    #[verifier::opaque]
    pub open spec fn decoded(fields: Seq<FieldView>) -> Option<HandshakeRequestView> {
        match (
            codec::varint_in(fields, 1),
            codec::text_in(fields, 2),
            codec::text_in(fields, 3),
            codec::texts_in(fields, 4),
        ) {
            (Some(protocol_version), Some(client_id), Some(client_version), Some(features)) => Some(
                HandshakeRequestView {
                    protocol_version: codec::low_u32(protocol_version),
                    client_id,
                    client_version,
                    features,
                },
            ),
            _ => None,
        }
    }

    /// The fields of a message give the message back.
    pub proof fn lemma_round_trip(self)
        ensures
            HandshakeRequestView::decoded(self.encoded()) == Some(self),
            codec::all_shaped(self.encoded()),
    {
        broadcast use {codec::group_values, codec::lemma_shaped_add};

        reveal(HandshakeRequestView::encoded);
        reveal(HandshakeRequestView::decoded);
        let all = self.encoded();
        codec::lemma_shaped_fields(1);
        codec::lemma_shaped_fields(2);
        codec::lemma_shaped_fields(3);
        codec::lemma_shaped_fields(4);
        let protocol_version = codec::varint_field(1, self.protocol_version as u64);
        assert(codec::values(all, 1) =~= codec::values(protocol_version, 1));
        codec::lemma_varint_in(all, 1, self.protocol_version as u64);
        let client_id = codec::text_field(2, self.client_id);
        assert(codec::values(all, 2) =~= codec::values(client_id, 2));
        codec::lemma_text_in(all, 2, self.client_id);
        let client_version = codec::text_field(3, self.client_version);
        assert(codec::values(all, 3) =~= codec::values(client_version, 3));
        codec::lemma_text_in(all, 3, self.client_version);
        let features = codec::texts_field(4, self.features);
        assert(codec::values(all, 4) =~= codec::values(features, 4));
        codec::lemma_texts_in(all, 4, self.features);
    }

    /// Every part of the message is written under its own tag, and nothing else is.
    pub proof fn law_fields(self, tag: u32)
        ensures
            codec::values(self.encoded(), 1) == codec::number_values(self.protocol_version as u64),
            codec::values(self.encoded(), 2) == codec::text_values(self.client_id),
            codec::values(self.encoded(), 3) == codec::text_values(self.client_version),
            codec::values(self.encoded(), 4) == codec::texts_values(self.features),
            tag == 0 || tag > 4 ==> codec::values(self.encoded(), tag).len() == 0,
    {
        broadcast use codec::group_values;

        reveal(HandshakeRequestView::encoded);
        assert(
            codec::values(self.encoded(), 1) =~= codec::number_values(self.protocol_version as u64)
        );
        assert(codec::values(self.encoded(), 2) =~= codec::text_values(self.client_id));
        assert(codec::values(self.encoded(), 3) =~= codec::text_values(self.client_version));
        assert(codec::values(self.encoded(), 4) =~= codec::texts_values(self.features));
    }

    /// A field under any other tag changes nothing, wherever it stands.
    pub proof fn law_unknown(a: Seq<FieldView>, one: FieldView, b: Seq<FieldView>)
        requires
            one.tag == 0 || one.tag > 4,
        ensures
            HandshakeRequestView::decoded(
                a + seq![one] + b,
            ) == HandshakeRequestView::decoded(a + b),
    {
        reveal(HandshakeRequestView::decoded);
        codec::lemma_unknown(a, one, b, 1);
        codec::lemma_unknown(a, one, b, 2);
        codec::lemma_unknown(a, one, b, 3);
        codec::lemma_unknown(a, one, b, 4);
    }
}

impl HandshakeRequest {
    /// The fields of the message.
    pub fn fields(&self) -> (out: Vec<Field>)
        ensures
            wire::field_views(out@) == self@.encoded(),
            codec::all_writable(wire::field_views(out@)),
    {
        proof {
            reveal(HandshakeRequestView::encoded);
        }
        let mut out: Vec<Field> = Vec::new();
        codec::add_varint(&mut out, 1, self.protocol_version as u64);
        assert(wire::field_views(out@) =~= codec::varint_field(1, self@.protocol_version as u64));
        codec::add_text(&mut out, 2, self.client_id.as_str());
        codec::add_text(&mut out, 3, self.client_version.as_str());
        codec::add_texts(&mut out, 4, &self.features);
        out
    }

    /// The message with the given fields, if they are those of one.
    pub fn of(fields: &Vec<Field>) -> (message: Option<HandshakeRequest>)
        ensures
            match message {
                Some(message) => HandshakeRequestView::decoded(
                    wire::field_views(fields@),
                ) == Some(message@),
                None => HandshakeRequestView::decoded(wire::field_views(fields@)) is None,
            },
    {
        proof {
            reveal(HandshakeRequestView::decoded);
        }
        let protocol_version: u32 = codec::narrow_u32(codec::find_varint(fields, 1)?);
        let client_id: String = codec::find_text(fields, 2)?;
        let client_version: String = codec::find_text(fields, 3)?;
        let features: Vec<String> = codec::find_texts(fields, 4)?;
        Some(HandshakeRequest { protocol_version, client_id, client_version, features })
    }
}

/// Answers a handshake.
#[derive(Debug, PartialEq)]
pub struct HandshakeResponse {
    pub accepted: bool,
    pub server_version: String,
    pub negotiated_protocol_version: u32,
    pub features: Vec<String>,
    pub error: String,
}

/// The model of [`HandshakeResponse`].
#[verifier::ext_equal]
pub struct HandshakeResponseView {
    pub accepted: bool,
    pub server_version: Seq<char>,
    pub negotiated_protocol_version: u32,
    pub features: Seq<Seq<char>>,
    pub error: Seq<char>,
}

impl View for HandshakeResponse {
    type V = HandshakeResponseView;

    open spec fn view(&self) -> HandshakeResponseView {
        HandshakeResponseView {
            accepted: self.accepted,
            server_version: self.server_version@,
            negotiated_protocol_version: self.negotiated_protocol_version,
            features: text::texts(self.features@),
            error: self.error@,
        }
    }
}

impl HandshakeResponseView {
    /// The fields of the message.
    #[verifier::opaque]
    pub open spec fn encoded(self) -> Seq<FieldView> {
        codec::varint_field(1, codec::flag(self.accepted))
            + codec::text_field(2, self.server_version)
            + codec::varint_field(3, self.negotiated_protocol_version as u64)
            + codec::texts_field(4, self.features)
            + codec::text_field(5, self.error)
    }

    /// The message with the given fields, if they are those of one.
    #[verifier::opaque]
    pub open spec fn decoded(fields: Seq<FieldView>) -> Option<HandshakeResponseView> {
        match (
            codec::varint_in(fields, 1),
            codec::text_in(fields, 2),
            codec::varint_in(fields, 3),
            codec::texts_in(fields, 4),
            codec::text_in(fields, 5),
        ) {
            (
                Some(accepted),
                Some(server_version),
                Some(negotiated_protocol_version),
                Some(features),
                Some(error),
            ) => Some(
                HandshakeResponseView {
                    accepted: accepted != 0,
                    server_version,
                    negotiated_protocol_version: codec::low_u32(negotiated_protocol_version),
                    features,
                    error,
                },
            ),
            _ => None,
        }
    }

    /// The fields of a message give the message back.
    pub proof fn lemma_round_trip(self)
        ensures
            HandshakeResponseView::decoded(self.encoded()) == Some(self),
            codec::all_shaped(self.encoded()),
    {
        broadcast use {codec::group_values, codec::lemma_shaped_add};

        reveal(HandshakeResponseView::encoded);
        reveal(HandshakeResponseView::decoded);
        let all = self.encoded();
        codec::lemma_shaped_fields(1);
        codec::lemma_shaped_fields(2);
        codec::lemma_shaped_fields(3);
        codec::lemma_shaped_fields(4);
        codec::lemma_shaped_fields(5);
        let accepted = codec::varint_field(1, codec::flag(self.accepted));
        assert(codec::values(all, 1) =~= codec::values(accepted, 1));
        codec::lemma_varint_in(all, 1, codec::flag(self.accepted));
        let server_version = codec::text_field(2, self.server_version);
        assert(codec::values(all, 2) =~= codec::values(server_version, 2));
        codec::lemma_text_in(all, 2, self.server_version);
        let negotiated_protocol_version = codec::varint_field(
            3,
            self.negotiated_protocol_version as u64,
        );
        assert(codec::values(all, 3) =~= codec::values(negotiated_protocol_version, 3));
        codec::lemma_varint_in(all, 3, self.negotiated_protocol_version as u64);
        let features = codec::texts_field(4, self.features);
        assert(codec::values(all, 4) =~= codec::values(features, 4));
        codec::lemma_texts_in(all, 4, self.features);
        let error = codec::text_field(5, self.error);
        assert(codec::values(all, 5) =~= codec::values(error, 5));
        codec::lemma_text_in(all, 5, self.error);
    }

    /// Every part of the message is written under its own tag, and nothing else is.
    pub proof fn law_fields(self, tag: u32)
        ensures
            codec::values(self.encoded(), 1) == codec::flag_values(self.accepted),
            codec::values(self.encoded(), 2) == codec::text_values(self.server_version),
            codec::values(self.encoded(), 3) == codec::number_values(
                self.negotiated_protocol_version as u64,
            ),
            codec::values(self.encoded(), 4) == codec::texts_values(self.features),
            codec::values(self.encoded(), 5) == codec::text_values(self.error),
            tag == 0 || tag > 5 ==> codec::values(self.encoded(), tag).len() == 0,
    {
        broadcast use codec::group_values;

        reveal(HandshakeResponseView::encoded);
        assert(codec::values(self.encoded(), 1) =~= codec::flag_values(self.accepted));
        assert(codec::values(self.encoded(), 2) =~= codec::text_values(self.server_version));
        assert(
            codec::values(self.encoded(), 3) =~= codec::number_values(
                self.negotiated_protocol_version as u64,
            )
        );
        assert(codec::values(self.encoded(), 4) =~= codec::texts_values(self.features));
        assert(codec::values(self.encoded(), 5) =~= codec::text_values(self.error));
    }

    /// A field under any other tag changes nothing, wherever it stands.
    pub proof fn law_unknown(a: Seq<FieldView>, one: FieldView, b: Seq<FieldView>)
        requires
            one.tag == 0 || one.tag > 5,
        ensures
            HandshakeResponseView::decoded(
                a + seq![one] + b,
            ) == HandshakeResponseView::decoded(a + b),
    {
        reveal(HandshakeResponseView::decoded);
        codec::lemma_unknown(a, one, b, 1);
        codec::lemma_unknown(a, one, b, 2);
        codec::lemma_unknown(a, one, b, 3);
        codec::lemma_unknown(a, one, b, 4);
        codec::lemma_unknown(a, one, b, 5);
    }
}

impl HandshakeResponse {
    /// The fields of the message.
    pub fn fields(&self) -> (out: Vec<Field>)
        ensures
            wire::field_views(out@) == self@.encoded(),
            codec::all_writable(wire::field_views(out@)),
    {
        proof {
            reveal(HandshakeResponseView::encoded);
        }
        let mut out: Vec<Field> = Vec::new();
        codec::add_varint(&mut out, 1, codec::flag_value(self.accepted));
        assert(wire::field_views(out@) =~= codec::varint_field(1, codec::flag(self@.accepted)));
        codec::add_text(&mut out, 2, self.server_version.as_str());
        codec::add_varint(&mut out, 3, self.negotiated_protocol_version as u64);
        codec::add_texts(&mut out, 4, &self.features);
        codec::add_text(&mut out, 5, self.error.as_str());
        out
    }

    /// The message with the given fields, if they are those of one.
    pub fn of(fields: &Vec<Field>) -> (message: Option<HandshakeResponse>)
        ensures
            match message {
                Some(message) => HandshakeResponseView::decoded(
                    wire::field_views(fields@),
                ) == Some(message@),
                None => HandshakeResponseView::decoded(wire::field_views(fields@)) is None,
            },
    {
        proof {
            reveal(HandshakeResponseView::decoded);
        }
        let accepted: bool = codec::find_varint(fields, 1)? != 0;
        let server_version: String = codec::find_text(fields, 2)?;
        let negotiated_protocol_version: u32 = codec::narrow_u32(codec::find_varint(fields, 3)?);
        let features: Vec<String> = codec::find_texts(fields, 4)?;
        let error: String = codec::find_text(fields, 5)?;
        Some(
            HandshakeResponse {
                accepted,
                server_version,
                negotiated_protocol_version,
                features,
                error,
            },
        )
    }
}

/// Asks for a new capture session.
#[derive(Debug, PartialEq)]
pub struct StartSessionRequest {
    pub session_id: String,
    pub input_format: Option<AudioFormat>,
    pub target_sample_rate: u32,
    pub asr: Option<AsrConfig>,
    pub translation: Option<TranslationConfig>,
    pub subtitle: Option<SubtitleConfig>,
}

/// The model of [`StartSessionRequest`].
#[verifier::ext_equal]
pub struct StartSessionRequestView {
    pub session_id: Seq<char>,
    pub input_format: Option<AudioFormat>,
    pub target_sample_rate: u32,
    pub asr: Option<AsrConfigView>,
    pub translation: Option<TranslationConfigView>,
    pub subtitle: Option<SubtitleConfig>,
}

impl View for StartSessionRequest {
    type V = StartSessionRequestView;

    open spec fn view(&self) -> StartSessionRequestView {
        StartSessionRequestView {
            session_id: self.session_id@,
            input_format: match self.input_format {
                Some(inner) => Some(inner@),
                None => None,
            },
            target_sample_rate: self.target_sample_rate,
            asr: match self.asr {
                Some(inner) => Some(inner@),
                None => None,
            },
            translation: match self.translation {
                Some(inner) => Some(inner@),
                None => None,
            },
            subtitle: match self.subtitle {
                Some(inner) => Some(inner@),
                None => None,
            },
        }
    }
}

impl StartSessionRequestView {
    /// The fields of the message.
    #[verifier::opaque]
    pub open spec fn encoded(self) -> Seq<FieldView> {
        codec::text_field(1, self.session_id)
            + codec::optional_field(2, AudioFormat::optional_encoded(self.input_format))
            + codec::varint_field(3, self.target_sample_rate as u64)
            + codec::optional_field(4, AsrConfigView::optional_encoded(self.asr))
            + codec::optional_field(5, TranslationConfigView::optional_encoded(self.translation))
            + codec::optional_field(6, SubtitleConfig::optional_encoded(self.subtitle))
    }

    /// The message with the given fields, if they are those of one.
    #[verifier::opaque]
    pub open spec fn decoded(fields: Seq<FieldView>, room: nat) -> Option<StartSessionRequestView> {
        match (
            codec::text_in(fields, 1),
            AudioFormat::optional_decoded(codec::message_in(fields, 2, (room - 1) as nat)),
            codec::varint_in(fields, 3),
            AsrConfigView::optional_decoded(codec::message_in(fields, 4, (room - 1) as nat)),
            TranslationConfigView::optional_decoded(
                codec::message_in(fields, 5, (room - 1) as nat),
            ),
            SubtitleConfig::optional_decoded(codec::message_in(fields, 6, (room - 1) as nat)),
        ) {
            (
                Some(session_id),
                Some(input_format),
                Some(target_sample_rate),
                Some(asr),
                Some(translation),
                Some(subtitle),
            ) => Some(
                StartSessionRequestView {
                    session_id,
                    input_format,
                    target_sample_rate: codec::low_u32(target_sample_rate),
                    asr,
                    translation,
                    subtitle,
                },
            ),
            _ => None,
        }
    }

    /// The fields of a message give the message back.
    pub proof fn lemma_round_trip(self, room: nat)
        requires
            room > 0,
            wire::fields_bytes(self.encoded()).len() <= u64::MAX,
        ensures
            StartSessionRequestView::decoded(self.encoded(), room) == Some(self),
            codec::all_shaped(self.encoded()),
    {
        broadcast use {codec::group_values, codec::lemma_shaped_add, wire::lemma_fields_bytes_add};

        reveal(StartSessionRequestView::encoded);
        reveal(StartSessionRequestView::decoded);
        let all = self.encoded();
        codec::lemma_shaped_fields(1);
        codec::lemma_shaped_fields(2);
        codec::lemma_shaped_fields(3);
        codec::lemma_shaped_fields(4);
        codec::lemma_shaped_fields(5);
        codec::lemma_shaped_fields(6);
        let session_id = codec::text_field(1, self.session_id);
        assert(codec::values(all, 1) =~= codec::values(session_id, 1));
        codec::lemma_text_in(all, 1, self.session_id);
        let input_format = codec::optional_field(
            2,
            AudioFormat::optional_encoded(self.input_format),
        );
        assert(codec::values(all, 2) =~= codec::values(input_format, 2));
        if let Some(inner) = self.input_format {
            inner.lemma_round_trip();
            codec::lemma_message_writable(2, inner.encoded());
        }
        codec::lemma_message_in(
            all,
            2,
            AudioFormat::optional_encoded(self.input_format),
            (room - 1) as nat,
        );
        let target_sample_rate = codec::varint_field(3, self.target_sample_rate as u64);
        assert(codec::values(all, 3) =~= codec::values(target_sample_rate, 3));
        codec::lemma_varint_in(all, 3, self.target_sample_rate as u64);
        let asr = codec::optional_field(4, AsrConfigView::optional_encoded(self.asr));
        assert(codec::values(all, 4) =~= codec::values(asr, 4));
        if let Some(inner) = self.asr {
            inner.lemma_round_trip();
            codec::lemma_message_writable(4, inner.encoded());
        }
        codec::lemma_message_in(
            all,
            4,
            AsrConfigView::optional_encoded(self.asr),
            (room - 1) as nat,
        );
        let translation = codec::optional_field(
            5,
            TranslationConfigView::optional_encoded(self.translation),
        );
        assert(codec::values(all, 5) =~= codec::values(translation, 5));
        if let Some(inner) = self.translation {
            inner.lemma_round_trip();
            codec::lemma_message_writable(5, inner.encoded());
        }
        codec::lemma_message_in(
            all,
            5,
            TranslationConfigView::optional_encoded(self.translation),
            (room - 1) as nat,
        );
        let subtitle = codec::optional_field(6, SubtitleConfig::optional_encoded(self.subtitle));
        assert(codec::values(all, 6) =~= codec::values(subtitle, 6));
        if let Some(inner) = self.subtitle {
            inner.lemma_round_trip();
            codec::lemma_message_writable(6, inner.encoded());
        }
        codec::lemma_message_in(
            all,
            6,
            SubtitleConfig::optional_encoded(self.subtitle),
            (room - 1) as nat,
        );
    }

    /// Every part of the message is written under its own tag, and nothing else is.
    pub proof fn law_fields(self, tag: u32)
        ensures
            codec::values(self.encoded(), 1) == codec::text_values(self.session_id),
            codec::values(self.encoded(), 2) == codec::embedded_values(
                AudioFormat::optional_encoded(self.input_format),
            ),
            codec::values(self.encoded(), 3) == codec::number_values(
                self.target_sample_rate as u64,
            ),
            codec::values(self.encoded(), 4) == codec::embedded_values(
                AsrConfigView::optional_encoded(self.asr),
            ),
            codec::values(self.encoded(), 5) == codec::embedded_values(
                TranslationConfigView::optional_encoded(self.translation),
            ),
            codec::values(self.encoded(), 6) == codec::embedded_values(
                SubtitleConfig::optional_encoded(self.subtitle),
            ),
            tag == 0 || tag > 6 ==> codec::values(self.encoded(), tag).len() == 0,
    {
        broadcast use codec::group_values;

        reveal(StartSessionRequestView::encoded);
        assert(codec::values(self.encoded(), 1) =~= codec::text_values(self.session_id));
        assert(
            codec::values(self.encoded(), 2) =~= codec::embedded_values(
                AudioFormat::optional_encoded(self.input_format),
            )
        );
        assert(
            codec::values(self.encoded(), 3) =~= codec::number_values(
                self.target_sample_rate as u64,
            )
        );
        assert(
            codec::values(self.encoded(), 4) =~= codec::embedded_values(
                AsrConfigView::optional_encoded(self.asr),
            )
        );
        assert(
            codec::values(self.encoded(), 5) =~= codec::embedded_values(
                TranslationConfigView::optional_encoded(self.translation),
            )
        );
        assert(
            codec::values(self.encoded(), 6) =~= codec::embedded_values(
                SubtitleConfig::optional_encoded(self.subtitle),
            )
        );
    }

    /// A field under any other tag changes nothing, wherever it stands.
    pub proof fn law_unknown(a: Seq<FieldView>, one: FieldView, b: Seq<FieldView>, room: nat)
        requires
            one.tag == 0 || one.tag > 6,
        ensures
            StartSessionRequestView::decoded(
                a + seq![one] + b,
                room,
            ) == StartSessionRequestView::decoded(a + b, room),
    {
        reveal(StartSessionRequestView::decoded);
        codec::lemma_unknown(a, one, b, 1);
        codec::lemma_unknown(a, one, b, 2);
        codec::lemma_unknown(a, one, b, 3);
        codec::lemma_unknown(a, one, b, 4);
        codec::lemma_unknown(a, one, b, 5);
        codec::lemma_unknown(a, one, b, 6);
    }
}

impl StartSessionRequest {
    /// The fields of the message.
    pub fn fields(&self) -> (out: Vec<Field>)
        ensures
            wire::field_views(out@) == self@.encoded(),
            codec::all_writable(wire::field_views(out@)),
    {
        proof {
            reveal(StartSessionRequestView::encoded);
        }
        let mut out: Vec<Field> = Vec::new();
        codec::add_text(&mut out, 1, self.session_id.as_str());
        assert(wire::field_views(out@) =~= codec::text_field(1, self@.session_id));
        match &self.input_format {
            Some(inner) => codec::add_message(&mut out, 2, &inner.fields()),
            None => {
                assert(
                    wire::field_views(out@) =~= wire::field_views(out@) + codec::optional_field(
                        2,
                        AudioFormat::optional_encoded(self@.input_format),
                    )
                );
            },
        }
        codec::add_varint(&mut out, 3, self.target_sample_rate as u64);
        match &self.asr {
            Some(inner) => codec::add_message(&mut out, 4, &inner.fields()),
            None => {
                assert(
                    wire::field_views(out@) =~= wire::field_views(out@) + codec::optional_field(
                        4,
                        AsrConfigView::optional_encoded(self@.asr),
                    )
                );
            },
        }
        match &self.translation {
            Some(inner) => codec::add_message(&mut out, 5, &inner.fields()),
            None => {
                assert(
                    wire::field_views(out@) =~= wire::field_views(out@) + codec::optional_field(
                        5,
                        TranslationConfigView::optional_encoded(self@.translation),
                    )
                );
            },
        }
        match &self.subtitle {
            Some(inner) => codec::add_message(&mut out, 6, &inner.fields()),
            None => {
                assert(
                    wire::field_views(out@) =~= wire::field_views(out@) + codec::optional_field(
                        6,
                        SubtitleConfig::optional_encoded(self@.subtitle),
                    )
                );
            },
        }
        out
    }

    /// The message with the given fields, if they are those of one.
    pub fn of(fields: &Vec<Field>, room: u32) -> (message: Option<StartSessionRequest>)
        requires
            room > 0,
        ensures
            match message {
                Some(message) => StartSessionRequestView::decoded(
                    wire::field_views(fields@),
                    room as nat,
                ) == Some(message@),
                None => StartSessionRequestView::decoded(
                    wire::field_views(fields@),
                    room as nat,
                ) is None,
            },
    {
        proof {
            reveal(StartSessionRequestView::decoded);
        }
        let session_id: String = codec::find_text(fields, 1)?;
        let input_format: Option<AudioFormat> = match codec::find_message(fields, 2, room - 1)? {
            Some(inner) => Some(AudioFormat::of(&inner)?),
            None => None,
        };
        let target_sample_rate: u32 = codec::narrow_u32(codec::find_varint(fields, 3)?);
        let asr: Option<AsrConfig> = match codec::find_message(fields, 4, room - 1)? {
            Some(inner) => Some(AsrConfig::of(&inner)?),
            None => None,
        };
        let translation: Option<TranslationConfig> = match codec::find_message(
            fields,
            5,
            room - 1,
        )? {
            Some(inner) => Some(TranslationConfig::of(&inner)?),
            None => None,
        };
        let subtitle: Option<SubtitleConfig> = match codec::find_message(fields, 6, room - 1)? {
            Some(inner) => Some(SubtitleConfig::of(&inner)?),
            None => None,
        };
        Some(
            StartSessionRequest {
                session_id,
                input_format,
                target_sample_rate,
                asr,
                translation,
                subtitle,
            },
        )
    }
}

/// Answers a request for a session.
#[derive(Debug, PartialEq)]
pub struct StartSessionResponse {
    pub accepted: bool,
    pub session_id: String,
    pub error: String,
}

/// The model of [`StartSessionResponse`].
#[verifier::ext_equal]
pub struct StartSessionResponseView {
    pub accepted: bool,
    pub session_id: Seq<char>,
    pub error: Seq<char>,
}

impl View for StartSessionResponse {
    type V = StartSessionResponseView;

    open spec fn view(&self) -> StartSessionResponseView {
        StartSessionResponseView {
            accepted: self.accepted,
            session_id: self.session_id@,
            error: self.error@,
        }
    }
}

impl StartSessionResponseView {
    /// The fields of the message.
    #[verifier::opaque]
    pub open spec fn encoded(self) -> Seq<FieldView> {
        codec::varint_field(1, codec::flag(self.accepted))
            + codec::text_field(2, self.session_id)
            + codec::text_field(3, self.error)
    }

    /// The message with the given fields, if they are those of one.
    #[verifier::opaque]
    pub open spec fn decoded(fields: Seq<FieldView>) -> Option<StartSessionResponseView> {
        match (
            codec::varint_in(fields, 1),
            codec::text_in(fields, 2),
            codec::text_in(fields, 3),
        ) {
            (Some(accepted), Some(session_id), Some(error)) => Some(
                StartSessionResponseView {
                    accepted: accepted != 0,
                    session_id,
                    error,
                },
            ),
            _ => None,
        }
    }

    /// The fields of a message give the message back.
    pub proof fn lemma_round_trip(self)
        ensures
            StartSessionResponseView::decoded(self.encoded()) == Some(self),
            codec::all_shaped(self.encoded()),
    {
        broadcast use {codec::group_values, codec::lemma_shaped_add};

        reveal(StartSessionResponseView::encoded);
        reveal(StartSessionResponseView::decoded);
        let all = self.encoded();
        codec::lemma_shaped_fields(1);
        codec::lemma_shaped_fields(2);
        codec::lemma_shaped_fields(3);
        let accepted = codec::varint_field(1, codec::flag(self.accepted));
        assert(codec::values(all, 1) =~= codec::values(accepted, 1));
        codec::lemma_varint_in(all, 1, codec::flag(self.accepted));
        let session_id = codec::text_field(2, self.session_id);
        assert(codec::values(all, 2) =~= codec::values(session_id, 2));
        codec::lemma_text_in(all, 2, self.session_id);
        let error = codec::text_field(3, self.error);
        assert(codec::values(all, 3) =~= codec::values(error, 3));
        codec::lemma_text_in(all, 3, self.error);
    }

    /// Every part of the message is written under its own tag, and nothing else is.
    pub proof fn law_fields(self, tag: u32)
        ensures
            codec::values(self.encoded(), 1) == codec::flag_values(self.accepted),
            codec::values(self.encoded(), 2) == codec::text_values(self.session_id),
            codec::values(self.encoded(), 3) == codec::text_values(self.error),
            tag == 0 || tag > 3 ==> codec::values(self.encoded(), tag).len() == 0,
    {
        broadcast use codec::group_values;

        reveal(StartSessionResponseView::encoded);
        assert(codec::values(self.encoded(), 1) =~= codec::flag_values(self.accepted));
        assert(codec::values(self.encoded(), 2) =~= codec::text_values(self.session_id));
        assert(codec::values(self.encoded(), 3) =~= codec::text_values(self.error));
    }

    /// A field under any other tag changes nothing, wherever it stands.
    pub proof fn law_unknown(a: Seq<FieldView>, one: FieldView, b: Seq<FieldView>)
        requires
            one.tag == 0 || one.tag > 3,
        ensures
            StartSessionResponseView::decoded(
                a + seq![one] + b,
            ) == StartSessionResponseView::decoded(a + b),
    {
        reveal(StartSessionResponseView::decoded);
        codec::lemma_unknown(a, one, b, 1);
        codec::lemma_unknown(a, one, b, 2);
        codec::lemma_unknown(a, one, b, 3);
    }
}

impl StartSessionResponse {
    /// The fields of the message.
    pub fn fields(&self) -> (out: Vec<Field>)
        ensures
            wire::field_views(out@) == self@.encoded(),
            codec::all_writable(wire::field_views(out@)),
    {
        proof {
            reveal(StartSessionResponseView::encoded);
        }
        let mut out: Vec<Field> = Vec::new();
        codec::add_varint(&mut out, 1, codec::flag_value(self.accepted));
        assert(wire::field_views(out@) =~= codec::varint_field(1, codec::flag(self@.accepted)));
        codec::add_text(&mut out, 2, self.session_id.as_str());
        codec::add_text(&mut out, 3, self.error.as_str());
        out
    }

    /// The message with the given fields, if they are those of one.
    pub fn of(fields: &Vec<Field>) -> (message: Option<StartSessionResponse>)
        ensures
            match message {
                Some(message) => StartSessionResponseView::decoded(
                    wire::field_views(fields@),
                ) == Some(message@),
                None => StartSessionResponseView::decoded(wire::field_views(fields@)) is None,
            },
    {
        proof {
            reveal(StartSessionResponseView::decoded);
        }
        let accepted: bool = codec::find_varint(fields, 1)? != 0;
        let session_id: String = codec::find_text(fields, 2)?;
        let error: String = codec::find_text(fields, 3)?;
        Some(StartSessionResponse { accepted, session_id, error })
    }
}

/// Ends the session.
#[derive(Debug, PartialEq)]
pub struct StopSessionRequest {
    pub session_id: String,
}

/// The model of [`StopSessionRequest`].
#[verifier::ext_equal]
pub struct StopSessionRequestView {
    pub session_id: Seq<char>,
}

impl View for StopSessionRequest {
    type V = StopSessionRequestView;

    open spec fn view(&self) -> StopSessionRequestView {
        StopSessionRequestView {
            session_id: self.session_id@,
        }
    }
}

impl StopSessionRequestView {
    /// The fields of the message.
    #[verifier::opaque]
    pub open spec fn encoded(self) -> Seq<FieldView> {
        codec::text_field(1, self.session_id)
    }

    /// The message with the given fields, if they are those of one.
    #[verifier::opaque]
    pub open spec fn decoded(fields: Seq<FieldView>) -> Option<StopSessionRequestView> {
        match codec::text_in(fields, 1) {
            Some(session_id) => Some(StopSessionRequestView { session_id }),
            None => None,
        }
    }

    /// The fields of a message give the message back.
    pub proof fn lemma_round_trip(self)
        ensures
            StopSessionRequestView::decoded(self.encoded()) == Some(self),
            codec::all_shaped(self.encoded()),
    {
        broadcast use {codec::group_values, codec::lemma_shaped_add};

        reveal(StopSessionRequestView::encoded);
        reveal(StopSessionRequestView::decoded);
        let all = self.encoded();
        codec::lemma_shaped_fields(1);
        codec::lemma_text_in(all, 1, self.session_id);
    }

    /// Every part of the message is written under its own tag, and nothing else is.
    pub proof fn law_fields(self, tag: u32)
        ensures
            codec::values(self.encoded(), 1) == codec::text_values(self.session_id),
            tag == 0 || tag > 1 ==> codec::values(self.encoded(), tag).len() == 0,
    {
        broadcast use codec::group_values;

        reveal(StopSessionRequestView::encoded);
        assert(codec::values(self.encoded(), 1) =~= codec::text_values(self.session_id));
    }

    /// A field under any other tag changes nothing, wherever it stands.
    pub proof fn law_unknown(a: Seq<FieldView>, one: FieldView, b: Seq<FieldView>)
        requires
            one.tag == 0 || one.tag > 1,
        ensures
            StopSessionRequestView::decoded(
                a + seq![one] + b,
            ) == StopSessionRequestView::decoded(a + b),
    {
        reveal(StopSessionRequestView::decoded);
        codec::lemma_unknown(a, one, b, 1);
    }
}

impl StopSessionRequest {
    /// The fields of the message.
    pub fn fields(&self) -> (out: Vec<Field>)
        ensures
            wire::field_views(out@) == self@.encoded(),
            codec::all_writable(wire::field_views(out@)),
    {
        proof {
            reveal(StopSessionRequestView::encoded);
        }
        let mut out: Vec<Field> = Vec::new();
        codec::add_text(&mut out, 1, self.session_id.as_str());
        assert(wire::field_views(out@) =~= codec::text_field(1, self@.session_id));
        out
    }

    /// The message with the given fields, if they are those of one.
    pub fn of(fields: &Vec<Field>) -> (message: Option<StopSessionRequest>)
        ensures
            match message {
                Some(message) => StopSessionRequestView::decoded(
                    wire::field_views(fields@),
                ) == Some(message@),
                None => StopSessionRequestView::decoded(wire::field_views(fields@)) is None,
            },
    {
        proof {
            reveal(StopSessionRequestView::decoded);
        }
        let session_id: String = codec::find_text(fields, 1)?;
        Some(StopSessionRequest { session_id })
    }
}

/// Answers the end of a session.
#[derive(Debug, PartialEq)]
pub struct StopSessionResponse {
    pub ok: bool,
    pub error: String,
}

/// The model of [`StopSessionResponse`].
#[verifier::ext_equal]
pub struct StopSessionResponseView {
    pub ok: bool,
    pub error: Seq<char>,
}

impl View for StopSessionResponse {
    type V = StopSessionResponseView;

    open spec fn view(&self) -> StopSessionResponseView {
        StopSessionResponseView {
            ok: self.ok,
            error: self.error@,
        }
    }
}

impl StopSessionResponseView {
    /// The fields of the message.
    #[verifier::opaque]
    pub open spec fn encoded(self) -> Seq<FieldView> {
        codec::varint_field(1, codec::flag(self.ok))
            + codec::text_field(2, self.error)
    }

    /// The message with the given fields, if they are those of one.
    #[verifier::opaque]
    pub open spec fn decoded(fields: Seq<FieldView>) -> Option<StopSessionResponseView> {
        match (
            codec::varint_in(fields, 1),
            codec::text_in(fields, 2),
        ) {
            (Some(ok), Some(error)) => Some(
                StopSessionResponseView {
                    ok: ok != 0,
                    error,
                },
            ),
            _ => None,
        }
    }

    /// The fields of a message give the message back.
    pub proof fn lemma_round_trip(self)
        ensures
            StopSessionResponseView::decoded(self.encoded()) == Some(self),
            codec::all_shaped(self.encoded()),
    {
        broadcast use {codec::group_values, codec::lemma_shaped_add};

        reveal(StopSessionResponseView::encoded);
        reveal(StopSessionResponseView::decoded);
        let all = self.encoded();
        codec::lemma_shaped_fields(1);
        codec::lemma_shaped_fields(2);
        let ok = codec::varint_field(1, codec::flag(self.ok));
        assert(codec::values(all, 1) =~= codec::values(ok, 1));
        codec::lemma_varint_in(all, 1, codec::flag(self.ok));
        let error = codec::text_field(2, self.error);
        assert(codec::values(all, 2) =~= codec::values(error, 2));
        codec::lemma_text_in(all, 2, self.error);
    }

    /// Every part of the message is written under its own tag, and nothing else is.
    pub proof fn law_fields(self, tag: u32)
        ensures
            codec::values(self.encoded(), 1) == codec::flag_values(self.ok),
            codec::values(self.encoded(), 2) == codec::text_values(self.error),
            tag == 0 || tag > 2 ==> codec::values(self.encoded(), tag).len() == 0,
    {
        broadcast use codec::group_values;

        reveal(StopSessionResponseView::encoded);
        assert(codec::values(self.encoded(), 1) =~= codec::flag_values(self.ok));
        assert(codec::values(self.encoded(), 2) =~= codec::text_values(self.error));
    }

    /// A field under any other tag changes nothing, wherever it stands.
    pub proof fn law_unknown(a: Seq<FieldView>, one: FieldView, b: Seq<FieldView>)
        requires
            one.tag == 0 || one.tag > 2,
        ensures
            StopSessionResponseView::decoded(
                a + seq![one] + b,
            ) == StopSessionResponseView::decoded(a + b),
    {
        reveal(StopSessionResponseView::decoded);
        codec::lemma_unknown(a, one, b, 1);
        codec::lemma_unknown(a, one, b, 2);
    }
}

impl StopSessionResponse {
    /// The fields of the message.
    pub fn fields(&self) -> (out: Vec<Field>)
        ensures
            wire::field_views(out@) == self@.encoded(),
            codec::all_writable(wire::field_views(out@)),
    {
        proof {
            reveal(StopSessionResponseView::encoded);
        }
        let mut out: Vec<Field> = Vec::new();
        codec::add_varint(&mut out, 1, codec::flag_value(self.ok));
        assert(wire::field_views(out@) =~= codec::varint_field(1, codec::flag(self@.ok)));
        codec::add_text(&mut out, 2, self.error.as_str());
        out
    }

    /// The message with the given fields, if they are those of one.
    pub fn of(fields: &Vec<Field>) -> (message: Option<StopSessionResponse>)
        ensures
            match message {
                Some(message) => StopSessionResponseView::decoded(
                    wire::field_views(fields@),
                ) == Some(message@),
                None => StopSessionResponseView::decoded(wire::field_views(fields@)) is None,
            },
    {
        proof {
            reveal(StopSessionResponseView::decoded);
        }
        let ok: bool = codec::find_varint(fields, 1)? != 0;
        let error: String = codec::find_text(fields, 2)?;
        Some(StopSessionResponse { ok, error })
    }
}

/// Pauses or resumes the session.
#[derive(Debug, Clone, Copy, PartialEq, Eq, Structural)]
pub struct SetPausedRequest {
    pub paused: bool,
}

impl View for SetPausedRequest {
    type V = SetPausedRequest;

    open spec fn view(&self) -> SetPausedRequest {
        *self
    }
}

impl SetPausedRequest {
    /// The fields of the message.
    #[verifier::opaque]
    pub open spec fn encoded(self) -> Seq<FieldView> {
        codec::varint_field(1, codec::flag(self.paused))
    }

    /// The message with the given fields, if they are those of one.
    #[verifier::opaque]
    pub open spec fn decoded(fields: Seq<FieldView>) -> Option<SetPausedRequest> {
        match codec::varint_in(fields, 1) {
            Some(paused) => Some(SetPausedRequest { paused: paused != 0 }),
            None => None,
        }
    }

    /// The fields of a message give the message back.
    pub proof fn lemma_round_trip(self)
        ensures
            SetPausedRequest::decoded(self.encoded()) == Some(self),
            codec::all_shaped(self.encoded()),
    {
        broadcast use {codec::group_values, codec::lemma_shaped_add};

        reveal(SetPausedRequest::encoded);
        reveal(SetPausedRequest::decoded);
        let all = self.encoded();
        codec::lemma_shaped_fields(1);
        codec::lemma_varint_in(all, 1, codec::flag(self.paused));
    }

    /// Every part of the message is written under its own tag, and nothing else is.
    pub proof fn law_fields(self, tag: u32)
        ensures
            codec::values(self.encoded(), 1) == codec::flag_values(self.paused),
            tag == 0 || tag > 1 ==> codec::values(self.encoded(), tag).len() == 0,
    {
        broadcast use codec::group_values;

        reveal(SetPausedRequest::encoded);
        assert(codec::values(self.encoded(), 1) =~= codec::flag_values(self.paused));
    }

    /// A field under any other tag changes nothing, wherever it stands.
    pub proof fn law_unknown(a: Seq<FieldView>, one: FieldView, b: Seq<FieldView>)
        requires
            one.tag == 0 || one.tag > 1,
        ensures
            SetPausedRequest::decoded(a + seq![one] + b) == SetPausedRequest::decoded(a + b),
    {
        reveal(SetPausedRequest::decoded);
        codec::lemma_unknown(a, one, b, 1);
    }
}

impl SetPausedRequest {
    /// The fields of the message.
    pub fn fields(&self) -> (out: Vec<Field>)
        ensures
            wire::field_views(out@) == self@.encoded(),
            codec::all_writable(wire::field_views(out@)),
    {
        proof {
            reveal(SetPausedRequest::encoded);
        }
        let mut out: Vec<Field> = Vec::new();
        codec::add_varint(&mut out, 1, codec::flag_value(self.paused));
        assert(wire::field_views(out@) =~= codec::varint_field(1, codec::flag(self@.paused)));
        out
    }

    /// The message with the given fields, if they are those of one.
    pub fn of(fields: &Vec<Field>) -> (message: Option<SetPausedRequest>)
        ensures
            match message {
                Some(message) => SetPausedRequest::decoded(
                    wire::field_views(fields@),
                ) == Some(message@),
                None => SetPausedRequest::decoded(wire::field_views(fields@)) is None,
            },
    {
        proof {
            reveal(SetPausedRequest::decoded);
        }
        let paused: bool = codec::find_varint(fields, 1)? != 0;
        Some(SetPausedRequest { paused })
    }
}

/// Answers a pause request.
#[derive(Debug, PartialEq)]
pub struct SetPausedResponse {
    pub ok: bool,
    pub error: String,
}

/// The model of [`SetPausedResponse`].
#[verifier::ext_equal]
pub struct SetPausedResponseView {
    pub ok: bool,
    pub error: Seq<char>,
}

impl View for SetPausedResponse {
    type V = SetPausedResponseView;

    open spec fn view(&self) -> SetPausedResponseView {
        SetPausedResponseView {
            ok: self.ok,
            error: self.error@,
        }
    }
}

impl SetPausedResponseView {
    /// The fields of the message.
    #[verifier::opaque]
    pub open spec fn encoded(self) -> Seq<FieldView> {
        codec::varint_field(1, codec::flag(self.ok))
            + codec::text_field(2, self.error)
    }

    /// The message with the given fields, if they are those of one.
    #[verifier::opaque]
    pub open spec fn decoded(fields: Seq<FieldView>) -> Option<SetPausedResponseView> {
        match (
            codec::varint_in(fields, 1),
            codec::text_in(fields, 2),
        ) {
            (Some(ok), Some(error)) => Some(
                SetPausedResponseView {
                    ok: ok != 0,
                    error,
                },
            ),
            _ => None,
        }
    }

    /// The fields of a message give the message back.
    pub proof fn lemma_round_trip(self)
        ensures
            SetPausedResponseView::decoded(self.encoded()) == Some(self),
            codec::all_shaped(self.encoded()),
    {
        broadcast use {codec::group_values, codec::lemma_shaped_add};

        reveal(SetPausedResponseView::encoded);
        reveal(SetPausedResponseView::decoded);
        let all = self.encoded();
        codec::lemma_shaped_fields(1);
        codec::lemma_shaped_fields(2);
        let ok = codec::varint_field(1, codec::flag(self.ok));
        assert(codec::values(all, 1) =~= codec::values(ok, 1));
        codec::lemma_varint_in(all, 1, codec::flag(self.ok));
        let error = codec::text_field(2, self.error);
        assert(codec::values(all, 2) =~= codec::values(error, 2));
        codec::lemma_text_in(all, 2, self.error);
    }

    /// Every part of the message is written under its own tag, and nothing else is.
    pub proof fn law_fields(self, tag: u32)
        ensures
            codec::values(self.encoded(), 1) == codec::flag_values(self.ok),
            codec::values(self.encoded(), 2) == codec::text_values(self.error),
            tag == 0 || tag > 2 ==> codec::values(self.encoded(), tag).len() == 0,
    {
        broadcast use codec::group_values;

        reveal(SetPausedResponseView::encoded);
        assert(codec::values(self.encoded(), 1) =~= codec::flag_values(self.ok));
        assert(codec::values(self.encoded(), 2) =~= codec::text_values(self.error));
    }

    /// A field under any other tag changes nothing, wherever it stands.
    pub proof fn law_unknown(a: Seq<FieldView>, one: FieldView, b: Seq<FieldView>)
        requires
            one.tag == 0 || one.tag > 2,
        ensures
            SetPausedResponseView::decoded(
                a + seq![one] + b,
            ) == SetPausedResponseView::decoded(a + b),
    {
        reveal(SetPausedResponseView::decoded);
        codec::lemma_unknown(a, one, b, 1);
        codec::lemma_unknown(a, one, b, 2);
    }
}

impl SetPausedResponse {
    /// The fields of the message.
    pub fn fields(&self) -> (out: Vec<Field>)
        ensures
            wire::field_views(out@) == self@.encoded(),
            codec::all_writable(wire::field_views(out@)),
    {
        proof {
            reveal(SetPausedResponseView::encoded);
        }
        let mut out: Vec<Field> = Vec::new();
        codec::add_varint(&mut out, 1, codec::flag_value(self.ok));
        assert(wire::field_views(out@) =~= codec::varint_field(1, codec::flag(self@.ok)));
        codec::add_text(&mut out, 2, self.error.as_str());
        out
    }

    /// The message with the given fields, if they are those of one.
    pub fn of(fields: &Vec<Field>) -> (message: Option<SetPausedResponse>)
        ensures
            match message {
                Some(message) => SetPausedResponseView::decoded(
                    wire::field_views(fields@),
                ) == Some(message@),
                None => SetPausedResponseView::decoded(wire::field_views(fields@)) is None,
            },
    {
        proof {
            reveal(SetPausedResponseView::decoded);
        }
        let ok: bool = codec::find_varint(fields, 1)? != 0;
        let error: String = codec::find_text(fields, 2)?;
        Some(SetPausedResponse { ok, error })
    }
}

/// Asks whether the core is alive.
#[derive(Debug, Clone, Copy, PartialEq, Eq, Structural)]
pub struct HeartbeatRequest {
    pub timestamp_us: u64,
}

impl View for HeartbeatRequest {
    type V = HeartbeatRequest;

    open spec fn view(&self) -> HeartbeatRequest {
        *self
    }
}

impl HeartbeatRequest {
    /// The fields of the message.
    #[verifier::opaque]
    pub open spec fn encoded(self) -> Seq<FieldView> {
        codec::varint_field(1, self.timestamp_us)
    }

    /// The message with the given fields, if they are those of one.
    #[verifier::opaque]
    pub open spec fn decoded(fields: Seq<FieldView>) -> Option<HeartbeatRequest> {
        match codec::varint_in(fields, 1) {
            Some(timestamp_us) => Some(HeartbeatRequest { timestamp_us }),
            None => None,
        }
    }

    /// The fields of a message give the message back.
    pub proof fn lemma_round_trip(self)
        ensures
            HeartbeatRequest::decoded(self.encoded()) == Some(self),
            codec::all_shaped(self.encoded()),
    {
        broadcast use {codec::group_values, codec::lemma_shaped_add};

        reveal(HeartbeatRequest::encoded);
        reveal(HeartbeatRequest::decoded);
        let all = self.encoded();
        codec::lemma_shaped_fields(1);
        codec::lemma_varint_in(all, 1, self.timestamp_us);
    }

    /// Every part of the message is written under its own tag, and nothing else is.
    pub proof fn law_fields(self, tag: u32)
        ensures
            codec::values(self.encoded(), 1) == codec::number_values(self.timestamp_us),
            tag == 0 || tag > 1 ==> codec::values(self.encoded(), tag).len() == 0,
    {
        broadcast use codec::group_values;

        reveal(HeartbeatRequest::encoded);
        assert(codec::values(self.encoded(), 1) =~= codec::number_values(self.timestamp_us));
    }

    /// A field under any other tag changes nothing, wherever it stands.
    pub proof fn law_unknown(a: Seq<FieldView>, one: FieldView, b: Seq<FieldView>)
        requires
            one.tag == 0 || one.tag > 1,
        ensures
            HeartbeatRequest::decoded(a + seq![one] + b) == HeartbeatRequest::decoded(a + b),
    {
        reveal(HeartbeatRequest::decoded);
        codec::lemma_unknown(a, one, b, 1);
    }
}

impl HeartbeatRequest {
    /// The fields of the message.
    pub fn fields(&self) -> (out: Vec<Field>)
        ensures
            wire::field_views(out@) == self@.encoded(),
            codec::all_writable(wire::field_views(out@)),
    {
        proof {
            reveal(HeartbeatRequest::encoded);
        }
        let mut out: Vec<Field> = Vec::new();
        codec::add_varint(&mut out, 1, self.timestamp_us);
        assert(wire::field_views(out@) =~= codec::varint_field(1, self@.timestamp_us));
        out
    }

    /// The message with the given fields, if they are those of one.
    pub fn of(fields: &Vec<Field>) -> (message: Option<HeartbeatRequest>)
        ensures
            match message {
                Some(message) => HeartbeatRequest::decoded(
                    wire::field_views(fields@),
                ) == Some(message@),
                None => HeartbeatRequest::decoded(wire::field_views(fields@)) is None,
            },
    {
        proof {
            reveal(HeartbeatRequest::decoded);
        }
        let timestamp_us: u64 = codec::find_varint(fields, 1)?;
        Some(HeartbeatRequest { timestamp_us })
    }
}

/// Answers a heartbeat with its own timestamp.
#[derive(Debug, Clone, Copy, PartialEq, Eq, Structural)]
pub struct HeartbeatResponse {
    pub timestamp_us: u64,
}

impl View for HeartbeatResponse {
    type V = HeartbeatResponse;

    open spec fn view(&self) -> HeartbeatResponse {
        *self
    }
}

impl HeartbeatResponse {
    /// The fields of the message.
    #[verifier::opaque]
    pub open spec fn encoded(self) -> Seq<FieldView> {
        codec::varint_field(1, self.timestamp_us)
    }

    /// The message with the given fields, if they are those of one.
    #[verifier::opaque]
    pub open spec fn decoded(fields: Seq<FieldView>) -> Option<HeartbeatResponse> {
        match codec::varint_in(fields, 1) {
            Some(timestamp_us) => Some(HeartbeatResponse { timestamp_us }),
            None => None,
        }
    }

    /// The fields of a message give the message back.
    pub proof fn lemma_round_trip(self)
        ensures
            HeartbeatResponse::decoded(self.encoded()) == Some(self),
            codec::all_shaped(self.encoded()),
    {
        broadcast use {codec::group_values, codec::lemma_shaped_add};

        reveal(HeartbeatResponse::encoded);
        reveal(HeartbeatResponse::decoded);
        let all = self.encoded();
        codec::lemma_shaped_fields(1);
        codec::lemma_varint_in(all, 1, self.timestamp_us);
    }

    /// Every part of the message is written under its own tag, and nothing else is.
    pub proof fn law_fields(self, tag: u32)
        ensures
            codec::values(self.encoded(), 1) == codec::number_values(self.timestamp_us),
            tag == 0 || tag > 1 ==> codec::values(self.encoded(), tag).len() == 0,
    {
        broadcast use codec::group_values;

        reveal(HeartbeatResponse::encoded);
        assert(codec::values(self.encoded(), 1) =~= codec::number_values(self.timestamp_us));
    }

    /// A field under any other tag changes nothing, wherever it stands.
    pub proof fn law_unknown(a: Seq<FieldView>, one: FieldView, b: Seq<FieldView>)
        requires
            one.tag == 0 || one.tag > 1,
        ensures
            HeartbeatResponse::decoded(a + seq![one] + b) == HeartbeatResponse::decoded(a + b),
    {
        reveal(HeartbeatResponse::decoded);
        codec::lemma_unknown(a, one, b, 1);
    }
}

impl HeartbeatResponse {
    /// The fields of the message.
    pub fn fields(&self) -> (out: Vec<Field>)
        ensures
            wire::field_views(out@) == self@.encoded(),
            codec::all_writable(wire::field_views(out@)),
    {
        proof {
            reveal(HeartbeatResponse::encoded);
        }
        let mut out: Vec<Field> = Vec::new();
        codec::add_varint(&mut out, 1, self.timestamp_us);
        assert(wire::field_views(out@) =~= codec::varint_field(1, self@.timestamp_us));
        out
    }

    /// The message with the given fields, if they are those of one.
    pub fn of(fields: &Vec<Field>) -> (message: Option<HeartbeatResponse>)
        ensures
            match message {
                Some(message) => HeartbeatResponse::decoded(
                    wire::field_views(fields@),
                ) == Some(message@),
                None => HeartbeatResponse::decoded(wire::field_views(fields@)) is None,
            },
    {
        proof {
            reveal(HeartbeatResponse::decoded);
        }
        let timestamp_us: u64 = codec::find_varint(fields, 1)?;
        Some(HeartbeatResponse { timestamp_us })
    }
}

} // verus!
