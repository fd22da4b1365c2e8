//! What a session is configured with: audio layout, recogniser, translation, subtitles.

use crate::protocol::codec;
use crate::protocol::wire;
use crate::protocol::wire::Field;
use crate::protocol::wire::FieldView;
use vstd::prelude::*;

verus! {

/// Layout of raw PCM audio.
#[derive(Debug, Clone, Copy, PartialEq, Eq, Structural)]
pub struct AudioFormat {
    pub sample_rate: u32,
    pub channels: u32,
    pub format: i32,
}

impl View for AudioFormat {
    type V = AudioFormat;

    open spec fn view(&self) -> AudioFormat {
        *self
    }
}

impl AudioFormat {
    /// The fields of the message.
    #[verifier::opaque]
    pub open spec fn encoded(self) -> Seq<FieldView> {
        codec::varint_field(1, self.sample_rate as u64)
            + codec::varint_field(2, self.channels as u64)
            + codec::varint_field(3, codec::wide_i32(self.format))
    }

    /// The message with the given fields, if they are those of one.
    #[verifier::opaque]
    pub open spec fn decoded(fields: Seq<FieldView>) -> Option<AudioFormat> {
        match (
            codec::varint_in(fields, 1),
            codec::varint_in(fields, 2),
            codec::varint_in(fields, 3),
        ) {
            (Some(sample_rate), Some(channels), Some(format)) => Some(
                AudioFormat {
                    sample_rate: codec::low_u32(sample_rate),
                    channels: codec::low_u32(channels),
                    format: codec::low_i32(format),
                },
            ),
            _ => None,
        }
    }

    /// The fields of the message where it is embedded, if it is there.
    pub open spec fn optional_encoded(message: Option<AudioFormat>) -> Option<Seq<FieldView>> {
        match message {
            Some(message) => Some(message.encoded()),
            None => None,
        }
    }

    /// The message that is embedded, if it is there.
    pub open spec fn optional_decoded(found: Option<Option<Seq<FieldView>>>) -> Option<
        Option<AudioFormat>,
    > {
        match found {
            Some(Some(fields)) => match AudioFormat::decoded(fields) {
                Some(message) => Some(Some(message)),
                None => None,
            },
            Some(None) => Some(None),
            None => None,
        }
    }

    /// The fields of a message give the message back.
    pub proof fn lemma_round_trip(self)
        ensures
            AudioFormat::decoded(self.encoded()) == Some(self),
            codec::all_shaped(self.encoded()),
    {
        broadcast use {codec::group_values, codec::lemma_shaped_add};

        reveal(AudioFormat::encoded);
        reveal(AudioFormat::decoded);
        let all = self.encoded();
        codec::lemma_shaped_fields(1);
        codec::lemma_shaped_fields(2);
        codec::lemma_shaped_fields(3);
        let sample_rate = codec::varint_field(1, self.sample_rate as u64);
        assert(codec::values(all, 1) =~= codec::values(sample_rate, 1));
        codec::lemma_varint_in(all, 1, self.sample_rate as u64);
        let channels = codec::varint_field(2, self.channels as u64);
        assert(codec::values(all, 2) =~= codec::values(channels, 2));
        codec::lemma_varint_in(all, 2, self.channels as u64);
        let format = codec::varint_field(3, codec::wide_i32(self.format));
        assert(codec::values(all, 3) =~= codec::values(format, 3));
        codec::lemma_varint_in(all, 3, codec::wide_i32(self.format));
        codec::lemma_i32(self.format);
    }

    /// Every part of the message is written under its own tag, and nothing else is.
    pub proof fn law_fields(self, tag: u32)
        ensures
            codec::values(self.encoded(), 1) == codec::number_values(self.sample_rate as u64),
            codec::values(self.encoded(), 2) == codec::number_values(self.channels as u64),
            codec::values(self.encoded(), 3) == codec::number_values(codec::wide_i32(self.format)),
            tag == 0 || tag > 3 ==> codec::values(self.encoded(), tag).len() == 0,
    {
        broadcast use codec::group_values;

        reveal(AudioFormat::encoded);
        assert(codec::values(self.encoded(), 1) =~= codec::number_values(self.sample_rate as u64));
        assert(codec::values(self.encoded(), 2) =~= codec::number_values(self.channels as u64));
        assert(
            codec::values(self.encoded(), 3) =~= codec::number_values(codec::wide_i32(self.format))
        );
    }

    /// A field under any other tag changes nothing, wherever it stands.
    pub proof fn law_unknown(a: Seq<FieldView>, one: FieldView, b: Seq<FieldView>)
        requires
            one.tag == 0 || one.tag > 3,
        ensures
            AudioFormat::decoded(a + seq![one] + b) == AudioFormat::decoded(a + b),
    {
        reveal(AudioFormat::decoded);
        codec::lemma_unknown(a, one, b, 1);
        codec::lemma_unknown(a, one, b, 2);
        codec::lemma_unknown(a, one, b, 3);
    }
}

impl AudioFormat {
    /// The fields of the message.
    pub fn fields(&self) -> (out: Vec<Field>)
        ensures
            wire::field_views(out@) == self@.encoded(),
            codec::all_writable(wire::field_views(out@)),
    {
        proof {
            reveal(AudioFormat::encoded);
        }
        let mut out: Vec<Field> = Vec::new();
        codec::add_varint(&mut out, 1, self.sample_rate as u64);
        assert(wire::field_views(out@) =~= codec::varint_field(1, self@.sample_rate as u64));
        codec::add_varint(&mut out, 2, self.channels as u64);
        codec::add_varint(&mut out, 3, codec::widen_i32(self.format));
        out
    }

    /// The message with the given fields, if they are those of one.
    pub fn of(fields: &Vec<Field>) -> (message: Option<AudioFormat>)
        ensures
            match message {
                Some(message) => AudioFormat::decoded(wire::field_views(fields@)) == Some(message@),
                None => AudioFormat::decoded(wire::field_views(fields@)) is None,
            },
    {
        proof {
            reveal(AudioFormat::decoded);
        }
        let sample_rate: u32 = codec::narrow_u32(codec::find_varint(fields, 1)?);
        let channels: u32 = codec::narrow_u32(codec::find_varint(fields, 2)?);
        let format: i32 = codec::narrow_i32(codec::find_varint(fields, 3)?);
        Some(AudioFormat { sample_rate, channels, format })
    }
}

/// Which recogniser a session asks for, and how it is set up.
#[derive(Debug, PartialEq)]
pub struct AsrConfig {
    pub provider: String,
    pub model: String,
    pub language: String,
    pub engine: String,
    pub model_directory: String,
}

/// The model of [`AsrConfig`].
#[verifier::ext_equal]
pub struct AsrConfigView {
    pub provider: Seq<char>,
    pub model: Seq<char>,
    pub language: Seq<char>,
    pub engine: Seq<char>,
    pub model_directory: Seq<char>,
}

impl View for AsrConfig {
    type V = AsrConfigView;

    open spec fn view(&self) -> AsrConfigView {
        AsrConfigView {
            provider: self.provider@,
            model: self.model@,
            language: self.language@,
            engine: self.engine@,
            model_directory: self.model_directory@,
        }
    }
}

impl AsrConfigView {
    /// The fields of the message.
    #[verifier::opaque]
    pub open spec fn encoded(self) -> Seq<FieldView> {
        codec::text_field(1, self.provider)
            + codec::text_field(2, self.model)
            + codec::text_field(3, self.language)
            + codec::text_field(4, self.engine)
            + codec::text_field(5, self.model_directory)
    }

    /// The message with the given fields, if they are those of one.
    #[verifier::opaque]
    pub open spec fn decoded(fields: Seq<FieldView>) -> Option<AsrConfigView> {
        match (
            codec::text_in(fields, 1),
            codec::text_in(fields, 2),
            codec::text_in(fields, 3),
            codec::text_in(fields, 4),
            codec::text_in(fields, 5),
        ) {
            (
                Some(provider),
                Some(model),
                Some(language),
                Some(engine),
                Some(model_directory),
            ) => Some(
                AsrConfigView {
                    provider,
                    model,
                    language,
                    engine,
                    model_directory,
                },
            ),
            _ => None,
        }
    }

    /// The fields of the message where it is embedded, if it is there.
    pub open spec fn optional_encoded(message: Option<AsrConfigView>) -> Option<Seq<FieldView>> {
        match message {
            Some(message) => Some(message.encoded()),
            None => None,
        }
    }

    /// The message that is embedded, if it is there.
    pub open spec fn optional_decoded(found: Option<Option<Seq<FieldView>>>) -> Option<
        Option<AsrConfigView>,
    > {
        match found {
            Some(Some(fields)) => match AsrConfigView::decoded(fields) {
                Some(message) => Some(Some(message)),
                None => None,
            },
            Some(None) => Some(None),
            None => None,
        }
    }

    /// The fields of a message give the message back.
    pub proof fn lemma_round_trip(self)
        ensures
            AsrConfigView::decoded(self.encoded()) == Some(self),
            codec::all_shaped(self.encoded()),
    {
        broadcast use {codec::group_values, codec::lemma_shaped_add};

        reveal(AsrConfigView::encoded);
        reveal(AsrConfigView::decoded);
        let all = self.encoded();
        codec::lemma_shaped_fields(1);
        codec::lemma_shaped_fields(2);
        codec::lemma_shaped_fields(3);
        codec::lemma_shaped_fields(4);
        codec::lemma_shaped_fields(5);
        let provider = codec::text_field(1, self.provider);
        assert(codec::values(all, 1) =~= codec::values(provider, 1));
        codec::lemma_text_in(all, 1, self.provider);
        let model = codec::text_field(2, self.model);
        assert(codec::values(all, 2) =~= codec::values(model, 2));
        codec::lemma_text_in(all, 2, self.model);
        let language = codec::text_field(3, self.language);
        assert(codec::values(all, 3) =~= codec::values(language, 3));
        codec::lemma_text_in(all, 3, self.language);
        let engine = codec::text_field(4, self.engine);
        assert(codec::values(all, 4) =~= codec::values(engine, 4));
        codec::lemma_text_in(all, 4, self.engine);
        let model_directory = codec::text_field(5, self.model_directory);
        assert(codec::values(all, 5) =~= codec::values(model_directory, 5));
        codec::lemma_text_in(all, 5, self.model_directory);
    }

    /// Every part of the message is written under its own tag, and nothing else is.
    pub proof fn law_fields(self, tag: u32)
        ensures
            codec::values(self.encoded(), 1) == codec::text_values(self.provider),
            codec::values(self.encoded(), 2) == codec::text_values(self.model),
            codec::values(self.encoded(), 3) == codec::text_values(self.language),
            codec::values(self.encoded(), 4) == codec::text_values(self.engine),
            codec::values(self.encoded(), 5) == codec::text_values(self.model_directory),
            tag == 0 || tag > 5 ==> codec::values(self.encoded(), tag).len() == 0,
    {
        broadcast use codec::group_values;

        reveal(AsrConfigView::encoded);
        assert(codec::values(self.encoded(), 1) =~= codec::text_values(self.provider));
        assert(codec::values(self.encoded(), 2) =~= codec::text_values(self.model));
        assert(codec::values(self.encoded(), 3) =~= codec::text_values(self.language));
        assert(codec::values(self.encoded(), 4) =~= codec::text_values(self.engine));
        assert(codec::values(self.encoded(), 5) =~= codec::text_values(self.model_directory));
    }

    /// A field under any other tag changes nothing, wherever it stands.
    pub proof fn law_unknown(a: Seq<FieldView>, one: FieldView, b: Seq<FieldView>)
        requires
            one.tag == 0 || one.tag > 5,
        ensures
            AsrConfigView::decoded(a + seq![one] + b) == AsrConfigView::decoded(a + b),
    {
        reveal(AsrConfigView::decoded);
        codec::lemma_unknown(a, one, b, 1);
        codec::lemma_unknown(a, one, b, 2);
        codec::lemma_unknown(a, one, b, 3);
        codec::lemma_unknown(a, one, b, 4);
        codec::lemma_unknown(a, one, b, 5);
    }
}

impl AsrConfig {
    /// The fields of the message.
    pub fn fields(&self) -> (out: Vec<Field>)
        ensures
            wire::field_views(out@) == self@.encoded(),
            codec::all_writable(wire::field_views(out@)),
    {
        proof {
            reveal(AsrConfigView::encoded);
        }
        let mut out: Vec<Field> = Vec::new();
        codec::add_text(&mut out, 1, self.provider.as_str());
        assert(wire::field_views(out@) =~= codec::text_field(1, self@.provider));
        codec::add_text(&mut out, 2, self.model.as_str());
        codec::add_text(&mut out, 3, self.language.as_str());
        codec::add_text(&mut out, 4, self.engine.as_str());
        codec::add_text(&mut out, 5, self.model_directory.as_str());
        out
    }

    /// The message with the given fields, if they are those of one.
    pub fn of(fields: &Vec<Field>) -> (message: Option<AsrConfig>)
        ensures
            match message {
                Some(message) => AsrConfigView::decoded(
                    wire::field_views(fields@),
                ) == Some(message@),
                None => AsrConfigView::decoded(wire::field_views(fields@)) is None,
            },
    {
        proof {
            reveal(AsrConfigView::decoded);
        }
        let provider: String = codec::find_text(fields, 1)?;
        let model: String = codec::find_text(fields, 2)?;
        let language: String = codec::find_text(fields, 3)?;
        let engine: String = codec::find_text(fields, 4)?;
        let model_directory: String = codec::find_text(fields, 5)?;
        Some(AsrConfig { provider, model, language, engine, model_directory })
    }
}

/// Which translation provider a session asks for.
#[derive(Debug, PartialEq)]
pub struct TranslationConfig {
    pub provider: String,
    pub target_language: String,
}

/// The model of [`TranslationConfig`].
#[verifier::ext_equal]
pub struct TranslationConfigView {
    pub provider: Seq<char>,
    pub target_language: Seq<char>,
}

impl View for TranslationConfig {
    type V = TranslationConfigView;

    open spec fn view(&self) -> TranslationConfigView {
        TranslationConfigView {
            provider: self.provider@,
            target_language: self.target_language@,
        }
    }
}

impl TranslationConfigView {
    /// The fields of the message.
    #[verifier::opaque]
    pub open spec fn encoded(self) -> Seq<FieldView> {
        codec::text_field(1, self.provider)
            + codec::text_field(2, self.target_language)
    }

    /// The message with the given fields, if they are those of one.
    #[verifier::opaque]
    pub open spec fn decoded(fields: Seq<FieldView>) -> Option<TranslationConfigView> {
        match (
            codec::text_in(fields, 1),
            codec::text_in(fields, 2),
        ) {
            (Some(provider), Some(target_language)) => Some(
                TranslationConfigView {
                    provider,
                    target_language,
                },
            ),
            _ => None,
        }
    }

    /// The fields of the message where it is embedded, if it is there.
    pub open spec fn optional_encoded(
        message: Option<TranslationConfigView>,
    ) -> Option<Seq<FieldView>> {
        match message {
            Some(message) => Some(message.encoded()),
            None => None,
        }
    }

    /// The message that is embedded, if it is there.
    pub open spec fn optional_decoded(found: Option<Option<Seq<FieldView>>>) -> Option<
        Option<TranslationConfigView>,
    > {
        match found {
            Some(Some(fields)) => match TranslationConfigView::decoded(fields) {
                Some(message) => Some(Some(message)),
                None => None,
            },
            Some(None) => Some(None),
            None => None,
        }
    }

    /// The fields of a message give the message back.
    pub proof fn lemma_round_trip(self)
        ensures
            TranslationConfigView::decoded(self.encoded()) == Some(self),
            codec::all_shaped(self.encoded()),
    {
        broadcast use {codec::group_values, codec::lemma_shaped_add};

        reveal(TranslationConfigView::encoded);
        reveal(TranslationConfigView::decoded);
        let all = self.encoded();
        codec::lemma_shaped_fields(1);
        codec::lemma_shaped_fields(2);
        let provider = codec::text_field(1, self.provider);
        assert(codec::values(all, 1) =~= codec::values(provider, 1));
        codec::lemma_text_in(all, 1, self.provider);
        let target_language = codec::text_field(2, self.target_language);
        assert(codec::values(all, 2) =~= codec::values(target_language, 2));
        codec::lemma_text_in(all, 2, self.target_language);
    }

    /// Every part of the message is written under its own tag, and nothing else is.
    pub proof fn law_fields(self, tag: u32)
        ensures
            codec::values(self.encoded(), 1) == codec::text_values(self.provider),
            codec::values(self.encoded(), 2) == codec::text_values(self.target_language),
            tag == 0 || tag > 2 ==> codec::values(self.encoded(), tag).len() == 0,
    {
        broadcast use codec::group_values;

        reveal(TranslationConfigView::encoded);
        assert(codec::values(self.encoded(), 1) =~= codec::text_values(self.provider));
        assert(codec::values(self.encoded(), 2) =~= codec::text_values(self.target_language));
    }

    /// A field under any other tag changes nothing, wherever it stands.
    pub proof fn law_unknown(a: Seq<FieldView>, one: FieldView, b: Seq<FieldView>)
        requires
            one.tag == 0 || one.tag > 2,
        ensures
            TranslationConfigView::decoded(
                a + seq![one] + b,
            ) == TranslationConfigView::decoded(a + b),
    {
        reveal(TranslationConfigView::decoded);
        codec::lemma_unknown(a, one, b, 1);
        codec::lemma_unknown(a, one, b, 2);
    }
}

impl TranslationConfig {
    /// The fields of the message.
    pub fn fields(&self) -> (out: Vec<Field>)
        ensures
            wire::field_views(out@) == self@.encoded(),
            codec::all_writable(wire::field_views(out@)),
    {
        proof {
            reveal(TranslationConfigView::encoded);
        }
        let mut out: Vec<Field> = Vec::new();
        codec::add_text(&mut out, 1, self.provider.as_str());
        assert(wire::field_views(out@) =~= codec::text_field(1, self@.provider));
        codec::add_text(&mut out, 2, self.target_language.as_str());
        out
    }

    /// The message with the given fields, if they are those of one.
    pub fn of(fields: &Vec<Field>) -> (message: Option<TranslationConfig>)
        ensures
            match message {
                Some(message) => TranslationConfigView::decoded(
                    wire::field_views(fields@),
                ) == Some(message@),
                None => TranslationConfigView::decoded(wire::field_views(fields@)) is None,
            },
    {
        proof {
            reveal(TranslationConfigView::decoded);
        }
        let provider: String = codec::find_text(fields, 1)?;
        let target_language: String = codec::find_text(fields, 2)?;
        Some(TranslationConfig { provider, target_language })
    }
}

/// How a session wants its subtitles laid out. Zero lines or characters mean the
/// default; a zero interval means no spacing between partial texts.
#[derive(Debug, Clone, Copy, PartialEq, Eq, Structural)]
pub struct SubtitleConfig {
    pub max_lines: u32,
    pub max_chars_per_line: u32,
    pub partial_interval_ms: u32,
    pub commit_silence_ms: u32,
}

impl View for SubtitleConfig {
    type V = SubtitleConfig;

    open spec fn view(&self) -> SubtitleConfig {
        *self
    }
}

impl SubtitleConfig {
    /// The fields of the message.
    #[verifier::opaque]
    pub open spec fn encoded(self) -> Seq<FieldView> {
        codec::varint_field(1, self.max_lines as u64)
            + codec::varint_field(2, self.max_chars_per_line as u64)
            + codec::varint_field(3, self.partial_interval_ms as u64)
            + codec::varint_field(4, self.commit_silence_ms as u64)
    }

    /// The message with the given fields, if they are those of one.
    #[verifier::opaque]
    pub open spec fn decoded(fields: Seq<FieldView>) -> Option<SubtitleConfig> {
        match (
            codec::varint_in(fields, 1),
            codec::varint_in(fields, 2),
            codec::varint_in(fields, 3),
            codec::varint_in(fields, 4),
        ) {
            (
                Some(max_lines),
                Some(max_chars_per_line),
                Some(partial_interval_ms),
                Some(commit_silence_ms),
            ) => Some(
                SubtitleConfig {
                    max_lines: codec::low_u32(max_lines),
                    max_chars_per_line: codec::low_u32(max_chars_per_line),
                    partial_interval_ms: codec::low_u32(partial_interval_ms),
                    commit_silence_ms: codec::low_u32(commit_silence_ms),
                },
            ),
            _ => None,
        }
    }

    /// The fields of the message where it is embedded, if it is there.
    pub open spec fn optional_encoded(message: Option<SubtitleConfig>) -> Option<Seq<FieldView>> {
        match message {
            Some(message) => Some(message.encoded()),
            None => None,
        }
    }

    /// The message that is embedded, if it is there.
    pub open spec fn optional_decoded(found: Option<Option<Seq<FieldView>>>) -> Option<
        Option<SubtitleConfig>,
    > {
        match found {
            Some(Some(fields)) => match SubtitleConfig::decoded(fields) {
                Some(message) => Some(Some(message)),
                None => None,
            },
            Some(None) => Some(None),
            None => None,
        }
    }

    /// The fields of a message give the message back.
    pub proof fn lemma_round_trip(self)
        ensures
            SubtitleConfig::decoded(self.encoded()) == Some(self),
            codec::all_shaped(self.encoded()),
    {
        broadcast use {codec::group_values, codec::lemma_shaped_add};

        reveal(SubtitleConfig::encoded);
        reveal(SubtitleConfig::decoded);
        let all = self.encoded();
        codec::lemma_shaped_fields(1);
        codec::lemma_shaped_fields(2);
        codec::lemma_shaped_fields(3);
        codec::lemma_shaped_fields(4);
        let max_lines = codec::varint_field(1, self.max_lines as u64);
        assert(codec::values(all, 1) =~= codec::values(max_lines, 1));
        codec::lemma_varint_in(all, 1, self.max_lines as u64);
        let max_chars_per_line = codec::varint_field(2, self.max_chars_per_line as u64);
        assert(codec::values(all, 2) =~= codec::values(max_chars_per_line, 2));
        codec::lemma_varint_in(all, 2, self.max_chars_per_line as u64);
        let partial_interval_ms = codec::varint_field(3, self.partial_interval_ms as u64);
        assert(codec::values(all, 3) =~= codec::values(partial_interval_ms, 3));
        codec::lemma_varint_in(all, 3, self.partial_interval_ms as u64);
        let commit_silence_ms = codec::varint_field(4, self.commit_silence_ms as u64);
        assert(codec::values(all, 4) =~= codec::values(commit_silence_ms, 4));
        codec::lemma_varint_in(all, 4, self.commit_silence_ms as u64);
    }

    /// Every part of the message is written under its own tag, and nothing else is.
    pub proof fn law_fields(self, tag: u32)
        ensures
            codec::values(self.encoded(), 1) == codec::number_values(self.max_lines as u64),
            codec::values(self.encoded(), 2) == codec::number_values(
                self.max_chars_per_line as u64,
            ),
            codec::values(self.encoded(), 3) == codec::number_values(
                self.partial_interval_ms as u64,
            ),
            codec::values(self.encoded(), 4) == codec::number_values(self.commit_silence_ms as u64),
            tag == 0 || tag > 4 ==> codec::values(self.encoded(), tag).len() == 0,
    {
        broadcast use codec::group_values;

        reveal(SubtitleConfig::encoded);
        assert(codec::values(self.encoded(), 1) =~= codec::number_values(self.max_lines as u64));
        assert(
            codec::values(self.encoded(), 2) =~= codec::number_values(
                self.max_chars_per_line as u64,
            )
        );
        assert(
            codec::values(self.encoded(), 3) =~= codec::number_values(
                self.partial_interval_ms as u64,
            )
        );
        assert(
            codec::values(self.encoded(), 4) =~= codec::number_values(self.commit_silence_ms as u64)
        );
    }

    /// A field under any other tag changes nothing, wherever it stands.
    pub proof fn law_unknown(a: Seq<FieldView>, one: FieldView, b: Seq<FieldView>)
        requires
            one.tag == 0 || one.tag > 4,
        ensures
            SubtitleConfig::decoded(a + seq![one] + b) == SubtitleConfig::decoded(a + b),
    {
        reveal(SubtitleConfig::decoded);
        codec::lemma_unknown(a, one, b, 1);
        codec::lemma_unknown(a, one, b, 2);
        codec::lemma_unknown(a, one, b, 3);
        codec::lemma_unknown(a, one, b, 4);
    }
}

impl SubtitleConfig {
    /// The fields of the message.
    pub fn fields(&self) -> (out: Vec<Field>)
        ensures
            wire::field_views(out@) == self@.encoded(),
            codec::all_writable(wire::field_views(out@)),
    {
        proof {
            reveal(SubtitleConfig::encoded);
        }
        let mut out: Vec<Field> = Vec::new();
        codec::add_varint(&mut out, 1, self.max_lines as u64);
        assert(wire::field_views(out@) =~= codec::varint_field(1, self@.max_lines as u64));
        codec::add_varint(&mut out, 2, self.max_chars_per_line as u64);
        codec::add_varint(&mut out, 3, self.partial_interval_ms as u64);
        codec::add_varint(&mut out, 4, self.commit_silence_ms as u64);
        out
    }

    /// The message with the given fields, if they are those of one.
    pub fn of(fields: &Vec<Field>) -> (message: Option<SubtitleConfig>)
        ensures
            match message {
                Some(message) => SubtitleConfig::decoded(
                    wire::field_views(fields@),
                ) == Some(message@),
                None => SubtitleConfig::decoded(wire::field_views(fields@)) is None,
            },
    {
        proof {
            reveal(SubtitleConfig::decoded);
        }
        let max_lines: u32 = codec::narrow_u32(codec::find_varint(fields, 1)?);
        let max_chars_per_line: u32 = codec::narrow_u32(codec::find_varint(fields, 2)?);
        let partial_interval_ms: u32 = codec::narrow_u32(codec::find_varint(fields, 3)?);
        let commit_silence_ms: u32 = codec::narrow_u32(codec::find_varint(fields, 4)?);
        Some(
            SubtitleConfig {
                max_lines,
                max_chars_per_line,
                partial_interval_ms,
                commit_silence_ms,
            },
        )
    }
}

} // verus!
