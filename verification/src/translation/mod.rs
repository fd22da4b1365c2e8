//! Text translation providers.
//!
//! The `apple-translate` provider talks to a small helper process over a Unix socket
//! with a JSON line protocol.

pub mod apple;
pub mod mock;

use crate::error::{CoreError, ErrorView, Result};
use crate::text;
use crate::translation::apple::{AppleTranslator, AppleView};
use crate::translation::mock::MockTranslator;
use vstd::prelude::*;

verus! {

/// Options handed to a translation provider when it is constructed.
#[derive(Debug, PartialEq)]
pub struct TranslatorOptions {
    /// BCP-47 source language.
    pub source_language: String,
    /// BCP-47 target language (e.g. `zh-Hans`).
    pub target_language: String,
}

/// A translation provider that answers at once.
pub trait Translator {
    /// The name of the provider.
    spec fn provider(&self) -> Seq<char>;

    /// The name of the provider.
    fn name(&self) -> (name: &'static str)
        ensures
            name@ == self.provider(),
    ;

    /// Translate one stable segment. Returning `Err` must never kill the subtitle
    /// pipeline: the subtitle is then shipped untranslated.
    fn translate(&mut self, text: &str) -> (translated: Result<String>);
}

/// The translation provider that was asked for.
#[derive(Debug, PartialEq)]
pub enum Provider {
    Mock(MockTranslator),
    /// It has to be connected and probed before it can be used.
    Apple(AppleTranslator),
}

/// The model of [`Provider`].
#[verifier::ext_equal]
pub enum ProviderView {
    Mock,
    Apple(AppleView),
}

impl View for Provider {
    type V = ProviderView;

    open spec fn view(&self) -> ProviderView {
        match self {
            Provider::Mock(_) => ProviderView::Mock,
            Provider::Apple(apple) => ProviderView::Apple(apple@),
        }
    }
}

impl Provider {
    /// The name of the provider.
    pub fn name(&self) -> (name: &'static str)
        ensures
            name@ == match self@ {
                ProviderView::Mock => "mock"@,
                ProviderView::Apple(_) => "apple-translate"@,
            },
    {
        match self {
            Provider::Mock(mock) => mock.name(),
            Provider::Apple(apple) => apple.name(),
        }
    }
}

/// Build the translator named by `provider`. `bridge_socket` is where the environment
/// says that the helper of `apple-translate` listens.
pub fn create(
    provider: &str,
    opts: TranslatorOptions,
    bridge_socket: Option<String>,
) -> (translator: Result<Provider>)
    ensures
        match translator {
            Ok(translator) => {
                ||| provider@ == "mock"@ && translator@ == ProviderView::Mock
                ||| {
                    &&& provider@ != "mock"@
                    &&& provider@ == "apple-translate"@
                    &&& translator@ == ProviderView::Apple(
                        AppleView::initial(
                            opts.source_language@,
                            opts.target_language@,
                            text::optional(bridge_socket),
                        ),
                    )
                }
            },
            Err(error) => {
                &&& provider@ != "mock"@
                &&& provider@ != "apple-translate"@
                &&& error@ == ErrorView::Unsupported(
                    "translation provider `"@ + provider@
                        + "` is not wired up (known: `mock`, `apple-translate`)"@,
                )
            },
        },
{
    if text::same_text(provider, "mock") {
        return Ok(Provider::Mock(MockTranslator));
    }
    if text::same_text(provider, "apple-translate") {
        return Ok(Provider::Apple(AppleTranslator::new(opts, bridge_socket)));
    }
    let mut message: String = text::appended("translation provider `", provider);
    message.append("` is not wired up (known: `mock`, `apple-translate`)");
    Err(CoreError::Unsupported(message))
}

} // verus!
