//! Which Whisper model is used, where it comes from and how it is run.

use crate::asr::AsrOptions;
use crate::asr::AsrOptionsView;
use crate::error::{CoreError, ErrorView, Result};
use crate::text;
use vstd::prelude::*;

verus! {

/// Where models are downloaded from unless another place is configured. A mirror that
/// works well from mainland China.
pub const DEFAULT_BASE_URL: &'static str =
    "https://hf-mirror.com/ggerganov/whisper.cpp/resolve/main/";

/// The prompt that biases Chinese output towards simplified characters.
pub const SIMPLIFIED_CHINESE_PROMPT: &'static str = "以下是普通话的句子。";

/// How many threads decode at most.
pub const MAX_THREADS: usize = 8;

/// How many threads decode where the machine does not say what it can run.
pub const USUAL_THREADS: usize = 4;

// ---------------------------------------------------------------------------
// The catalog
// ---------------------------------------------------------------------------

/// Whether `model` is the ID of a model in the catalog.
pub open spec fn in_catalog(model: Seq<char>) -> bool {
    ||| model == "tiny"@
    ||| model == "tiny.en"@
    ||| model == "base"@
    ||| model == "base.en"@
    ||| model == "small"@
    ||| model == "small.en"@
    ||| model == "medium"@
    ||| model == "medium.en"@
    ||| model == "large"@
    ||| model == "large-v1"@
    ||| model == "large-v2"@
    ||| model == "large-v3"@
}

/// The file that a model is in. An ID of the catalog stands for its file, `large` for
/// that of `large-v3`; anything else is the name of a file.
pub open spec fn file_of(model: Seq<char>) -> Seq<char> {
    if model == "large"@ {
        "ggml-large-v3.bin"@
    } else if in_catalog(model) {
        "ggml-"@ + model + ".bin"@
    } else {
        model
    }
}

fn is_catalog_id(model: &str) -> (known: bool)
    ensures
        known == in_catalog(model@),
{
    text::same_text(model, "tiny") || text::same_text(model, "tiny.en") || text::same_text(
        model,
        "base",
    ) || text::same_text(model, "base.en") || text::same_text(model, "small") || text::same_text(
        model,
        "small.en",
    ) || text::same_text(model, "medium") || text::same_text(model, "medium.en")
        || text::same_text(model, "large") || text::same_text(model, "large-v1")
        || text::same_text(model, "large-v2") || text::same_text(model, "large-v3")
}

/// The file that a model is in.
pub fn model_file(model: &str) -> (file: String)
    ensures
        file@ == file_of(model@),
{
    if text::same_text(model, "large") {
        "ggml-large-v3.bin".to_string()
    } else if is_catalog_id(model) {
        let mut file: String = text::appended("ggml-", model);
        file.append(".bin");
        file
    } else {
        model.to_string()
    }
}

// ---------------------------------------------------------------------------
// Where the model comes from
// ---------------------------------------------------------------------------

/// A model file that the environment names.
#[derive(Debug, PartialEq)]
pub struct ExplicitModel {
    pub path: String,
    /// The path as it is shown in a message.
    pub shown: String,
    pub exists: bool,
}

/// Where the model comes from.
#[derive(Debug, PartialEq)]
pub enum ModelPlan {
    /// This file.
    Use { path: String },
    /// The file in the directory, after a download from `url` where it is missing. The
    /// directory is that of the installation where none is named.
    Find { directory: Option<String>, file: String, url: String },
}

/// The model of [`ModelPlan`].
#[verifier::ext_equal]
pub enum ModelPlanView {
    Use { path: Seq<char> },
    Find { directory: Option<Seq<char>>, file: Seq<char>, url: Seq<char> },
}

impl View for ModelPlan {
    type V = ModelPlanView;

    open spec fn view(&self) -> ModelPlanView {
        match self {
            ModelPlan::Use { path } => ModelPlanView::Use { path: path@ },
            ModelPlan::Find { directory, file, url } => ModelPlanView::Find {
                directory: text::optional(*directory),
                file: file@,
                url: url@,
            },
        }
    }
}

/// The error where the environment names a file that is not there.
pub open spec fn missing_model(shown: Seq<char>) -> ErrorView {
    ErrorView::Model(
        "TRANSLATOR_WHISPER_MODEL points to "@ + shown + " which does not exist"@,
    )
}

/// Where the model comes from where the environment names no file.
pub open spec fn found_by_name(
    options: AsrOptionsView,
    base_url: Option<Seq<char>>,
) -> ModelPlanView {
    let base = match base_url {
        Some(base) => base,
        None => DEFAULT_BASE_URL@,
    };
    ModelPlanView::Find {
        directory: if options.model_directory.len() == 0 {
            None
        } else {
            Some(options.model_directory)
        },
        file: file_of(options.model),
        url: base + file_of(options.model),
    }
}

/// Decide where the model comes from. `base_url` is the place that the environment
/// names for downloads.
pub fn resolve_model(
    options: &AsrOptions,
    explicit: Option<ExplicitModel>,
    base_url: Option<String>,
) -> (plan: Result<ModelPlan>)
    ensures
        match plan {
            Ok(plan) => match explicit {
                Some(model) => model.exists && plan@ == (ModelPlanView::Use { path: model.path@ }),
                None => plan@ == found_by_name(options@, text::optional(base_url)),
            },
            Err(error) => explicit matches Some(model) && !model.exists && error@ == missing_model(
                model.shown@,
            ),
        },
{
    if let Some(model) = explicit {
        if model.exists {
            return Ok(ModelPlan::Use { path: model.path });
        }
        let mut message: String = text::appended(
            "TRANSLATOR_WHISPER_MODEL points to ",
            model.shown.as_str(),
        );
        message.append(" which does not exist");
        return Err(CoreError::Model(message));
    }
    let file: String = model_file(options.model.as_str());
    let url: String = match base_url {
        Some(base) => text::appended(base.as_str(), file.as_str()),
        None => text::appended(DEFAULT_BASE_URL, file.as_str()),
    };
    let directory: Option<String> = if text::is_blank(options.model_directory.as_str()) {
        None
    } else {
        Some(options.model_directory.clone())
    };
    Ok(ModelPlan::Find { directory, file, url })
}

/// Whether the answer to a download request is worth reading.
pub fn check_download(success: bool, status: &str) -> (checked: Result<()>)
    ensures
        match checked {
            Ok(_) => success,
            Err(error) => !success && error@ == ErrorView::Model(
                "model download failed: HTTP "@ + status@,
            ),
        },
{
    if success {
        Ok(())
    } else {
        Err(CoreError::Model(text::appended("model download failed: HTTP ", status)))
    }
}

// ---------------------------------------------------------------------------
// How the model is run
// ---------------------------------------------------------------------------

/// The language that the model is told; `None` lets it find out.
pub fn language_hint(options: &AsrOptions) -> (hint: Option<String>)
    ensures
        text::optional(hint) == if options@.language.len() == 0 {
            None
        } else {
            Some(options@.language)
        },
{
    if text::is_blank(options.language.as_str()) {
        None
    } else {
        Some(options.language.clone())
    }
}

/// The prompt that the model is given, if any.
pub open spec fn prompt_for(options: AsrOptionsView) -> Option<Seq<char>> {
    if options.initial_prompt.len() > 0 {
        Some(options.initial_prompt)
    } else if options.language == "zh"@ {
        Some(SIMPLIFIED_CHINESE_PROMPT@)
    } else {
        None
    }
}

/// The prompt that the model is given, if any.
pub fn initial_prompt(options: &AsrOptions) -> (prompt: Option<String>)
    ensures
        text::optional(prompt) == prompt_for(options@),
{
    if !text::is_blank(options.initial_prompt.as_str()) {
        Some(options.initial_prompt.clone())
    } else if text::same_text(options.language.as_str(), "zh") {
        Some(SIMPLIFIED_CHINESE_PROMPT.to_string())
    } else {
        None
    }
}

/// How many threads decode, where the machine can run `available` of them.
pub fn decode_threads(available: Option<usize>) -> (threads: i32)
    ensures
        ({
            let wanted = match available {
                Some(count) => count,
                None => USUAL_THREADS,
            };
            threads == if wanted < MAX_THREADS {
                wanted as int
            } else {
                MAX_THREADS as int
            }
        }),
{
    let wanted: usize = match available {
        Some(count) => count,
        None => USUAL_THREADS,
    };
    if wanted < MAX_THREADS {
        wanted as i32
    } else {
        MAX_THREADS as i32
    }
}

// ---------------------------------------------------------------------------
// Laws
// ---------------------------------------------------------------------------

/// A name out of the catalog stands whole in its file's name; a file's name stands for
/// itself; `large` is the third large model.
pub proof fn law_file(model: Seq<char>)
    ensures
        in_catalog(model) && model != "large"@ ==> {
            &&& file_of(model).len() == model.len() + 9
            &&& file_of(model).subrange(5, 5 + model.len() as int) == model
            &&& file_of(model).take(5) == "ggml-"@
            &&& file_of(model).skip(5 + model.len() as int) == ".bin"@
        },
        !in_catalog(model) ==> file_of(model) == model,
        file_of(file_of(model)) == file_of(model),
        file_of("large"@) == file_of("large-v3"@),
{
    lemma_catalog(file_of(model));
    reveal_strlit("ggml-");
    reveal_strlit(".bin");
    reveal_strlit("large");
    reveal_strlit("large-v3");
    reveal_strlit("ggml-large-v3.bin");
    assert("large"@.len() != "large-v3"@.len());
    assert("ggml-large-v3.bin"@ =~= "ggml-"@ + "large-v3"@ + ".bin"@);
    let file = "ggml-"@ + model + ".bin"@;
    assert(file.subrange(5, 5 + model.len() as int) =~= model);
    assert(file.take(5) =~= "ggml-"@);
    assert(file.skip(5 + model.len() as int) =~= ".bin"@);
    assert(file[0] == 'g');
}

/// No name in the catalog begins as the files do.
proof fn lemma_catalog(name: Seq<char>)
    ensures
        in_catalog(name) ==> name.len() > 0 && name[0] != 'g',
{
    reveal_strlit("tiny");
    reveal_strlit("tiny.en");
    reveal_strlit("base");
    reveal_strlit("base.en");
    reveal_strlit("small");
    reveal_strlit("small.en");
    reveal_strlit("medium");
    reveal_strlit("medium.en");
    reveal_strlit("large");
    reveal_strlit("large-v1");
    reveal_strlit("large-v2");
    reveal_strlit("large-v3");
}

/// A model is fetched from the base, which is the given one or the usual one, under the
/// name of the file it is kept in; the directory and the file do not depend on the base.
pub proof fn law_found(options: AsrOptionsView, base: Seq<char>)
    ensures
        ({
            let own = found_by_name(options, Some(base));
            let usual = found_by_name(options, None);
            &&& own is Find && usual is Find
            &&& own->url == base + own->file
            &&& usual == found_by_name(options, Some(DEFAULT_BASE_URL@))
            &&& own->file == usual->file && own->directory == usual->directory
            &&& own->file == file_of(options.model)
            &&& own->directory is Some <==> options.model_directory.len() > 0
            &&& own->directory matches Some(directory) ==> directory == options.model_directory
        }),
{
}

/// A prompt of the user's own is used as it is in every language; without one only Chinese
/// has a prompt.
pub proof fn law_prompt(options: AsrOptionsView)
    ensures
        options.initial_prompt.len() > 0 ==> prompt_for(options) == Some(options.initial_prompt),
        options.initial_prompt.len() == 0 ==> (prompt_for(options) is Some <==> options.language
            == "zh"@),
        options.initial_prompt.len() == 0 && prompt_for(options) is Some ==> prompt_for(options)
            == Some(SIMPLIFIED_CHINESE_PROMPT@),
{
}

} // verus!
