//! What is said to the translation backend and what it answers, as plain data.

use crate::lang::Lang;
use crate::text::{chars_of, ends_with, matches_at};
use vstd::prelude::*;

verus! {

/// Whether an API key belongs to the free endpoint of the backend: such
/// keys end in `:fx`.
pub fn is_free_key(api_key: &str) -> (r: bool)
    ensures
        r == ends_with(api_key@, seq![':', 'f', 'x']),
{
    let key = chars_of(api_key);
    let mut mark: Vec<char> = Vec::new();
    mark.push(':');
    mark.push('f');
    mark.push('x');
    proof {
        assert(mark@ =~= seq![':', 'f', 'x']);
    }
    key.len() >= 3 && matches_at(&key, &mark, key.len() - 3)
}

/// Enumeration of split sentence options.
#[derive(Debug, Copy, Clone, PartialEq, Eq, Structural)]
pub enum SplitSentences {
    /// Do not split sentences.
    Off,
    /// Split on punctuation and newlines.
    ///
    /// Default for XML tag handling.
    One,
    /// Split on punctuation only.
    ///
    /// Default for HTML tag handling.
    NoNewlines,
}

/// Variants for formality.
#[derive(Debug, Copy, Clone, PartialEq, Eq, Structural)]
pub enum Formality {
    /// Default formality.
    Default,
    /// For a more formal language.
    More,
    /// For a more informal language.
    Less,
    /// For a more formal language if available,
    /// otherwise fallback to default formality.
    PreferMore,
    /// For a more informal language if available,
    /// otherwise fallback to default formality.
    PreferLess,
}

impl Default for Formality {
    fn default() -> (r: Self)
        ensures
            r == Formality::Default,
    {
        Formality::Default
    }
}

/// Supported language information.
#[derive(Debug)]
pub struct Language {
    /// Language code.
    pub language: Lang,
    /// Language name.
    pub name: String,
    /// Whether the language supports formality.
    pub supports_formality: Option<bool>,
}

/// Enumeration of language types.
#[derive(Debug, Copy, Clone, PartialEq, Eq, Structural)]
pub enum LanguageType {
    /// Source language.
    Source,
    /// Target language.
    Target,
}

impl Default for LanguageType {
    fn default() -> (r: Self)
        ensures
            r == LanguageType::Source,
    {
        LanguageType::Source
    }
}

impl LanguageType {
    /// The name of the language type as the backend writes it.
    pub open spec fn name_of(self) -> Seq<char> {
        match self {
            LanguageType::Source => "source"@,
            LanguageType::Target => "target"@,
        }
    }

    /// The name of the language type as the backend writes it.
    pub fn as_ref(&self) -> (r: &'static str)
        ensures
            r@ == self.name_of(),
    {
        match self {
            Self::Source => "source",
            Self::Target => "target",
        }
    }

    /// The name of the language type, owned.
    pub fn to_string(&self) -> (r: String)
        ensures
            r@ == self.name_of(),
    {
        self.as_ref().to_owned()
    }
}

/// Account usage information.
#[derive(Debug, Copy, Clone, PartialEq, Eq, Structural)]
pub struct Usage {
    /// Character count.
    pub character_count: u64,
    /// Character limit.
    pub character_limit: u64,
}

/// Variants for tag handling.
#[derive(Debug, Copy, Clone, PartialEq, Eq, Structural)]
pub enum TagHandling {
    /// XML tag handling.
    Xml,
    /// HTML tag handling.
    Html,
}

/// Single text translation.
#[derive(Debug)]
pub struct TextTranslation {
    /// Translated text.
    pub text: String,
    /// Detected source language.
    pub detected_source_language: Lang,
}

/// Request to translate text.
#[derive(Debug)]
pub struct TranslateTextRequest {
    /// Text to translate.
    pub text: Vec<String>,
    /// Target language.
    pub target_lang: Lang,
    /// Tag handling.
    pub tag_handling: Option<TagHandling>,
    /// Source language.
    pub source_lang: Option<Lang>,
    /// Context string.
    pub context: Option<String>,
    /// Preserve formatting.
    pub preserve_formatting: Option<bool>,
    /// Glossary identifier.
    pub glossary_id: Option<String>,
    /// Outline detection.
    pub outline_detection: Option<bool>,
    /// Non splitting tags.
    pub non_splitting_tags: Option<Vec<String>>,
    /// Splitting tags.
    pub splitting_tags: Option<Vec<String>>,
    /// Ignore tags.
    pub ignore_tags: Option<Vec<String>>,
    /// Formality.
    pub formality: Option<Formality>,
    /// Split sentences.
    pub split_sentences: Option<SplitSentences>,
}

impl TranslateTextRequest {
    /// Create new translate text request: the text and the target language
    /// as given, and every option unset.
    pub fn new(text: Vec<String>, target_lang: Lang) -> (r: Self)
        ensures
            r.text == text,
            r.target_lang == target_lang,
            r.tag_handling.is_none(),
            r.source_lang.is_none(),
            r.context.is_none(),
            r.preserve_formatting.is_none(),
            r.glossary_id.is_none(),
            r.outline_detection.is_none(),
            r.non_splitting_tags.is_none(),
            r.splitting_tags.is_none(),
            r.ignore_tags.is_none(),
            r.formality.is_none(),
            r.split_sentences.is_none(),
    {
        Self {
            text,
            target_lang,
            source_lang: None,
            context: None,
            preserve_formatting: None,
            glossary_id: None,
            outline_detection: None,
            non_splitting_tags: None,
            splitting_tags: None,
            ignore_tags: None,
            tag_handling: None,
            formality: None,
            split_sentences: None,
        }
    }
}

/// Response to a translate text request.
#[derive(Debug)]
pub struct TranslateTextResponse {
    /// Collection of translations.
    pub translations: Vec<TextTranslation>,
}

} // verus!
