//! The backend's languages, requests and answers, under one roof.

pub use crate::api::{
    Formality, Language, LanguageType, SplitSentences, TagHandling, TextTranslation,
    TranslateTextRequest, TranslateTextResponse, Usage,
};
pub use crate::lang::Lang;
