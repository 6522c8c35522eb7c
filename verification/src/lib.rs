//! Keeps per-language string bundles in step with a template bundle.
//!
//! A run compares the template with a target bundle and with the cache of
//! what was last sent for translation, shields the placeholders of what has
//! to be translated, and merges the backend's answer, the entries passed
//! through and the overrides into the new target bundle.

pub mod api;
pub mod arb;
pub mod cache;
pub mod compare;
pub mod deepl;
pub mod error;
pub mod intl;
pub mod json;
pub mod lang;
pub mod laws;
pub mod ordered;
pub mod placeholder;
pub mod plan;
pub mod round_trip;
pub mod run;
pub mod text;
pub mod yaml;

pub use arb::{ArbEntry, ArbFile, ArbKey, ArbValue, FileDiff};
pub use cache::{ArbCache, LangFiles};
pub use error::Error;
pub use intl::{Intl, TranslateResult};
pub use json::{Member, Value};
pub use placeholder::Placeholders;
pub use plan::{FailurePolicy, Invalidation, Staged, TranslationOptions};
pub use run::{Finished, PendingTranslation};
