//! The errors of the library.

use crate::text::{decimal, decimal_of};
use vstd::prelude::*;
use yaml_rust2::ScanError;

verus! {

/// `yaml_rust2::ScanError`, what the YAML parser reports of a text that is
/// not well-formed; it is carried through and nothing is known of it.
#[verifier::external_type_specification]
#[verifier::external_body]
pub struct ExScanError(ScanError);

/// Error type for the library. The path of the index file is held as its text.
#[derive(Debug)]
pub enum Error {
    /// Localizations index file does not contain the `arb-dir`.
    ArbDirNotDefined(String),
    /// Localizations index file does not contain the `template-arb-file`.
    TemplateArbFileNotDefined(String),
    /// No YAML documents detected.
    NoYamlDocuments(String),
    /// The backend did not return the expected number of translations:
    /// the number asked for, then the number that came back.
    TranslationLength(usize, usize),
    /// Key is already prefixed with an @ symbol.
    AlreadyPrefixed(String),
    /// Placeholder declared in the metadata does not exist in the string
    /// to be translated: the placeholder's name, then the string.
    PlaceholderNotDefined(String, String),
    /// Text that names no supported language.
    InvalidLang(String),
    /// The index file is not well-formed YAML.
    Yaml(ScanError),
}


/// `Display` of `yaml_rust2::ScanError`: what went wrong and where in the
/// text. Nothing is claimed of the wording.
#[verifier::external_body]
fn scan_error_text(e: &ScanError) -> String {
    format!("{}", e)
}

/// `head`, `inner` and `tail`, one after the other.
fn framed(head: &str, inner: &str, tail: &str) -> (r: String)
    ensures
        r@ == head@ + inner@ + tail@,
{
    let mut r = head.to_owned();
    r.append(inner);
    r.append(tail);
    r
}

impl Error {
    /// What the error says, for every error but a YAML error.
    pub open spec fn message_of(&self) -> Seq<char> {
        match self {
            Error::ArbDirNotDefined(p) => "arb-dir is not defined in '"@ + p@ + "'"@,
            Error::TemplateArbFileNotDefined(p) => "template-arb-file is not defined in '"@ + p@
                + "'"@,
            Error::NoYamlDocuments(p) => "no YAML documents in index file '"@ + p@ + "'"@,
            Error::TranslationLength(want, got) => "expecting '"@ + decimal_of(*want as nat)
                + "' translations but got '"@ + decimal_of(*got as nat) + "'"@,
            Error::AlreadyPrefixed(k) => "key '"@ + k@ + "' is already prefixed with an @ symbol"@,
            Error::PlaceholderNotDefined(name, source) => "placeholder '"@ + name@
                + "' is declared but does not exist in source '"@ + source@ + "'"@,
            Error::InvalidLang(t) => "invalid language '"@ + t@ + "'"@,
            Error::Yaml(_) => Seq::empty(),
        }
    }

    /// What the error says. A YAML error says what the parser reports.
    pub fn message(&self) -> (r: String)
        ensures
            !(self is Yaml) ==> r@ == self.message_of(),
    {
        match self {
            Error::ArbDirNotDefined(p) => framed("arb-dir is not defined in '", p.as_str(), "'"),
            Error::TemplateArbFileNotDefined(p) => framed(
                "template-arb-file is not defined in '",
                p.as_str(),
                "'",
            ),
            Error::NoYamlDocuments(p) => framed(
                "no YAML documents in index file '",
                p.as_str(),
                "'",
            ),
            Error::TranslationLength(want, got) => {
                let mut r = framed(
                    "expecting '",
                    decimal(*want).as_str(),
                    "' translations but got '",
                );
                r.append(decimal(*got).as_str());
                r.append("'");
                r
            },
            Error::AlreadyPrefixed(k) => framed(
                "key '",
                k.as_str(),
                "' is already prefixed with an @ symbol",
            ),
            Error::PlaceholderNotDefined(name, source) => {
                let mut r = framed(
                    "placeholder '",
                    name.as_str(),
                    "' is declared but does not exist in source '",
                );
                r.append(source.as_str());
                r.append("'");
                r
            },
            Error::InvalidLang(t) => framed("invalid language '", t.as_str(), "'"),
            Error::Yaml(e) => scan_error_text(e),
        }
    }
}

} // verus!
