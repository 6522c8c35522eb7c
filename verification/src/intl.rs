//! The synchronization context: the settings of the index file, the cache,
//! and the two steps of a translation run.

use crate::api::TranslateTextResponse;
use crate::arb::ArbFile;
use crate::cache::ArbCache;
use crate::error::Error;
use crate::lang::Lang;
use crate::ordered::EntryModel;
use crate::placeholder::first_missing;
use crate::plan::{replies_of, reply_count, sync_model, SyncModel, TranslationOptions};
use crate::run::{prepare, Finished, PendingTranslation};
use crate::text::{
    append_range, chars_of, matches_at, starts_with, string_of, trim_end, trim_start,
    trimmed_end, trimmed_start,
};
use crate::yaml::{yaml_load, yaml_loaded, yaml_setting, yaml_settings};
use vstd::prelude::*;
use yaml_rust2::Yaml;

verus! {

/// The language's code as file names write it: in lower case, with an
/// underscore for each hyphen.
pub open spec fn file_code(lang: Lang) -> Seq<char> {
    lang.lower_code_of().map_values(
        |c: char|
            if c == '-' {
                '_'
            } else {
                c
            },
    )
}

/// The file name of a language's bundle: the prefix, an underscore, the
/// language's file code, and `.arb`.
pub open spec fn file_name(prefix: Seq<char>, lang: Lang) -> Seq<char> {
    prefix + seq!['_'] + file_code(lang) + seq!['.', 'a', 'r', 'b']
}

/// `name` without every leading repetition of the prefix and an underscore.
pub open spec fn unprefixed(name: Seq<char>, prefix: Seq<char>) -> Seq<char> {
    trim_start(name, prefix + seq!['_'])
}

/// The language code in a bundle's file name: the name without `.arb` at its
/// end and without the prefix and an underscore at its start.
pub open spec fn language_code(file: Seq<char>, prefix: Seq<char>) -> Seq<char> {
    unprefixed(trim_end(file, seq!['.', 'a', 'r', 'b']), prefix)
}

/// The prefix of file names: the one that the settings give, else the one
/// that the caller gives, else `app`.
pub open spec fn chosen_prefix(
    settings: Map<Seq<char>, Seq<char>>,
    given: Option<Seq<char>>,
) -> Seq<char> {
    if settings.contains_key("name-prefix"@) {
        settings["name-prefix"@]
    } else {
        match given {
            Some(p) => p,
            None => "app"@,
        }
    }
}

/// The cache after a run has been committed: the run's cached bundle under
/// the target language, where the run has one and the cache is enabled.
pub open spec fn committed(
    cache: Map<Lang, Seq<EntryModel>>,
    lang: Lang,
    m: SyncModel,
) -> Map<Lang, Seq<EntryModel>> {
    if m.disable_cache {
        cache
    } else {
        match m.cache_after() {
            Some(c) => cache.insert(lang, c),
            None => cache,
        }
    }
}

/// Translate result.
#[derive(Debug)]
pub struct TranslateResult {
    /// Template information.
    pub template: ArbFile,
    /// Translated content.
    pub translated: ArbFile,
    /// Number of translations.
    pub length: usize,
}

/// The model of a synchronization context.
pub struct IntlModel {
    /// Path of the index file.
    pub file_path: Seq<char>,
    /// Directory for application resource bundles.
    pub arb_dir: Seq<char>,
    /// Language of the template bundle.
    pub template_language: Lang,
    /// File name of the template bundle.
    pub template_arb_file: Seq<char>,
    /// Prefix used to compute file names.
    pub name_prefix: Seq<char>,
    /// Directory for override files.
    pub overrides_dir: Option<Seq<char>>,
    /// The cached bundles, by language.
    pub cache: Map<Lang, Seq<EntryModel>>,
}

/// Internationalization index file.
///
/// Translations are loaded by convention from the directory pointed
/// to by the `arb-dir`. The default convention is to use `app` as the
/// prefix concatenated with a lowercase language identifier delimited
/// by an underscore. Language identifiers in file names should use
/// underscores and ***not hyphens***. For example, the file name for
/// the `EN-US` language would be `app_en_us.arb`.
#[derive(Debug)]
pub struct Intl {
    file_path: String,
    arb_dir: String,
    template_language: Lang,
    template_arb_file: String,
    name_prefix: String,
    overrides_dir: Option<String>,
    cache: ArbCache,
}

impl View for Intl {
    type V = IntlModel;

    closed spec fn view(&self) -> IntlModel {
        IntlModel {
            file_path: self.file_path@,
            arb_dir: self.arb_dir@,
            template_language: self.template_language,
            template_arb_file: self.template_arb_file@,
            name_prefix: self.name_prefix@,
            overrides_dir: optional_text(self.overrides_dir),
            cache: self.cache@,
        }
    }
}

/// The text of an optional string.
pub open spec fn optional_text(s: Option<String>) -> Option<Seq<char>> {
    match s {
        Some(s) => Some(s@),
        None => None,
    }
}

/// The setting under `key`, if the settings have it.
pub open spec fn setting(settings: Map<Seq<char>, Seq<char>>, key: Seq<char>) -> Option<
    Seq<char>,
> {
    if settings.contains_key(key) {
        Some(settings[key])
    } else {
        None
    }
}

impl Intl {
    /// The invariant of the context: its cache is well-formed.
    pub closed spec fn wf(&self) -> bool {
        self.cache.wf()
    }

    /// Read the settings of an index file from its text, using the default
    /// file name prefix.
    pub fn new(path: &str, content: &str) -> (r: Result<Self, Error>)
        ensures
            read_from(path@, yaml_loaded(content@), None, r),
    {
        Self::new_with_prefix(path, content, None)
    }

    /// Read the settings of an index file from its text, with a given file
    /// name prefix. The first document of the text counts.
    pub fn new_with_prefix(path: &str, content: &str, name_prefix: Option<String>) -> (r: Result<
        Self,
        Error,
    >)
        ensures
            read_from(
                path@,
                yaml_loaded(content@),
                optional_text(name_prefix),
                r,
            ),
    {
        let docs = match yaml_load(content) {
            Ok(docs) => docs,
            Err(e) => {
                return Err(Error::Yaml(e));
            },
        };
        if docs.len() == 0 {
            return Err(Error::NoYamlDocuments(path.to_owned()));
        }
        Self::from_document(path, &docs[0], name_prefix)
    }

    /// Read the settings of an index file from its YAML document.
    ///
    /// The directory and the template's file name must be set. The language
    /// of the template is the one that its file name gives, once `.arb` and
    /// the prefix with an underscore are taken off. The cache starts empty.
    pub fn from_document(path: &str, doc: &Yaml, name_prefix: Option<String>) -> (r: Result<
        Self,
        Error,
    >)
        ensures
            built_from(
                path@,
                yaml_settings(*doc),
                optional_text(name_prefix),
                r,
            ),
    {
        let ghost given = optional_text(name_prefix);
        let arb_dir = match yaml_setting(doc, "arb-dir") {
            Some(d) => d,
            None => {
                return Err(Error::ArbDirNotDefined(path.to_owned()));
            },
        };
        let template_arb_file = match yaml_setting(doc, "template-arb-file") {
            Some(f) => f,
            None => {
                return Err(Error::TemplateArbFileNotDefined(path.to_owned()));
            },
        };
        let name_prefix = match yaml_setting(doc, "name-prefix") {
            Some(p) => p,
            None => match name_prefix {
                Some(p) => p,
                None => "app".to_owned(),
            },
        };
        let overrides_dir = yaml_setting(doc, "overrides-dir");
        let mut suffix: Vec<char> = Vec::new();
        suffix.push('.');
        suffix.push('a');
        suffix.push('r');
        suffix.push('b');
        proof {
            assert(suffix@ =~= seq!['.', 'a', 'r', 'b']);
        }
        let stem = trimmed_end(&chars_of(template_arb_file.as_str()), &suffix);
        let code = string_of(&without_prefix(&stem, name_prefix.as_str()));
        let template_language = match Lang::from_str(code.as_str()) {
            Ok(l) => l,
            Err(e) => {
                return Err(e);
            },
        };
        let intl = Intl {
            file_path: path.to_owned(),
            arb_dir,
            template_language,
            template_arb_file,
            name_prefix,
            overrides_dir,
            cache: ArbCache::default(),
        };
        proof {
            let settings = yaml_settings(*doc);
            assert(intl@.name_prefix == chosen_prefix(settings, given));
            assert(code@ == language_code(settings["template-arb-file"@], intl@.name_prefix));
            assert(template_language.named_by(code@));
            assert(intl@.overrides_dir == setting(settings, "overrides-dir"@));
            assert(intl@.cache =~= Map::empty());
        }
        Ok(intl)
    }

    /// Path of the index file.
    pub fn index_path(&self) -> (r: &str)
        ensures
            r@ == self@.file_path,
    {
        self.file_path.as_str()
    }

    /// Directory for application resource bundles.
    pub fn arb_dir(&self) -> (r: &str)
        ensures
            r@ == self@.arb_dir,
    {
        self.arb_dir.as_str()
    }

    /// Template application resource bundle.
    pub fn template_arb_file(&self) -> (r: &str)
        ensures
            r@ == self@.template_arb_file,
    {
        self.template_arb_file.as_str()
    }

    /// Prefix used to compute file names.
    pub fn name_prefix(&self) -> (r: &str)
        ensures
            r@ == self@.name_prefix,
    {
        self.name_prefix.as_str()
    }

    /// Directory for override files.
    pub fn overrides_dir(&self) -> (r: Option<&str>)
        ensures
            r.is_some() == self@.overrides_dir.is_some(),
            r matches Some(d) ==> d@ == self@.overrides_dir.unwrap(),
    {
        match &self.overrides_dir {
            Some(d) => Some(d.as_str()),
            None => None,
        }
    }

    /// Language of the template application resource bundle.
    pub fn template_language(&self) -> (r: &Lang)
        ensures
            *r == self@.template_language,
    {
        &self.template_language
    }

    /// Get the cache of the source strings that were last sent.
    pub fn cache(&self) -> (r: &ArbCache)
        requires
            self.wf(),
        ensures
            r.wf(),
            r@ == self@.cache,
    {
        &self.cache
    }

    /// Put a cache in place of the one that the context holds.
    pub fn set_cache(&mut self, cache: ArbCache)
        requires
            cache.wf(),
        ensures
            final(self).wf(),
            final(self)@ == (IntlModel { cache: cache@, ..old(self)@ }),
    {
        self.cache = cache;
    }

    /// Format a language to a file name.
    pub fn format_file_name(&self, lang: Lang) -> (r: String)
        ensures
            r@ == file_name(self@.name_prefix, lang),
    {
        let mut name = chars_of(self.name_prefix.as_str());
        name.push('_');
        let code = chars_of(lang.lower_code());
        let mut i: usize = 0;
        while i < code.len()
            invariant
                i <= code.len(),
                code@ == lang.lower_code_of(),
                name@ == self@.name_prefix + seq!['_'] + file_code(lang).take(i as int),
            decreases code.len() - i,
        {
            let c = code[i];
            name.push(if c == '-' {
                '_'
            } else {
                c
            });
            proof {
                assert(file_code(lang).take(i as int + 1) =~= file_code(lang).take(i as int).push(
                    file_code(lang)[i as int],
                ));
                assert(name@ =~= self@.name_prefix + seq!['_'] + file_code(lang).take(
                    i as int + 1,
                ));
            }
            i += 1;
        }
        proof {
            assert(file_code(lang).take(code.len() as int) =~= file_code(lang));
        }
        name.push('.');
        name.push('a');
        name.push('r');
        name.push('b');
        proof {
            assert(name@ =~= file_name(self@.name_prefix, lang));
        }
        string_of(&name)
    }

    /// Parse the stem of a file name to a language: the stem must begin with
    /// the prefix, and what is left of it once the prefix and an underscore
    /// are taken off must name a language.
    pub fn parse_file_name(&self, stem: &str) -> (r: Option<Lang>)
        ensures
            r matches Some(l) ==> starts_with(stem@, self@.name_prefix) && l.first_named_by(
                unprefixed(stem@, self@.name_prefix),
            ),
            r.is_none() ==> !starts_with(stem@, self@.name_prefix) || forall|l: Lang|
                !l.named_by(unprefixed(stem@, self@.name_prefix)),
    {
        let name = chars_of(stem);
        let prefix = chars_of(self.name_prefix.as_str());
        if matches_at(&name, &prefix, 0) {
            let code = string_of(&without_prefix(&name, self.name_prefix.as_str()));
            match Lang::from_str(code.as_str()) {
                Ok(l) => Some(l),
                Err(_) => None,
            }
        } else {
            None
        }
    }

    /// Whether a language is among those asked for; every language is where
    /// none is named.
    pub fn selects(languages: &Option<Vec<Lang>>, lang: Lang) -> (r: bool)
        ensures
            r == match languages {
                Some(wanted) => wanted@.contains(lang),
                None => true,
            },
    {
        match languages {
            Some(wanted) => {
                let mut i: usize = 0;
                while i < wanted.len()
                    invariant
                        i <= wanted.len(),
                        *languages == Some(*wanted),
                        forall|j: int| 0 <= j < i ==> wanted@[j] != lang,
                    decreases wanted.len() - i,
                {
                    if wanted[i] == lang {
                        assert(wanted@[i as int] == lang);
                        return true;
                    }
                    i += 1;
                }
                false
            },
            None => true,
        }
    }

    /// Prepare a translation to a target language: decide what is sent to
    /// the backend, what is passed through and what leaves the target bundle.
    /// Nothing is sent and nothing is changed.
    pub fn prepare(&self, template: ArbFile, target: ArbFile, options: TranslationOptions) -> (r:
        Result<PendingTranslation, Error>)
        requires
            self.wf(),
            template.wf(),
            target.wf(),
            options.wf(),
        ensures
            r.is_err() == sync_model(template@, target@, self@.cache, options).first_fault(
                template@.len() as int,
            ).is_some(),
            r matches Err(e) ==> {
                let m = sync_model(template@, target@, self@.cache, options);
                let at = m.first_fault(template@.len() as int).unwrap();
                &&& e matches Error::PlaceholderNotDefined(name, text)
                &&& text@ == m.text_at(at)
                &&& name@ == m.names_at(at).unwrap()[first_missing(
                    m.text_at(at),
                    m.names_at(at).unwrap(),
                ).unwrap()]
            },
            r matches Ok(p) ==> p.wf() && p.inputs() == sync_model(
                template@,
                target@,
                self@.cache,
                options,
            ) && p.lang() == options.target_lang,
    {
        prepare(&self.cache, template, target, options)
    }

    /// Translate to a target language: finish a prepared run with the
    /// backend's answer (`None` where no request was made).
    ///
    /// Placeholders were converted to XML tags and ignored from
    /// translation to preserve the placeholder names; they are converted
    /// back here. The run fails where the backend did not return exactly one
    /// translation for each string sent, and the context then stays as it was.
    /// Else the cache takes the run's cached bundle, unless it is disabled.
    pub fn translate(&mut self, pending: PendingTranslation, response: Option<
        TranslateTextResponse,
    >) -> (r: Result<TranslateResult, Error>)
        requires
            old(self).wf(),
            pending.wf(),
        ensures
            final(self).wf(),
            r.is_err() == (reply_count(response) != pending.inputs().whole_batch().len()),
            r matches Err(e) ==> {
                &&& e matches Error::TranslationLength(want, got)
                &&& want == pending.inputs().whole_batch().len()
                &&& got == reply_count(response)
                &&& final(self)@ == old(self)@
            },
            r matches Ok(done) ==> {
                &&& done.template.wf()
                &&& done.template@ == pending.inputs().template
                &&& done.translated.wf()
                &&& done.translated@ == pending.inputs().outcome(replies_of(response))
                &&& done.length == pending.inputs().whole_batch().len()
                &&& final(self)@ == (IntlModel {
                    cache: committed(old(self)@.cache, pending.lang(), pending.inputs()),
                    ..old(self)@
                })
            },
    {
        let lang = pending.target_lang();
        match pending.finish(response) {
            Ok(Finished { template, translated, length, record }) => {
                match record {
                    Some(file) => {
                        self.cache.set_file(lang, file);
                    },
                    None => {},
                }
                Ok(TranslateResult { template, translated, length })
            },
            Err(e) => Err(e),
        }
    }
}

/// `name` without every leading repetition of `prefix` and an underscore.
fn without_prefix(name: &Vec<char>, prefix: &str) -> (r: Vec<char>)
    ensures
        r@ == unprefixed(name@, prefix@),
{
    let mut pat = chars_of(prefix);
    pat.push('_');
    proof {
        assert(pat@ =~= prefix@ + seq!['_']);
    }
    trimmed_start(name, &pat)
}

/// What reading the settings of an index file gives, for the YAML documents
/// that its text holds.
pub open spec fn read_from(
    path: Seq<char>,
    loaded: Option<Seq<Map<Seq<char>, Seq<char>>>>,
    given: Option<Seq<char>>,
    r: Result<Intl, Error>,
) -> bool {
    match loaded {
        None => r matches Err(Error::Yaml(_)),
        Some(docs) => if docs.len() == 0 {
            r matches Err(Error::NoYamlDocuments(p)) && p@ == path
        } else {
            built_from(path, docs[0], given, r)
        },
    }
}

/// What reading the settings of an index file gives, for the settings that
/// its document holds.
pub open spec fn built_from(
    path: Seq<char>,
    settings: Map<Seq<char>, Seq<char>>,
    given: Option<Seq<char>>,
    r: Result<Intl, Error>,
) -> bool {
    if !settings.contains_key("arb-dir"@) {
        r matches Err(Error::ArbDirNotDefined(p)) && p@ == path
    } else if !settings.contains_key("template-arb-file"@) {
        r matches Err(Error::TemplateArbFileNotDefined(p)) && p@ == path
    } else {
        let prefix = chosen_prefix(settings, given);
        let code = language_code(settings["template-arb-file"@], prefix);
        if forall|l: Lang| !l.named_by(code) {
            r matches Err(Error::InvalidLang(t)) && t@ == code
        } else {
            &&& r matches Ok(intl)
            &&& intl.wf()
            &&& intl@.template_language.first_named_by(code)
            &&& intl@ == (IntlModel {
                file_path: path,
                arb_dir: settings["arb-dir"@],
                template_language: intl@.template_language,
                template_arb_file: settings["template-arb-file"@],
                name_prefix: prefix,
                overrides_dir: setting(settings, "overrides-dir"@),
                cache: Map::empty(),
            })
        }
    }
}

} // verus!
