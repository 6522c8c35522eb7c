use arb_lib::compare::{apply_corrections, comparison_header, comparison_rows, ComparisonRow};
use arb_lib::deepl::{
    Formality, Lang, LanguageType, SplitSentences, TagHandling, TranslateTextRequest,
};
use arb_lib::{
    ArbCache, ArbEntry, ArbFile, Error, FailurePolicy, Intl, Invalidation, TranslationOptions,
    Value,
};

fn text(s: &str) -> Value {
    Value::String(s.to_owned())
}

fn bundle(entries: Vec<(&str, Value)>) -> ArbFile {
    let mut file = ArbFile::default();
    for (key, value) in entries.iter() {
        file.insert_entry(ArbEntry::new(key, value));
    }
    file
}

fn keys(file: &ArbFile) -> Vec<String> {
    file.entries().iter().map(|e| e.key().to_string()).collect()
}

const ALL: [Lang; 34] = [
    Lang::Ar,
    Lang::Bg,
    Lang::Cs,
    Lang::Da,
    Lang::De,
    Lang::El,
    Lang::En,
    Lang::EnGb,
    Lang::EnUs,
    Lang::Es,
    Lang::Et,
    Lang::Fi,
    Lang::Fr,
    Lang::Hu,
    Lang::Id,
    Lang::It,
    Lang::Ja,
    Lang::Ko,
    Lang::Lt,
    Lang::Lv,
    Lang::Nb,
    Lang::Nl,
    Lang::Pl,
    Lang::Pt,
    Lang::PtBr,
    Lang::PtPt,
    Lang::Ro,
    Lang::Ru,
    Lang::Sk,
    Lang::Sl,
    Lang::Sv,
    Lang::Tr,
    Lang::Uk,
    Lang::Zh,
];

#[test]
fn settings_are_read_from_the_first_document() {
    let content = "arb-dir: lib/l10n\ntemplate-arb-file: app_en.arb\noverrides-dir: fixes\n";
    let index = Intl::new("project/l10n.yaml", content).unwrap();
    assert_eq!(index.index_path(), "project/l10n.yaml");
    assert_eq!(index.arb_dir(), "lib/l10n");
    assert_eq!(index.template_arb_file(), "app_en.arb");
    assert_eq!(index.name_prefix(), "app");
    assert_eq!(index.overrides_dir(), Some("fixes"));
    assert_eq!(*index.template_language(), Lang::En);
    assert!(index.cache().get_file(&Lang::En).is_none());
    assert!(index.cache().files().languages().is_empty());

    let two = "arb-dir: one\ntemplate-arb-file: app_fr.arb\n---\narb-dir: two\ntemplate-arb-file: app_de.arb\n";
    let index = Intl::new("l10n.yaml", two).unwrap();
    assert_eq!(index.arb_dir(), "one");
    assert_eq!(*index.template_language(), Lang::Fr);
    assert_eq!(index.overrides_dir(), None);
}

#[test]
fn prefix_comes_from_the_settings_first() {
    let content = "arb-dir: l10n\ntemplate-arb-file: intl_pt-br.arb\nname-prefix: intl\n";
    let index = Intl::new_with_prefix("l10n.yaml", content, Some("other".to_owned())).unwrap();
    assert_eq!(index.name_prefix(), "intl");
    assert_eq!(*index.template_language(), Lang::PtBr);

    let content = "arb-dir: l10n\ntemplate-arb-file: strings_de.arb\n";
    let index = Intl::new_with_prefix("l10n.yaml", content, Some("strings".to_owned())).unwrap();
    assert_eq!(index.name_prefix(), "strings");
    assert_eq!(*index.template_language(), Lang::De);

    let index = Intl::new("l10n.yaml", "arb-dir: l10n\ntemplate-arb-file: app_EN-GB.arb\n").unwrap();
    assert_eq!(index.name_prefix(), "app");
    assert_eq!(*index.template_language(), Lang::EnGb);
}

#[test]
fn missing_settings_are_errors() {
    match Intl::new("l10n.yaml", "template-arb-file: app_en.arb\n") {
        Err(Error::ArbDirNotDefined(path)) => assert_eq!(path, "l10n.yaml"),
        other => panic!("unexpected: {:?}", other),
    }
    match Intl::new("l10n.yaml", "arb-dir: l10n\n") {
        Err(Error::TemplateArbFileNotDefined(path)) => assert_eq!(path, "l10n.yaml"),
        other => panic!("unexpected: {:?}", other),
    }
    match Intl::new("l10n.yaml", "arb-dir: 12\ntemplate-arb-file: app_en.arb\n") {
        Err(Error::ArbDirNotDefined(path)) => assert_eq!(path, "l10n.yaml"),
        other => panic!("unexpected: {:?}", other),
    }
    match Intl::new("l10n.yaml", "- just\n- a list\n") {
        Err(Error::ArbDirNotDefined(path)) => assert_eq!(path, "l10n.yaml"),
        other => panic!("unexpected: {:?}", other),
    }
    match Intl::new("l10n.yaml", "") {
        Err(Error::NoYamlDocuments(path)) => assert_eq!(path, "l10n.yaml"),
        other => panic!("unexpected: {:?}", other),
    }
    match Intl::new("l10n.yaml", "arb-dir: [unclosed\n") {
        Err(Error::Yaml(e)) => {
            assert!(!Error::Yaml(e).message().is_empty());
        }
        other => panic!("unexpected: {:?}", other),
    }
    match Intl::new("l10n.yaml", "arb-dir: l10n\ntemplate-arb-file: app_xx.arb\n") {
        Err(Error::InvalidLang(code)) => assert_eq!(code, "xx"),
        other => panic!("unexpected: {:?}", other),
    }
    match Intl::new("l10n.yaml", "arb-dir: l10n\ntemplate-arb-file: other_en.arb\n") {
        Err(Error::InvalidLang(code)) => assert_eq!(code, "other_en"),
        other => panic!("unexpected: {:?}", other),
    }
}

#[test]
fn file_names_use_lower_case_and_underscores() {
    let index = Intl::new("l10n.yaml", "arb-dir: l10n\ntemplate-arb-file: app_en.arb\n").unwrap();
    assert_eq!(index.format_file_name(Lang::Fr), "app_fr.arb");
    assert_eq!(index.format_file_name(Lang::EnUs), "app_en_us.arb");
    assert_eq!(index.format_file_name(Lang::PtBr), "app_pt_br.arb");
    let content = "arb-dir: l10n\ntemplate-arb-file: intl_en.arb\nname-prefix: intl\n";
    let index = Intl::new("l10n.yaml", content).unwrap();
    assert_eq!(index.format_file_name(Lang::Zh), "intl_zh.arb");
    for lang in ALL.iter() {
        let expected =
            format!("intl_{}.arb", lang.to_string().to_lowercase().replace("-", "_"));
        assert_eq!(index.format_file_name(*lang), expected);
    }
}

#[test]
fn file_stems_name_languages() {
    let index = Intl::new("l10n.yaml", "arb-dir: l10n\ntemplate-arb-file: app_en.arb\n").unwrap();
    assert_eq!(index.parse_file_name("app_de"), Some(Lang::De));
    assert_eq!(index.parse_file_name("app_DE"), Some(Lang::De));
    assert_eq!(index.parse_file_name("app_en-us"), Some(Lang::EnUs));
    assert_eq!(index.parse_file_name("app_en_us"), None);
    assert_eq!(index.parse_file_name("app_app_fr"), Some(Lang::Fr));
    assert_eq!(index.parse_file_name("app_"), None);
    assert_eq!(index.parse_file_name("app"), None);
    assert_eq!(index.parse_file_name("appfr"), None);
    assert_eq!(index.parse_file_name("fr"), None);
    assert_eq!(index.parse_file_name("my_app_fr"), None);
    assert_eq!(index.parse_file_name(""), None);
}

#[test]
fn languages_can_be_selected() {
    assert!(Intl::selects(&None, Lang::Fr));
    assert!(Intl::selects(&Some(vec![Lang::De, Lang::Fr]), Lang::Fr));
    assert!(!Intl::selects(&Some(vec![Lang::De, Lang::Fr]), Lang::It));
    assert!(!Intl::selects(&Some(Vec::new()), Lang::Fr));
}

#[test]
fn a_cache_can_be_put_in_place() {
    let mut index =
        Intl::new("l10n.yaml", "arb-dir: l10n\ntemplate-arb-file: app_en.arb\n").unwrap();
    let mut cache = ArbCache::default();
    let hello = text("Hello");
    cache.add_entry(Lang::Fr, ArbEntry::new("message", &hello));
    index.set_cache(cache);
    assert_eq!(keys(index.cache().get_file(&Lang::Fr).unwrap()), vec!["message"]);
    assert_eq!(index.arb_dir(), "l10n");
}

#[test]
fn language_codes() {
    assert_eq!(Lang::Fr.code(), "FR");
    assert_eq!(Lang::EnGb.code(), "EN-GB");
    assert_eq!(Lang::PtPt.lower_code(), "pt-pt");
    assert_eq!(Lang::Zh.to_string(), "ZH");
    assert_eq!(Lang::Ar.index(), 0);
    assert_eq!(Lang::Zh.index(), 33);
    assert_eq!(Lang::from_index(12), Some(Lang::Fr));
    assert_eq!(Lang::from_index(34), None);
    assert_eq!(Lang::from_index(255), None);
    for (at, lang) in ALL.iter().enumerate() {
        assert_eq!(lang.index() as usize, at);
        assert_eq!(Lang::from_index(at as u8), Some(*lang));
        assert_eq!(lang.code().to_lowercase(), lang.lower_code());
        assert_eq!(Lang::from_str(lang.code()).unwrap(), *lang);
        assert_eq!(Lang::from_str(lang.lower_code()).unwrap(), *lang);
    }
    assert!(Lang::De < Lang::Fr);
}

#[test]
fn unknown_language_codes_are_refused() {
    for code in ["", "xx", "Fr", "fR", "fr ", "en_us", "EN-gb", "french"] {
        match Lang::from_str(code) {
            Err(Error::InvalidLang(text)) => assert_eq!(text, code),
            other => panic!("unexpected: {:?}", other),
        }
    }
}

#[test]
fn error_messages() {
    assert_eq!(
        Error::ArbDirNotDefined("l10n.yaml".to_owned()).message(),
        "arb-dir is not defined in 'l10n.yaml'"
    );
    assert_eq!(
        Error::TemplateArbFileNotDefined("l10n.yaml".to_owned()).message(),
        "template-arb-file is not defined in 'l10n.yaml'"
    );
    assert_eq!(
        Error::NoYamlDocuments("l10n.yaml".to_owned()).message(),
        "no YAML documents in index file 'l10n.yaml'"
    );
    assert_eq!(
        Error::TranslationLength(12, 0).message(),
        "expecting '12' translations but got '0'"
    );
    assert_eq!(
        Error::AlreadyPrefixed("@key".to_owned()).message(),
        "key '@key' is already prefixed with an @ symbol"
    );
    assert_eq!(
        Error::PlaceholderNotDefined("name".to_owned(), "Hello".to_owned()).message(),
        "placeholder 'name' is declared but does not exist in source 'Hello'"
    );
    assert_eq!(Error::InvalidLang("xx".to_owned()).message(), "invalid language 'xx'");
}

#[test]
fn a_new_request_sets_no_option() {
    let request = TranslateTextRequest::new(vec!["Hello".to_owned()], Lang::Fr);
    assert_eq!(request.text, vec!["Hello".to_owned()]);
    assert_eq!(request.target_lang, Lang::Fr);
    assert!(request.tag_handling.is_none());
    assert!(request.source_lang.is_none());
    assert!(request.context.is_none());
    assert!(request.preserve_formatting.is_none());
    assert!(request.glossary_id.is_none());
    assert!(request.outline_detection.is_none());
    assert!(request.non_splitting_tags.is_none());
    assert!(request.splitting_tags.is_none());
    assert!(request.ignore_tags.is_none());
    assert!(request.formality.is_none());
    assert!(request.split_sentences.is_none());
}

#[test]
fn free_keys_end_in_fx() {
    assert!(arb_lib::api::is_free_key("0123-abcd:fx"));
    assert!(arb_lib::api::is_free_key(":fx"));
    assert!(!arb_lib::api::is_free_key("0123-abcd"));
    assert!(!arb_lib::api::is_free_key("fx"));
    assert!(!arb_lib::api::is_free_key(""));
    assert!(!arb_lib::api::is_free_key("0123:fx-abcd"));
}

#[test]
fn languages_parse_from_text() {
    assert_eq!("fr".parse::<Lang>().unwrap(), Lang::Fr);
    assert_eq!("PT-BR".parse::<Lang>().unwrap(), Lang::PtBr);
    assert!("french".parse::<Lang>().is_err());
}

#[test]
fn backend_words() {
    assert_eq!(LanguageType::Source.as_ref(), "source");
    assert_eq!(LanguageType::Target.as_ref(), "target");
    assert_eq!(LanguageType::Target.to_string(), "target");
    assert_eq!(LanguageType::default(), LanguageType::Source);
    assert_eq!(Formality::default(), Formality::Default);
    assert_ne!(TagHandling::Xml, TagHandling::Html);
    assert_ne!(SplitSentences::Off, SplitSentences::NoNewlines);
}

#[test]
fn options_start_with_everything_off() {
    let options = TranslationOptions::new(Lang::It);
    assert_eq!(options.target_lang, Lang::It);
    assert!(!options.dry_run);
    assert!(options.invalidation.is_none());
    assert!(options.overrides.is_none());
    assert!(!options.disable_cache);
}

#[test]
fn failure_policies() {
    assert_eq!(FailurePolicy::default(), FailurePolicy::Abort);
    assert_eq!(FailurePolicy::from_flag(false), FailurePolicy::Abort);
    assert_eq!(FailurePolicy::from_flag(true), FailurePolicy::Isolate);
    assert!(FailurePolicy::Abort.goes_on(false));
    assert!(!FailurePolicy::Abort.goes_on(true));
    assert!(FailurePolicy::Isolate.goes_on(false));
    assert!(FailurePolicy::Isolate.goes_on(true));
}

#[test]
fn invalidation_from_flags() {
    assert!(matches!(Invalidation::from_flags(true, Vec::new()), Some(Invalidation::All)));
    assert!(matches!(
        Invalidation::from_flags(true, vec!["a".to_owned()]),
        Some(Invalidation::All)
    ));
    match Invalidation::from_flags(false, vec!["a".to_owned(), "b".to_owned()]) {
        Some(Invalidation::Keys(keys)) => assert_eq!(keys, vec!["a", "b"]),
        other => panic!("unexpected: {:?}", other),
    }
    assert!(Invalidation::from_flags(false, Vec::new()).is_none());
    assert!(Invalidation::All.covers("anything"));
    assert!(Invalidation::Keys(vec!["a".to_owned()]).covers("a"));
    assert!(!Invalidation::Keys(vec!["a".to_owned()]).covers("b"));
    assert!(!Invalidation::Keys(Vec::new()).covers("a"));
}

#[test]
fn comparison_lists_translated_strings() {
    let template = bundle(vec![
        ("hello", text("Hello")),
        ("@hello", Value::Object(Vec::new())),
        ("bye", text("Bye")),
        ("count", Value::Number("3".to_owned())),
        ("late", text("Late")),
        ("odd", text("Odd")),
    ]);
    let target = bundle(vec![
        ("bye", text("Au revoir")),
        ("hello", text("Bonjour")),
        ("count", Value::Number("3".to_owned())),
        ("odd", Value::Bool(true)),
    ]);
    let overrides = bundle(vec![("hello", text("Salut")), ("late", text("Tard"))]);
    let rows = comparison_rows(&template, &target, Some(&overrides));
    let row = |id: &str, source: &str, target: &str, correction: &str| ComparisonRow {
        id: id.to_owned(),
        source: source.to_owned(),
        target: target.to_owned(),
        correction: correction.to_owned(),
        comment: String::new(),
    };
    assert_eq!(
        rows,
        vec![
            row("hello", "Hello", "Bonjour", "Salut"),
            row("bye", "Bye", "Au revoir", ""),
            row("odd", "Odd", "", ""),
        ]
    );
    let rows = comparison_rows(&template, &target, None);
    assert_eq!(rows[0], row("hello", "Hello", "Bonjour", ""));
    assert!(comparison_rows(&template, &ArbFile::default(), None).is_empty());
}

#[test]
fn comparison_header_names_the_languages() {
    assert_eq!(
        comparison_header(Lang::En, Lang::PtBr),
        vec!["Identifier", "Source (EN)", "Target (PT-BR)", "Correction (PT-BR)", "Comment"]
    );
}

#[test]
fn corrections_become_overrides() {
    let mut file = bundle(vec![("hello", text("Salut"))]);
    let row = |id: &str, correction: &str| ComparisonRow {
        id: id.to_owned(),
        source: String::new(),
        target: String::new(),
        correction: correction.to_owned(),
        comment: "ignored".to_owned(),
    };
    apply_corrections(
        &mut file,
        &vec![row("bye", "Adieu"), row("skip", ""), row("hello", "Coucou"), row("bye", "Ciao")],
    );
    assert_eq!(keys(&file), vec!["hello", "bye"]);
    assert_eq!(file.lookup("hello").unwrap().value().as_str(), Some("Coucou"));
    assert_eq!(file.lookup("bye").unwrap().value().as_str(), Some("Ciao"));
}
