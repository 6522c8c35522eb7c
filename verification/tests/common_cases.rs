use arb_lib::deepl::{Lang, TextTranslation, TranslateTextRequest, TranslateTextResponse};
use arb_lib::{
    ArbEntry, ArbFile, ArbKey, ArbValue, Error, Intl, Invalidation, LangFiles, Member,
    TranslationOptions, Value,
};

fn text(s: &str) -> Value {
    Value::String(s.to_owned())
}

fn bundle(entries: Vec<(&str, Value)>) -> ArbFile {
    let mut file = ArbFile::default();
    for (key, value) in entries.iter() {
        file.insert_entry(ArbEntry::new(key, value));
    }
    file
}

fn keys(file: &ArbFile) -> Vec<String> {
    file.entries().iter().map(|e| e.key().to_string()).collect()
}

fn placeholders(names: Vec<&str>) -> Value {
    let inner = names
        .into_iter()
        .map(|n| Member { name: n.to_owned(), value: Value::Object(Vec::new()) })
        .collect();
    Value::Object(vec![Member { name: "placeholders".to_owned(), value: Value::Object(inner) }])
}

fn french(source: &str) -> String {
    match source {
        "Hello world" => "Bonjour le monde".to_owned(),
        "Hello <ph>name</ph>" => "Bonjour <ph>name</ph>".to_owned(),
        "Hello" => "Bonjour".to_owned(),
        other => format!("fr:{}", other),
    }
}

fn backend(request: Option<TranslateTextRequest>) -> Option<TranslateTextResponse> {
    request.map(|r| TranslateTextResponse {
        translations: r
            .text
            .iter()
            .map(|t| TextTranslation { text: french(t), detected_source_language: Lang::En })
            .collect(),
    })
}

fn index(name: &str) -> Intl {
    let content = format!("arb-dir: {}\ntemplate-arb-file: app_en.arb\n", name);
    Intl::new(&format!("tests/fixtures/{}.yaml", name), &content).unwrap()
}

fn basic_template() -> ArbFile {
    bundle(vec![
        ("helloWorld", text("Hello world")),
        ("helloName", text("Hello {name}")),
        ("@helloName", placeholders(vec!["name"])),
    ])
}

#[test]
fn diff_create() {
    let template = bundle(vec![("message", text("Hello world")), ("fresh", text("Fresh"))]);
    let french = bundle(vec![("message", text("Bonjour le monde"))]);
    let index = index("diff_create");
    let diff = template.diff(&french, index.cache().get_file(&Lang::Fr));
    assert!(diff.create.iter().any(|x| x == "fresh"));
    assert_eq!(diff.create, vec!["fresh".to_owned()]);
    assert!(diff.delete.is_empty());
    assert!(diff.update.is_empty());
}

#[test]
fn diff_update() {
    let template = bundle(vec![("message", text("Hello world"))]);
    let french = bundle(vec![("message", text("Bonjour"))]);
    let mut index = index("diff_update");
    let mut cache = arb_lib::ArbCache::default();
    let old = text("Hello");
    cache.add_entry(Lang::Fr, ArbEntry::new("message", &old));
    index.set_cache(cache);
    let diff = template.diff(&french, index.cache().get_file(&Lang::Fr));
    assert!(diff.update.iter().any(|x| x == "message"));
    assert!(diff.create.is_empty());
    assert!(diff.delete.is_empty());
}

#[test]
fn diff_delete() {
    let template = bundle(vec![("message", text("Hello world"))]);
    let french = bundle(vec![("obsolete", text("Ancien"))]);
    let index = index("diff_delete");
    let diff = template.diff(&french, index.cache().get_file(&Lang::Fr));
    assert!(diff.create.iter().any(|x| x == "message"));
    assert!(diff.delete.iter().any(|x| x == "obsolete"));
}

#[test]
fn parse_index_with_template() {
    let index = Intl::new_with_prefix(
        "tests/fixtures/basic.yaml",
        "arb-dir: basic\ntemplate-arb-file: app_en.arb\n",
        Some("app".to_owned()),
    )
    .unwrap();
    assert_eq!("basic", index.arb_dir());
    assert_eq!("app_en.arb", index.template_arb_file());

    let template = basic_template();
    let entries = template.entries();
    assert!(!entries.is_empty());

    let value = template.lookup("helloWorld");
    assert!(value.is_some());
    assert!(value.as_ref().unwrap().is_translatable());
    assert_eq!("Hello world", value.unwrap().value().as_str().unwrap());

    let value = template.lookup("nonExistent");
    assert!(value.is_none());

    let key_name = ArbKey::new("helloName");
    let placeholders = template.placeholders(&key_name).unwrap();
    assert_eq!(placeholders.unwrap().to_vec(), vec!["name"]);
}

#[test]
fn test_parse_index_with_template() {
    let index = Intl::new(
        "tests/fixtures/simple-arb-index.yaml",
        "arb-dir: simple-i10n\ntemplate-arb-file: app_en.arb\n",
    )
    .unwrap();
    assert_eq!("simple-i10n", index.arb_dir());
    assert_eq!("app_en.arb", index.template_arb_file());

    let template = bundle(vec![("helloWorld", text("Hello world"))]);
    let entries = template.entries();
    assert!(!entries.is_empty());

    let value = template.lookup("helloWorld");
    assert!(value.is_some());
    assert!(value.as_ref().unwrap().is_translatable());
    assert_eq!("Hello world", value.unwrap().value().as_str().unwrap());

    let value = template.lookup("nonExistent");
    assert!(value.is_none());
}

#[test]
fn translated_languages() {
    let index = index("translated_languages");
    assert_eq!(index.parse_file_name("app_en"), Some(Lang::En));
    assert_eq!(index.parse_file_name("app_fr"), Some(Lang::Fr));
    assert_eq!(index.parse_file_name("app_xx"), None);
    assert_eq!(index.parse_file_name("other_fr"), None);
}

#[test]
fn basic_translate_basic_translate() {
    let mut intl = index("basic");
    let options = TranslationOptions::new(Lang::Fr);
    let pending = intl.prepare(basic_template(), ArbFile::default(), options).unwrap();
    let request = pending.request();
    assert_eq!(
        request.as_ref().unwrap().text,
        vec!["Hello world".to_owned(), "Hello <ph>name</ph>".to_owned()]
    );
    let result = intl.translate(pending, backend(request)).unwrap();

    let hello_world = result.translated.lookup("helloWorld");
    let hello_name = result.translated.lookup("helloName");

    assert!(hello_world.is_some());
    assert!(hello_name.is_some());

    let expected = Value::String("Bonjour le monde".to_owned());
    let expected_value: ArbValue<'_> = (&expected).into();
    assert_eq!(&expected_value, hello_world.unwrap().value());

    let expected = Value::String("Bonjour {name}".to_owned());
    let expected_value: ArbValue<'_> = (&expected).into();
    assert_eq!(&expected_value, hello_name.unwrap().value());
    assert_eq!(keys(&result.translated), vec!["helloWorld", "helloName", "@helloName"]);
}

#[test]
fn diff_cache() {
    let template = bundle(vec![("message", text("Hello world"))]);
    let french = bundle(vec![("message", text("Bonjour"))]);
    let options = TranslationOptions {
        target_lang: Lang::Fr,
        dry_run: false,
        invalidation: Some(Invalidation::All),
        overrides: None,
        disable_cache: true,
    };
    let mut intl = index("diff_update");
    let pending = intl.prepare(template, french, options).unwrap();
    let request = pending.request();
    let result = intl.translate(pending, backend(request)).unwrap();
    assert_eq!(1, result.length);

    let message = result.translated.lookup("message");
    assert!(message.is_some());

    let expected = Value::String("Bonjour le monde".to_owned());
    let expected_value: ArbValue<'_> = (&expected).into();
    assert_eq!(&expected_value, message.unwrap().value());
    assert!(intl.cache().get_file(&Lang::Fr).is_none());
}

#[test]
fn invalidate_all() {
    let template = bundle(vec![("message", text("Hello world"))]);
    let french = bundle(vec![("message", text("Bonjour le monde"))]);
    let options = TranslationOptions {
        target_lang: Lang::Fr,
        dry_run: false,
        invalidation: Some(Invalidation::All),
        overrides: None,
        disable_cache: false,
    };
    let mut intl = index("invalidate");
    let pending = intl.prepare(template, french, options).unwrap();
    let request = pending.request();
    let result = intl.translate(pending, backend(request)).unwrap();
    assert_eq!(1, result.length);
}

#[test]
fn invalidate_keys() {
    let template = bundle(vec![("message", text("Hello world")), ("other", text("Hello"))]);
    let french = bundle(vec![("message", text("Bonjour le monde")), ("other", text("Bonjour"))]);
    let options = TranslationOptions {
        target_lang: Lang::Fr,
        dry_run: false,
        invalidation: Some(Invalidation::Keys(vec!["message".to_owned()])),
        overrides: None,
        disable_cache: false,
    };
    let mut intl = index("invalidate");
    let pending = intl.prepare(template, french, options).unwrap();
    let request = pending.request();
    let result = intl.translate(pending, backend(request)).unwrap();
    assert_eq!(1, result.length);
}

#[test]
fn overrides() {
    let mut overrides_file = ArbFile::default();
    let value = Value::String("Salut".to_string());
    overrides_file.insert_entry(ArbEntry::new("message", &value));

    let mut overrides = LangFiles::new();
    overrides.insert(Lang::Fr, overrides_file);

    let template = bundle(vec![("message", text("Hello"))]);
    let options = TranslationOptions {
        target_lang: Lang::Fr,
        dry_run: false,
        invalidation: None,
        overrides: Some(overrides),
        disable_cache: false,
    };

    let mut intl = index("invalidate");
    let pending = intl.prepare(template, ArbFile::default(), options).unwrap();
    let request = pending.request();
    assert!(request.is_none());
    let result = intl.translate(pending, backend(request)).unwrap();
    // Not translated because overriden
    assert_eq!(0, result.length);

    let message = result.translated.lookup("message");
    assert!(message.is_some());

    let expected = Value::String("Salut".to_owned());
    let expected_value: ArbValue<'_> = (&expected).into();
    assert_eq!(&expected_value, message.unwrap().value());
}

#[test]
fn count_mismatch_is_refused() {
    let mut intl = index("basic");
    let pending = intl
        .prepare(basic_template(), ArbFile::default(), TranslationOptions::new(Lang::Fr))
        .unwrap();
    let short = TranslateTextResponse {
        translations: vec![TextTranslation {
            text: "Bonjour le monde".to_owned(),
            detected_source_language: Lang::En,
        }],
    };
    match intl.translate(pending, Some(short)) {
        Err(Error::TranslationLength(want, got)) => {
            assert_eq!(want, 2);
            assert_eq!(got, 1);
        }
        other => panic!("unexpected: {:?}", other.map(|r| r.length)),
    }
    assert!(intl.cache().get_file(&Lang::Fr).is_none());
}
