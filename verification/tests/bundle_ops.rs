use arb_lib::deepl::Lang;
use arb_lib::{ArbCache, ArbEntry, ArbFile, ArbKey, ArbValue, Error, LangFiles, Member, Value};

fn text(s: &str) -> Value {
    Value::String(s.to_owned())
}

fn bundle(entries: Vec<(&str, Value)>) -> ArbFile {
    let mut file = ArbFile::default();
    for (key, value) in entries.iter() {
        file.insert_entry(ArbEntry::new(key, value));
    }
    file
}

fn keys(file: &ArbFile) -> Vec<String> {
    file.entries().iter().map(|e| e.key().to_string()).collect()
}

fn sorted(mut names: Vec<String>) -> Vec<String> {
    names.sort();
    names
}

fn object(members: Vec<(&str, Value)>) -> Value {
    Value::Object(
        members.into_iter().map(|(name, value)| Member { name: name.to_owned(), value }).collect(),
    )
}

#[test]
fn new_bundle_is_empty() {
    let file = ArbFile::default();
    assert_eq!(file.len(), 0);
    assert!(file.is_empty());
    assert!(file.entries().is_empty());
    assert!(file.lookup("anything").is_none());
    assert!(file.entry_at(0).is_none());
}

#[test]
fn insert_keeps_authoring_order() {
    let file = bundle(vec![("c", text("3")), ("a", text("1")), ("b", text("2"))]);
    assert_eq!(file.len(), 3);
    assert!(!file.is_empty());
    assert_eq!(keys(&file), vec!["c", "a", "b"]);
    assert_eq!(file.get_index_of("a"), Some(1));
    assert_eq!(file.get_index_of("z"), None);
    assert_eq!(file.entry_at(2).unwrap().key().as_ref(), "b");
    assert!(file.entry_at(3).is_none());
}

#[test]
fn insert_overwrites_in_place() {
    let mut file = bundle(vec![("a", text("1")), ("b", text("2")), ("c", text("3"))]);
    file.insert_translation(&ArbKey::new("b"), "two".to_owned());
    assert_eq!(keys(&file), vec!["a", "b", "c"]);
    assert_eq!(file.lookup("b").unwrap().value().as_str(), Some("two"));
    file.insert_translation(&ArbKey::new("d"), "four".to_owned());
    assert_eq!(keys(&file), vec!["a", "b", "c", "d"]);
    assert_eq!(file.len(), 4);
}

#[test]
fn shift_insert_moves_later_entries() {
    let mut file = bundle(vec![("a", text("1")), ("c", text("3"))]);
    file.shift_insert_translation(1, &ArbKey::new("b"), "2".to_owned());
    assert_eq!(keys(&file), vec!["a", "b", "c"]);
    assert_eq!(file.lookup("b").unwrap().value().as_str(), Some("2"));
    file.shift_insert_translation(3, &ArbKey::new("d"), "4".to_owned());
    assert_eq!(keys(&file), vec!["a", "b", "c", "d"]);
    file.shift_insert_translation(0, &ArbKey::new("z"), "0".to_owned());
    assert_eq!(keys(&file), vec!["z", "a", "b", "c", "d"]);
}

#[test]
fn shift_insert_moves_a_present_key() {
    let mut file = bundle(vec![("a", text("1")), ("b", text("2")), ("c", text("3"))]);
    file.shift_insert_translation(0, &ArbKey::new("c"), "three".to_owned());
    assert_eq!(keys(&file), vec!["c", "a", "b"]);
    assert_eq!(file.lookup("c").unwrap().value().as_str(), Some("three"));
    assert_eq!(file.len(), 3);
    file.shift_insert_translation(2, &ArbKey::new("c"), "3".to_owned());
    assert_eq!(keys(&file), vec!["a", "b", "c"]);
    file.shift_insert_translation(1, &ArbKey::new("b"), "two".to_owned());
    assert_eq!(keys(&file), vec!["a", "b", "c"]);
    assert_eq!(file.lookup("b").unwrap().value().as_str(), Some("two"));
}

#[test]
fn remove_returns_the_prior_value() {
    let mut file = bundle(vec![("a", text("1")), ("b", text("2")), ("c", text("3"))]);
    assert_eq!(file.remove("b"), Some(text("2")));
    assert_eq!(keys(&file), vec!["a", "c"]);
    assert_eq!(file.remove("b"), None);
    assert_eq!(file.len(), 2);
    assert_eq!(file.get_index_of("c"), Some(1));
}

#[test]
fn lookup_hands_out_key_and_value() {
    let file = bundle(vec![("count", Value::Number("3".to_owned())), ("a", text("1"))]);
    let entry = file.lookup("count").unwrap();
    assert_eq!(entry.key().as_ref(), "count");
    assert_eq!(entry.value().as_str(), None);
    assert_eq!(entry.value().to_value(), Value::Number("3".to_owned()));
    assert!(!entry.is_translatable());
    assert!(file.lookup("a").unwrap().is_translatable());
}

#[test]
fn duplicate_copies_every_entry() {
    let file = bundle(vec![
        ("a", text("1")),
        ("@a", object(vec![("description", text("first"))])),
        ("n", Value::Array(vec![Value::Null, Value::Bool(true)])),
    ]);
    let copy = file.duplicate();
    assert_eq!(keys(&copy), keys(&file));
    for entry in file.entries() {
        let other = copy.lookup(entry.key().as_ref()).unwrap();
        assert_eq!(other.value(), entry.value());
    }
}

#[test]
fn entry_is_translatable_only_with_plain_key_and_string() {
    let s = text("Hello");
    let n = Value::Number("1".to_owned());
    assert!(ArbEntry::new("hello", &s).is_translatable());
    assert!(!ArbEntry::new("@hello", &s).is_translatable());
    assert!(!ArbEntry::new("hello", &n).is_translatable());
    assert!(!ArbEntry::new("hello", &Value::Null).is_translatable());
    assert!(!ArbEntry::new("hello", &Value::Array(Vec::new())).is_translatable());
    assert!(!ArbEntry::new("hello", &Value::Object(Vec::new())).is_translatable());
    assert!(ArbEntry::new("", &s).is_translatable());
}

#[test]
fn key_prefix_is_the_at_sign() {
    assert!(ArbKey::new("@meta").is_prefixed());
    assert!(!ArbKey::new("@meta").is_translatable());
    assert!(!ArbKey::new("meta").is_prefixed());
    assert!(ArbKey::new("meta").is_translatable());
    assert!(!ArbKey::new("").is_prefixed());
    assert!(!ArbKey::new("a@b").is_prefixed());
    assert_eq!(ArbKey::new("meta").to_string(), "meta");
    assert_eq!(ArbKey::new("meta").as_ref(), "meta");
}

#[test]
fn value_text_is_there_for_strings_only() {
    let s = text("Hello");
    assert_eq!(ArbValue::new(&s).as_str(), Some("Hello"));
    assert!(ArbValue::new(&s).is_translatable());
    assert_eq!(ArbValue::new(&Value::Bool(true)).as_str(), None);
    assert!(!ArbValue::new(&Value::Bool(true)).is_translatable());
    assert_eq!(s.as_str(), Some("Hello"));
    assert!(s.is_string());
    assert!(!Value::Null.is_string());
}

#[test]
fn values_compare_by_structure() {
    let a = object(vec![("x", Value::Array(vec![text("1"), Value::Number("2".to_owned())]))]);
    let b = object(vec![("x", Value::Array(vec![text("1"), Value::Number("2".to_owned())]))]);
    let c = object(vec![("x", Value::Array(vec![text("1"), Value::Number("3".to_owned())]))]);
    let d = object(vec![("y", Value::Array(vec![text("1"), Value::Number("2".to_owned())]))]);
    assert!(a.same(&b));
    assert!(!a.same(&c));
    assert!(!a.same(&d));
    assert!(!a.same(&Value::Null));
    assert!(Value::Null.same(&Value::Null));
    assert!(!Value::Bool(true).same(&Value::Bool(false)));
    assert!(!text("1").same(&Value::Number("1".to_owned())));
    assert!(!Value::Array(vec![Value::Null]).same(&Value::Array(Vec::new())));
    assert!(a.duplicate().same(&a));
    assert_eq!(a.duplicate(), a);
    assert!(ArbValue::new(&a).same(&ArbValue::new(&b)));
}

#[test]
fn diff_sets_are_differences_of_key_sets() {
    let template = bundle(vec![("a", text("1")), ("b", text("2")), ("c", text("3"))]);
    let target = bundle(vec![("b", text("deux")), ("x", text("?")), ("y", text("?"))]);
    let diff = template.diff(&target, None);
    assert_eq!(sorted(diff.create.clone()), vec!["a", "c"]);
    assert_eq!(sorted(diff.delete.clone()), vec!["x", "y"]);
    assert!(diff.update.is_empty());
    for key in diff.create.iter() {
        assert!(!diff.delete.contains(key));
    }
}

#[test]
fn diff_of_equal_bundles_is_empty() {
    let template = bundle(vec![("a", text("1")), ("b", text("2"))]);
    let diff = template.diff(&template.duplicate(), Some(&template.duplicate()));
    assert!(diff.create.is_empty());
    assert!(diff.delete.is_empty());
    assert!(diff.update.is_empty());
}

#[test]
fn diff_against_empty_target_creates_everything() {
    let template = bundle(vec![("helloWorld", text("Hello world"))]);
    let diff = template.diff(&ArbFile::default(), None);
    assert_eq!(diff.create, vec!["helloWorld"]);
    assert!(diff.delete.is_empty());
    assert!(diff.update.is_empty());
}

#[test]
fn update_does_not_depend_on_create_or_delete() {
    let template = bundle(vec![("message", text("Hello!!")), ("same", text("Same"))]);
    let cache = bundle(vec![
        ("message", text("Hello")),
        ("same", text("Same")),
        ("gone", text("Gone")),
    ]);
    let without = template.diff(&ArbFile::default(), Some(&cache));
    assert_eq!(without.update, vec!["message"]);
    assert_eq!(sorted(without.create.clone()), vec!["message", "same"]);
    let with = template.diff(&bundle(vec![("message", text("Bonjour"))]), Some(&cache));
    assert_eq!(with.update, vec!["message"]);
    assert_eq!(with.create, vec!["same"]);
    let none = template.diff(&ArbFile::default(), None);
    assert!(none.update.is_empty());
}

#[test]
fn update_compares_values_of_any_shape() {
    let template = bundle(vec![("@meta", object(vec![("a", text("1"))]))]);
    let same = bundle(vec![("@meta", object(vec![("a", text("1"))]))]);
    let other = bundle(vec![("@meta", object(vec![("a", text("2"))]))]);
    assert!(template.diff(&ArbFile::default(), Some(&same)).update.is_empty());
    assert_eq!(template.diff(&ArbFile::default(), Some(&other)).update, vec!["@meta"]);
}

#[test]
fn placeholders_come_from_the_metadata_entry() {
    let meta = object(vec![
        ("description", text("Greets by name")),
        ("placeholders", object(vec![("first", object(vec![])), ("last", object(vec![]))])),
    ]);
    let file = bundle(vec![("hello", text("Hello {first} {last}")), ("@hello", meta)]);
    let names = file.placeholders(&ArbKey::new("hello")).unwrap().unwrap();
    assert_eq!(names.to_vec(), vec!["first", "last"]);
    assert_eq!(names.names().to_vec(), vec!["first", "last"]);
    assert_eq!(names.to_owned_names(), vec!["first".to_owned(), "last".to_owned()]);
}

#[test]
fn placeholders_are_none_without_the_right_shape() {
    let file = bundle(vec![
        ("plain", text("Hello")),
        ("described", text("Hello")),
        ("@described", object(vec![("description", text("d"))])),
        ("odd", text("Hello")),
        ("@odd", text("not an object")),
        ("listed", text("Hello")),
        ("@listed", object(vec![("placeholders", Value::Array(Vec::new()))])),
        ("none", text("Hello")),
        ("@none", object(vec![("placeholders", object(vec![]))])),
    ]);
    assert!(file.placeholders(&ArbKey::new("plain")).unwrap().is_none());
    assert!(file.placeholders(&ArbKey::new("described")).unwrap().is_none());
    assert!(file.placeholders(&ArbKey::new("odd")).unwrap().is_none());
    assert!(file.placeholders(&ArbKey::new("listed")).unwrap().is_none());
    assert!(file.placeholders(&ArbKey::new("missing")).unwrap().is_none());
    let empty = file.placeholders(&ArbKey::new("none")).unwrap().unwrap();
    assert!(empty.to_vec().is_empty());
}

#[test]
fn placeholders_of_a_prefixed_key_are_refused() {
    let file = bundle(vec![("hello", text("Hello"))]);
    match file.placeholders(&ArbKey::new("@hello")) {
        Err(Error::AlreadyPrefixed(key)) => assert_eq!(key, "@hello"),
        other => panic!("unexpected: {:?}", other),
    }
}

#[test]
fn cache_records_and_forgets() {
    let mut cache = ArbCache::default();
    assert!(cache.get_file(&Lang::Fr).is_none());
    assert!(cache.get_entry(&Lang::Fr, "message").is_none());
    assert_eq!(cache.remove_entry(&Lang::Fr, "message"), None);
    assert!(cache.get_file(&Lang::Fr).is_none());

    let hello = text("Hello");
    cache.add_entry(Lang::Fr, ArbEntry::new("message", &hello));
    let other = text("Other");
    cache.add_entry(Lang::Fr, ArbEntry::new("other", &other));
    let again = text("Hello!!");
    cache.add_entry(Lang::Fr, ArbEntry::new("message", &again));
    cache.add_entry(Lang::De, ArbEntry::new("message", &hello));

    assert_eq!(keys(cache.get_file(&Lang::Fr).unwrap()), vec!["message", "other"]);
    assert_eq!(cache.get_entry(&Lang::Fr, "message").unwrap().value().as_str(), Some("Hello!!"));
    assert_eq!(cache.get_entry(&Lang::De, "message").unwrap().value().as_str(), Some("Hello"));
    assert!(cache.get_entry(&Lang::De, "other").is_none());
    assert!(cache.get_file(&Lang::Es).is_none());

    assert_eq!(cache.remove_entry(&Lang::Fr, "message"), Some(text("Hello!!")));
    assert_eq!(cache.remove_entry(&Lang::Fr, "message"), None);
    assert_eq!(keys(cache.get_file(&Lang::Fr).unwrap()), vec!["other"]);
    assert_eq!(cache.files().languages(), vec![Lang::De, Lang::Fr]);
}

#[test]
fn bundles_by_language_are_walked_in_order() {
    let mut files = LangFiles::new();
    assert!(files.languages().is_empty());
    assert!(!files.contains(&Lang::Fr));
    files.insert(Lang::Zh, bundle(vec![("a", text("1"))]));
    files.insert(Lang::Ar, bundle(vec![("b", text("2"))]));
    files.insert(Lang::Fr, ArbFile::default());
    assert_eq!(files.languages(), vec![Lang::Ar, Lang::Fr, Lang::Zh]);
    assert!(files.contains(&Lang::Fr));
    assert_eq!(keys(files.get(&Lang::Zh).unwrap()), vec!["a"]);
    files.insert(Lang::Zh, bundle(vec![("c", text("3"))]));
    assert_eq!(keys(files.get(&Lang::Zh).unwrap()), vec!["c"]);
    let taken = files.take(&Lang::Ar).unwrap();
    assert_eq!(keys(&taken), vec!["b"]);
    assert!(files.take(&Lang::Ar).is_none());
    assert_eq!(files.languages(), vec![Lang::Fr, Lang::Zh]);
    let cache = ArbCache::new(files);
    assert!(cache.get_file(&Lang::Zh).is_some());
    let mut cache = cache;
    cache.set_file(Lang::De, bundle(vec![("d", text("4"))]));
    assert_eq!(keys(cache.get_file(&Lang::De).unwrap()), vec!["d"]);
}
