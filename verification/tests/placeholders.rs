use arb_lib::placeholder::{marker_chars, token_chars};
use arb_lib::text::{
    chars_of, decimal, find, includes, matches_at, replaced_first, same_text, string_of,
    trimmed_end, trimmed_start,
};
use arb_lib::{Error, Placeholders};

fn chars(s: &str) -> Vec<char> {
    s.chars().collect()
}

fn replaced(hay: &str, pat: &str, to: &str) -> String {
    replaced_first(&chars(hay), &chars(pat), &chars(to)).into_iter().collect()
}

#[test]
fn round_trip_keeps_the_placeholder() {
    let names = Placeholders::new(vec!["name"]);
    assert!(names.verify("Hello {name}").is_ok());
    let shielded = names.protect("Hello {name}");
    assert_eq!(shielded, "Hello <ph>name</ph>");
    let restored = names.restore(&shielded);
    assert_eq!(restored, "Hello {name}");
    assert!(restored.contains("{name}"));
}

#[test]
fn a_translated_text_gets_its_placeholder_back() {
    let names = Placeholders::new(vec!["name"]);
    assert_eq!(names.restore("Bonjour <ph>name</ph>"), "Bonjour {name}");
}

#[test]
fn protect_replaces_one_occurrence_for_each_name() {
    let names = Placeholders::new(vec!["a", "b"]);
    assert_eq!(names.protect("{a} {b} {a}"), "<ph>a</ph> <ph>b</ph> {a}");
    assert_eq!(names.restore("<ph>b</ph> <ph>a</ph> <ph>a</ph>"), "{b} {a} <ph>a</ph>");
    let twice = Placeholders::new(vec!["a", "a"]);
    assert_eq!(twice.protect("{a} {a} {a}"), "<ph>a</ph> <ph>a</ph> {a}");
}

#[test]
fn several_placeholders_come_back() {
    let names = Placeholders::new(vec!["first", "last", "n"]);
    let source = "Hi {first} {last}, you have {n} messages, {first}";
    assert!(names.verify(source).is_ok());
    let shielded = names.protect(source);
    assert_eq!(
        shielded,
        "Hi <ph>first</ph> <ph>last</ph>, you have <ph>n</ph> messages, {first}"
    );
    let restored = names.restore(&shielded);
    assert_eq!(restored, source);
    for name in ["{first}", "{last}", "{n}"] {
        assert!(restored.contains(name));
    }
}

#[test]
fn a_name_with_braces_may_not_come_back() {
    let names = Placeholders::new(vec!["a{b}", "b"]);
    let source = "{a{b}}";
    assert!(names.verify(source).is_ok());
    let shielded = names.protect(source);
    assert_eq!(shielded, "<ph>a<ph>b</ph></ph>");
    let restored = names.restore(&shielded);
    assert_eq!(restored, "<ph>a{b}</ph>");
    assert!(!restored.contains("{a{b}}"));
}

#[test]
fn protect_leaves_other_braces_alone() {
    let names = Placeholders::new(vec!["count"]);
    assert_eq!(names.protect("{other} {count}"), "{other} <ph>count</ph>");
    assert_eq!(names.protect("nothing here"), "nothing here");
    let none = Placeholders::new(Vec::new());
    assert_eq!(none.protect("{count}"), "{count}");
    assert_eq!(none.restore("<ph>count</ph>"), "<ph>count</ph>");
    assert!(none.verify("anything").is_ok());
}

#[test]
fn verify_names_the_first_missing_placeholder() {
    let names = Placeholders::new(vec!["first", "second", "third"]);
    assert!(names.verify("{third} {second} {first}").is_ok());
    match names.verify("{first} only") {
        Err(Error::PlaceholderNotDefined(name, source)) => {
            assert_eq!(name, "second");
            assert_eq!(source, "{first} only");
        }
        other => panic!("unexpected: {:?}", other),
    }
    match names.verify("") {
        Err(Error::PlaceholderNotDefined(name, source)) => {
            assert_eq!(name, "first");
            assert_eq!(source, "");
        }
        other => panic!("unexpected: {:?}", other),
    }
    assert!(names.verify("{ first } {second} {third}").is_err());
}

#[test]
fn placeholders_from_owned_names() {
    let owned = vec!["x".to_owned(), "y".to_owned()];
    let names = Placeholders::from_names(&owned);
    assert_eq!(names.to_vec(), vec!["x", "y"]);
    assert_eq!(names.protect("{y}{x}"), "<ph>y</ph><ph>x</ph>");
}

#[test]
fn tokens_and_markers() {
    assert_eq!(token_chars("name"), chars("{name}"));
    assert_eq!(marker_chars("name"), chars("<ph>name</ph>"));
    assert_eq!(token_chars(""), chars("{}"));
    assert_eq!(marker_chars(""), chars("<ph></ph>"));
}

#[test]
fn find_gives_the_first_position() {
    assert_eq!(find(&chars("abcabc"), &chars("bc")), Some(1));
    assert_eq!(find(&chars("abcabc"), &chars("abc")), Some(0));
    assert_eq!(find(&chars("abcabc"), &chars("cab")), Some(2));
    assert_eq!(find(&chars("abcabc"), &chars("d")), None);
    assert_eq!(find(&chars("ab"), &chars("abc")), None);
    assert_eq!(find(&chars("abc"), &chars("")), Some(0));
    assert_eq!(find(&chars(""), &chars("")), Some(0));
    assert_eq!(find(&chars(""), &chars("a")), None);
    assert_eq!(find(&chars("aab"), &chars("ab")), Some(1));
    assert!(includes(&chars("héllo wörld"), &chars("wör")));
    assert!(!includes(&chars("hello"), &chars("world")));
    assert!(matches_at(&chars("hello"), &chars("llo"), 2));
    assert!(!matches_at(&chars("hello"), &chars("llo"), 3));
    assert!(!matches_at(&chars("hello"), &chars("hello!"), 0));
    assert!(matches_at(&chars("hello"), &chars(""), 5));
    assert!(!matches_at(&chars("hello"), &chars(""), 6));
}

#[test]
fn replace_first_replaces_one_occurrence() {
    assert_eq!(replaced("a-b-c", "-", "+"), "a+b-c");
    assert_eq!(replaced("abc", "x", "y"), "abc");
    assert_eq!(replaced("abc", "abc", ""), "");
    assert_eq!(replaced("abc", "", ">"), ">abc");
    assert_eq!(replaced("aaa", "aa", "b"), "ba");
    assert_eq!(replaced("end{x}", "{x}", "<ph>x</ph>"), "end<ph>x</ph>");
}

#[test]
fn trims_take_every_repetition() {
    let t = |s: &str, p: &str| -> String {
        trimmed_start(&chars(s), &chars(p)).into_iter().collect()
    };
    let e = |s: &str, p: &str| -> String {
        trimmed_end(&chars(s), &chars(p)).into_iter().collect()
    };
    assert_eq!(t("app_fr", "app_"), "fr");
    assert_eq!(t("app_app_fr", "app_"), "fr");
    assert_eq!(t("fr", "app_"), "fr");
    assert_eq!(t("app_", "app_"), "");
    assert_eq!(t("app", "app_"), "app");
    assert_eq!(t("abc", ""), "abc");
    assert_eq!(e("app_fr.arb", ".arb"), "app_fr");
    assert_eq!(e("app_fr.arb.arb", ".arb"), "app_fr");
    assert_eq!(e("app_fr", ".arb"), "app_fr");
    assert_eq!(e(".arb", ".arb"), "");
    assert_eq!(e("arb", ".arb"), "arb");
    assert_eq!(e("abc", ""), "abc");
}

#[test]
fn characters_and_strings_convert_both_ways() {
    assert_eq!(chars_of("héllo"), chars("héllo"));
    assert_eq!(chars_of(""), Vec::<char>::new());
    assert_eq!(string_of(&chars("wörld")), "wörld");
    assert_eq!(string_of(&Vec::new()), "");
    assert!(same_text("abc", "abc"));
    assert!(!same_text("abc", "abd"));
    assert!(!same_text("abc", "ab"));
}

#[test]
fn decimal_digits() {
    assert_eq!(decimal(0), "0");
    assert_eq!(decimal(7), "7");
    assert_eq!(decimal(10), "10");
    assert_eq!(decimal(1234567890), "1234567890");
    assert_eq!(decimal(usize::MAX), usize::MAX.to_string());
}
