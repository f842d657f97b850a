use chat_engine::text::{
    eq_ignore_case, split_leading_word, str_eq, str_starts_with, to_lowercase, trim, trim_word,
    u64_to_dec, words,
};

#[test]
fn split_takes_leading_word_and_rest() {
    let r = split_leading_word("  !ping   hello world ").unwrap();
    assert_eq!(r.0.as_str(), "!ping");
    assert_eq!(r.1.as_str(), "hello world ");

    assert!(split_leading_word("   ").is_none());
    assert!(split_leading_word("").is_none());
}

#[test]
fn words_splits_on_whitespace() {
    let w = words(" a  bb\tccc ");
    assert_eq!(w.len(), 3);
    assert_eq!(w[0].as_str(), "a");
    assert_eq!(w[1].as_str(), "bb");
    assert_eq!(w[2].as_str(), "ccc");
    assert_eq!(words("").len(), 0);
}

#[test]
fn trim_strips_whitespace_only() {
    assert_eq!(trim("  foo bar  ").as_str(), "foo bar");
    assert_eq!(trim("   ").as_str(), "");
    assert_eq!(trim("x").as_str(), "x");
}

#[test]
fn trim_word_strips_punctuation() {
    assert_eq!(trim_word("!!heck?!").as_str(), "heck");
    assert_eq!(trim_word("plain").as_str(), "plain");
    assert_eq!(trim_word("...").as_str(), "");
}

#[test]
fn lowercase_and_comparisons() {
    assert_eq!(to_lowercase("AbC9-Z").as_str(), "abc9-z");
    assert!(eq_ignore_case("Ping", "pING"));
    assert!(!eq_ignore_case("ping", "pong"));
    assert!(str_eq("same", "same"));
    assert!(!str_eq("same", "Same"));
    assert!(str_starts_with("https://x", "https://"));
    assert!(!str_starts_with("http://x", "https://"));
}

#[test]
fn decimal_rendering() {
    assert_eq!(u64_to_dec(0).as_str(), "0");
    assert_eq!(u64_to_dec(7).as_str(), "7");
    assert_eq!(u64_to_dec(4096).as_str(), "4096");
    assert_eq!(u64_to_dec(18446744073709551615).as_str(), "18446744073709551615");
}
