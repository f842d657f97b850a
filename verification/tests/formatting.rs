use chat_engine::format::{join_with, partition_response, render_response_lines};
use chat_engine::template::{render_template, template_has_var};

#[test]
fn partition_keeps_fitting_input_as_one_line() {
    // everything joined fits the width: exactly one line, the joined input
    let items = vec!["abc".to_string(), "de".to_string()];
    let lines = partition_response(&items, 10, " | ");
    assert_eq!(lines.len(), 1);
    assert_eq!(lines[0].as_str(), "abc | de");
}

#[test]
fn partition_is_idempotent_on_single_lines() {
    let items = vec!["abc | de".to_string()];
    let lines = partition_response(&items, 10, " | ");
    assert_eq!(lines.len(), 1);
    assert_eq!(lines[0].as_str(), "abc | de");
}

#[test]
fn partition_splits_when_width_is_exceeded() {
    let items = vec!["aaa".to_string(), "bbb".to_string(), "ccc".to_string()];
    let lines = partition_response(&items, 9, " | ");
    assert_eq!(lines.len(), 2);
    assert_eq!(lines[0].as_str(), "aaa | bbb");
    assert_eq!(lines[1].as_str(), "ccc");
}

#[test]
fn partition_truncates_overwide_item_to_exact_width() {
    // an item wider than the width, alone on its line, is cut to exactly
    // `width` characters, ellipsis included
    let items = vec!["abcdefghijklmno".to_string()];
    let lines = partition_response(&items, 10, " | ");
    assert_eq!(lines.len(), 1);
    assert_eq!(lines[0].as_str(), "abcdefg...");
    assert_eq!(lines[0].len(), 10);
}

#[test]
fn response_lines_reports_hidden_lines() {
    let items = vec!["aaa".to_string(), "bbb".to_string(), "ccc".to_string()];
    let r = render_response_lines(&items, 9, " | ", "nothing");
    assert_eq!(r.as_str(), "aaa | bbb ... 1 line(s) not shown");

    let one = vec!["aaa".to_string()];
    let r = render_response_lines(&one, 9, " | ", "nothing");
    assert_eq!(r.as_str(), "aaa");

    let none: Vec<String> = Vec::new();
    let r = render_response_lines(&none, 9, " | ", "nothing");
    assert_eq!(r.as_str(), "nothing");
}

#[test]
fn respond_lines_uses_the_protocol_width() {
    let items = vec!["short".to_string(), "list".to_string()];
    let r = chat_engine::format::respond_lines(&items, "nothing");
    assert_eq!(r.as_str(), "short | list");

    let long = vec!["x".repeat(400)];
    let r = chat_engine::format::respond_lines(&long, "nothing");
    assert_eq!(r.len(), 360);
    assert!(r.ends_with("..."));
}

#[test]
fn join_with_separates_items() {
    let items = vec!["a".to_string(), "b".to_string(), "c".to_string()];
    assert_eq!(join_with(&items, " -> ").as_str(), "a -> b -> c");
    let empty: Vec<String> = Vec::new();
    assert_eq!(join_with(&empty, " -> ").as_str(), "");
}

#[test]
fn template_substitutes_bindings() {
    let vars = vec![
        ("name".to_string(), "alice".to_string()),
        ("rest".to_string(), "the rest".to_string()),
    ];
    let r = render_template("hi {{name}}: {{rest}}!", &vars);
    assert_eq!(r.as_str(), "hi alice: the rest!");

    // unknown keys are kept as written
    let r = render_template("hi {{nobody}}", &vars);
    assert_eq!(r.as_str(), "hi {{nobody}}");

    assert!(template_has_var("used {{count}} times", "count"));
    assert!(!template_has_var("used {{count}} times", "name"));
}
