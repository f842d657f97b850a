use chat_engine::alias::{Alias, Aliases, Expansion, Key, RenameError};

fn alias(channel: &str, name: &str, template: &str) -> Alias {
    Alias {
        channel: channel.to_string(),
        name: name.to_string(),
        template: template.to_string(),
        group: None,
        disabled: false,
    }
}

#[test]
fn expansion_runs_a_chain_to_completion() {
    let table = Aliases {
        entries: vec![
            alias("chan", "go", "run {{rest}}"),
            alias("chan", "run", "exec {{rest}}"),
        ],
    };
    match table.expand("chan", "go now") {
        Expansion::Done { text, path } => {
            assert_eq!(text.as_str(), "exec now");
            assert_eq!(path.len(), 2);
            assert_eq!(path[0].as_str(), "go");
            assert_eq!(path[1].as_str(), "run");
        }
        Expansion::Cycle { .. } => panic!("expected completion"),
    }
}

#[test]
fn expansion_reports_a_cycle_with_the_repeated_name() {
    let table = Aliases {
        entries: vec![alias("chan", "loop", "loop {{rest}}")],
    };
    match table.expand("chan", "loop x") {
        Expansion::Done { .. } => panic!("expected a cycle"),
        Expansion::Cycle { path } => {
            // the repeated name stands at its first and its repeated place
            assert_eq!(path.len(), 2);
            assert_eq!(path[0].as_str(), "loop");
            assert_eq!(path[1].as_str(), "loop");
        }
    }
}

#[test]
fn expansion_without_matches_returns_input() {
    let table = Aliases { entries: Vec::new() };
    match table.expand("chan", "hello there") {
        Expansion::Done { text, path } => {
            assert_eq!(text.as_str(), "hello there");
            assert_eq!(path.len(), 0);
        }
        Expansion::Cycle { .. } => panic!("no aliases, no cycle"),
    }
}

#[test]
fn lookup_matches_case_insensitively_and_renders_rest() {
    let table = Aliases {
        entries: vec![alias("chan", "sr", "songrequest {{rest}}")],
    };
    let (name, out) = table.lookup("chan", "SR tune.mp3").unwrap();
    assert_eq!(name.as_str(), "sr");
    assert_eq!(out.as_str(), "songrequest tune.mp3");

    assert!(table.lookup("otherchan", "sr x").is_none());
    assert!(table.lookup("chan", "nope x").is_none());
}

#[test]
fn alias_matches_tests_one_alias() {
    let a = alias("chan", "sr", "songrequest {{rest}}");
    let (name, out) = a.matches("Sr  two words").unwrap();
    assert_eq!(name.as_str(), "sr");
    assert_eq!(out.as_str(), "songrequest two words");
    assert!(a.matches("other thing").is_none());
}

#[test]
fn disabled_alias_never_fires() {
    let mut disabled = alias("chan", "sr", "songrequest {{rest}}");
    disabled.disabled = true;
    let table = Aliases { entries: vec![disabled] };
    assert!(table.lookup("chan", "sr tune.mp3").is_none());
    match table.expand("chan", "sr tune.mp3") {
        Expansion::Done { text, path } => {
            assert_eq!(text.as_str(), "sr tune.mp3");
            assert_eq!(path.len(), 0);
        }
        Expansion::Cycle { .. } => panic!("a disabled alias cannot loop"),
    }
}

#[test]
fn editing_a_disabled_alias_withdraws_it() {
    let mut disabled = alias("chan", "sr", "songrequest {{rest}}");
    disabled.disabled = true;
    let mut table = Aliases { entries: vec![disabled] };
    table.edit("chan", "sr", "new {{rest}}".to_string());
    assert_eq!(table.entries.len(), 0);
    assert!(table.get("chan", "sr").is_none());
}

#[test]
fn key_lowercases_the_name() {
    let k = Key::new("chan", "MiXeD");
    assert_eq!(k.channel.as_str(), "chan");
    assert_eq!(k.name.as_str(), "mixed");
}

#[test]
fn store_edit_get_delete() {
    let mut table = Aliases { entries: Vec::new() };
    table.edit("chan", "Go", "run {{rest}}".to_string());
    // stored under the lower-cased name, found under any case
    let got = table.get("chan", "GO").unwrap();
    assert_eq!(got.name.as_str(), "go");
    assert_eq!(got.template.as_str(), "run {{rest}}");

    table.edit("chan", "go", "sprint {{rest}}".to_string());
    assert_eq!(table.get("chan", "go").unwrap().template.as_str(), "sprint {{rest}}");
    assert_eq!(table.entries.len(), 1);

    assert!(table.delete("chan", "go"));
    assert!(!table.delete("chan", "go"));
    assert!(table.get("chan", "go").is_none());
}

#[test]
fn store_list_and_rename() {
    let mut table = Aliases { entries: Vec::new() };
    table.edit("chan", "a", "1".to_string());
    table.edit("chan", "b", "2".to_string());
    table.edit("other", "c", "3".to_string());

    let listed = table.list("chan");
    assert_eq!(listed.len(), 2);

    assert!(matches!(table.rename("chan", "a", "b"), Err(RenameError::Conflict)));
    assert!(matches!(table.rename("chan", "zz", "d"), Err(RenameError::Missing)));
    assert!(table.rename("chan", "a", "D").is_ok());
    assert!(table.get("chan", "d").is_some());
    assert!(table.get("chan", "a").is_none());
}
