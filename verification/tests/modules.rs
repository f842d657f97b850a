use chat_engine::after_streams::AfterStreams;
use chat_engine::currency::{BackendPlan, BackendType, BalanceOf, CurrencyBuilder, Schema};
use chat_engine::fuse::Fuse;
use chat_engine::poll::{format_poll_results, percentage, poll_decide, ActivePoll, PollCommand, PollSet};
use chat_engine::text::parse_u64;
use chat_engine::scripts::{script_event_action, FsEventKind, ScriptAction, Scripts};
use chat_engine::supervisor::{Retry, SupervisorState};
use chat_engine::tags::{ClearMsgTags, TagEntry, Tags};
use chat_engine::theme_admin::{theme_admin_decide, Module, ThemeAdminAction};
use chat_engine::themes::Themes;
use chat_engine::promotions::{BumpError, Promotions};

#[test]
fn tags_take_the_last_value_and_skip_valueless() {
    let tags = vec![
        TagEntry { name: "id".to_string(), value: Some("one".to_string()) },
        TagEntry { name: "display-name".to_string(), value: Some("Alice".to_string()) },
        TagEntry { name: "id".to_string(), value: Some("two".to_string()) },
        TagEntry { name: "color".to_string(), value: None },
    ];
    let t = Tags::from_tags(Some(tags));
    assert_eq!(t.id.as_deref(), Some("two"));
    assert_eq!(t.display_name.as_deref(), Some("Alice"));
    assert!(t.color.is_none());
    assert!(t.msg_id.is_none());

    let t = Tags::from_tags(None);
    assert!(t.id.is_none() && t.display_name.is_none());
}

#[test]
fn clear_msg_tags_need_a_target() {
    let tags = vec![TagEntry {
        name: "target-msg-id".to_string(),
        value: Some("abc".to_string()),
    }];
    let c = ClearMsgTags::from_tags(Some(tags)).unwrap();
    assert_eq!(c.target_msg_id.as_str(), "abc");
    assert!(ClearMsgTags::from_tags(None).is_none());
}

#[test]
fn fuse_arms_clears_and_fires() {
    let mut f = Fuse::empty();
    assert!(!f.is_armed());
    assert!(!f.expired(u64::MAX));
    f.arm(100);
    assert!(f.is_armed());
    assert!(!f.expired(99));
    assert!(f.expired(100));
    f.clear();
    assert!(!f.expired(u64::MAX));
}

#[test]
fn supervisor_retries_immediately_after_graceful_end() {
    let mut s = SupervisorState::new();
    assert!(matches!(s.on_session_end(true), Retry::Immediate));
    assert!(matches!(s.on_session_end(false), Retry::After { .. }));
    assert!(matches!(s.on_session_end(true), Retry::Immediate));
}

#[test]
fn poll_counts_one_vote_per_user() {
    let mut p = ActivePoll::start("favorite?".to_string(), "yes no=Nope", 1_000);
    p.peek("alice", "I say YES!");
    p.peek("alice", "no no no");
    p.peek("bob", "hmm");
    p.peek("carol", "no");
    let results = p.close();
    assert_eq!(results.len(), 2);
    assert_eq!(results[0].1, 1);
    assert_eq!(results[1].1, 1);
    // sorted by count, largest first
    assert!(results[0].1 >= results[1].1);
}

#[test]
fn poll_ignores_nonvoters_and_unknown_words() {
    let mut p = ActivePoll::start("q".to_string(), "red blue", 0);
    p.peek("dave", "nothing relevant");
    let results = p.close();
    assert_eq!(results[0].1, 0);
    assert_eq!(results[1].1, 0);
}

#[test]
fn poll_results_format_counts_and_shares() {
    let results = vec![
        ("yes".to_string(), 2u64),
        ("Nope".to_string(), 1u64),
        ("shrug".to_string(), 0u64),
    ];
    let r = format_poll_results("favorite?", &results);
    assert_eq!(
        r.as_str(),
        "favorite? -> yes = 2 votes (66%), Nope = one vote (33%), shrug = no votes (0%)."
    );
    let empty: Vec<(String, u64)> = Vec::new();
    assert_eq!(format_poll_results("q", &empty).as_str(), "q -> .");
}

#[test]
fn poll_set_tracks_latest_and_removes() {
    let mut set = PollSet::new();
    assert!(set.latest().is_none());
    set.insert(1, ActivePoll::start("old".to_string(), "a b", 100));
    set.insert(2, ActivePoll::start("new".to_string(), "a b", 200));
    assert_eq!(set.latest(), Some(2));
    let closed = set.remove(2).unwrap();
    assert_eq!(closed.question.as_str(), "new");
    assert!(set.remove(2).is_none());
    assert_eq!(set.latest(), Some(1));
}

#[test]
fn poll_command_decisions() {
    match poll_decide("run favorite? yes no=Nope") {
        PollCommand::Run { question, options } => {
            assert_eq!(question.as_str(), "favorite?");
            assert_eq!(options.as_str(), "yes no=Nope");
        }
        _ => panic!("expected a run"),
    }
    assert!(matches!(poll_decide("run"), PollCommand::Usage));
    assert!(matches!(poll_decide("close"), PollCommand::CloseLatest));
    assert!(matches!(poll_decide("close 17"), PollCommand::CloseId { id: 17 }));
    assert!(matches!(poll_decide("close x7"), PollCommand::BadId { .. }));
    assert!(matches!(poll_decide("close 99999999999999999999"), PollCommand::BadId { .. }));
    assert!(matches!(poll_decide("meh"), PollCommand::Usage));
    assert!(matches!(poll_decide(""), PollCommand::Usage));
}

#[test]
fn decimal_parsing_is_exact() {
    assert_eq!(parse_u64("0"), Some(0));
    assert_eq!(parse_u64("4096"), Some(4096));
    assert_eq!(parse_u64("18446744073709551615"), Some(u64::MAX));
    assert_eq!(parse_u64("18446744073709551616"), None);
    assert_eq!(parse_u64(""), None);
    assert_eq!(parse_u64("12a"), None);
}

#[test]
fn percentage_is_exact() {
    assert_eq!(percentage(0, 0), 0);
    assert_eq!(percentage(1, 4), 25);
    assert_eq!(percentage(2, 3), 66);
    assert_eq!(percentage(3, 3), 100);
}

#[test]
fn theme_admin_decisions() {
    assert!(matches!(
        theme_admin_decide("edit foo spotify:track:x", true),
        ThemeAdminAction::Edit { .. }
    ));
    assert!(matches!(theme_admin_decide("edit foo bar", false), ThemeAdminAction::Refused));
    assert!(matches!(theme_admin_decide("edit foo", true), ThemeAdminAction::MissingArgs));
    assert!(matches!(theme_admin_decide("bogus", true), ThemeAdminAction::Usage));
    assert!(matches!(theme_admin_decide("", true), ThemeAdminAction::Usage));
    match theme_admin_decide("edit-duration foo 10 20", true) {
        ThemeAdminAction::EditDuration { name, start, end } => {
            assert_eq!(name.as_str(), "foo");
            assert_eq!(start.as_str(), "10");
            assert_eq!(end.as_deref(), Some("20"));
        }
        _ => panic!("expected a duration edit"),
    }
    let m = Module::load();
    assert_eq!(m.ty(), "theme");
}

#[test]
fn themes_store_upserts_and_edits_duration() {
    let mut t = Themes::new();
    t.edit("chan", "intro", "track-1".to_string());
    assert_eq!(t.get("chan", "INTRO").unwrap().track_id.as_str(), "track-1");
    t.edit("chan", "intro", "track-2".to_string());
    assert_eq!(t.entries.len(), 1);
    assert_eq!(t.get("chan", "intro").unwrap().track_id.as_str(), "track-2");
    t.edit_duration("chan", "intro", 500, Some(900));
    let got = t.get("chan", "intro").unwrap();
    assert_eq!(got.start_ms, 500);
    assert_eq!(got.end_ms, Some(900));
    // an absent theme is left alone
    t.edit_duration("chan", "nope", 1, None);
    assert!(t.get("chan", "nope").is_none());
}

#[test]
fn editing_disabled_store_entries_withdraws_them() {
    let mut t = Themes::new();
    t.edit("chan", "intro", "track-1".to_string());
    let mut entry = t.entries.remove(0);
    entry.disabled = true;
    t.entries.push(entry);
    t.edit("chan", "intro", "track-2".to_string());
    assert_eq!(t.entries.len(), 0);

    let mut p = Promotions::new();
    p.edit("chan", "follow", 600, "follow!".to_string());
    let mut entry = p.entries.remove(0);
    entry.disabled = true;
    p.entries.push(entry);
    p.edit("chan", "follow", 900, "again!".to_string());
    assert_eq!(p.entries.len(), 0);
}

#[test]
fn promotions_store_bumps_promoted_at() {
    let mut p = Promotions::new();
    p.edit("chan", "follow", 600, "follow {{target}}!".to_string());
    assert!(p.entries[0].promoted_at_ms.is_none());
    assert!(p.bump_promoted_at("chan", "follow", 42).is_ok());
    assert_eq!(p.entries[0].promoted_at_ms, Some(42));
    assert!(matches!(p.bump_promoted_at("chan", "nope", 42), Err(BumpError::Missing)));
    // upsert keeps the promoted-at time
    p.edit("chan", "follow", 900, "new text".to_string());
    assert_eq!(p.entries[0].promoted_at_ms, Some(42));
    assert_eq!(p.entries[0].frequency_s, 900);
}

#[test]
fn store_descriptions_render() {
    let mut t = Themes::new();
    t.edit("chan", "intro", "track-1".to_string());
    assert_eq!(
        t.get("chan", "intro").unwrap().describe(),
        "track_id = track-1, start = 0, end = *none*, group = *none*, disabled = false"
    );
    let mut p = Promotions::new();
    p.edit("chan", "follow", 600, "follow!".to_string());
    assert_eq!(
        p.entries[0].describe(),
        "frequency = 600, template = \"follow!\", group = *none*, disabled = false"
    );
}

#[test]
fn after_streams_keeps_arrival_order() {
    let mut a = AfterStreams::new();
    let id0 = a.push(None, "alice".to_string(), "first".to_string(), 10).unwrap();
    let id1 = a.push(None, "bob".to_string(), "second".to_string(), 20).unwrap();
    assert!(id0 < id1);
    assert_eq!(a.list().len(), 2);
    assert_eq!(a.list()[0].text.as_str(), "first");
    assert!(a.delete(id0));
    assert!(!a.delete(id0));
    assert_eq!(a.list().len(), 1);
    assert_eq!(a.list()[0].text.as_str(), "second");
}

#[test]
fn balance_watch_time_never_negative() {
    let b = BalanceOf { balance: 10, watch_time: -5 };
    assert_eq!(b.watch_time(), 0);
    let b = BalanceOf { balance: 10, watch_time: 77 };
    assert_eq!(b.watch_time(), 77);
}

fn schema() -> Schema {
    Schema {
        table: "points".to_string(),
        user_column: "user".to_string(),
        balance_column: "balance".to_string(),
    }
}

#[test]
fn currency_build_requires_enablement_and_backend() {
    let mut b = CurrencyBuilder::new(schema());
    assert!(b.build().is_none());

    b.enabled = true;
    b.name = Some("coins".to_string());
    assert!(b.build().is_none());  // built-in without a database

    b.has_db = true;
    let plan = b.build().unwrap();
    assert_eq!(plan.name.as_str(), "coins");
    assert!(matches!(plan.backend, BackendPlan::BuiltIn));

    b.ty = BackendType::Honkos;
    assert!(b.build().is_none());  // external backend without a URL
    b.mysql_url = Some("mysql://h".to_string());
    let plan = b.build().unwrap();
    match plan.backend {
        BackendPlan::MySql { url, schema } => {
            assert_eq!(url.as_str(), "mysql://h");
            assert_eq!(schema.table.as_str(), "honkos");
            assert_eq!(schema.user_column.as_str(), "username");
            assert_eq!(schema.balance_column.as_str(), "honko_balance");
        }
        BackendPlan::BuiltIn => panic!("expected the external backend"),
    }
}

#[test]
fn script_events_map_to_actions() {
    assert!(matches!(script_event_action(FsEventKind::CreateFile), ScriptAction::Load));
    assert!(matches!(script_event_action(FsEventKind::ModifyData), ScriptAction::Load));
    assert!(matches!(script_event_action(FsEventKind::RenameFrom), ScriptAction::Remove));
    assert!(matches!(script_event_action(FsEventKind::RemoveAny), ScriptAction::Remove));
    assert!(matches!(script_event_action(FsEventKind::Other), ScriptAction::Ignore));
}

#[test]
fn scripts_load_and_unload() {
    let mut s = Scripts::new();
    s.load("greet".to_string());
    s.load("greet".to_string());
    s.load("farewell".to_string());
    assert!(s.get("greet"));
    assert_eq!(s.names.len(), 2);
    s.unload("greet");
    assert!(!s.get("greet"));
    assert!(s.get("farewell"));
}

#[test]
fn config_records_hold_their_fields() {
    let d = chat_engine::config::DeprecatedAlias::new("!sr".to_string(), "!songrequest".to_string());
    assert_eq!(d.match_text.as_str(), "!sr");
    assert_eq!(d.replace.as_str(), "!songrequest");
}
