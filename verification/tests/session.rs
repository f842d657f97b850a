use chat_engine::auth::{Auth, Scope};
use chat_engine::commands::{Command, CommandTable};
use chat_engine::dispatch::{HandlerEntry, HandlerRegistry, HandlerTier};
use chat_engine::engine::{
    handler_outcome_response, Action, ChatEvent, HandlerOutcome, LoopEvent, SessionEnd,
    SessionState, LEAVE_DELAY_MS, PONG_TIMEOUT_MS,
};
use chat_engine::alias::{Alias, Aliases};
use chat_engine::fuse::Fuse;
use chat_engine::members::MemberSet;
use chat_engine::moderation::BadWord;
use chat_engine::tags::TagEntry;

fn base_state() -> SessionState {
    SessionState {
        streamer_login: "streamer".to_string(),
        moderators: MemberSet::new(),
        vips: MemberSet::new(),
        subscribers: MemberSet::new(),
        whitelisted_hosts: MemberSet::new(),
        commands: None,
        aliases: None,
        bad_words: Vec::new(),
        bad_words_enabled: false,
        url_whitelist_enabled: false,
        api_url: None,
        moderator_cooldown: None,
        currency: None,
        registry: HandlerRegistry {
            handlers: vec![HandlerEntry {
                name: "theme".to_string(),
                scope: Some(Scope::ThemeEdit),
            }],
            scripts: Vec::new(),
        },
        auth: Auth { grants: Vec::new() },
        chat_log_active: false,
        join_message: Some("hello chat".to_string()),
        leave_message: "Leaving chat... VoHiYo".to_string(),
        pong_fuse: Fuse::empty(),
        leave_fuse: Fuse::empty(),
        shutdown: false,
        idle_seen: 0,
    }
}

fn privmsg(sender: &str, text: &str) -> LoopEvent {
    LoopEvent::Inbound {
        event: ChatEvent::Privmsg { sender: sender.to_string(), text: text.to_string(), tags: None },
    }
}

#[test]
fn ping_command_responds_and_broadcasts() {
    // end to end: "!ping" from a non-streamer, non-moderator
    let mut s = base_state();
    let acts = s.handle_event(privmsg("alice", "!ping"), 0);
    assert_eq!(acts.len(), 3);
    assert!(matches!(&acts[0], Action::NotifyHooks { login: Some(l), text } if l == "alice" && text == "!ping"));
    assert!(matches!(&acts[1], Action::Respond { to: Some(t), text } if t == "alice" && text == "What do you want?"));
    assert!(matches!(&acts[2], Action::BroadcastPing));
}

#[test]
fn unauthorized_theme_edit_is_refused_without_spawning() {
    let mut s = base_state();
    let acts = s.handle_event(privmsg("alice", "!theme edit foo bar"), 0);
    assert_eq!(acts.len(), 2);
    assert!(matches!(&acts[0], Action::NotifyHooks { .. }));
    assert!(matches!(&acts[1], Action::Respond { text, .. } if text == "Do you think this is a democracy? LUL"));
    for a in &acts {
        assert!(!matches!(a, Action::SpawnHandler { .. }));
    }
}

#[test]
fn second_table_snapshot_is_the_one_dispatched_against() {
    // two command-table updates back-to-back: only the second is seen
    let t1 = CommandTable {
        entries: vec![Command {
            channel: "streamer".to_string(),
            name: "hello".to_string(),
            template: "first".to_string(),
            count: 0,
            group: None,
            disabled: false,
        }],
    };
    let t2 = CommandTable {
        entries: vec![Command {
            channel: "streamer".to_string(),
            name: "hello".to_string(),
            template: "second".to_string(),
            count: 0,
            group: None,
            disabled: false,
        }],
    };
    let mut s = base_state();
    let a1 = s.handle_event(LoopEvent::CommandsUpdate { table: Some(t1) }, 0);
    assert_eq!(a1.len(), 0);
    let a2 = s.handle_event(LoopEvent::CommandsUpdate { table: Some(t2) }, 0);
    assert_eq!(a2.len(), 0);

    let acts = s.handle_event(privmsg("alice", "hello"), 0);
    assert_eq!(acts.len(), 2);
    assert!(matches!(&acts[1], Action::Privmsg { text } if text == "second"));
}

#[test]
fn usage_counter_increments_when_tracked() {
    let table = CommandTable {
        entries: vec![Command {
            channel: "streamer".to_string(),
            name: "brag".to_string(),
            template: "used {{count}} times by {{name}}".to_string(),
            count: 0,
            group: None,
            disabled: false,
        }],
    };
    let mut s = base_state();
    s.commands = Some(table);
    let acts = s.handle_event(privmsg("alice", "brag"), 0);
    assert!(matches!(&acts[1], Action::Privmsg { text } if text == "used 1 times by alice"));
    assert_eq!(s.commands.as_ref().unwrap().entries[0].count, 1);

    let acts = s.handle_event(privmsg("alice", "BRAG"), 0);
    assert!(matches!(&acts[1], Action::Privmsg { text } if text == "used 2 times by alice"));
}

#[test]
fn probe_timeout_ends_the_session() {
    // liveness: the probe arms the fuse; no reply before the deadline is
    // fatal
    let mut s = base_state();
    let acts = s.handle_event(LoopEvent::PingTick, 1_000);
    assert_eq!(acts.len(), 1);
    assert!(matches!(&acts[0], Action::SendPing { .. }));
    assert_eq!(s.pong_fuse.deadline, Some(1_000 + PONG_TIMEOUT_MS));
    assert!(!s.pong_fuse.expired(1_000 + PONG_TIMEOUT_MS - 1));
    assert!(s.pong_fuse.expired(1_000 + PONG_TIMEOUT_MS));

    let acts = s.handle_event(LoopEvent::PongTimeout, 1_000 + PONG_TIMEOUT_MS);
    assert_eq!(acts.len(), 1);
    assert!(matches!(&acts[0], Action::EndSession { end: SessionEnd::LivenessTimeout }));
}

#[test]
fn probe_reply_clears_the_fuse() {
    let mut s = base_state();
    s.handle_event(LoopEvent::PingTick, 1_000);
    assert!(s.pong_fuse.is_armed());
    let acts = s.handle_event(LoopEvent::Inbound { event: ChatEvent::Pong }, 2_000);
    assert_eq!(acts.len(), 0);
    assert!(!s.pong_fuse.is_armed());
    assert!(!s.pong_fuse.expired(u64::MAX));
}

#[test]
fn peer_probe_is_answered() {
    let mut s = base_state();
    let acts = s.handle_event(
        LoopEvent::Inbound {
            event: ChatEvent::Ping { server: "srv".to_string(), tail: None },
        },
        0,
    );
    assert_eq!(acts.len(), 1);
    assert!(matches!(&acts[0], Action::SendPong { server, tail: None } if server == "srv"));
}

#[test]
fn command_capability_grant_requests_member_lists() {
    let mut s = base_state();
    let acts = s.handle_event(
        LoopEvent::Inbound {
            event: ChatEvent::CapAck { cap: Some("twitch.tv/commands".to_string()) },
        },
        0,
    );
    assert_eq!(acts.len(), 2);
    assert!(matches!(&acts[0], Action::RequestMods));
    assert!(matches!(&acts[1], Action::RequestVips));

    let acts = s.handle_event(
        LoopEvent::Inbound { event: ChatEvent::CapAck { cap: Some("twitch.tv/tags".to_string()) } },
        0,
    );
    assert_eq!(acts.len(), 0);
}

#[test]
fn auth_failure_notice_forces_refresh_and_shutdown() {
    let mut s = base_state();
    let acts = s.handle_event(
        LoopEvent::Inbound {
            event: ChatEvent::Notice {
                text: "Login authentication failed".to_string(),
                tags: None,
            },
        },
        0,
    );
    assert_eq!(acts.len(), 2);
    assert!(matches!(&acts[0], Action::ForceTokenRefresh));
    assert!(matches!(&acts[1], Action::EndSession { end: SessionEnd::AuthFailure }));
    assert!(s.shutdown);
}

#[test]
fn mod_list_notice_replaces_the_set() {
    let mut s = base_state();
    let tags = vec![TagEntry { name: "msg-id".to_string(), value: Some("room_mods".to_string()) }];
    s.handle_event(
        LoopEvent::Inbound {
            event: ChatEvent::Notice {
                text: "The moderators of this channel are: foo, bar".to_string(),
                tags: Some(tags),
            },
        },
        0,
    );
    assert!(s.moderators.contains("foo"));
    assert!(s.moderators.contains("bar"));
    assert_eq!(s.moderators.count(), 2);

    let tags = vec![TagEntry { name: "msg-id".to_string(), value: Some("no_mods".to_string()) }];
    s.handle_event(
        LoopEvent::Inbound {
            event: ChatEvent::Notice { text: "none".to_string(), tags: Some(tags) },
        },
        0,
    );
    assert_eq!(s.moderators.count(), 0);
}

#[test]
fn dependency_change_schedules_graceful_leave() {
    let mut s = base_state();
    let acts = s.handle_event(LoopEvent::DependencyChange, 500);
    assert_eq!(acts.len(), 0);
    assert_eq!(s.leave_fuse.deadline, Some(500 + LEAVE_DELAY_MS));

    let acts = s.handle_event(LoopEvent::LeaveElapsed, 1_500);
    assert_eq!(acts.len(), 2);
    assert!(matches!(&acts[0], Action::PrivmsgImmediate { text } if text == "Leaving chat... VoHiYo"));
    assert!(matches!(&acts[1], Action::EndSession { end: SessionEnd::Graceful }));
}

#[test]
fn outgoing_end_is_fatal() {
    let mut s = base_state();
    let acts = s.handle_event(LoopEvent::OutgoingEnded, 0);
    assert_eq!(acts.len(), 1);
    assert!(matches!(&acts[0], Action::EndSession { end: SessionEnd::OutgoingClosed }));
}

#[test]
fn session_start_requests_caps_then_greets() {
    let s = base_state();
    let acts = s.session_start();
    assert_eq!(acts.len(), 3);
    assert!(matches!(&acts[0], Action::CapReq { cap } if cap == "twitch.tv/tags"));
    assert!(matches!(&acts[1], Action::CapReq { cap } if cap == "twitch.tv/commands"));
    assert!(matches!(&acts[2], Action::PrivmsgImmediate { text } if text == "hello chat"));
}

#[test]
fn alias_cycle_is_reported_to_the_user() {
    let mut s = base_state();
    s.aliases = Some(Aliases {
        entries: vec![Alias {
            channel: "streamer".to_string(),
            name: "loop".to_string(),
            template: "loop {{rest}}".to_string(),
            group: None,
            disabled: false,
        }],
    });
    let acts = s.handle_event(privmsg("alice", "loop x"), 0);
    assert_eq!(acts.len(), 2);
    assert!(matches!(&acts[1], Action::Respond { text, .. }
        if text == "Recursion found in alias expansion: loop -> loop :("));
}

#[test]
fn bus_commands_run_with_full_trust() {
    let mut s = base_state();
    let acts = s.handle_event(LoopEvent::BusCommand { text: "!theme edit a b".to_string() }, 0);
    // injected principals bypass authorization: the handler is spawned
    assert_eq!(acts.len(), 2);
    assert!(matches!(&acts[0], Action::NotifyHooks { login: None, .. }));
    assert!(matches!(&acts[1], Action::SpawnHandler { tier: HandlerTier::Registry, name, rest, login: None }
        if name == "theme" && rest == "edit a b"));
}

#[test]
fn moderation_deletes_denylisted_words_with_explanation() {
    let mut s = base_state();
    s.bad_words_enabled = true;
    s.bad_words = vec![BadWord {
        word: "heck".to_string(),
        why: Some("{{name}}, watch it in {{target}}".to_string()),
    }];
    let tags = vec![TagEntry { name: "id".to_string(), value: Some("msg-7".to_string()) }];
    let acts = s.handle_event(
        LoopEvent::Inbound {
            event: ChatEvent::Privmsg {
                sender: "alice".to_string(),
                text: "what the heck!".to_string(),
                tags: Some(tags),
            },
        },
        0,
    );
    assert_eq!(acts.len(), 3);
    assert!(matches!(&acts[1], Action::Privmsg { text } if text == "alice, watch it in streamer"));
    assert!(matches!(&acts[2], Action::DeleteMessage { id } if id == "msg-7"));
}

#[test]
fn streamer_bypasses_the_filter() {
    // moderation skips the streamer as well as moderators
    let mut s = base_state();
    s.bad_words_enabled = true;
    s.bad_words = vec![BadWord { word: "heck".to_string(), why: None }];
    let acts = s.handle_event(privmsg("streamer", "what the heck!"), 0);
    assert_eq!(acts.len(), 1);
    assert!(matches!(&acts[0], Action::NotifyHooks { .. }));
}

#[test]
fn disabled_command_answers_nothing() {
    let table = CommandTable {
        entries: vec![Command {
            channel: "streamer".to_string(),
            name: "hello".to_string(),
            template: "hi".to_string(),
            count: 0,
            group: None,
            disabled: true,
        }],
    };
    let mut s = base_state();
    s.commands = Some(table);
    let acts = s.handle_event(privmsg("alice", "hello"), 0);
    assert_eq!(acts.len(), 1);
    assert!(matches!(&acts[0], Action::NotifyHooks { .. }));
}

#[test]
fn handler_outcomes_become_responses() {
    let r = handler_outcome_response(HandlerOutcome::Done, Some("alice".to_string()));
    assert!(r.is_none());

    let r = handler_outcome_response(
        HandlerOutcome::UserError { message: "that id is taken".to_string() },
        Some("alice".to_string()),
    );
    assert!(matches!(&r, Some(Action::Respond { to: Some(t), text })
        if t == "alice" && text == "that id is taken"));

    let r = handler_outcome_response(HandlerOutcome::Failed, None);
    assert!(matches!(&r, Some(Action::Respond { to: None, text })
        if text == "Sorry, something went wrong :("));
}

#[test]
fn moderators_bypass_the_filter() {
    let mut s = base_state();
    s.bad_words_enabled = true;
    s.bad_words = vec![BadWord { word: "heck".to_string(), why: None }];
    s.moderators.insert("alice".to_string());
    let acts = s.handle_event(privmsg("alice", "what the heck!"), 0);
    assert_eq!(acts.len(), 1);
    assert!(matches!(&acts[0], Action::NotifyHooks { .. }));
}

#[test]
fn unwhitelisted_links_are_deleted() {
    let mut s = base_state();
    s.url_whitelist_enabled = true;
    s.whitelisted_hosts.insert("twitch.tv".to_string());
    let tags = vec![TagEntry { name: "id".to_string(), value: Some("msg-9".to_string()) }];
    let acts = s.handle_event(
        LoopEvent::Inbound {
            event: ChatEvent::Privmsg {
                sender: "alice".to_string(),
                text: "see https://evil.example/page now".to_string(),
                tags: Some(tags),
            },
        },
        0,
    );
    assert_eq!(acts.len(), 2);
    assert!(matches!(&acts[1], Action::DeleteMessage { id } if id == "msg-9"));

    // a whitelisted host passes
    let acts = s.handle_event(privmsg("alice", "see https://twitch.tv/page"), 0);
    assert_eq!(acts.len(), 1);
}

#[test]
fn idle_counter_tracks_non_streamer_messages() {
    let mut s = base_state();
    s.handle_event(privmsg("alice", "hi"), 0);
    assert_eq!(s.idle_seen, 1);
    s.handle_event(privmsg("streamer", "hi"), 0);
    assert_eq!(s.idle_seen, 1);
    s.handle_event(LoopEvent::BusCommand { text: "hi".to_string() }, 0);
    assert_eq!(s.idle_seen, 1);
}

#[test]
fn chat_log_observes_and_clears() {
    let mut s = base_state();
    s.chat_log_active = true;
    let acts = s.handle_event(privmsg("alice", "hi"), 0);
    assert!(matches!(&acts[0], Action::LogObserve { login, text } if login == "alice" && text == "hi"));

    let tags = vec![TagEntry {
        name: "target-msg-id".to_string(),
        value: Some("gone".to_string()),
    }];
    let acts = s.handle_event(
        LoopEvent::Inbound { event: ChatEvent::ClearMsg { tags: Some(tags) } },
        0,
    );
    assert_eq!(acts.len(), 1);
    assert!(matches!(&acts[0], Action::LogDeleteById { id } if id == "gone"));

    let acts = s.handle_event(
        LoopEvent::Inbound { event: ChatEvent::ClearChat { user: Some("bob".to_string()) } },
        0,
    );
    assert!(matches!(&acts[0], Action::LogDeleteByUser { user } if user == "bob"));

    let acts = s.handle_event(LoopEvent::Inbound { event: ChatEvent::ClearChat { user: None } }, 0);
    assert!(matches!(&acts[0], Action::LogDeleteAll));
}
