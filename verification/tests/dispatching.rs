use chat_engine::auth::{Auth, Role, Scope};
use chat_engine::dispatch::{
    dispatch_command, refusal_text, CurrencyCommand, Dispatch, HandlerEntry, HandlerRegistry,
    HandlerTier,
};

fn registry() -> HandlerRegistry {
    HandlerRegistry {
        handlers: vec![
            HandlerEntry { name: "theme".to_string(), scope: Some(Scope::ThemeEdit) },
            HandlerEntry { name: "open".to_string(), scope: None },
        ],
        scripts: vec!["greet".to_string()],
    }
}

fn everyone_roles() -> Vec<Role> {
    vec![Role::Everyone]
}

#[test]
fn ping_is_builtin() {
    let auth = Auth { grants: Vec::new() };
    let d = dispatch_command("ping", &None, &registry(), false, &everyone_roles(), &auth, false);
    assert!(matches!(d, Dispatch::Ping));
}

#[test]
fn lacking_scope_refuses_and_never_executes() {
    let auth = Auth { grants: Vec::new() };
    let d = dispatch_command("theme", &None, &registry(), false, &everyone_roles(), &auth, false);
    assert!(matches!(d, Dispatch::Refuse { moderator: false }));

    // the moderator gets the moderator-specific refusal
    let d = dispatch_command("theme", &None, &registry(), false, &everyone_roles(), &auth, true);
    assert!(matches!(d, Dispatch::Refuse { moderator: true }));

    assert_ne!(refusal_text(true).as_str(), refusal_text(false).as_str());
}

#[test]
fn granted_scope_executes() {
    let auth = Auth { grants: vec![(Scope::ThemeEdit, Role::Everyone)] };
    let d = dispatch_command("theme", &None, &registry(), false, &everyone_roles(), &auth, false);
    match d {
        Dispatch::Execute { tier, name } => {
            assert!(matches!(tier, HandlerTier::Registry));
            assert_eq!(name.as_str(), "theme");
        }
        _ => panic!("expected execution"),
    }
}

#[test]
fn scopeless_handler_executes_for_everyone() {
    let auth = Auth { grants: Vec::new() };
    let d = dispatch_command("open", &None, &registry(), false, &everyone_roles(), &auth, false);
    assert!(matches!(d, Dispatch::Execute { tier: HandlerTier::Registry, .. }));
}

#[test]
fn injected_principal_bypasses_authorization() {
    let auth = Auth { grants: Vec::new() };
    let roles = vec![Role::Streamer, Role::Moderator, Role::Subscriber, Role::Vip];
    let d = dispatch_command("theme", &None, &registry(), true, &roles, &auth, true);
    assert!(matches!(d, Dispatch::Execute { .. }));
}

#[test]
fn currency_command_resolves_first() {
    let auth = Auth { grants: Vec::new() };
    let currency = Some(CurrencyCommand { name: "coins".to_string(), scope: None });
    let d = dispatch_command("coins", &currency, &registry(), false, &everyone_roles(), &auth, false);
    assert!(matches!(d, Dispatch::Execute { tier: HandlerTier::Currency, .. }));
}

#[test]
fn scripts_resolve_after_handlers() {
    let auth = Auth { grants: Vec::new() };
    let d = dispatch_command("greet", &None, &registry(), false, &everyone_roles(), &auth, false);
    assert!(matches!(d, Dispatch::Execute { tier: HandlerTier::Script, .. }));
}

#[test]
fn unknown_commands_are_silently_ignored() {
    let auth = Auth { grants: Vec::new() };
    let d = dispatch_command("nosuch", &None, &registry(), false, &everyone_roles(), &auth, false);
    assert!(matches!(d, Dispatch::Unknown));
}
