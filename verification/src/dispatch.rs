//! Explicit-command resolution and authorization: mapping a `!name`
//! command to the built-in, the currency handler, a registered handler
//! or a user script, and refusing callers that lack the required scope
//! before any handler could run.

use vstd::prelude::*;

verus! {

use crate::auth::{granted, Auth, Role, Scope};
use crate::text::str_eq;

/// A registered command handler, reduced to what dispatch needs: its
/// name and the scope it requires, if any.
pub struct HandlerEntry {
    pub name: String,
    pub scope: Option<Scope>,
}

/// The two handler namespaces, consulted in order after the built-ins:
/// registered handlers, then user scripts.
pub struct HandlerRegistry {
    pub handlers: Vec<HandlerEntry>,
    pub scripts: Vec<String>,
}

/// The economy command: a single reserved name bound to the active
/// currency, when one is enabled.
pub struct CurrencyCommand {
    pub name: String,
    pub scope: Option<Scope>,
}

/// Which tier a dispatched handler belongs to.
pub enum HandlerTier {
    Currency,
    Registry,
    Script,
}

/// The decision taken for one explicit command.
pub enum Dispatch {
    /// The built-in liveness command: respond and broadcast.
    Ping,
    /// The caller lacks the handler's required scope: refuse, with the
    /// moderator-specific wording when the caller is a moderator.
    Refuse { moderator: bool },
    /// Spawn the resolved handler concurrently.
    Execute { tier: HandlerTier, name: String },
    /// No handler owns the name: silently ignored.
    Unknown,
}

/// The required scope of the first registered handler named `name`.
pub open spec fn handler_scope(handlers: Seq<HandlerEntry>, name: Seq<char>) -> Option<
    Option<Scope>,
>
    decreases handlers.len(),
{
    if handlers.len() == 0 {
        None
    } else if handlers[0].name@ == name {
        Some(handlers[0].scope)
    } else {
        handler_scope(handlers.drop_first(), name)
    }
}

/// Is a script registered under `name`?
pub open spec fn scripts_contain(scripts: Seq<String>, name: Seq<char>) -> bool {
    exists|i: int| 0 <= i < scripts.len() && scripts[i]@ == name
}

/// The handler that owns `command`: the currency command when its name
/// matches, else the first registered handler of that name, else a
/// script of that name. Scripts require no scope.
pub open spec fn resolved_handler(
    currency: Option<CurrencyCommand>,
    handlers: Seq<HandlerEntry>,
    scripts: Seq<String>,
    command: Seq<char>,
) -> Option<(HandlerTier, Option<Scope>)> {
    if currency is Some && (currency->0).name@ == command {
        Some((HandlerTier::Currency, (currency->0).scope))
    } else if handler_scope(handlers, command) is Some {
        Some((HandlerTier::Registry, handler_scope(handlers, command)->0))
    } else if scripts_contain(scripts, command) {
        Some((HandlerTier::Script, None))
    } else {
        None
    }
}

/// Is the caller allowed to run a handler requiring `scope`? An injected
/// principal carries maximal trust and bypasses authorization.
pub open spec fn authorized_spec(
    scope: Option<Scope>,
    injected: bool,
    grants: Seq<(Scope, Role)>,
    roles: Seq<Role>,
) -> bool {
    match scope {
        None => true,
        Some(s) => injected || granted(grants, s, roles),
    }
}

proof fn lemma_handler_scope_at(handlers: Seq<HandlerEntry>, name: Seq<char>, j: int)
    requires
        0 <= j < handlers.len(),
        handlers[j].name@ == name,
        forall|k: int| 0 <= k < j ==> handlers[k].name@ != name,
    ensures
        handler_scope(handlers, name) == Some(handlers[j].scope),
    decreases handlers.len(),
{
    if j > 0 {
        lemma_handler_scope_at(handlers.drop_first(), name, j - 1);
    }
}

proof fn lemma_handler_scope_none(handlers: Seq<HandlerEntry>, name: Seq<char>)
    requires
        forall|k: int| 0 <= k < handlers.len() ==> handlers[k].name@ != name,
    ensures
        handler_scope(handlers, name) is None,
    decreases handlers.len(),
{
    if handlers.len() > 0 {
        lemma_handler_scope_none(handlers.drop_first(), name);
    }
}

/// Decides what to do for the explicit command `command` (the text after
/// the `!`). A caller that lacks the resolved handler's required scope
/// is refused and the handler is never executed.
pub fn dispatch_command(
    command: &str,
    currency: &Option<CurrencyCommand>,
    registry: &HandlerRegistry,
    injected: bool,
    roles: &Vec<Role>,
    auth: &Auth,
    is_moderator: bool,
) -> (r: Dispatch)
    ensures
        ({
            let res = resolved_handler(*currency, registry.handlers@, registry.scripts@, command@);
            if command@ == "ping"@ {
                r is Ping
            } else {
                match res {
                    Some(h) => {
                        if authorized_spec(h.1, injected, auth.grants@, roles@) {
                            &&& r is Execute
                            &&& r matches Dispatch::Execute { tier, name } ==> tier == h.0
                                && name@ == command@
                        } else {
                            r == (Dispatch::Refuse { moderator: is_moderator })
                        }
                    },
                    None => r is Unknown,
                }
            }
        }),
{
    proof {
        reveal_strlit("ping");
    }
    if str_eq(command, "ping") {
        return Dispatch::Ping;
    }

    // currency tier
    let resolved: Option<(HandlerTier, Option<Scope>)> = match currency {
        Some(c) if str_eq(c.name.as_str(), command) => Some((HandlerTier::Currency, c.scope)),
        _ => {
            // registry tier
            let mut found: Option<(HandlerTier, Option<Scope>)> = None;
            let mut i: usize = 0;
            while i < registry.handlers.len() && found.is_none()
                invariant
                    0 <= i <= registry.handlers@.len(),
                    match found {
                        Some(f) => {
                            &&& handler_scope(registry.handlers@, command@) == Some(f.1)
                            &&& f.0 == HandlerTier::Registry
                        },
                        None => forall|k: int|
                            0 <= k < i ==> (#[trigger] registry.handlers@[k]).name@ != command@,
                    },
                decreases registry.handlers@.len() - i,
            {
                if str_eq(registry.handlers[i].name.as_str(), command) {
                    proof {
                        lemma_handler_scope_at(registry.handlers@, command@, i as int);
                    }
                    found = Some((HandlerTier::Registry, registry.handlers[i].scope));
                }
                i = i + 1;
            }

            match found {
                Some(f) => Some(f),
                None => {
                    proof {
                        lemma_handler_scope_none(registry.handlers@, command@);
                    }
                    // script tier
                    let mut hit = false;
                    let mut j: usize = 0;
                    while j < registry.scripts.len() && !hit
                        invariant
                            0 <= j <= registry.scripts@.len(),
                            hit ==> scripts_contain(registry.scripts@, command@),
                            !hit ==> forall|k: int|
                                0 <= k < j ==> (#[trigger] registry.scripts@[k])@ != command@,
                        decreases registry.scripts@.len() - j,
                    {
                        if str_eq(registry.scripts[j].as_str(), command) {
                            hit = true;
                        }
                        j = j + 1;
                    }
                    if hit {
                        Some((HandlerTier::Script, None))
                    } else {
                        return Dispatch::Unknown;
                    }
                },
            }
        },
    };

    let (tier, scope) = match resolved {
        Some(p) => p,
        None => {
            return Dispatch::Unknown;
        },
    };

    let allowed = match scope {
        None => true,
        Some(s) => injected || auth.test_any(s, roles),
    };

    if allowed {
        Dispatch::Execute { tier, name: String::from_str(command) }
    } else {
        Dispatch::Refuse { moderator: is_moderator }
    }
}

/// The wording of a refusal: moderators are told they are not allowed;
/// everyone else gets the generic refusal.
pub fn refusal_text(moderator: bool) -> (r: String)
    ensures
        moderator ==> r@ == "You are not allowed to run that command"@,
        !moderator ==> r@ == "Do you think this is a democracy? LUL"@,
{
    if moderator {
        String::from_str("You are not allowed to run that command")
    } else {
        String::from_str("Do you think this is a democracy? LUL")
    }
}

/// A moderator's refusal reads differently from a non-moderator's.
pub proof fn lemma_refusals_differ()
    ensures
        "You are not allowed to run that command"@ != "Do you think this is a democracy? LUL"@,
{
    broadcast use vstd::string::group_string_axioms;

    reveal_strlit("You are not allowed to run that command");
    reveal_strlit("Do you think this is a democracy? LUL");
    assert("You are not allowed to run that command"@.len() == 39);
    assert("Do you think this is a democracy? LUL"@.len() == 37);
}

} // verus!
