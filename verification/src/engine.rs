//! The protocol event loop's decision core: one session's state, the
//! events the loop multiplexes, and the pure transition that maps each
//! event to the next state and the actions to perform. The surrounding
//! process performs the actions (sending lines, spawning handlers,
//! touching the log) and feeds the next event back in.

use vstd::prelude::*;

verus! {

use crate::alias::{expansion_ok, Aliases, Expansion};
use crate::auth::{granted, Auth, Principal, Role};
use crate::commands::CommandTable;
use crate::dispatch::{CurrencyCommand, HandlerRegistry, HandlerTier};
use crate::fuse::Fuse;
use crate::members::{room_members_spec, MemberSet};
use crate::moderation::BadWord;
use crate::tags::{TagEntry, Tags};

/// Keepalive probes are sent this often.
pub const PING_INTERVAL_MS: u64 = 10_000;

/// An unanswered probe fails the session after this long.
pub const PONG_TIMEOUT_MS: u64 = 5_000;

/// Moderator and VIP lists are re-requested this often.
pub const MOD_REFRESH_INTERVAL_MS: u64 = 300_000;

/// A dependency change schedules the graceful leave this long ahead.
pub const LEAVE_DELAY_MS: u64 = 1_000;

/// The sender of one message: who it is attributed to, with the line's
/// tags.
pub struct UserInfo {
    pub principal: Principal,
    pub tags: Tags,
}

/// One parsed inbound protocol line.
pub enum ChatEvent {
    /// An ordinary chat message.
    Privmsg { sender: String, text: String, tags: Option<Vec<TagEntry>> },
    /// A capability acknowledgment.
    CapAck { cap: Option<String> },
    /// A probe request from the peer.
    Ping { server: String, tail: Option<String> },
    /// The reply to our probe.
    Pong,
    /// A service notice.
    Notice { text: String, tags: Option<Vec<TagEntry>> },
    /// A per-message deletion notice.
    ClearMsg { tags: Option<Vec<TagEntry>> },
    /// A per-user (or channel-wide) deletion notice.
    ClearChat { user: Option<String> },
    /// Anything unrecognized: logged and ignored.
    Other,
}

/// One event of the session's multiplexer.
pub enum LoopEvent {
    /// An inbound line arrived.
    Inbound { event: ChatEvent },
    /// The periodic keepalive timer ticked.
    PingTick,
    /// The pong-timeout fuse fired.
    PongTimeout,
    /// The periodic moderator/VIP refresh ticked.
    ModRefreshTick,
    /// The internal command bus delivered raw command text.
    BusCommand { text: String },
    /// A new command-table snapshot was delivered.
    CommandsUpdate { table: Option<CommandTable> },
    /// A new alias-table snapshot was delivered.
    AliasesUpdate { table: Option<Aliases> },
    /// A new link whitelist was delivered.
    WhitelistUpdate { hosts: MemberSet },
    /// A new API URL setting was delivered.
    ApiUrlUpdate { url: Option<String> },
    /// A new moderator-cooldown setting was delivered.
    ModeratorCooldownUpdate { cooldown: Option<u64> },
    /// The bad-word filter was toggled.
    BadWordsToggle { enabled: bool },
    /// URL-whitelist enforcement was toggled.
    UrlWhitelistToggle { enabled: bool },
    /// A dependency changed: leave gracefully so the session restarts.
    DependencyChange,
    /// The graceful-leave timer elapsed.
    LeaveElapsed,
    /// The outbound-send task ended unexpectedly.
    OutgoingEnded,
}

/// Why a session ended.
pub enum SessionEnd {
    /// Voluntary leave; the supervisor restarts at once.
    Graceful,
    /// No probe reply before the timeout: the connection is presumed
    /// dead.
    LivenessTimeout,
    /// The outbound stream closed under us.
    OutgoingClosed,
    /// The service refused our credentials.
    AuthFailure,
}

/// One effect the surrounding process must perform.
pub enum Action {
    /// Request a protocol capability.
    CapReq { cap: String },
    /// Address a response to a user (queued send).
    Respond { to: Option<String>, text: String },
    /// Send a line of chat (queued send).
    Privmsg { text: String },
    /// Send a line of chat immediately, outside the rate discipline.
    PrivmsgImmediate { text: String },
    /// Send a liveness probe.
    SendPing { server: String },
    /// Answer the peer's probe.
    SendPong { server: String, tail: Option<String> },
    /// Re-request the moderator list.
    RequestMods,
    /// Re-request the VIP list.
    RequestVips,
    /// Delete the message with the given id.
    DeleteMessage { id: String },
    /// Force a credential refresh.
    ForceTokenRefresh,
    /// Broadcast the liveness notification on the global bus.
    BroadcastPing,
    /// Hand the raw message to every registered message hook.
    NotifyHooks { login: Option<String>, text: String },
    /// Record the message in the chat log.
    LogObserve { login: String, text: String },
    /// Drop one message from the chat log.
    LogDeleteById { id: String },
    /// Drop one user's messages from the chat log.
    LogDeleteByUser { user: String },
    /// Drop the whole chat log.
    LogDeleteAll,
    /// Spawn the resolved handler as an independent task.
    SpawnHandler { tier: HandlerTier, name: String, rest: String, login: Option<String> },
    /// End the session.
    EndSession { end: SessionEnd },
}

/// The view of one action: the same shape over character sequences, so
/// contracts can state action lists exactly.
pub ghost enum ActView {
    CapReq(Seq<char>),
    Respond(Option<Seq<char>>, Seq<char>),
    Privmsg(Seq<char>),
    PrivmsgImmediate(Seq<char>),
    SendPing(Seq<char>),
    SendPong(Seq<char>, Option<Seq<char>>),
    RequestMods,
    RequestVips,
    DeleteMessage(Seq<char>),
    ForceTokenRefresh,
    BroadcastPing,
    NotifyHooks(Option<Seq<char>>, Seq<char>),
    LogObserve(Seq<char>, Seq<char>),
    LogDeleteById(Seq<char>),
    LogDeleteByUser(Seq<char>),
    LogDeleteAll,
    SpawnHandler(HandlerTier, Seq<char>, Seq<char>, Option<Seq<char>>),
    EndSession(SessionEnd),
}

/// The view of an optional owned string.
pub open spec fn opt_str_view(o: Option<String>) -> Option<Seq<char>> {
    match o {
        Some(s) => Some(s@),
        None => None,
    }
}

pub open spec fn action_view(a: Action) -> ActView {
    match a {
        Action::CapReq { cap } => ActView::CapReq(cap@),
        Action::Respond { to, text } => ActView::Respond(opt_str_view(to), text@),
        Action::Privmsg { text } => ActView::Privmsg(text@),
        Action::PrivmsgImmediate { text } => ActView::PrivmsgImmediate(text@),
        Action::SendPing { server } => ActView::SendPing(server@),
        Action::SendPong { server, tail } => ActView::SendPong(server@, opt_str_view(tail)),
        Action::RequestMods => ActView::RequestMods,
        Action::RequestVips => ActView::RequestVips,
        Action::DeleteMessage { id } => ActView::DeleteMessage(id@),
        Action::ForceTokenRefresh => ActView::ForceTokenRefresh,
        Action::BroadcastPing => ActView::BroadcastPing,
        Action::NotifyHooks { login, text } => ActView::NotifyHooks(opt_str_view(login), text@),
        Action::LogObserve { login, text } => ActView::LogObserve(login@, text@),
        Action::LogDeleteById { id } => ActView::LogDeleteById(id@),
        Action::LogDeleteByUser { user } => ActView::LogDeleteByUser(user@),
        Action::LogDeleteAll => ActView::LogDeleteAll,
        Action::SpawnHandler { tier, name, rest, login } => ActView::SpawnHandler(
            tier,
            name@,
            rest@,
            opt_str_view(login),
        ),
        Action::EndSession { end } => ActView::EndSession(end),
    }
}

/// The views of an action list.
pub open spec fn acts_view(s: Seq<Action>) -> Seq<ActView> {
    s.map_values(|a: Action| action_view(a))
}

pub proof fn lemma_acts_view_concat(a: Seq<Action>, b: Seq<Action>)
    ensures
        acts_view(a + b) =~= acts_view(a) + acts_view(b),
{
    assert forall|k: int| 0 <= k < (a + b).len() implies acts_view(a + b)[k] == (acts_view(a)
        + acts_view(b))[k] by {
        if k < a.len() {
            assert((a + b)[k] == a[k]);
        } else {
            assert((a + b)[k] == b[k - a.len()]);
        }
    }
}

/// Everything one live session owns: the current configuration
/// snapshots, the shared membership sets, and the liveness fuses.
#[verifier::ext_equal]
pub struct SessionState {
    /// The channel owner's login.
    pub streamer_login: String,
    /// Known moderators; written only by the event loop, on notices.
    pub moderators: MemberSet,
    /// Known VIPs; written only by the event loop, on notices.
    pub vips: MemberSet,
    /// Known subscribers, as last reported by the subscription lookup.
    pub subscribers: MemberSet,
    /// Hosts links may point at.
    pub whitelisted_hosts: MemberSet,
    /// The current command-table snapshot.
    pub commands: Option<CommandTable>,
    /// The current alias-table snapshot.
    pub aliases: Option<Aliases>,
    /// The denylist.
    pub bad_words: Vec<BadWord>,
    /// Is the bad-word filter on?
    pub bad_words_enabled: bool,
    /// Is URL-whitelist enforcement on?
    pub url_whitelist_enabled: bool,
    /// The configured API URL, if any.
    pub api_url: Option<String>,
    /// The configured moderator cooldown, in milliseconds, if any.
    pub moderator_cooldown: Option<u64>,
    /// The economy command, when a currency is enabled.
    pub currency: Option<CurrencyCommand>,
    /// Registered handlers and user scripts.
    pub registry: HandlerRegistry,
    /// The grant table.
    pub auth: Auth,
    /// Is a chat log attached?
    pub chat_log_active: bool,
    /// Greeting sent once capability negotiation completes, if set.
    pub join_message: Option<String>,
    /// Farewell sent when the session leaves gracefully.
    pub leave_message: String,
    /// Armed when a probe is sent; cleared by the reply; firing it is
    /// fatal.
    pub pong_fuse: Fuse,
    /// Armed by a dependency change; runs to completion.
    pub leave_fuse: Fuse,
    /// Set when an authentication failure forces a shutdown.
    pub shutdown: bool,
    /// How many messages from non-streamer users have been seen, for
    /// idle detection.
    pub idle_seen: u64,
}

impl SessionState {
    /// The state's tables are well-formed.
    pub open spec fn wf(self) -> bool {
        &&& self.moderators.wf()
        &&& self.vips.wf()
        &&& self.subscribers.wf()
        &&& self.whitelisted_hosts.wf()
        &&& (self.commands is Some ==> (self.commands->0).wf())
        &&& (self.aliases is Some ==> (self.aliases->0).wf())
    }
}

/// The state after a command-table update: the snapshot replaced, all
/// else untouched.
pub open spec fn apply_commands_update(s: SessionState, table: Option<CommandTable>) -> SessionState {
    SessionState { commands: table, ..s }
}

/// The state after an alias-table update.
pub open spec fn apply_aliases_update(s: SessionState, table: Option<Aliases>) -> SessionState {
    SessionState { aliases: table, ..s }
}

/// The state after the probe reply: the pong fuse is cleared.
pub open spec fn apply_pong(s: SessionState) -> SessionState {
    SessionState { pong_fuse: Fuse { deadline: None }, ..s }
}

/// The state after sending a probe at `now`: the pong fuse is armed.
pub open spec fn apply_ping_tick(s: SessionState, now: u64) -> SessionState {
    SessionState { pong_fuse: Fuse { deadline: Some((now + PONG_TIMEOUT_MS) as u64) }, ..s }
}

/// Has the pong fuse fired at `now`?
pub open spec fn liveness_fired(s: SessionState, now: u64) -> bool {
    s.pong_fuse.deadline is Some && now >= s.pong_fuse.deadline->0
}

/// Clones an optional name.
pub fn clone_opt_string(o: &Option<String>) -> (r: Option<String>)
    ensures
        r == *o,
        opt_str_view(r) == opt_str_view(*o),
{
    match o {
        Some(s) => Some(s.clone()),
        None => None,
    }
}

/// The alias entries the session resolves against: none when no table
/// snapshot is held.
pub open spec fn alias_entries(s: SessionState) -> Seq<crate::alias::Alias> {
    if s.aliases is Some {
        (s.aliases->0).entries@
    } else {
        Seq::<crate::alias::Alias>::empty()
    }
}

/// The roles of an injected principal: maximal trust, with the
/// implicit role everyone holds.
pub open spec fn injected_roles() -> Seq<Role> {
    seq![Role::Streamer, Role::Moderator, Role::Subscriber, Role::Vip, Role::Everyone]
}

/// The role set a message's sender is placed in, derived per message
/// from the session's membership sets.
pub open spec fn user_roles(s: SessionState, login: Option<Seq<char>>) -> Seq<Role> {
    match login {
        None => injected_roles(),
        Some(l) => crate::auth::roles_spec(
            l == s.streamer_login@,
            s.moderators@.contains(l),
            l == s.streamer_login@ || s.subscribers@.contains(l),
            s.vips@.contains(l),
        ),
    }
}

/// Is the sender a moderator? An injected principal counts as one.
pub open spec fn user_is_moderator(s: SessionState, login: Option<Seq<char>>) -> bool {
    match login {
        None => true,
        Some(l) => s.moderators@.contains(l),
    }
}

/// Is the sender exempt from the moderation filter? Moderators and the
/// streamer say what they want, and injected principals carry maximal
/// trust.
pub open spec fn moderation_exempt(s: SessionState, login: Option<Seq<char>>) -> bool {
    user_is_moderator(s, login) || (login is Some && login->0 == s.streamer_login@)
}

/// Does the sender hold `scope`? An injected principal bypasses
/// authorization and holds every scope.
pub open spec fn user_has_scope(s: SessionState, login: Option<Seq<char>>, scope: crate::auth::Scope) -> bool {
    match login {
        None => true,
        Some(l) => granted(s.auth.grants@, scope, user_roles(s, Some(l))),
    }
}

/// The response reporting an aborted alias expansion.
pub open spec fn cycle_text(path: Seq<Seq<char>>) -> Seq<char> {
    "Recursion found in alias expansion: "@ + crate::format::join_sep(path, " -> "@) + " :("@
}

/// The rendered response of the command table for the expanded message
/// `t`, if its leading token names a command.
pub open spec fn table_response(s: SessionState, sender: Option<Seq<char>>, t: Seq<char>) -> Option<
    Seq<char>,
> {
    match s.commands {
        None => None,
        Some(tbl) => {
            let idx = crate::commands::first_command_index(tbl.entries@, s.streamer_login@, t);
            if idx >= 0 {
                let e = tbl.entries@[idx];
                let counted = crate::template::contains_placeholder(e.template@, "count"@);
                let newcount: int = if counted && e.count < u64::MAX {
                    e.count + 1
                } else {
                    e.count as int
                };
                Some(
                    crate::template::render_spec(
                        e.template@,
                        crate::commands::command_bindings_spec(
                            sender,
                            s.streamer_login@,
                            newcount,
                            t,
                        ),
                    ),
                )
            } else {
                None
            }
        },
    }
}

/// The command table after the expanded message `t` was resolved: the
/// matched entry's counter bumped when its template tracks usage,
/// everything else untouched.
pub open spec fn commands_post_ok(pre: SessionState, post: SessionState, t: Seq<char>) -> bool {
    match pre.commands {
        None => post.commands is None,
        Some(tbl) => {
            &&& post.commands is Some
            &&& {
                let idx = crate::commands::first_command_index(
                    tbl.entries@,
                    pre.streamer_login@,
                    t,
                );
                let ptbl = post.commands->0;
                if idx >= 0 {
                    let e = tbl.entries@[idx];
                    let counted = crate::template::contains_placeholder(e.template@, "count"@);
                    &&& ptbl.entries@.len() == tbl.entries@.len()
                    &&& forall|k: int|
                        0 <= k < tbl.entries@.len() && k != idx ==> ptbl.entries@[k]
                            == tbl.entries@[k]
                    &&& ptbl.entries@[idx].count == (if counted && e.count < u64::MAX {
                        e.count + 1
                    } else {
                        e.count as int
                    })
                    &&& ptbl.entries@[idx].name@ == e.name@
                    &&& ptbl.entries@[idx].channel@ == e.channel@
                    &&& ptbl.entries@[idx].template@ == e.template@
                } else {
                    ptbl.entries@ == tbl.entries@
                }
            }
        },
    }
}

/// The actions of the explicit `!command` dispatch for the expanded
/// message `t`.
pub open spec fn dispatch_acts(
    s: SessionState,
    login: Option<Seq<char>>,
    respond_to: Option<Seq<char>>,
    t: Seq<char>,
) -> Seq<ActView> {
    let lead = crate::text::leading_word(t);
    if lead is Some && lead->0.len() >= 1 && lead->0[0] == '!' {
        let cmd = lead->0.skip(1);
        if cmd == "ping"@ {
            seq![
                ActView::Respond(respond_to, "What do you want?"@),
                ActView::BroadcastPing,
            ]
        } else {
            match crate::dispatch::resolved_handler(
                s.currency,
                s.registry.handlers@,
                s.registry.scripts@,
                cmd,
            ) {
                Some(h) => {
                    if crate::dispatch::authorized_spec(
                        h.1,
                        login is None,
                        s.auth.grants@,
                        user_roles(s, login),
                    ) {
                        seq![
                            ActView::SpawnHandler(
                                h.0,
                                cmd,
                                crate::text::after_leading_word(t),
                                login,
                            ),
                        ]
                    } else {
                        seq![
                            ActView::Respond(
                                respond_to,
                                if user_is_moderator(s, login) {
                                    "You are not allowed to run that command"@
                                } else {
                                    "Do you think this is a democracy? LUL"@
                                },
                            ),
                        ]
                    }
                },
                None => Seq::<ActView>::empty(),
            }
        }
    } else {
        Seq::<ActView>::empty()
    }
}

/// The actions of the moderation filter for the expanded message `t`.
pub open spec fn moderation_acts(
    s: SessionState,
    login: Option<Seq<char>>,
    sender: Option<Seq<char>>,
    msg_id: Option<Seq<char>>,
    t: Seq<char>,
) -> Seq<ActView> {
    let ws = crate::text::words_of(t);
    let hit = crate::moderation::first_bad_word(ws, s.bad_words@);
    let del: Seq<ActView> = if msg_id is Some {
        seq![ActView::DeleteMessage(msg_id->0)]
    } else {
        Seq::<ActView>::empty()
    };
    if moderation_exempt(s, login) {
        Seq::<ActView>::empty()
    } else if s.bad_words_enabled && hit is Some {
        (if s.bad_words@[(hit->0).1].why is Some {
            seq![
                ActView::Privmsg(
                    crate::template::render_spec(
                        (s.bad_words@[(hit->0).1].why)->0@,
                        crate::moderation::why_bindings_spec(sender, s.streamer_login@),
                    ),
                ),
            ]
        } else {
            Seq::<ActView>::empty()
        }) + del
    } else if s.url_whitelist_enabled && !user_has_scope(
        s,
        login,
        crate::auth::Scope::ChatBypassUrlWhitelist,
    ) && crate::moderation::has_bad_link_spec(ws, s.whitelisted_hosts@) {
        del
    } else {
        Seq::<ActView>::empty()
    }
}

/// After the pipeline, only the command table (a counter bump) and the
/// idle counter may differ from the pre-state.
pub open spec fn pipeline_frame(pre: SessionState, post: SessionState) -> bool {
    SessionState { commands: pre.commands, idle_seen: pre.idle_seen, ..post } == pre
}

/// What processing one message does: the hooks are notified of the raw
/// text; a real non-streamer sender bumps the idle counter; the message
/// is rewritten by alias expansion, a cycle aborting with the reported
/// path; the expanded text is resolved against the command table, then
/// dispatched as an explicit command, then moderated.
pub open spec fn message_pipeline_post(
    pre: SessionState,
    post: SessionState,
    login: Option<Seq<char>>,
    display: Option<Seq<char>>,
    msg_id: Option<Seq<char>>,
    text: Seq<char>,
    acts: Seq<ActView>,
) -> bool {
    let respond_to = if display is Some {
        display
    } else {
        login
    };
    let bumped: int = if login is Some && login->0 != pre.streamer_login@ {
        if pre.idle_seen < u64::MAX {
            pre.idle_seen + 1
        } else {
            pre.idle_seen as int
        }
    } else {
        pre.idle_seen as int
    };
    &&& post.idle_seen == bumped
    &&& exists|e: Expansion|
        {
            &&& expansion_ok(alias_entries(pre), pre.streamer_login@, text, e)
            &&& match e {
                Expansion::Cycle { path } => {
                    &&& acts =~= seq![
                        ActView::NotifyHooks(login, text),
                        ActView::Respond(respond_to, cycle_text(crate::alias::path_view(path@))),
                    ]
                    &&& match pre.commands {
                        None => post.commands is None,
                        Some(tbl) => post.commands is Some && (post.commands->0).entries@
                            == tbl.entries@,
                    }
                    &&& pipeline_frame(pre, post)
                },
                Expansion::Done { text: t, path } => {
                    &&& acts =~= seq![ActView::NotifyHooks(login, text)] + (match table_response(
                        pre,
                        respond_to,
                        t@,
                    ) {
                        Some(resp) => seq![ActView::Privmsg(resp)],
                        None => Seq::<ActView>::empty(),
                    }) + dispatch_acts(pre, login, respond_to, t@) + moderation_acts(
                        pre,
                        login,
                        respond_to,
                        msg_id,
                        t@,
                    )
                    &&& commands_post_ok(pre, post, t@)
                    &&& pipeline_frame(pre, post)
                },
            }
        }
}

impl SessionState {
    /// Derives the sender's moderator standing and role list from the
    /// session's membership sets.
    fn compute_user(&self, login: &Option<String>) -> (r: (bool, Vec<Role>))
        ensures
            r.0 == user_is_moderator(*self, opt_str_view(*login)),
            r.1@ == user_roles(*self, opt_str_view(*login)),
    {
        match login {
            Some(l) => {
                let is_streamer = crate::text::str_eq(l.as_str(), self.streamer_login.as_str());
                let m = self.moderators.contains(l.as_str());
                let is_sub = is_streamer || self.subscribers.contains(l.as_str());
                let is_vip = self.vips.contains(l.as_str());
                (m, crate::auth::compute_roles(is_streamer, m, is_sub, is_vip))
            },
            None => {
                let mut v: Vec<Role> = Vec::new();
                v.push(Role::Streamer);
                v.push(Role::Moderator);
                v.push(Role::Subscriber);
                v.push(Role::Vip);
                v.push(Role::Everyone);
                proof {
                    assert(v@ =~= injected_roles());
                }
                (true, v)
            },
        }
    }

    /// The explicit `!command` stage of the pipeline.
    fn dispatch_part(
        &self,
        login: &Option<String>,
        respond_to: &Option<String>,
        roles: &Vec<Role>,
        is_mod: bool,
        t: &str,
    ) -> (r: Vec<Action>)
        requires
            roles@ == user_roles(*self, opt_str_view(*login)),
            is_mod == user_is_moderator(*self, opt_str_view(*login)),
        ensures
            acts_view(r@) =~= dispatch_acts(
                *self,
                opt_str_view(*login),
                opt_str_view(*respond_to),
                t@,
            ),
    {
        let mut acts: Vec<Action> = Vec::new();
        let injected = login.is_none();

        let split = crate::text::split_leading_word(t);
        let (word, rest) = match split {
            Some(p) => p,
            None => {
                return acts;
            },
        };

        let wlen = word.as_str().unicode_len();
        if wlen < 1 || word.as_str().get_char(0) != '!' {
            return acts;
        }

        let cmd = word.as_str().substring_char(1, wlen);
        proof {
            assert(cmd@ =~= (crate::text::leading_word(t@)->0).skip(1));
        }

        let d = crate::dispatch::dispatch_command(
            cmd,
            &self.currency,
            &self.registry,
            injected,
            roles,
            &self.auth,
            is_mod,
        );
        match d {
            crate::dispatch::Dispatch::Ping => {
                acts.push(
                    Action::Respond {
                        to: clone_opt_string(respond_to),
                        text: String::from_str("What do you want?"),
                    },
                );
                acts.push(Action::BroadcastPing);
            },
            crate::dispatch::Dispatch::Refuse { moderator } => {
                acts.push(
                    Action::Respond {
                        to: clone_opt_string(respond_to),
                        text: crate::dispatch::refusal_text(moderator),
                    },
                );
            },
            crate::dispatch::Dispatch::Execute { tier, name } => {
                acts.push(
                    Action::SpawnHandler { tier, name, rest, login: clone_opt_string(login) },
                );
            },
            crate::dispatch::Dispatch::Unknown => {},
        }
        acts
    }

    /// The moderation stage of the pipeline.
    fn moderation_part(
        &self,
        login: &Option<String>,
        respond_to: &Option<String>,
        roles: &Vec<Role>,
        exempt: bool,
        msg_id: &Option<String>,
        t: &str,
    ) -> (r: Vec<Action>)
        requires
            roles@ == user_roles(*self, opt_str_view(*login)),
            exempt == moderation_exempt(*self, opt_str_view(*login)),
        ensures
            acts_view(r@) =~= moderation_acts(
                *self,
                opt_str_view(*login),
                opt_str_view(*respond_to),
                opt_str_view(*msg_id),
                t@,
            ),
    {
        let mut acts: Vec<Action> = Vec::new();
        let injected = login.is_none();
        let bypass = injected || self.auth.test_any(
            crate::auth::Scope::ChatBypassUrlWhitelist,
            roles,
        );

        let verdict = crate::moderation::moderate(
            t,
            exempt,
            self.bad_words_enabled,
            &self.bad_words,
            self.url_whitelist_enabled,
            bypass,
            &self.whitelisted_hosts,
            respond_to.as_ref(),
            self.streamer_login.as_str(),
        );

        match verdict {
            crate::moderation::Verdict::Keep => {},
            crate::moderation::Verdict::BadWord { why } => {
                if let Some(w) = why {
                    acts.push(Action::Privmsg { text: w });
                }
                if let Some(id) = msg_id {
                    acts.push(Action::DeleteMessage { id: id.clone() });
                }
            },
            crate::moderation::Verdict::BadLink => {
                if let Some(id) = msg_id {
                    acts.push(Action::DeleteMessage { id: id.clone() });
                }
            },
        }
        acts
    }

    /// The command-table stage of the pipeline: resolves the expanded
    /// message and bumps the matched entry's counter when it tracks
    /// usage.
    fn table_part(&mut self, sender: &Option<String>, t: &str) -> (resp: Option<String>)
        ensures
            (match resp {
                Some(s) => table_response(*old(self), opt_str_view(*sender), t@) == Some(s@),
                None => (table_response(*old(self), opt_str_view(*sender), t@) is None),
            }),
            commands_post_ok(*old(self), *final(self), t@),
            (SessionState { commands: old(self).commands, ..*final(self) }) == *old(self),
            old(self).wf() ==> final(self).wf(),
    {
        let tbl = self.commands.take();
        match tbl {
            Some(mut table) => {
                let ghost oldtable = table;
                let outcome = table.run(
                    self.streamer_login.as_str(),
                    sender.as_ref(),
                    self.streamer_login.as_str(),
                    t,
                );
                proof {
                    let idx = crate::commands::first_command_index(
                        oldtable.entries@,
                        self.streamer_login@,
                        t@,
                    );
                    assert forall|k: int| 0 <= k < table.entries@.len() implies
                        table.entries@[k].channel@ == oldtable.entries@[k].channel@
                        && table.entries@[k].name@ == oldtable.entries@[k].name@ by {
                        match outcome {
                            Some(_) => {
                                if k != idx {
                                    assert(table.entries@[k] == oldtable.entries@[k]);
                                }
                            },
                            None => {
                                assert(table.entries@[k] == oldtable.entries@[k]);
                            },
                        }
                    }
                    if oldtable.wf() {
                        assert(table.wf()) by {
                            assert forall|i: int, j: int|
                                0 <= i < j < table.entries@.len() implies !crate::commands::same_command_key(
                                table.entries@[i],
                                table.entries@[j],
                            ) by {
                                assert(!crate::commands::same_command_key(
                                    oldtable.entries@[i],
                                    oldtable.entries@[j],
                                ));
                            }
                        }
                    }
                }
                self.commands = Some(table);
                proof {
                    assert(SessionState { commands: old(self).commands, ..*self } =~= *old(self));
                }
                match outcome {
                    Some(out) => Some(out.response),
                    None => None,
                }
            },
            None => {
                proof {
                    assert(SessionState { commands: old(self).commands, ..*self } =~= *old(self));
                }
                None
            },
        }
    }

    /// Runs the message-processing pipeline on one inbound message:
    /// hook peek, idle bookkeeping, alias expansion, command-table
    /// match, explicit `!command` dispatch, moderation.
    pub fn process_message(
        &mut self,
        login: Option<String>,
        display: Option<String>,
        msg_id: Option<String>,
        text: &str,
    ) -> (r: Vec<Action>)
        requires
            old(self).wf(),
        ensures
            final(self).wf(),
            message_pipeline_post(
                *old(self),
                *final(self),
                opt_str_view(login),
                opt_str_view(display),
                opt_str_view(msg_id),
                text@,
                acts_view(r@),
            ),
    {
        let ghost pre = *self;
        let ghost glogin = opt_str_view(login);
        let ghost gdisplay = opt_str_view(display);
        let ghost gmsg_id = opt_str_view(msg_id);

        let respond_to: Option<String> = match (&display, &login) {
            (Some(d), _) => Some(d.clone()),
            (None, Some(l)) => Some(l.clone()),
            (None, None) => None,
        };
        let ghost grespond = opt_str_view(respond_to);

        let mut acts: Vec<Action> = Vec::new();
        acts.push(
            Action::NotifyHooks { login: clone_opt_string(&login), text: String::from_str(text) },
        );
        let ghost hook_view = seq![ActView::NotifyHooks(glogin, text@)];
        proof {
            assert(acts_view(acts@) =~= hook_view);
        }

        // alias expansion, against the state as delivered
        let exp: Expansion = match &self.aliases {
            Some(table) => table.expand(self.streamer_login.as_str(), text),
            None => Expansion::Done { text: String::from_str(text), path: Vec::new() },
        };
        let ghost gexp = exp;
        proof {
            if pre.aliases is None {
                assert(expansion_ok(alias_entries(pre), pre.streamer_login@, text@, gexp)) by {
                    match gexp {
                        Expansion::Done { text: t, path } => {
                            crate::alias::lemma_first_alias_index_none(
                                alias_entries(pre),
                                pre.streamer_login@,
                                t@,
                            );
                            let m = seq![text@];
                            assert({
                                &&& crate::alias::chain_ok(
                                    alias_entries(pre),
                                    pre.streamer_login@,
                                    m,
                                    crate::alias::path_view(path@),
                                )
                                &&& m[0] == text@
                                &&& m.last() == t@
                            });
                        },
                        Expansion::Cycle { .. } => {
                            assert(false);
                        },
                    }
                }
            }
            assert(expansion_ok(alias_entries(pre), pre.streamer_login@, text@, gexp));
        }

        match exp {
            Expansion::Cycle { path } => {
                // per-message recoverable: report the cycle path
                let joined = crate::format::join_with(&path, " -> ");
                let mut line = String::from_str("Recursion found in alias expansion: ");
                line.append(joined.as_str());
                line.append(" :(");
                proof {
                    assert(crate::format::lines_view(path@) =~= crate::alias::path_view(path@));
                    assert(line@ == cycle_text(crate::alias::path_view(path@)));
                }
                let bump = match &login {
                    Some(l) => !crate::text::str_eq(l.as_str(), self.streamer_login.as_str()),
                    None => false,
                };
                if bump {
                    if self.idle_seen < u64::MAX {
                        self.idle_seen = self.idle_seen + 1;
                    }
                }
                acts.push(Action::Respond { to: respond_to, text: line });
                proof {
                    assert(acts_view(acts@) =~= seq![
                        ActView::NotifyHooks(glogin, text@),
                        ActView::Respond(grespond, cycle_text(crate::alias::path_view(path@))),
                    ]);
                    assert(pipeline_frame(pre, *self)) by {
                        assert(SessionState {
                            commands: pre.commands,
                            idle_seen: pre.idle_seen,
                            ..*self
                        } =~= pre);
                    }
                }
                return acts;
            },
            Expansion::Done { text: t, path: _donepath } => {
                // derive the sender's standing while the state is as
                // delivered
                let user = self.compute_user(&login);
                let is_mod = user.0;
                let roles = user.1;

                let dacts = self.dispatch_part(&login, &respond_to, &roles, is_mod, t.as_str());
                let ghost dview = acts_view(dacts@);

                // moderators and the streamer are exempt from the filter
                let exempt = is_mod || (match &login {
                    Some(l) => crate::text::str_eq(l.as_str(), self.streamer_login.as_str()),
                    None => true,
                });
                let macts = self.moderation_part(
                    &login,
                    &respond_to,
                    &roles,
                    exempt,
                    &msg_id,
                    t.as_str(),
                );
                let ghost mview = acts_view(macts@);

                // idle bookkeeping: only a real non-streamer sender
                // counts
                let bump = match &login {
                    Some(l) => !crate::text::str_eq(l.as_str(), self.streamer_login.as_str()),
                    None => false,
                };
                if bump {
                    if self.idle_seen < u64::MAX {
                        self.idle_seen = self.idle_seen + 1;
                    }
                }

                let ghost mid = *self;
                let resp = self.table_part(&respond_to, t.as_str());
                let ghost gresp = resp;
                let ghost table_view: Seq<ActView> = match gresp {
                    Some(s) => seq![ActView::Privmsg(s@)],
                    None => Seq::<ActView>::empty(),
                };
                proof {
                    // the stages read only fields the earlier stages
                    // leave untouched
                    assert(table_response(mid, grespond, t@) == table_response(pre, grespond, t@));
                    assert(commands_post_ok(pre, *self, t@));
                }

                let mut dacts = dacts;
                let mut macts = macts;
                match resp {
                    Some(s) => {
                        acts.push(Action::Privmsg { text: s });
                    },
                    None => {},
                }
                acts.append(&mut dacts);
                acts.append(&mut macts);

                proof {
                    assert(acts_view(acts@) =~= hook_view + table_view + dview + mview);
                    assert(dview =~= dispatch_acts(pre, glogin, grespond, t@));
                    assert(mview =~= moderation_acts(pre, glogin, grespond, gmsg_id, t@));
                    assert(pipeline_frame(pre, *self)) by {
                        assert(SessionState {
                            commands: pre.commands,
                            idle_seen: pre.idle_seen,
                            ..*self
                        } =~= pre);
                    }
                }
                return acts;
            },
        }
    }
}

/// What handling one inbound line does: chat text runs the message
/// pipeline (with the chat log observing first); capability grants
/// request the member lists; probes are answered and probe replies clear
/// the fuse; service notices refresh credentials or replace the member
/// sets; deletion notices reach the chat log; anything unrecognized is
/// ignored and never errors the session.
pub open spec fn chat_post(
    pre: SessionState,
    post: SessionState,
    event: ChatEvent,
    acts: Seq<ActView>,
) -> bool {
    match event {
        ChatEvent::Privmsg { sender, text, tags } => {
            let log: Seq<ActView> = if pre.chat_log_active {
                seq![ActView::LogObserve(sender@, text@)]
            } else {
                Seq::<ActView>::empty()
            };
            &&& acts.len() >= log.len()
            &&& acts.take(log.len() as int) =~= log
            &&& message_pipeline_post(
                pre,
                post,
                Some(sender@),
                crate::tags::opt_tag_value(tags, "display-name"@),
                crate::tags::opt_tag_value(tags, "id"@),
                text@,
                acts.skip(log.len() as int),
            )
        },
        ChatEvent::CapAck { cap } => {
            &&& post == pre
            &&& acts =~= (if cap is Some && cap->0@ == "twitch.tv/commands"@ {
                seq![ActView::RequestMods, ActView::RequestVips]
            } else {
                Seq::<ActView>::empty()
            })
        },
        ChatEvent::Ping { server, tail } => {
            &&& post == pre
            &&& acts =~= seq![ActView::SendPong(server@, opt_str_view(tail))]
        },
        ChatEvent::Pong => {
            &&& post == apply_pong(pre)
            &&& acts =~= Seq::<ActView>::empty()
        },
        ChatEvent::Notice { text, tags } => {
            if text@ == "Login authentication failed"@ {
                &&& post == (SessionState { shutdown: true, ..pre })
                &&& acts =~= seq![
                    ActView::ForceTokenRefresh,
                    ActView::EndSession(SessionEnd::AuthFailure),
                ]
            } else {
                let msg_id = crate::tags::opt_tag_value(tags, "msg-id"@);
                &&& acts =~= Seq::<ActView>::empty()
                &&& if msg_id == Some("no_mods"@) {
                    &&& post.moderators@ =~= Set::<Seq<char>>::empty()
                    &&& (SessionState { moderators: pre.moderators, ..post }) == pre
                } else if msg_id == Some("room_mods"@) {
                    &&& post.moderators@ =~= room_members_spec(text@)
                    &&& (SessionState { moderators: pre.moderators, ..post }) == pre
                } else if msg_id == Some("no_vips"@) {
                    &&& post.vips@ =~= Set::<Seq<char>>::empty()
                    &&& (SessionState { vips: pre.vips, ..post }) == pre
                } else if msg_id == Some("vips_success"@) {
                    &&& post.vips@ =~= room_members_spec(text@)
                    &&& (SessionState { vips: pre.vips, ..post }) == pre
                } else {
                    post == pre
                }
            }
        },
        ChatEvent::ClearMsg { tags } => {
            let target = crate::tags::opt_tag_value(tags, "target-msg-id"@);
            &&& post == pre
            &&& acts =~= (if pre.chat_log_active && target is Some {
                seq![ActView::LogDeleteById(target->0)]
            } else {
                Seq::<ActView>::empty()
            })
        },
        ChatEvent::ClearChat { user } => {
            &&& post == pre
            &&& acts =~= (if pre.chat_log_active {
                match user {
                    Some(u) => seq![ActView::LogDeleteByUser(u@)],
                    None => seq![ActView::LogDeleteAll],
                }
            } else {
                Seq::<ActView>::empty()
            })
        },
        ChatEvent::Other => {
            &&& post == pre
            &&& acts =~= Seq::<ActView>::empty()
        },
    }
}

impl SessionState {
    /// Handles one parsed inbound line.
    pub fn handle_chat(&mut self, event: ChatEvent) -> (r: Vec<Action>)
        requires
            old(self).wf(),
        ensures
            final(self).wf(),
            chat_post(*old(self), *final(self), event, acts_view(r@)),
    {
        let ghost pre = *self;
        let ghost gevent = event;
        let mut acts: Vec<Action> = Vec::new();

        match event {
            ChatEvent::Privmsg { sender, text, tags } => {
                let ghost gtags = tags;
                if self.chat_log_active {
                    acts.push(
                        Action::LogObserve { login: sender.clone(), text: text.clone() },
                    );
                }
                let ghost log_view = acts_view(acts@);
                let parsed = Tags::from_tags(tags);
                let rest = self.process_message(
                    Some(sender),
                    parsed.display_name,
                    parsed.id,
                    text.as_str(),
                );
                let ghost rest_view = acts_view(rest@);
                let mut rest = rest;
                let ghost gacts0 = acts@;
                let ghost grest = rest@;
                acts.append(&mut rest);
                proof {
                    lemma_acts_view_concat(gacts0, grest);
                    assert(acts_view(acts@) =~= log_view + rest_view);
                    assert((log_view + rest_view).take(log_view.len() as int) =~= log_view);
                    assert((log_view + rest_view).skip(log_view.len() as int) =~= rest_view);
                    assert(acts_view(acts@).skip(log_view.len() as int) == rest_view);
                    assert(chat_post(pre, *self, gevent, acts_view(acts@)));
                }
                acts
            },
            ChatEvent::CapAck { cap } => {
                let grant = match &cap {
                    Some(c) => crate::text::str_eq(c.as_str(), "twitch.tv/commands"),
                    None => false,
                };
                proof {
                    reveal_strlit("twitch.tv/commands");
                }
                if grant {
                    acts.push(Action::RequestMods);
                    acts.push(Action::RequestVips);
                }
                proof {
                    assert(chat_post(pre, *self, gevent, acts_view(acts@)));
                }
                acts
            },
            ChatEvent::Ping { server, tail } => {
                acts.push(Action::SendPong { server, tail });
                proof {
                    assert(chat_post(pre, *self, gevent, acts_view(acts@)));
                }
                acts
            },
            ChatEvent::Pong => {
                self.pong_fuse.clear();
                proof {
                    assert(*self =~= apply_pong(pre));
                    assert(chat_post(pre, *self, gevent, acts_view(acts@)));
                }
                acts
            },
            ChatEvent::Notice { text, tags } => {
                proof {
                    reveal_strlit("Login authentication failed");
                    reveal_strlit("no_mods");
                    reveal_strlit("room_mods");
                    reveal_strlit("no_vips");
                    reveal_strlit("vips_success");
                }
                if crate::text::str_eq(text.as_str(), "Login authentication failed") {
                    self.shutdown = true;
                    acts.push(Action::ForceTokenRefresh);
                    acts.push(Action::EndSession { end: SessionEnd::AuthFailure });
                    proof {
                        assert(*self =~= (SessionState { shutdown: true, ..pre }));
                        assert(chat_post(pre, *self, gevent, acts_view(acts@)));
                    }
                    return acts;
                }
                let parsed = Tags::from_tags(tags);
                match &parsed.msg_id {
                    Some(m) => {
                        if crate::text::str_eq(m.as_str(), "no_mods") {
                            self.moderators.clear();
                            proof {
                                assert((SessionState { moderators: pre.moderators, ..*self })
                                    =~= pre);
                            }
                        } else if crate::text::str_eq(m.as_str(), "room_mods") {
                            self.moderators = crate::members::parse_room_members(text.as_str());
                            proof {
                                assert((SessionState { moderators: pre.moderators, ..*self })
                                    =~= pre);
                            }
                        } else if crate::text::str_eq(m.as_str(), "no_vips") {
                            self.vips.clear();
                            proof {
                                assert((SessionState { vips: pre.vips, ..*self }) =~= pre);
                            }
                        } else if crate::text::str_eq(m.as_str(), "vips_success") {
                            self.vips = crate::members::parse_room_members(text.as_str());
                            proof {
                                assert((SessionState { vips: pre.vips, ..*self }) =~= pre);
                            }
                        }
                    },
                    None => {},
                }
                proof {
                    assert(chat_post(pre, *self, gevent, acts_view(acts@)));
                }
                acts
            },
            ChatEvent::ClearMsg { tags } => {
                let parsed = crate::tags::ClearMsgTags::from_tags(tags);
                if self.chat_log_active {
                    match parsed {
                        Some(c) => {
                            acts.push(Action::LogDeleteById { id: c.target_msg_id });
                        },
                        None => {},
                    }
                }
                proof {
                    assert(chat_post(pre, *self, gevent, acts_view(acts@)));
                }
                acts
            },
            ChatEvent::ClearChat { user } => {
                if self.chat_log_active {
                    match user {
                        Some(u) => {
                            acts.push(Action::LogDeleteByUser { user: u });
                        },
                        None => {
                            acts.push(Action::LogDeleteAll);
                        },
                    }
                }
                proof {
                    assert(chat_post(pre, *self, gevent, acts_view(acts@)));
                }
                acts
            },
            ChatEvent::Other => {
                acts
            },
        }
    }

    /// The actions of session entry: request capabilities, then send the
    /// configured greeting.
    pub fn session_start(&self) -> (r: Vec<Action>)
        ensures
            acts_view(r@) =~= seq![
                ActView::CapReq("twitch.tv/tags"@),
                ActView::CapReq("twitch.tv/commands"@),
            ] + (match self.join_message {
                Some(m) => seq![ActView::PrivmsgImmediate(m@)],
                None => Seq::<ActView>::empty(),
            }),
    {
        let mut acts: Vec<Action> = Vec::new();
        acts.push(Action::CapReq { cap: String::from_str("twitch.tv/tags") });
        acts.push(Action::CapReq { cap: String::from_str("twitch.tv/commands") });
        match &self.join_message {
            Some(m) => {
                acts.push(Action::PrivmsgImmediate { text: m.clone() });
            },
            None => {},
        }
        acts
    }

    /// Handles one event of the session multiplexer: exactly one
    /// completed event source is serviced per iteration, against the
    /// most recently delivered configuration snapshots.
    pub fn handle_event(&mut self, event: LoopEvent, now: u64) -> (r: Vec<Action>)
        requires
            old(self).wf(),
            now + PONG_TIMEOUT_MS <= u64::MAX,
            now + LEAVE_DELAY_MS <= u64::MAX,
            (event matches LoopEvent::WhitelistUpdate { hosts } ==> hosts.wf()),
            (event matches LoopEvent::CommandsUpdate { table } ==> (table is Some ==> (
            table->0).wf())),
            (event matches LoopEvent::AliasesUpdate { table } ==> (table is Some ==> (
            table->0).wf())),
        ensures
            final(self).wf(),
            (match event {
                LoopEvent::Inbound { event: chat } => chat_post(
                    *old(self),
                    *final(self),
                    chat,
                    acts_view(r@),
                ),
                LoopEvent::PingTick => {
                    &&& *final(self) == apply_ping_tick(*old(self), now)
                    &&& acts_view(r@) =~= seq![ActView::SendPing("irc.chat.twitch.tv"@)]
                },
                LoopEvent::PongTimeout => {
                    &&& *final(self) == *old(self)
                    &&& acts_view(r@) =~= seq![
                        ActView::EndSession(SessionEnd::LivenessTimeout),
                    ]
                },
                LoopEvent::ModRefreshTick => {
                    &&& *final(self) == *old(self)
                    &&& acts_view(r@) =~= seq![ActView::RequestMods, ActView::RequestVips]
                },
                LoopEvent::BusCommand { text } => message_pipeline_post(
                    *old(self),
                    *final(self),
                    None,
                    None,
                    None,
                    text@,
                    acts_view(r@),
                ),
                LoopEvent::CommandsUpdate { table } => {
                    &&& *final(self) == apply_commands_update(*old(self), table)
                    &&& acts_view(r@) =~= Seq::<ActView>::empty()
                },
                LoopEvent::AliasesUpdate { table } => {
                    &&& *final(self) == apply_aliases_update(*old(self), table)
                    &&& acts_view(r@) =~= Seq::<ActView>::empty()
                },
                LoopEvent::WhitelistUpdate { hosts } => {
                    &&& final(self).whitelisted_hosts == hosts
                    &&& (SessionState {
                        whitelisted_hosts: old(self).whitelisted_hosts,
                        ..*final(self)
                    }) == *old(self)
                    &&& acts_view(r@) =~= Seq::<ActView>::empty()
                },
                LoopEvent::ApiUrlUpdate { url } => {
                    &&& final(self).api_url == url
                    &&& (SessionState { api_url: old(self).api_url, ..*final(self) }) == *old(
                        self,
                    )
                    &&& acts_view(r@) =~= Seq::<ActView>::empty()
                },
                LoopEvent::ModeratorCooldownUpdate { cooldown } => {
                    &&& final(self).moderator_cooldown == cooldown
                    &&& (SessionState {
                        moderator_cooldown: old(self).moderator_cooldown,
                        ..*final(self)
                    }) == *old(self)
                    &&& acts_view(r@) =~= Seq::<ActView>::empty()
                },
                LoopEvent::BadWordsToggle { enabled } => {
                    &&& final(self).bad_words_enabled == enabled
                    &&& (SessionState {
                        bad_words_enabled: old(self).bad_words_enabled,
                        ..*final(self)
                    }) == *old(self)
                    &&& acts_view(r@) =~= Seq::<ActView>::empty()
                },
                LoopEvent::UrlWhitelistToggle { enabled } => {
                    &&& final(self).url_whitelist_enabled == enabled
                    &&& (SessionState {
                        url_whitelist_enabled: old(self).url_whitelist_enabled,
                        ..*final(self)
                    }) == *old(self)
                    &&& acts_view(r@) =~= Seq::<ActView>::empty()
                },
                LoopEvent::DependencyChange => {
                    &&& final(self).leave_fuse.deadline == Some((now + LEAVE_DELAY_MS) as u64)
                    &&& (SessionState { leave_fuse: old(self).leave_fuse, ..*final(self) })
                        == *old(self)
                    &&& acts_view(r@) =~= Seq::<ActView>::empty()
                },
                LoopEvent::LeaveElapsed => {
                    &&& *final(self) == *old(self)
                    &&& acts_view(r@) =~= seq![
                        ActView::PrivmsgImmediate(old(self).leave_message@),
                        ActView::EndSession(SessionEnd::Graceful),
                    ]
                },
                LoopEvent::OutgoingEnded => {
                    &&& *final(self) == *old(self)
                    &&& acts_view(r@) =~= seq![
                        ActView::EndSession(SessionEnd::OutgoingClosed),
                    ]
                },
            }),
    {
        let ghost pre = *self;
        let mut acts: Vec<Action> = Vec::new();

        match event {
            LoopEvent::Inbound { event: chat } => {
                return self.handle_chat(chat);
            },
            LoopEvent::PingTick => {
                self.pong_fuse.arm(now + PONG_TIMEOUT_MS);
                acts.push(
                    Action::SendPing { server: String::from_str("irc.chat.twitch.tv") },
                );
                proof {
                    assert(*self =~= apply_ping_tick(pre, now));
                }
            },
            LoopEvent::PongTimeout => {
                acts.push(Action::EndSession { end: SessionEnd::LivenessTimeout });
            },
            LoopEvent::ModRefreshTick => {
                acts.push(Action::RequestMods);
                acts.push(Action::RequestVips);
            },
            LoopEvent::BusCommand { text } => {
                return self.process_message(None, None, None, text.as_str());
            },
            LoopEvent::CommandsUpdate { table } => {
                let ghost gtable = table;
                self.commands = table;
                proof {
                    assert(*self =~= apply_commands_update(pre, gtable));
                }
            },
            LoopEvent::AliasesUpdate { table } => {
                let ghost gtable = table;
                self.aliases = table;
                proof {
                    assert(*self =~= apply_aliases_update(pre, gtable));
                }
            },
            LoopEvent::WhitelistUpdate { hosts } => {
                self.whitelisted_hosts = hosts;
                proof {
                    assert((SessionState { whitelisted_hosts: pre.whitelisted_hosts, ..*self })
                        =~= pre);
                }
            },
            LoopEvent::ApiUrlUpdate { url } => {
                self.api_url = url;
                proof {
                    assert((SessionState { api_url: pre.api_url, ..*self }) =~= pre);
                }
            },
            LoopEvent::ModeratorCooldownUpdate { cooldown } => {
                self.moderator_cooldown = cooldown;
                proof {
                    assert((SessionState { moderator_cooldown: pre.moderator_cooldown, ..*self })
                        =~= pre);
                }
            },
            LoopEvent::BadWordsToggle { enabled } => {
                self.bad_words_enabled = enabled;
                proof {
                    assert((SessionState { bad_words_enabled: pre.bad_words_enabled, ..*self })
                        =~= pre);
                }
            },
            LoopEvent::UrlWhitelistToggle { enabled } => {
                self.url_whitelist_enabled = enabled;
                proof {
                    assert((SessionState {
                        url_whitelist_enabled: pre.url_whitelist_enabled,
                        ..*self
                    }) =~= pre);
                }
            },
            LoopEvent::DependencyChange => {
                self.leave_fuse.arm(now + LEAVE_DELAY_MS);
                proof {
                    assert((SessionState { leave_fuse: pre.leave_fuse, ..*self }) =~= pre);
                }
            },
            LoopEvent::LeaveElapsed => {
                acts.push(Action::PrivmsgImmediate { text: self.leave_message.clone() });
                acts.push(Action::EndSession { end: SessionEnd::Graceful });
            },
            LoopEvent::OutgoingEnded => {
                acts.push(Action::EndSession { end: SessionEnd::OutgoingClosed });
            },
        }
        acts
    }
}

/// What a spawned handler reported back when it finished. Handlers run
/// as fire-and-forget tasks; their errors never reach the event loop.
pub enum HandlerOutcome {
    /// The handler finished; nothing is sent on its behalf.
    Done,
    /// The handler failed with a user-facing message.
    UserError { message: String },
    /// The handler failed some other way.
    Failed,
}

/// The response sent on a finished handler's behalf: an error carrying
/// a user-facing message is sent verbatim; any other error becomes the
/// generic apology; success sends nothing.
pub fn handler_outcome_response(outcome: HandlerOutcome, respond_to: Option<String>) -> (r: Option<
    Action,
>)
    ensures
        (match outcome {
            HandlerOutcome::Done => r is None,
            HandlerOutcome::UserError { message } => (match r {
                Some(a) => a matches Action::Respond { to, text } && opt_str_view(to)
                    == opt_str_view(respond_to) && text@ == message@,
                None => false,
            }),
            HandlerOutcome::Failed => (match r {
                Some(a) => a matches Action::Respond { to, text } && opt_str_view(to)
                    == opt_str_view(respond_to) && text@ == "Sorry, something went wrong :("@,
                None => false,
            }),
        }),
{
    match outcome {
        HandlerOutcome::Done => None,
        HandlerOutcome::UserError { message } => Some(
            Action::Respond { to: respond_to, text: message },
        ),
        HandlerOutcome::Failed => Some(
            Action::Respond {
                to: respond_to,
                text: String::from_str("Sorry, something went wrong :("),
            },
        ),
    }
}

/// Of two command-table snapshots delivered back to back, only the
/// second remains: dispatching reads the state, and the state after both
/// updates is exactly the state after the second alone.
pub proof fn lemma_second_snapshot_wins(
    s: SessionState,
    c1: Option<CommandTable>,
    c2: Option<CommandTable>,
)
    ensures
        apply_commands_update(apply_commands_update(s, c1), c2) == apply_commands_update(s, c2),
{
    assert(apply_commands_update(apply_commands_update(s, c1), c2) =~= apply_commands_update(
        s,
        c2,
    ));
}

/// Liveness, at the level of states: while the fuse armed at `d` stays
/// uncleared, any poll at or past `d` fires it and only then; once the
/// probe reply clears it, no poll fires it.
pub proof fn lemma_liveness(s: SessionState, d: u64, now: u64)
    requires
        s.pong_fuse.deadline == Some(d),
    ensures
        liveness_fired(s, now) <==> now >= d,
        !liveness_fired(apply_pong(s), now),
{
}

/// Arming the fuse at `now` makes it fire exactly at `now + timeout` or
/// later.
pub proof fn lemma_probe_arms_fuse(s: SessionState, now: u64, later: u64)
    requires
        now + PONG_TIMEOUT_MS <= u64::MAX,
    ensures
        liveness_fired(apply_ping_tick(s, now), later) <==> later >= now + PONG_TIMEOUT_MS,
{
}

} // verus!
