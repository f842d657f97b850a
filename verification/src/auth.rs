//! Roles, scopes and authorization: the trust categories a message's
//! sender is placed in, the named permissions a command may require, and
//! the grant table that connects them.

use vstd::prelude::*;

verus! {

/// A derived trust category, computed per message.
#[derive(Clone, Copy, PartialEq, Eq, Structural)]
pub enum Role {
    Streamer,
    Moderator,
    Subscriber,
    Vip,
    Everyone,
}

/// A named permission a command may require.
#[derive(Clone, Copy, PartialEq, Eq, Structural)]
pub enum Scope {
    /// Permission to edit themes.
    ThemeEdit,
    /// Permission to run polls.
    Poll,
    /// Permission to post links that are not whitelisted.
    ChatBypassUrlWhitelist,
}

/// The role set derived from the four membership facts; the implicit
/// "everyone" role is always present.
pub open spec fn roles_spec(
    is_streamer: bool,
    is_moderator: bool,
    is_subscriber: bool,
    is_vip: bool,
) -> Seq<Role> {
    (if is_streamer {
        seq![Role::Streamer]
    } else {
        Seq::<Role>::empty()
    }) + (if is_moderator {
        seq![Role::Moderator]
    } else {
        Seq::<Role>::empty()
    }) + (if is_subscriber {
        seq![Role::Subscriber]
    } else {
        Seq::<Role>::empty()
    }) + (if is_vip {
        seq![Role::Vip]
    } else {
        Seq::<Role>::empty()
    }) + seq![Role::Everyone]
}

/// Computes the role list of an authenticated user.
pub fn compute_roles(
    is_streamer: bool,
    is_moderator: bool,
    is_subscriber: bool,
    is_vip: bool,
) -> (r: Vec<Role>)
    ensures
        r@ == roles_spec(is_streamer, is_moderator, is_subscriber, is_vip),
{
    let mut r: Vec<Role> = Vec::new();
    if is_streamer {
        r.push(Role::Streamer);
    }
    if is_moderator {
        r.push(Role::Moderator);
    }
    if is_subscriber {
        r.push(Role::Subscriber);
    }
    if is_vip {
        r.push(Role::Vip);
    }
    r.push(Role::Everyone);
    proof {
        assert(r@ =~= roles_spec(is_streamer, is_moderator, is_subscriber, is_vip));
    }
    r
}

/// The grant table: which roles carry which scopes.
pub struct Auth {
    pub grants: Vec<(Scope, Role)>,
}

/// A scope is granted to a role set when some grant pairs it with one of
/// the roles.
pub open spec fn granted(grants: Seq<(Scope, Role)>, scope: Scope, roles: Seq<Role>) -> bool {
    exists|i: int| 0 <= i < grants.len() && grants[i].0 == scope && roles.contains(grants[i].1)
}

/// Does the role list hold `role`?
pub fn roles_contain(roles: &Vec<Role>, role: Role) -> (r: bool)
    ensures
        r == roles@.contains(role),
{
    let mut j: usize = 0;
    while j < roles.len()
        invariant
            0 <= j <= roles@.len(),
            forall|k: int| 0 <= k < j ==> roles@[k] != role,
        decreases roles@.len() - j,
    {
        if roles[j] == role {
            assert(roles@.contains(role));
            return true;
        }
        j = j + 1;
    }
    false
}

impl Auth {
    /// Does any of `roles` carry `scope`?
    pub fn test_any(&self, scope: Scope, roles: &Vec<Role>) -> (r: bool)
        ensures
            r == granted(self.grants@, scope, roles@),
    {
        let mut i: usize = 0;
        while i < self.grants.len()
            invariant
                0 <= i <= self.grants@.len(),
                forall|k: int|
                    0 <= k < i ==> !(self.grants@[k].0 == scope && roles@.contains(
                        #[trigger] self.grants@[k].1,
                    )),
            decreases self.grants@.len() - i,
        {
            let (s, role) = self.grants[i];
            if s == scope {
                if roles_contain(roles, role) {
                    assert(self.grants@[i as int].0 == scope && roles@.contains(
                        self.grants@[i as int].1,
                    ));
                    return true;
                }
            }
            i = i + 1;
        }
        false
    }
}

/// The identity a message is attributed to: an authenticated remote
/// user, or a synthetic principal injected for internally generated
/// commands and granted maximal trust.
pub enum Principal {
    User { login: String },
    Injected,
}

impl Principal {
    /// The login of an authenticated user; an injected principal has
    /// none.
    pub fn login(&self) -> (r: Option<&String>)
        ensures
            match self {
                Principal::User { login } => r == Some(login),
                Principal::Injected => r is None,
            },
    {
        match self {
            Principal::User { login } => Some(login),
            Principal::Injected => None,
        }
    }
}

} // verus!
