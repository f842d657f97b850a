//! Stream currency configuration: balances, and the decision which
//! backend a configured currency runs on. Opening the actual backend
//! connection is the surrounding process's work; this module decides
//! what to open.

use vstd::prelude::*;

verus! {

/// Balance of a single user.
pub struct BalanceOf {
    pub balance: i64,
    pub watch_time: i64,
}

impl BalanceOf {
    pub fn new() -> (r: BalanceOf)
        ensures
            r.balance == 0,
            r.watch_time == 0,
    {
        BalanceOf { balance: 0, watch_time: 0 }
    }

    /// The recorded watch time as whole seconds; damaged negative
    /// records count as none.
    pub fn watch_time(&self) -> (r: u64)
        ensures
            self.watch_time < 0 ==> r == 0,
            self.watch_time >= 0 ==> r == self.watch_time,
    {
        if self.watch_time < 0 {
            0
        } else {
            self.watch_time as u64
        }
    }
}

/// Which kind of backend holds the balances.
#[derive(Clone, Copy, PartialEq, Eq, Structural)]
pub enum BackendType {
    BuiltIn,
    Mysql,
    Honkos,
}

/// The remote table layout of an external balance backend.
pub struct Schema {
    pub table: String,
    pub user_column: String,
    pub balance_column: String,
}

/// What backend to open for the configured currency.
pub enum BackendPlan {
    /// The local database.
    BuiltIn,
    /// An external MySQL database with the given layout.
    MySql { url: String, schema: Schema },
}

/// A fully decided currency.
pub struct CurrencyPlan {
    pub name: String,
    pub command_enabled: bool,
    pub backend: BackendPlan,
}

/// Collects the configuration a currency is built from.
pub struct CurrencyBuilder {
    pub ty: BackendType,
    pub enabled: bool,
    pub command_enabled: bool,
    pub name: Option<String>,
    pub has_db: bool,
    pub mysql_url: Option<String>,
    pub mysql_schema: Schema,
}

impl CurrencyBuilder {
    /// A builder with nothing configured: disabled, unnamed, on the
    /// built-in backend.
    pub fn new(mysql_schema: Schema) -> (r: CurrencyBuilder)
        ensures
            r.ty == BackendType::BuiltIn,
            !r.enabled,
            !r.command_enabled,
            r.name is None,
            !r.has_db,
            r.mysql_url is None,
            r.mysql_schema == mysql_schema,
    {
        CurrencyBuilder {
            ty: BackendType::BuiltIn,
            enabled: false,
            command_enabled: false,
            name: None,
            has_db: false,
            mysql_url: None,
            mysql_schema,
        }
    }

    /// Decides the currency: a disabled or unnamed currency is none; a
    /// built-in currency needs the local database; an external one
    /// needs a connection URL, and the honkos variant uses its fixed
    /// table layout.
    pub fn build(&self) -> (r: Option<CurrencyPlan>)
        ensures
            (match r {
                Some(plan) => {
                    &&& self.enabled
                    &&& self.name is Some
                    &&& plan.name == self.name->0
                    &&& plan.command_enabled == self.command_enabled
                    &&& (match plan.backend {
                        BackendPlan::BuiltIn => self.ty == BackendType::BuiltIn && self.has_db,
                        BackendPlan::MySql { url, schema } => {
                            &&& self.mysql_url == Some(url)
                            &&& (self.ty == BackendType::Mysql || self.ty == BackendType::Honkos)
                            &&& (self.ty == BackendType::Mysql ==> schema == self.mysql_schema)
                            &&& (self.ty == BackendType::Honkos ==> schema.table@ == "honkos"@
                                && schema.user_column@ == "username"@ && schema.balance_column@
                                == "honko_balance"@)
                        },
                    })
                },
                None => {
                    ||| !self.enabled
                    ||| self.name is None
                    ||| (self.ty == BackendType::BuiltIn && !self.has_db)
                    ||| ((self.ty == BackendType::Mysql || self.ty == BackendType::Honkos)
                        && self.mysql_url is None)
                },
            }),
    {
        if !self.enabled {
            return None;
        }

        let name = match &self.name {
            Some(n) => n.clone(),
            None => {
                return None;
            },
        };

        let backend = match self.ty {
            BackendType::BuiltIn => {
                if !self.has_db {
                    return None;
                }
                BackendPlan::BuiltIn
            },
            BackendType::Mysql => {
                let url = match &self.mysql_url {
                    Some(u) => u.clone(),
                    None => {
                        return None;
                    },
                };
                let schema = Schema {
                    table: self.mysql_schema.table.clone(),
                    user_column: self.mysql_schema.user_column.clone(),
                    balance_column: self.mysql_schema.balance_column.clone(),
                };
                proof {
                    assert(schema == self.mysql_schema);
                }
                BackendPlan::MySql { url, schema }
            },
            BackendType::Honkos => {
                let url = match &self.mysql_url {
                    Some(u) => u.clone(),
                    None => {
                        return None;
                    },
                };
                let schema = Schema {
                    table: String::from_str("honkos"),
                    user_column: String::from_str("username"),
                    balance_column: String::from_str("honko_balance"),
                };
                BackendPlan::MySql { url, schema }
            },
        };

        Some(CurrencyPlan { name, command_enabled: self.command_enabled, backend })
    }
}

/// Why a balance transfer failed.
pub enum BalanceTransferError {
    /// The giver's balance does not cover the transfer.
    NoBalance,
    /// The backend reported an error.
    Other { message: String },
}

impl BalanceTransferError {
    /// A short description of the failure.
    pub fn describe(&self) -> (r: String)
        ensures
            (match self {
                BalanceTransferError::NoBalance => r@ == "missing balance for transfer"@,
                BalanceTransferError::Other { message } => r@ == "other error: "@ + message@,
            }),
    {
        proof {
            reveal_strlit("missing balance for transfer");
            reveal_strlit("other error: ");
        }
        match self {
            BalanceTransferError::NoBalance => String::from_str("missing balance for transfer"),
            BalanceTransferError::Other { message } => {
                let mut s = String::from_str("other error: ");
                s.append(message.as_str());
                s
            },
        }
    }
}

/// The set of distinct logins among the chatters handed back by the
/// service, and so the number of users a channel-wide reward reaches.
pub fn unique_logins(chatters: Vec<String>) -> (r: crate::members::MemberSet)
    ensures
        r.wf(),
        forall|k: int| 0 <= k < chatters@.len() ==> r@.contains(#[trigger] chatters@[k]@),
        forall|x: Seq<char>|
            r@.contains(x) ==> exists|k: int| 0 <= k < chatters@.len() && chatters@[k]@ == x,
{
    let mut out = crate::members::MemberSet::new();
    let n = chatters.len();
    let mut i: usize = 0;
    while i < n
        invariant
            0 <= i <= n,
            n == chatters@.len(),
            out.wf(),
            forall|k: int| 0 <= k < i ==> out@.contains(#[trigger] chatters@[k]@),
            forall|x: Seq<char>|
                out@.contains(x) ==> exists|k: int| 0 <= k < i && chatters@[k]@ == x,
        decreases n - i,
    {
        out.insert(chatters[i].clone());
        i = i + 1;
    }
    out
}

} // verus!
