//! The theme-administration command: deciding, from the caller's scope
//! and the words after `!theme`, which edit the themes store performs
//! and which response the caller gets.

use vstd::prelude::*;

verus! {

use crate::text::{leading_word, str_eq, words, words_of};

/// What the theme command decided to do.
pub enum ThemeAdminAction {
    /// Replace the theme's track: `edit <name> <track-id>`.
    Edit { name: String, track_id: String },
    /// Replace the theme's play window: `edit-duration <name> <start>
    /// [end]`.
    EditDuration { name: String, start: String, end: Option<String> },
    /// The caller lacks the required scope: refuse, do not touch the
    /// store.
    Refused,
    /// A recognized subcommand missing its arguments: report what was
    /// expected.
    MissingArgs,
    /// No recognized subcommand: report the available ones.
    Usage,
}

/// Decides the theme command. The store is touched only when the caller
/// holds the edit scope and the arguments are complete.
pub fn theme_admin_decide(args: &str, has_edit_scope: bool) -> (r: ThemeAdminAction)
    ensures
        ({
            let ws = words_of(args@);
            if ws.len() >= 1 && ws[0] == "edit"@ {
                if !has_edit_scope {
                    r is Refused
                } else if ws.len() >= 3 {
                    r matches ThemeAdminAction::Edit { name, track_id } && name@ == ws[1]
                        && track_id@ == ws[2]
                } else {
                    r is MissingArgs
                }
            } else if ws.len() >= 1 && ws[0] == "edit-duration"@ {
                if !has_edit_scope {
                    r is Refused
                } else if ws.len() >= 3 {
                    r matches ThemeAdminAction::EditDuration { name, start, end } && name@ == ws[1]
                        && start@ == ws[2] && (match end {
                        Some(e) => ws.len() >= 4 && e@ == ws[3],
                        None => ws.len() == 3,
                    })
                } else {
                    r is MissingArgs
                }
            } else {
                r is Usage
            }
        }),
{
    proof {
        reveal_strlit("edit");
        reveal_strlit("edit-duration");
    }
    let ws = words(args);
    proof {
        assert(ws@.map_values(|w: String| w@) == words_of(args@));
    }

    if ws.len() == 0 {
        return ThemeAdminAction::Usage;
    }
    proof {
        assert(ws@[0]@ == words_of(args@)[0]);
    }

    if str_eq(ws[0].as_str(), "edit") {
        if !has_edit_scope {
            return ThemeAdminAction::Refused;
        }
        if ws.len() < 3 {
            return ThemeAdminAction::MissingArgs;
        }
        proof {
            assert(ws@[1]@ == words_of(args@)[1]);
            assert(ws@[2]@ == words_of(args@)[2]);
        }
        return ThemeAdminAction::Edit { name: ws[1].clone(), track_id: ws[2].clone() };
    }

    if str_eq(ws[0].as_str(), "edit-duration") {
        if !has_edit_scope {
            return ThemeAdminAction::Refused;
        }
        if ws.len() < 3 {
            return ThemeAdminAction::MissingArgs;
        }
        let end = if ws.len() >= 4 {
            proof {
                assert(ws@[3]@ == words_of(args@)[3]);
            }
            Some(ws[3].clone())
        } else {
            None
        };
        proof {
            assert(ws@[1]@ == words_of(args@)[1]);
            assert(ws@[2]@ == words_of(args@)[2]);
        }
        return ThemeAdminAction::EditDuration { name: ws[1].clone(), start: ws[2].clone(), end };
    }

    ThemeAdminAction::Usage
}

/// The theme module: registered under the name `theme`.
pub struct Module;

impl Module {
    /// Loads the module.
    pub fn load() -> Module {
        Module
    }

    /// The name the module's handler is registered under.
    pub fn ty(&self) -> (r: &'static str)
        ensures
            r@ == "theme"@,
    {
        "theme"
    }
}

} // verus!
