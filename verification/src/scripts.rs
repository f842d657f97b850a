//! User-script bookkeeping: which filesystem events reload a script,
//! which unload it, and the set of loaded script names.

use vstd::prelude::*;

verus! {

use crate::text::str_eq;

/// The kinds of filesystem change the watcher reports.
#[derive(Clone, Copy, PartialEq, Eq, Structural)]
pub enum FsEventKind {
    CreateFile,
    CreateAny,
    ModifyData,
    RenameFrom,
    RenameTo,
    ModifyAny,
    RemoveFile,
    RemoveAny,
    Other,
}

/// What a filesystem event does to the affected script.
#[derive(Clone, Copy, PartialEq, Eq, Structural)]
pub enum ScriptAction {
    /// Load or reload the script.
    Load,
    /// Unload the script.
    Remove,
    /// Nothing: the event does not affect script state.
    Ignore,
}

/// Maps a filesystem event to the script action it calls for: created
/// and (re)written files load, files renamed away or removed unload,
/// everything else is ignored.
pub fn script_event_action(kind: FsEventKind) -> (r: ScriptAction)
    ensures
        r == (match kind {
            FsEventKind::CreateFile => ScriptAction::Load,
            FsEventKind::CreateAny => ScriptAction::Load,
            FsEventKind::ModifyData => ScriptAction::Load,
            FsEventKind::RenameFrom => ScriptAction::Remove,
            FsEventKind::RenameTo => ScriptAction::Load,
            FsEventKind::ModifyAny => ScriptAction::Load,
            FsEventKind::RemoveFile => ScriptAction::Remove,
            FsEventKind::RemoveAny => ScriptAction::Remove,
            FsEventKind::Other => ScriptAction::Ignore,
        }),
{
    match kind {
        FsEventKind::CreateFile => ScriptAction::Load,
        FsEventKind::CreateAny => ScriptAction::Load,
        FsEventKind::ModifyData => ScriptAction::Load,
        FsEventKind::RenameFrom => ScriptAction::Remove,
        FsEventKind::RenameTo => ScriptAction::Load,
        FsEventKind::ModifyAny => ScriptAction::Load,
        FsEventKind::RemoveFile => ScriptAction::Remove,
        FsEventKind::RemoveAny => ScriptAction::Remove,
        FsEventKind::Other => ScriptAction::Ignore,
    }
}

/// Is a script of this name among those listed?
pub open spec fn script_listed(names: Seq<String>, x: Seq<char>) -> bool {
    exists|i: int| 0 <= i < names.len() && (#[trigger] names[i])@ == x
}

/// The loaded scripts, by name.
pub struct Scripts {
    pub names: Vec<String>,
}

impl Scripts {
    /// No script is loaded twice.
    pub open spec fn wf(self) -> bool {
        forall|i: int, j: int| 0 <= i < j < self.names@.len() ==> self.names@[i]@ != self.names@[j]@
    }

    pub fn new() -> (r: Scripts)
        ensures
            r.wf(),
            r.names@.len() == 0,
    {
        Scripts { names: Vec::new() }
    }

    /// Is a script of this name loaded?
    pub fn get(&self, name: &str) -> (r: bool)
        ensures
            r == script_listed(self.names@, name@),
    {
        let mut i: usize = 0;
        while i < self.names.len()
            invariant
                0 <= i <= self.names@.len(),
                forall|k: int| 0 <= k < i ==> (#[trigger] self.names@[k])@ != name@,
            decreases self.names@.len() - i,
        {
            if str_eq(self.names[i].as_str(), name) {
                return true;
            }
            i = i + 1;
        }
        false
    }

    /// Loads (or reloads) a script by name: the name is listed
    /// afterwards, every other loaded script stays, and nothing else
    /// appears.
    pub fn load(&mut self, name: String)
        requires
            old(self).wf(),
        ensures
            final(self).wf(),
            script_listed(final(self).names@, name@),
            forall|x: Seq<char>|
                script_listed(old(self).names@, x) ==> script_listed(final(self).names@, x),
            forall|x: Seq<char>|
                script_listed(final(self).names@, x) ==> x == name@ || script_listed(
                    old(self).names@,
                    x,
                ),
    {
        if !self.get(name.as_str()) {
            let ghost oldnames = self.names@;
            self.names.push(name);
            proof {
                assert(self.names@[self.names@.len() - 1]@ == name@);
                assert forall|x: Seq<char>|
                    script_listed(oldnames, x) implies script_listed(self.names@, x) by {
                    let i = choose|i: int| 0 <= i < oldnames.len() && (#[trigger] oldnames[i])@ == x;
                    assert(self.names@[i]@ == x);
                }
            }
        }
    }

    /// Unloads the script of this name, if one is loaded; every other
    /// loaded script stays, and nothing appears.
    pub fn unload(&mut self, name: &str)
        requires
            old(self).wf(),
        ensures
            final(self).wf(),
            !script_listed(final(self).names@, name@),
            forall|x: Seq<char>|
                x != name@ ==> (script_listed(old(self).names@, x) <==> script_listed(
                    final(self).names@,
                    x,
                )),
    {
        let mut i: usize = 0;
        while i < self.names.len()
            invariant
                0 <= i <= self.names@.len(),
                *self == *old(self),
                old(self).wf(),
                forall|k: int| 0 <= k < i ==> (#[trigger] self.names@[k])@ != name@,
            decreases self.names@.len() - i,
        {
            if str_eq(self.names[i].as_str(), name) {
                let _ = self.names.remove(i);
                proof {
                    assert forall|k: int|
                        0 <= k < self.names@.len() implies (#[trigger] self.names@[k])@
                        != name@ by {
                        if k >= i {
                            assert(self.names@[k] == old(self).names@[k + 1]);
                            assert(old(self).names@[i as int]@ != old(self).names@[k + 1]@);
                        }
                    }
                    assert forall|a: int, b: int|
                        0 <= a < b < self.names@.len() implies self.names@[a]@
                        != self.names@[b]@ by {
                        let a0: int = if a >= i {
                            a + 1
                        } else {
                            a
                        };
                        let b0: int = if b >= i {
                            b + 1
                        } else {
                            b
                        };
                        assert(self.names@[a] == old(self).names@[a0]);
                        assert(self.names@[b] == old(self).names@[b0]);
                    }
                    assert forall|x: Seq<char>|
                        x != name@ implies (script_listed(old(self).names@, x) <==> script_listed(
                        self.names@,
                        x,
                    )) by {
                        if script_listed(old(self).names@, x) {
                            let j = choose|j: int|
                                0 <= j < old(self).names@.len() && (#[trigger] old(
                                    self,
                                ).names@[j])@ == x;
                            let j2: int = if j > i {
                                j - 1
                            } else {
                                j
                            };
                            assert(self.names@[j2]@ == x);
                        }
                        if script_listed(self.names@, x) {
                            let j = choose|j: int|
                                0 <= j < self.names@.len() && (#[trigger] self.names@[j])@ == x;
                            let j0: int = if j >= i {
                                j + 1
                            } else {
                                j
                            };
                            assert(old(self).names@[j0]@ == x);
                        }
                    }
                }
                return;
            }
            i = i + 1;
        }
    }
}

} // verus!
