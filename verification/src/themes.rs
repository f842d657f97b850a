//! The themes store: per-channel named themes, each bound to a track
//! and a play window.

use vstd::prelude::*;

verus! {

use crate::text::{eq_ignore_case, lower_seq, str_eq};

/// One theme.
pub struct Theme {
    pub channel: String,
    pub name: String,
    pub track_id: String,
    pub start_ms: u32,
    pub end_ms: Option<u32>,
    pub group: Option<String>,
    pub disabled: bool,
}

/// Two themes collide when they belong to the same channel and their
/// names agree up to case.
pub open spec fn same_theme_key(a: Theme, b: Theme) -> bool {
    a.channel@ == b.channel@ && lower_seq(a.name@) == lower_seq(b.name@)
}

/// Does the entry carry the key `(channel, name)`, names compared up to
/// case?
pub open spec fn theme_keyed(t: Theme, channel: Seq<char>, name: Seq<char>) -> bool {
    t.channel@ == channel && lower_seq(t.name@) == lower_seq(name)
}

/// Index of the entry keyed `(channel, name)`, or -1.
pub open spec fn theme_index(entries: Seq<Theme>, channel: Seq<char>, name: Seq<char>) -> int
    decreases entries.len(),
{
    if entries.len() == 0 {
        -1
    } else if theme_keyed(entries[0], channel, name) {
        0
    } else {
        let r = theme_index(entries.drop_first(), channel, name);
        if r < 0 {
            -1
        } else {
            r + 1
        }
    }
}

proof fn lemma_theme_index_at(entries: Seq<Theme>, channel: Seq<char>, name: Seq<char>, j: int)
    requires
        0 <= j < entries.len(),
        theme_keyed(entries[j], channel, name),
        forall|k: int| 0 <= k < j ==> !theme_keyed(entries[k], channel, name),
    ensures
        theme_index(entries, channel, name) == j,
    decreases entries.len(),
{
    if j > 0 {
        lemma_theme_index_at(entries.drop_first(), channel, name, j - 1);
    }
}

proof fn lemma_theme_index_none_conv(entries: Seq<Theme>, channel: Seq<char>, name: Seq<char>)
    requires
        theme_index(entries, channel, name) == -1,
    ensures
        forall|k: int| 0 <= k < entries.len() ==> !theme_keyed(#[trigger] entries[k], channel, name),
    decreases entries.len(),
{
    if entries.len() > 0 && !theme_keyed(entries[0], channel, name) {
        lemma_theme_index_none_conv(entries.drop_first(), channel, name);
        assert forall|k: int|
            0 <= k < entries.len() implies !theme_keyed(#[trigger] entries[k], channel, name) by {
            if k > 0 {
                assert(entries.drop_first()[k - 1] == entries[k]);
            }
        }
    }
}

proof fn lemma_theme_index_none(entries: Seq<Theme>, channel: Seq<char>, name: Seq<char>)
    requires
        forall|k: int| 0 <= k < entries.len() ==> !theme_keyed(entries[k], channel, name),
    ensures
        theme_index(entries, channel, name) == -1,
    decreases entries.len(),
{
    if entries.len() > 0 {
        lemma_theme_index_none(entries.drop_first(), channel, name);
    }
}

/// The in-memory themes store.
pub struct Themes {
    pub entries: Vec<Theme>,
}

impl Themes {
    /// No two entries collide.
    pub open spec fn wf(self) -> bool {
        forall|i: int, j: int|
            0 <= i < j < self.entries@.len() ==> !same_theme_key(
                self.entries@[i],
                self.entries@[j],
            )
    }

    pub fn new() -> (r: Themes)
        ensures
            r.wf(),
            r.entries@.len() == 0,
    {
        Themes { entries: Vec::new() }
    }

    fn find(&self, channel: &str, name: &str) -> (r: Option<usize>)
        ensures
            (match r {
                Some(i) => i < self.entries@.len() && theme_index(
                    self.entries@,
                    channel@,
                    name@,
                ) == i as int,
                None => theme_index(self.entries@, channel@, name@) == -1,
            }),
    {
        let mut i: usize = 0;
        while i < self.entries.len()
            invariant
                0 <= i <= self.entries@.len(),
                forall|k: int|
                    0 <= k < i ==> !theme_keyed(#[trigger] self.entries@[k], channel@, name@),
            decreases self.entries@.len() - i,
        {
            let t = &self.entries[i];
            if str_eq(t.channel.as_str(), channel) && eq_ignore_case(t.name.as_str(), name) {
                proof {
                    lemma_theme_index_at(self.entries@, channel@, name@, i as int);
                }
                return Some(i);
            }
            i = i + 1;
        }
        proof {
            lemma_theme_index_none(self.entries@, channel@, name@);
        }
        None
    }

    /// Looks a theme up by key.
    pub fn get(&self, channel: &str, name: &str) -> (r: Option<&Theme>)
        ensures
            (match r {
                Some(t) => {
                    let i = theme_index(self.entries@, channel@, name@);
                    i >= 0 && *t == self.entries@[i]
                },
                None => theme_index(self.entries@, channel@, name@) == -1,
            }),
    {
        match self.find(channel, name) {
            Some(i) => Some(&self.entries[i]),
            None => None,
        }
    }

    /// Binds a theme to a track: an enabled theme already keyed so gets
    /// the new track and keeps its window; an edit of a disabled theme
    /// withdraws it from the store; otherwise a fresh enabled entry
    /// with a zero window is added under the given names.
    pub fn edit(&mut self, channel: &str, name: &str, track_id: String)
        requires
            old(self).wf(),
        ensures
            final(self).wf(),
            ({
                let i = theme_index(old(self).entries@, channel@, name@);
                if i >= 0 && old(self).entries@[i].disabled {
                    final(self).entries@ == old(self).entries@.remove(i)
                } else if i >= 0 {
                    &&& final(self).entries@.len() == old(self).entries@.len()
                    &&& forall|k: int|
                        0 <= k < old(self).entries@.len() && k != i ==> final(self).entries@[k]
                            == old(self).entries@[k]
                    &&& final(self).entries@[i].track_id == track_id
                    &&& final(self).entries@[i].channel == old(self).entries@[i].channel
                    &&& final(self).entries@[i].name == old(self).entries@[i].name
                    &&& final(self).entries@[i].start_ms == old(self).entries@[i].start_ms
                    &&& final(self).entries@[i].end_ms == old(self).entries@[i].end_ms
                } else {
                    &&& final(self).entries@.len() == old(self).entries@.len() + 1
                    &&& forall|k: int|
                        0 <= k < old(self).entries@.len() ==> final(self).entries@[k] == old(
                            self,
                        ).entries@[k]
                    &&& final(self).entries@.last().channel@ == channel@
                    &&& final(self).entries@.last().name@ == name@
                    &&& final(self).entries@.last().track_id == track_id
                    &&& final(self).entries@.last().start_ms == 0
                    &&& final(self).entries@.last().end_ms is None
                    &&& final(self).entries@.last().disabled == false
                }
            }),
    {
        match self.find(channel, name) {
            Some(i) => {
                if self.entries[i].disabled {
                    let _ = self.entries.remove(i);
                    proof {
                        assert forall|a: int, b: int|
                            0 <= a < b < self.entries@.len() implies !same_theme_key(
                            self.entries@[a],
                            self.entries@[b],
                        ) by {
                            let a0: int = if a >= i { a + 1 } else { a };
                            let b0: int = if b >= i { b + 1 } else { b };
                            assert(self.entries@[a] == old(self).entries@[a0]);
                            assert(self.entries@[b] == old(self).entries@[b0]);
                            assert(!same_theme_key(old(self).entries@[a0], old(self).entries@[b0]));
                        }
                    }
                    return;
                }
                let prev = &self.entries[i];
                let t = Theme {
                    channel: prev.channel.clone(),
                    name: prev.name.clone(),
                    track_id,
                    start_ms: prev.start_ms,
                    end_ms: prev.end_ms,
                    group: crate::engine::clone_opt_string(&prev.group),
                    disabled: prev.disabled,
                };
                self.entries.set(i, t);
                proof {
                    assert forall|a: int, b: int|
                        0 <= a < b < self.entries@.len() implies !same_theme_key(
                        self.entries@[a],
                        self.entries@[b],
                    ) by {
                        assert(!same_theme_key(old(self).entries@[a], old(self).entries@[b]));
                        assert(self.entries@[a].channel@ == old(self).entries@[a].channel@
                            && self.entries@[a].name@ == old(self).entries@[a].name@);
                        assert(self.entries@[b].channel@ == old(self).entries@[b].channel@
                            && self.entries@[b].name@ == old(self).entries@[b].name@);
                    }
                }
            },
            None => {
                let t = Theme {
                    channel: String::from_str(channel),
                    name: String::from_str(name),
                    track_id,
                    start_ms: 0,
                    end_ms: None,
                    group: None,
                    disabled: false,
                };
                self.entries.push(t);
                proof {
                    assert forall|a: int, b: int|
                        0 <= a < b < self.entries@.len() implies !same_theme_key(
                        self.entries@[a],
                        self.entries@[b],
                    ) by {
                        if b == self.entries@.len() - 1 {
                            lemma_theme_index_none_conv(old(self).entries@, channel@, name@);
                            assert(!theme_keyed(old(self).entries@[a], channel@, name@));
                        } else {
                            assert(!same_theme_key(old(self).entries@[a], old(self).entries@[b]));
                        }
                    }
                }
            },
        }
    }

    /// Replaces the play window of a theme; a theme not present is left
    /// alone.
    pub fn edit_duration(&mut self, channel: &str, name: &str, start_ms: u32, end_ms: Option<u32>)
        requires
            old(self).wf(),
        ensures
            final(self).wf(),
            ({
                let i = theme_index(old(self).entries@, channel@, name@);
                if i >= 0 {
                    &&& final(self).entries@.len() == old(self).entries@.len()
                    &&& forall|k: int|
                        0 <= k < old(self).entries@.len() && k != i ==> final(self).entries@[k]
                            == old(self).entries@[k]
                    &&& final(self).entries@[i].start_ms == start_ms
                    &&& final(self).entries@[i].end_ms == end_ms
                    &&& final(self).entries@[i].channel == old(self).entries@[i].channel
                    &&& final(self).entries@[i].name == old(self).entries@[i].name
                    &&& final(self).entries@[i].track_id == old(self).entries@[i].track_id
                } else {
                    final(self).entries@ == old(self).entries@
                }
            }),
    {
        match self.find(channel, name) {
            Some(i) => {
                let prev = &self.entries[i];
                let t = Theme {
                    channel: prev.channel.clone(),
                    name: prev.name.clone(),
                    track_id: prev.track_id.clone(),
                    start_ms,
                    end_ms,
                    group: crate::engine::clone_opt_string(&prev.group),
                    disabled: prev.disabled,
                };
                self.entries.set(i, t);
                proof {
                    assert forall|a: int, b: int|
                        0 <= a < b < self.entries@.len() implies !same_theme_key(
                        self.entries@[a],
                        self.entries@[b],
                    ) by {
                        assert(!same_theme_key(old(self).entries@[a], old(self).entries@[b]));
                        assert(self.entries@[a].channel@ == old(self).entries@[a].channel@
                            && self.entries@[a].name@ == old(self).entries@[a].name@);
                        assert(self.entries@[b].channel@ == old(self).entries@[b].channel@
                            && self.entries@[b].name@ == old(self).entries@[b].name@);
                    }
                }
            },
            None => {},
        }
    }
}

impl Theme {
    /// A one-line description of the theme.
    pub fn describe(&self) -> String {
        let mut s = String::from_str("track_id = ");
        s.append(self.track_id.as_str());
        s.append(", start = ");
        let start = crate::text::u64_to_dec(self.start_ms as u64);
        s.append(start.as_str());
        match &self.end_ms {
            Some(e) => {
                s.append(", end = ");
                let end = crate::text::u64_to_dec(*e as u64);
                s.append(end.as_str());
            },
            None => {
                s.append(", end = *none*");
            },
        }
        match &self.group {
            Some(g) => {
                s.append(", group = ");
                s.append(g.as_str());
            },
            None => {
                s.append(", group = *none*");
            },
        }
        if self.disabled {
            s.append(", disabled = true")
        } else {
            s.append(", disabled = false")
        }
        s
    }
}

} // verus!
