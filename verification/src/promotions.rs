//! The promotions store: per-channel timed promotion messages, each
//! with a frequency and the time it last ran.

use vstd::prelude::*;

verus! {

use crate::text::{eq_ignore_case, lower_seq, str_eq};

/// Trying to bump a promotion that is not in the store.
pub enum BumpError {
    Missing,
}

/// One promotion.
pub struct Promotion {
    pub channel: String,
    pub name: String,
    pub frequency_s: u64,
    pub promoted_at_ms: Option<i64>,
    pub template: String,
    pub group: Option<String>,
    pub disabled: bool,
}

/// Two promotions collide when they belong to the same channel and
/// their names agree up to case.
pub open spec fn same_promo_key(a: Promotion, b: Promotion) -> bool {
    a.channel@ == b.channel@ && lower_seq(a.name@) == lower_seq(b.name@)
}

/// Does the entry carry the key `(channel, name)`?
pub open spec fn promo_keyed(t: Promotion, channel: Seq<char>, name: Seq<char>) -> bool {
    t.channel@ == channel && lower_seq(t.name@) == lower_seq(name)
}

/// Index of the entry keyed `(channel, name)`, or -1.
pub open spec fn promo_index(entries: Seq<Promotion>, channel: Seq<char>, name: Seq<char>) -> int
    decreases entries.len(),
{
    if entries.len() == 0 {
        -1
    } else if promo_keyed(entries[0], channel, name) {
        0
    } else {
        let r = promo_index(entries.drop_first(), channel, name);
        if r < 0 {
            -1
        } else {
            r + 1
        }
    }
}

proof fn lemma_promo_index_at(entries: Seq<Promotion>, channel: Seq<char>, name: Seq<char>, j: int)
    requires
        0 <= j < entries.len(),
        promo_keyed(entries[j], channel, name),
        forall|k: int| 0 <= k < j ==> !promo_keyed(entries[k], channel, name),
    ensures
        promo_index(entries, channel, name) == j,
    decreases entries.len(),
{
    if j > 0 {
        lemma_promo_index_at(entries.drop_first(), channel, name, j - 1);
    }
}

proof fn lemma_promo_index_none(entries: Seq<Promotion>, channel: Seq<char>, name: Seq<char>)
    requires
        forall|k: int| 0 <= k < entries.len() ==> !promo_keyed(entries[k], channel, name),
    ensures
        promo_index(entries, channel, name) == -1,
    decreases entries.len(),
{
    if entries.len() > 0 {
        lemma_promo_index_none(entries.drop_first(), channel, name);
    }
}

proof fn lemma_promo_index_none_conv(entries: Seq<Promotion>, channel: Seq<char>, name: Seq<char>)
    requires
        promo_index(entries, channel, name) == -1,
    ensures
        forall|k: int|
            0 <= k < entries.len() ==> !promo_keyed(#[trigger] entries[k], channel, name),
    decreases entries.len(),
{
    if entries.len() > 0 && !promo_keyed(entries[0], channel, name) {
        lemma_promo_index_none_conv(entries.drop_first(), channel, name);
        assert forall|k: int|
            0 <= k < entries.len() implies !promo_keyed(#[trigger] entries[k], channel, name) by {
            if k > 0 {
                assert(entries.drop_first()[k - 1] == entries[k]);
            }
        }
    }
}

/// The in-memory promotions store.
pub struct Promotions {
    pub entries: Vec<Promotion>,
}

impl Promotions {
    /// No two entries collide.
    pub open spec fn wf(self) -> bool {
        forall|i: int, j: int|
            0 <= i < j < self.entries@.len() ==> !same_promo_key(
                self.entries@[i],
                self.entries@[j],
            )
    }

    pub fn new() -> (r: Promotions)
        ensures
            r.wf(),
            r.entries@.len() == 0,
    {
        Promotions { entries: Vec::new() }
    }

    fn find(&self, channel: &str, name: &str) -> (r: Option<usize>)
        ensures
            (match r {
                Some(i) => i < self.entries@.len() && promo_index(
                    self.entries@,
                    channel@,
                    name@,
                ) == i as int,
                None => promo_index(self.entries@, channel@, name@) == -1,
            }),
    {
        let mut i: usize = 0;
        while i < self.entries.len()
            invariant
                0 <= i <= self.entries@.len(),
                forall|k: int|
                    0 <= k < i ==> !promo_keyed(#[trigger] self.entries@[k], channel@, name@),
            decreases self.entries@.len() - i,
        {
            let t = &self.entries[i];
            if str_eq(t.channel.as_str(), channel) && eq_ignore_case(t.name.as_str(), name) {
                proof {
                    lemma_promo_index_at(self.entries@, channel@, name@, i as int);
                }
                return Some(i);
            }
            i = i + 1;
        }
        proof {
            lemma_promo_index_none(self.entries@, channel@, name@);
        }
        None
    }

    /// Upserts a promotion: an existing enabled entry keeps its
    /// last-promoted time and gets the new frequency and template; an
    /// edit of a disabled entry withdraws it from the store; a fresh
    /// entry has never run.
    pub fn edit(&mut self, channel: &str, name: &str, frequency_s: u64, template: String)
        requires
            old(self).wf(),
        ensures
            final(self).wf(),
            ({
                let i = promo_index(old(self).entries@, channel@, name@);
                if i >= 0 && old(self).entries@[i].disabled {
                    final(self).entries@ == old(self).entries@.remove(i)
                } else if i >= 0 {
                    &&& final(self).entries@.len() == old(self).entries@.len()
                    &&& forall|k: int|
                        0 <= k < old(self).entries@.len() && k != i ==> final(self).entries@[k]
                            == old(self).entries@[k]
                    &&& final(self).entries@[i].frequency_s == frequency_s
                    &&& final(self).entries@[i].template == template
                    &&& final(self).entries@[i].channel == old(self).entries@[i].channel
                    &&& final(self).entries@[i].name == old(self).entries@[i].name
                    &&& final(self).entries@[i].promoted_at_ms == old(self).entries@[i].promoted_at_ms
                } else {
                    &&& final(self).entries@.len() == old(self).entries@.len() + 1
                    &&& forall|k: int|
                        0 <= k < old(self).entries@.len() ==> final(self).entries@[k] == old(self).entries@[k]
                    &&& final(self).entries@.last().channel@ == channel@
                    &&& final(self).entries@.last().name@ == name@
                    &&& final(self).entries@.last().frequency_s == frequency_s
                    &&& final(self).entries@.last().template == template
                    &&& final(self).entries@.last().promoted_at_ms is None
                }
            }),
    {
        match self.find(channel, name) {
            Some(i) => {
                if self.entries[i].disabled {
                    let _ = self.entries.remove(i);
                    proof {
                        assert forall|a: int, b: int|
                            0 <= a < b < self.entries@.len() implies !same_promo_key(
                            self.entries@[a],
                            self.entries@[b],
                        ) by {
                            let a0: int = if a >= i { a + 1 } else { a };
                            let b0: int = if b >= i { b + 1 } else { b };
                            assert(self.entries@[a] == old(self).entries@[a0]);
                            assert(self.entries@[b] == old(self).entries@[b0]);
                            assert(!same_promo_key(old(self).entries@[a0], old(self).entries@[b0]));
                        }
                    }
                    return;
                }
                let prev = &self.entries[i];
                let t = Promotion {
                    channel: prev.channel.clone(),
                    name: prev.name.clone(),
                    frequency_s,
                    promoted_at_ms: prev.promoted_at_ms,
                    template,
                    group: crate::engine::clone_opt_string(&prev.group),
                    disabled: prev.disabled,
                };
                self.entries.set(i, t);
                proof {
                    assert forall|a: int, b: int|
                        0 <= a < b < self.entries@.len() implies !same_promo_key(
                        self.entries@[a],
                        self.entries@[b],
                    ) by {
                        assert(!same_promo_key(old(self).entries@[a], old(self).entries@[b]));
                        assert(self.entries@[a].channel@ == old(self).entries@[a].channel@
                            && self.entries@[a].name@ == old(self).entries@[a].name@);
                        assert(self.entries@[b].channel@ == old(self).entries@[b].channel@
                            && self.entries@[b].name@ == old(self).entries@[b].name@);
                    }
                }
            },
            None => {
                let t = Promotion {
                    channel: String::from_str(channel),
                    name: String::from_str(name),
                    frequency_s,
                    promoted_at_ms: None,
                    template,
                    group: None,
                    disabled: false,
                };
                self.entries.push(t);
                proof {
                    assert forall|a: int, b: int|
                        0 <= a < b < self.entries@.len() implies !same_promo_key(
                        self.entries@[a],
                        self.entries@[b],
                    ) by {
                        if b == self.entries@.len() - 1 {
                            lemma_promo_index_none_conv(old(self).entries@, channel@, name@);
                            assert(!promo_keyed(old(self).entries@[a], channel@, name@));
                        } else {
                            assert(!same_promo_key(old(self).entries@[a], old(self).entries@[b]));
                        }
                    }
                }
            },
        }
    }

    /// Records that the promotion ran at `now_ms`; a promotion not in
    /// the store cannot be bumped.
    pub fn bump_promoted_at(&mut self, channel: &str, name: &str, now_ms: i64) -> (r: Result<
        (),
        BumpError,
    >)
        requires
            old(self).wf(),
        ensures
            final(self).wf(),
            ({
                let i = promo_index(old(self).entries@, channel@, name@);
                match r {
                    Ok(_) => {
                        &&& i >= 0
                        &&& final(self).entries@.len() == old(self).entries@.len()
                        &&& forall|k: int|
                            0 <= k < old(self).entries@.len() && k != i ==> final(self).entries@[k] == old(self).entries@[k]
                        &&& final(self).entries@[i].promoted_at_ms == Some(now_ms)
                        &&& final(self).entries@[i].channel == old(self).entries@[i].channel
                        &&& final(self).entries@[i].name == old(self).entries@[i].name
                        &&& final(self).entries@[i].frequency_s == old(self).entries@[i].frequency_s
                        &&& final(self).entries@[i].template == old(self).entries@[i].template
                    },
                    Err(_) => {
                        &&& i == -1
                        &&& final(self).entries@ == old(self).entries@
                    },
                }
            }),
    {
        match self.find(channel, name) {
            Some(i) => {
                let prev = &self.entries[i];
                let t = Promotion {
                    channel: prev.channel.clone(),
                    name: prev.name.clone(),
                    frequency_s: prev.frequency_s,
                    promoted_at_ms: Some(now_ms),
                    template: prev.template.clone(),
                    group: crate::engine::clone_opt_string(&prev.group),
                    disabled: prev.disabled,
                };
                self.entries.set(i, t);
                proof {
                    assert forall|a: int, b: int|
                        0 <= a < b < self.entries@.len() implies !same_promo_key(
                        self.entries@[a],
                        self.entries@[b],
                    ) by {
                        assert(!same_promo_key(old(self).entries@[a], old(self).entries@[b]));
                        assert(self.entries@[a].channel@ == old(self).entries@[a].channel@
                            && self.entries@[a].name@ == old(self).entries@[a].name@);
                        assert(self.entries@[b].channel@ == old(self).entries@[b].channel@
                            && self.entries@[b].name@ == old(self).entries@[b].name@);
                    }
                }
                Ok(())
            },
            None => Err(BumpError::Missing),
        }
    }

    /// Records that the promotion ran now, reading the clock.
    pub fn bump_promoted_at_now(&mut self, channel: &str, name: &str) -> (r: Result<(), BumpError>)
        requires
            old(self).wf(),
        ensures
            final(self).wf(),
            ({
                let i = promo_index(old(self).entries@, channel@, name@);
                match r {
                    Ok(_) => i >= 0,
                    Err(_) => i == -1 && final(self).entries@ == old(self).entries@,
                }
            }),
    {
        let now = crate::clock::now_timestamp_ms();
        self.bump_promoted_at(channel, name, now)
    }
}

impl Promotion {
    /// A one-line description of the promotion.
    pub fn describe(&self) -> String {
        let mut s = String::from_str("frequency = ");
        let f = crate::text::u64_to_dec(self.frequency_s);
        s.append(f.as_str());
        s.append(", template = \"");
        s.append(self.template.as_str());
        s.append("\"");
        match &self.group {
            Some(g) => {
                s.append(", group = ");
                s.append(g.as_str());
            },
            None => {
                s.append(", group = *none*");
            },
        }
        if self.disabled {
            s.append(", disabled = true")
        } else {
            s.append(", disabled = false")
        }
        s
    }

    /// Renders the promotion's message with the given bindings.
    pub fn render(&self, vars: &Vec<(String, String)>) -> (r: String)
        ensures
            r@ == crate::template::render_spec(
                self.template@,
                crate::template::vars_view(vars@),
            ),
    {
        crate::template::render_template(self.template.as_str(), vars)
    }
}

} // verus!
