//! The alias table and the alias resolver: a message whose leading token
//! names an alias is rewritten by rendering the alias template against
//! the rest of the message, repeatedly, until no alias matches; a
//! repeated alias name in one expansion is a cycle and aborts it.

use vstd::prelude::*;

verus! {

use crate::template::{render_spec, render_template, vars_view};
use crate::text::{
    after_leading_word, eq_ignore_case, leading_word, lower_seq, split_leading_word, str_eq,
};

/// One registered alias.
pub struct Alias {
    /// The channel the alias belongs to.
    pub channel: String,
    /// The alias name, matched case-insensitively against a message's
    /// leading token.
    pub name: String,
    /// The template rendered against the rest of the message; `{{rest}}`
    /// stands for it.
    pub template: String,
    /// The group the alias belongs to, if any.
    pub group: Option<String>,
    /// A disabled alias stays registered but never rewrites a message,
    /// and an edit of it withdraws it from the table.
    pub disabled: bool,
}

/// Two aliases collide when they belong to the same channel and their
/// names agree up to case.
pub open spec fn same_key(a: Alias, b: Alias) -> bool {
    a.channel@ == b.channel@ && lower_seq(a.name@) == lower_seq(b.name@)
}

/// Does `a` rewrite `msg` in `channel`: the alias is enabled, of that
/// channel, and its name equals the leading token of `msg` up to case?
/// A disabled alias never rewrites anything.
pub open spec fn alias_matches(a: Alias, channel: Seq<char>, msg: Seq<char>) -> bool {
    &&& !a.disabled
    &&& a.channel@ == channel
    &&& leading_word(msg) is Some
    &&& lower_seq(leading_word(msg)->0) == lower_seq(a.name@)
}

/// Index of the first alias that rewrites `msg`, or -1.
pub open spec fn first_alias_index(entries: Seq<Alias>, channel: Seq<char>, msg: Seq<char>) -> int
    decreases entries.len(),
{
    if entries.len() == 0 {
        -1
    } else if alias_matches(entries[0], channel, msg) {
        0
    } else {
        let r = first_alias_index(entries.drop_first(), channel, msg);
        if r < 0 {
            -1
        } else {
            r + 1
        }
    }
}

pub proof fn lemma_first_alias_index_range(entries: Seq<Alias>, channel: Seq<char>, msg: Seq<char>)
    ensures
        -1 <= first_alias_index(entries, channel, msg) < entries.len(),
        first_alias_index(entries, channel, msg) >= 0 ==> alias_matches(
            entries[first_alias_index(entries, channel, msg)],
            channel,
            msg,
        ),
    decreases entries.len(),
{
    if entries.len() > 0 && !alias_matches(entries[0], channel, msg) {
        lemma_first_alias_index_range(entries.drop_first(), channel, msg);
    }
}

pub proof fn lemma_first_alias_index_at(
    entries: Seq<Alias>,
    channel: Seq<char>,
    msg: Seq<char>,
    j: int,
)
    requires
        0 <= j < entries.len(),
        alias_matches(entries[j], channel, msg),
        forall|k: int| 0 <= k < j ==> !alias_matches(entries[k], channel, msg),
    ensures
        first_alias_index(entries, channel, msg) == j,
    decreases entries.len(),
{
    if j > 0 {
        lemma_first_alias_index_at(entries.drop_first(), channel, msg, j - 1);
    }
}

pub proof fn lemma_first_alias_index_none(entries: Seq<Alias>, channel: Seq<char>, msg: Seq<char>)
    requires
        forall|k: int| 0 <= k < entries.len() ==> !alias_matches(entries[k], channel, msg),
    ensures
        first_alias_index(entries, channel, msg) == -1,
    decreases entries.len(),
{
    if entries.len() > 0 {
        lemma_first_alias_index_none(entries.drop_first(), channel, msg);
    }
}

/// The binding list an alias template is rendered against: `rest` bound
/// to what follows the matched token.
pub open spec fn rest_binding(msg: Seq<char>) -> Seq<(Seq<char>, Seq<char>)> {
    seq![("rest"@, after_leading_word(msg))]
}

/// One resolution step: the registered name of the first matching alias,
/// and the message rewritten by its template.
pub open spec fn resolve_spec(entries: Seq<Alias>, channel: Seq<char>, msg: Seq<char>) -> Option<
    (Seq<char>, Seq<char>),
> {
    let i = first_alias_index(entries, channel, msg);
    if i >= 0 {
        Some((entries[i].name@, render_spec(entries[i].template@, rest_binding(msg))))
    } else {
        None
    }
}

/// The channel's alias table.
pub struct Aliases {
    pub entries: Vec<Alias>,
}

impl Aliases {
    /// No two aliases collide.
    pub open spec fn wf(self) -> bool {
        forall|i: int, j: int|
            0 <= i < j < self.entries@.len() ==> !same_key(self.entries@[i], self.entries@[j])
    }

    pub fn new() -> (r: Aliases)
        ensures
            r.wf(),
            r.entries@.len() == 0,
    {
        Aliases { entries: Vec::new() }
    }

    /// One resolution step against this table.
    pub fn lookup(&self, channel: &str, message: &str) -> (r: Option<(String, String)>)
        ensures
            match r {
                Some(p) => resolve_spec(self.entries@, channel@, message@) == Some((p.0@, p.1@)),
                None => resolve_spec(self.entries@, channel@, message@) is None,
            },
    {
        let split = split_leading_word(message);
        let (word, rest) = match split {
            Some(p) => p,
            None => {
                proof {
                    lemma_first_alias_index_none(self.entries@, channel@, message@);
                }
                return None;
            },
        };

        let mut i: usize = 0;
        while i < self.entries.len()
            invariant
                0 <= i <= self.entries@.len(),
                leading_word(message@) == Some(word@),
                rest@ == after_leading_word(message@),
                forall|k: int|
                    0 <= k < i ==> !alias_matches(#[trigger] self.entries@[k], channel@, message@),
            decreases self.entries@.len() - i,
        {
            let a = &self.entries[i];
            if !a.disabled && str_eq(a.channel.as_str(), channel) && eq_ignore_case(
                word.as_str(),
                a.name.as_str(),
            ) {
                proof {
                    lemma_first_alias_index_at(self.entries@, channel@, message@, i as int);
                }
                let mut vars: Vec<(String, String)> = Vec::new();
                vars.push((String::from_str("rest"), rest));
                let out = render_template(a.template.as_str(), &vars);
                proof {
                    reveal_strlit("rest");
                    assert(vars_view(vars@) =~= rest_binding(message@));
                }
                return Some((a.name.clone(), out));
            }
            i = i + 1;
        }

        proof {
            lemma_first_alias_index_none(self.entries@, channel@, message@);
        }
        None
    }
}

impl Alias {
    /// Tests whether this alias rewrites the message: its name must
    /// equal the leading token up to case. On a match, the registered
    /// name and the rendered replacement come back.
    pub fn matches(&self, message: &str) -> (r: Option<(String, String)>)
        ensures
            (match r {
                Some(p) => {
                    &&& leading_word(message@) is Some
                    &&& lower_seq(leading_word(message@)->0) == lower_seq(self.name@)
                    &&& p.0@ == self.name@
                    &&& p.1@ == render_spec(self.template@, rest_binding(message@))
                },
                None => !(leading_word(message@) is Some && lower_seq(leading_word(message@)->0)
                    == lower_seq(self.name@)),
            }),
    {
        let split = split_leading_word(message);
        let (word, rest) = match split {
            Some(p) => p,
            None => {
                return None;
            },
        };
        if !eq_ignore_case(word.as_str(), self.name.as_str()) {
            return None;
        }
        let mut vars: Vec<(String, String)> = Vec::new();
        vars.push((String::from_str("rest"), rest));
        let out = render_template(self.template.as_str(), &vars);
        proof {
            reveal_strlit("rest");
            assert(vars_view(vars@) =~= rest_binding(message@));
        }
        Some((self.name.clone(), out))
    }
}

/// The key an alias is stored under: its channel and its name, the
/// name held in lower case.
pub struct Key {
    pub channel: String,
    pub name: String,
}

impl Key {
    /// Builds a key, lower-casing the name.
    pub fn new(channel: &str, name: &str) -> (r: Key)
        ensures
            r.channel@ == channel@,
            r.name@ == lower_seq(name@),
    {
        Key { channel: String::from_str(channel), name: crate::text::to_lowercase(name) }
    }
}

/// Renaming an alias onto an existing name, or from a missing one.
pub enum RenameError {
    Conflict,
    Missing,
}

/// Does the entry carry the key `(channel, name)`, names compared up to
/// case?
pub open spec fn alias_keyed(a: Alias, channel: Seq<char>, name: Seq<char>) -> bool {
    a.channel@ == channel && lower_seq(a.name@) == lower_seq(name)
}

/// Index of the entry keyed `(channel, name)`, or -1.
pub open spec fn alias_key_index(entries: Seq<Alias>, channel: Seq<char>, name: Seq<char>) -> int
    decreases entries.len(),
{
    if entries.len() == 0 {
        -1
    } else if alias_keyed(entries[0], channel, name) {
        0
    } else {
        let r = alias_key_index(entries.drop_first(), channel, name);
        if r < 0 {
            -1
        } else {
            r + 1
        }
    }
}

proof fn lemma_alias_key_index_found(entries: Seq<Alias>, channel: Seq<char>, name: Seq<char>)
    ensures
        -1 <= alias_key_index(entries, channel, name) < entries.len(),
        alias_key_index(entries, channel, name) >= 0 ==> alias_keyed(
            entries[alias_key_index(entries, channel, name)],
            channel,
            name,
        ),
    decreases entries.len(),
{
    if entries.len() > 0 && !alias_keyed(entries[0], channel, name) {
        lemma_alias_key_index_found(entries.drop_first(), channel, name);
    }
}

proof fn lemma_alias_key_index_at(entries: Seq<Alias>, channel: Seq<char>, name: Seq<char>, j: int)
    requires
        0 <= j < entries.len(),
        alias_keyed(entries[j], channel, name),
        forall|k: int| 0 <= k < j ==> !alias_keyed(entries[k], channel, name),
    ensures
        alias_key_index(entries, channel, name) == j,
    decreases entries.len(),
{
    if j > 0 {
        lemma_alias_key_index_at(entries.drop_first(), channel, name, j - 1);
    }
}

proof fn lemma_alias_key_index_none(entries: Seq<Alias>, channel: Seq<char>, name: Seq<char>)
    requires
        forall|k: int| 0 <= k < entries.len() ==> !alias_keyed(entries[k], channel, name),
    ensures
        alias_key_index(entries, channel, name) == -1,
    decreases entries.len(),
{
    if entries.len() > 0 {
        lemma_alias_key_index_none(entries.drop_first(), channel, name);
    }
}

proof fn lemma_alias_key_index_none_conv(entries: Seq<Alias>, channel: Seq<char>, name: Seq<char>)
    requires
        alias_key_index(entries, channel, name) == -1,
    ensures
        forall|k: int|
            0 <= k < entries.len() ==> !alias_keyed(#[trigger] entries[k], channel, name),
    decreases entries.len(),
{
    if entries.len() > 0 && !alias_keyed(entries[0], channel, name) {
        lemma_alias_key_index_none_conv(entries.drop_first(), channel, name);
        assert forall|k: int|
            0 <= k < entries.len() implies !alias_keyed(#[trigger] entries[k], channel, name) by {
            if k > 0 {
                assert(entries.drop_first()[k - 1] == entries[k]);
            }
        }
    }
}

impl Aliases {
    fn find_key(&self, channel: &str, name: &str) -> (r: Option<usize>)
        ensures
            (match r {
                Some(i) => i < self.entries@.len() && alias_key_index(
                    self.entries@,
                    channel@,
                    name@,
                ) == i as int,
                None => alias_key_index(self.entries@, channel@, name@) == -1,
            }),
    {
        let mut i: usize = 0;
        while i < self.entries.len()
            invariant
                0 <= i <= self.entries@.len(),
                forall|k: int|
                    0 <= k < i ==> !alias_keyed(#[trigger] self.entries@[k], channel@, name@),
            decreases self.entries@.len() - i,
        {
            let a = &self.entries[i];
            if str_eq(a.channel.as_str(), channel) && eq_ignore_case(a.name.as_str(), name) {
                proof {
                    lemma_alias_key_index_at(self.entries@, channel@, name@, i as int);
                }
                return Some(i);
            }
            i = i + 1;
        }
        proof {
            lemma_alias_key_index_none(self.entries@, channel@, name@);
        }
        None
    }

    /// Looks an alias up by key.
    pub fn get(&self, channel: &str, name: &str) -> (r: Option<&Alias>)
        ensures
            (match r {
                Some(a) => {
                    let i = alias_key_index(self.entries@, channel@, name@);
                    i >= 0 && *a == self.entries@[i]
                },
                None => alias_key_index(self.entries@, channel@, name@) == -1,
            }),
    {
        match self.find_key(channel, name) {
            Some(i) => Some(&self.entries[i]),
            None => None,
        }
    }

    /// Upserts an alias: an existing enabled entry gets the new
    /// template; an edit of a disabled entry withdraws it from the
    /// table; a fresh enabled entry is stored under the lower-cased
    /// name.
    pub fn edit(&mut self, channel: &str, name: &str, template: String)
        requires
            old(self).wf(),
        ensures
            final(self).wf(),
            ({
                let i = alias_key_index(old(self).entries@, channel@, name@);
                if i >= 0 {
                    if old(self).entries@[i].disabled {
                        final(self).entries@ == old(self).entries@.remove(i)
                    } else {
                        &&& final(self).entries@.len() == old(self).entries@.len()
                        &&& forall|k: int|
                            0 <= k < old(self).entries@.len() && k != i ==> final(self).entries@[k]
                                == old(self).entries@[k]
                        &&& final(self).entries@[i].template == template
                        &&& final(self).entries@[i].channel == old(self).entries@[i].channel
                        &&& final(self).entries@[i].name == old(self).entries@[i].name
                        &&& final(self).entries@[i].disabled == old(self).entries@[i].disabled
                    }
                } else {
                    &&& final(self).entries@.len() == old(self).entries@.len() + 1
                    &&& forall|k: int|
                        0 <= k < old(self).entries@.len() ==> final(self).entries@[k] == old(self).entries@[k]
                    &&& final(self).entries@.last().channel@ == channel@
                    &&& final(self).entries@.last().name@ == lower_seq(name@)
                    &&& final(self).entries@.last().template == template
                    &&& final(self).entries@.last().disabled == false
                }
            }),
    {
        match self.find_key(channel, name) {
            Some(i) => {
                if self.entries[i].disabled {
                    let _ = self.entries.remove(i);
                    proof {
                        assert forall|x: int, y: int|
                            0 <= x < y < self.entries@.len() implies !same_key(
                            self.entries@[x],
                            self.entries@[y],
                        ) by {
                            let x0: int = if x >= i { x + 1 } else { x };
                            let y0: int = if y >= i { y + 1 } else { y };
                            assert(self.entries@[x] == old(self).entries@[x0]);
                            assert(self.entries@[y] == old(self).entries@[y0]);
                            assert(!same_key(old(self).entries@[x0], old(self).entries@[y0]));
                        }
                    }
                    return;
                }
                let prev = &self.entries[i];
                let a = Alias {
                    channel: prev.channel.clone(),
                    name: prev.name.clone(),
                    template,
                    group: crate::engine::clone_opt_string(&prev.group),
                    disabled: prev.disabled,
                };
                self.entries.set(i, a);
                proof {
                    assert forall|x: int, y: int|
                        0 <= x < y < self.entries@.len() implies !same_key(
                        self.entries@[x],
                        self.entries@[y],
                    ) by {
                        assert(!same_key(old(self).entries@[x], old(self).entries@[y]));
                        assert(self.entries@[x].channel@ == old(self).entries@[x].channel@
                            && self.entries@[x].name@ == old(self).entries@[x].name@);
                        assert(self.entries@[y].channel@ == old(self).entries@[y].channel@
                            && self.entries@[y].name@ == old(self).entries@[y].name@);
                    }
                }
            },
            None => {
                let key = Key::new(channel, name);
                let a = Alias {
                    channel: key.channel,
                    name: key.name,
                    template,
                    group: None,
                    disabled: false,
                };
                self.entries.push(a);
                proof {
                    assert(lower_seq(lower_seq(name@)) =~= lower_seq(name@));
                    assert forall|x: int, y: int|
                        0 <= x < y < self.entries@.len() implies !same_key(
                        self.entries@[x],
                        self.entries@[y],
                    ) by {
                        if y == self.entries@.len() - 1 {
                            lemma_alias_key_index_none_conv(old(self).entries@, channel@, name@);
                            assert(!alias_keyed(old(self).entries@[x], channel@, name@));
                        } else {
                            assert(!same_key(old(self).entries@[x], old(self).entries@[y]));
                        }
                    }
                }
            },
        }
    }

    /// Removes an alias; says whether one was there.
    pub fn delete(&mut self, channel: &str, name: &str) -> (r: bool)
        requires
            old(self).wf(),
        ensures
            final(self).wf(),
            r == (alias_key_index(old(self).entries@, channel@, name@) >= 0),
            !r ==> final(self).entries@ == old(self).entries@,
            r ==> final(self).entries@.len() == old(self).entries@.len() - 1,
            alias_key_index(final(self).entries@, channel@, name@) == -1,
    {
        match self.find_key(channel, name) {
            Some(i) => {
                let _ = self.entries.remove(i);
                proof {
                    assert forall|x: int, y: int|
                        0 <= x < y < self.entries@.len() implies !same_key(
                        self.entries@[x],
                        self.entries@[y],
                    ) by {
                        let x0: int = if x >= i { x + 1 } else { x };
                        let y0: int = if y >= i { y + 1 } else { y };
                        assert(self.entries@[x] == old(self).entries@[x0]);
                        assert(self.entries@[y] == old(self).entries@[y0]);
                        assert(!same_key(old(self).entries@[x0], old(self).entries@[y0]));
                    }
                    assert forall|k: int|
                        0 <= k < self.entries@.len() implies !alias_keyed(
                        #[trigger] self.entries@[k],
                        channel@,
                        name@,
                    ) by {
                        let k0: int = if k >= i { k + 1 } else { k };
                        assert(self.entries@[k] == old(self).entries@[k0]);
                        if k0 != i {
                            lemma_alias_key_index_found(old(self).entries@, channel@, name@);
                            assert(alias_keyed(old(self).entries@[i as int], channel@, name@));
                            assert(!same_key(
                                old(self).entries@[if (i as int) < k0 { i as int } else { k0 }],
                                old(self).entries@[if (i as int) < k0 { k0 } else { i as int }],
                            ));
                            assert(alias_keyed(old(self).entries@[i as int], channel@, name@));
                        }
                    }
                    lemma_alias_key_index_none(self.entries@, channel@, name@);
                }
                true
            },
            None => false,
        }
    }

    /// All aliases of one channel, each exactly once.
    pub fn list(&self, channel: &str) -> (r: Vec<Alias>)
        requires
            self.wf(),
        ensures
            forall|k: int|
                0 <= k < r@.len() ==> (#[trigger] r@[k]).channel@ == channel@ && exists|j: int|
                    0 <= j < self.entries@.len() && self.entries@[j] == r@[k],
            forall|j: int|
                0 <= j < self.entries@.len() && (#[trigger] self.entries@[j]).channel@ == channel@
                    ==> exists|k: int| 0 <= k < r@.len() && r@[k] == self.entries@[j],
            forall|k1: int, k2: int| 0 <= k1 < k2 < r@.len() ==> !same_key(r@[k1], r@[k2]),
    {
        let mut r: Vec<Alias> = Vec::new();
        let n = self.entries.len();
        let mut i: usize = 0;
        let ghost mut src: Seq<int> = Seq::<int>::empty();
        while i < n
            invariant
                0 <= i <= n,
                n == self.entries@.len(),
                self.wf(),
                src.len() == r@.len(),
                forall|k: int| 0 <= k < src.len() ==> 0 <= #[trigger] src[k] < i,
                forall|k1: int, k2: int| 0 <= k1 < k2 < src.len() ==> src[k1] < src[k2],
                forall|k: int|
                    0 <= k < r@.len() ==> #[trigger] r@[k] == self.entries@[src[k]],
                forall|k: int|
                    0 <= k < r@.len() ==> (#[trigger] r@[k]).channel@ == channel@ && exists|j: int|
                        0 <= j < self.entries@.len() && self.entries@[j] == r@[k],
                forall|j: int|
                    0 <= j < i && (#[trigger] self.entries@[j]).channel@ == channel@ ==> exists|
                        k: int,
                    | 0 <= k < r@.len() && r@[k] == self.entries@[j],
            decreases n - i,
        {
            let a = &self.entries[i];
            if str_eq(a.channel.as_str(), channel) {
                let copy = Alias {
                    channel: a.channel.clone(),
                    name: a.name.clone(),
                    template: a.template.clone(),
                    group: crate::engine::clone_opt_string(&a.group),
                    disabled: a.disabled,
                };
                let ghost before = r@;
                r.push(copy);
                proof {
                    src = src.push(i as int);
                    assert(r@.last() == self.entries@[i as int]);
                    assert forall|j: int|
                        0 <= j < i + 1 && (#[trigger] self.entries@[j]).channel@
                            == channel@ implies exists|k: int|
                        0 <= k < r@.len() && r@[k] == self.entries@[j] by {
                        if j < i {
                            let k = choose|k: int|
                                0 <= k < before.len() && before[k] == self.entries@[j];
                            assert(r@[k] == self.entries@[j]);
                        } else {
                            assert(r@[r@.len() - 1] == self.entries@[j]);
                        }
                    }
                }
            }
            i = i + 1;
        }
        proof {
            assert forall|k1: int, k2: int|
                0 <= k1 < k2 < r@.len() implies !same_key(r@[k1], r@[k2]) by {
                assert(r@[k1] == self.entries@[src[k1]]);
                assert(r@[k2] == self.entries@[src[k2]]);
                assert(!same_key(self.entries@[src[k1]], self.entries@[src[k2]]));
            }
        }
        r
    }

    /// Renames an alias: the target name must be free and the source
    /// present; the entry keeps its template under the new (lower-
    /// cased) name.
    pub fn rename(&mut self, channel: &str, from: &str, to: &str) -> (r: Result<(), RenameError>)
        requires
            old(self).wf(),
        ensures
            final(self).wf(),
            (match r {
                Ok(_) => {
                    let i = alias_key_index(old(self).entries@, channel@, from@);
                    &&& alias_key_index(old(self).entries@, channel@, to@) == -1
                    &&& i >= 0
                    &&& final(self).entries@.len() == old(self).entries@.len()
                    &&& forall|k: int|
                        0 <= k < old(self).entries@.len() && k != i ==> final(self).entries@[k]
                            == old(self).entries@[k]
                    &&& final(self).entries@[i].channel@ == channel@
                    &&& final(self).entries@[i].name@ == lower_seq(to@)
                    &&& final(self).entries@[i].template == old(self).entries@[i].template
                    &&& final(self).entries@[i].group == old(self).entries@[i].group
                    &&& final(self).entries@[i].disabled == old(self).entries@[i].disabled
                    &&& alias_key_index(final(self).entries@, channel@, to@) == i
                    &&& alias_key_index(final(self).entries@, channel@, from@) == -1
                },
                Err(e) => {
                    &&& final(self).entries@ == old(self).entries@
                    &&& (match e {
                        RenameError::Conflict => alias_key_index(
                            old(self).entries@,
                            channel@,
                            to@,
                        ) >= 0,
                        RenameError::Missing => {
                            &&& alias_key_index(old(self).entries@, channel@, to@) == -1
                            &&& alias_key_index(old(self).entries@, channel@, from@) == -1
                        },
                    })
                },
            }),
    {
        if self.find_key(channel, to).is_some() {
            return Err(RenameError::Conflict);
        }
        let i = match self.find_key(channel, from) {
            Some(i) => i,
            None => {
                return Err(RenameError::Missing);
            },
        };

        let prev = &self.entries[i];
        let key = Key::new(channel, to);
        let a = Alias {
            channel: key.channel,
            name: key.name,
            template: prev.template.clone(),
            group: crate::engine::clone_opt_string(&prev.group),
            disabled: prev.disabled,
        };
        self.entries.set(i, a);
        proof {
            assert(lower_seq(lower_seq(to@)) =~= lower_seq(to@));
            assert(alias_keyed(self.entries@[i as int], channel@, to@));
            lemma_alias_key_index_none_conv(old(self).entries@, channel@, to@);
            lemma_alias_key_index_found(old(self).entries@, channel@, from@);
            assert(alias_keyed(old(self).entries@[i as int], channel@, from@));
            assert forall|x: int, y: int|
                0 <= x < y < self.entries@.len() implies !same_key(
                self.entries@[x],
                self.entries@[y],
            ) by {
                assert(!same_key(old(self).entries@[x], old(self).entries@[y]));
                if x != i && y != i {
                    assert(self.entries@[x] == old(self).entries@[x]);
                    assert(self.entries@[y] == old(self).entries@[y]);
                } else if x == i {
                    assert(!alias_keyed(old(self).entries@[y], channel@, to@));
                    assert(self.entries@[y] == old(self).entries@[y]);
                } else {
                    assert(!alias_keyed(old(self).entries@[x], channel@, to@));
                    assert(self.entries@[x] == old(self).entries@[x]);
                }
            }
            assert(i < self.entries@.len());
            // the to-key was free, so the renamed entry is the first (and
            // only) one keyed by it; the from-key no longer keys anything
            assert forall|k: int| 0 <= k < i implies !alias_keyed(
                #[trigger] self.entries@[k],
                channel@,
                to@,
            ) by {
                assert(self.entries@[k] == old(self).entries@[k]);
            }
            lemma_alias_key_index_at(self.entries@, channel@, to@, i as int);
            assert(lower_seq(to@) != lower_seq(from@)) by {
                if lower_seq(to@) == lower_seq(from@) {
                    assert(alias_keyed(old(self).entries@[i as int], channel@, to@));
                }
            }
            assert forall|k: int|
                0 <= k < self.entries@.len() implies !alias_keyed(
                #[trigger] self.entries@[k],
                channel@,
                from@,
            ) by {
                if k != i {
                    assert(self.entries@[k] == old(self).entries@[k]);
                    if alias_keyed(old(self).entries@[k], channel@, from@) {
                        assert(alias_keyed(old(self).entries@[i as int], channel@, from@));
                        assert(same_key(
                            old(self).entries@[if (i as int) < k { i as int } else { k }],
                            old(self).entries@[if (i as int) < k { k } else { i as int }],
                        ));
                    }
                }
            }
            lemma_alias_key_index_none(self.entries@, channel@, from@);
        }
        Ok(())
    }
}

/// A keyed entry somewhere in the table gives a non-negative index.
proof fn lemma_alias_key_index_range_pos(
    entries: Seq<Alias>,
    channel: Seq<char>,
    name: Seq<char>,
    j: int,
)
    requires
        0 <= j < entries.len(),
        alias_keyed(entries[j], channel, name),
    ensures
        alias_key_index(entries, channel, name) >= 0,
    decreases entries.len(),
{
    if !alias_keyed(entries[0], channel, name) {
        lemma_alias_key_index_range_pos(entries.drop_first(), channel, name, j - 1);
    }
}

/// The outcome of alias expansion: either the fully rewritten text with
/// the path of alias names applied, or the path ending in the repeated
/// name that made a cycle.
pub enum Expansion {
    Done { text: String, path: Vec<String> },
    Cycle { path: Vec<String> },
}

/// The views of a path of alias names.
pub open spec fn path_view(path: Seq<String>) -> Seq<Seq<char>> {
    path.map_values(|s: String| s@)
}

/// `msgs` is the chain of rewrites that applies the aliases `names` in
/// order, starting from `msgs[0]`.
pub open spec fn chain_ok(
    entries: Seq<Alias>,
    channel: Seq<char>,
    msgs: Seq<Seq<char>>,
    names: Seq<Seq<char>>,
) -> bool {
    &&& msgs.len() == names.len() + 1
    &&& forall|i: int|
        0 <= i < names.len() ==> resolve_spec(entries, channel, msgs[i]) == Some(
            (names[i], msgs[i + 1]),
        )
}

/// No two names agree up to case.
pub open spec fn lower_distinct(names: Seq<Seq<char>>) -> bool {
    forall|i: int, j: int|
        0 <= i < j < names.len() ==> lower_seq(names[i]) != lower_seq(names[j])
}

/// A sequence of distinct integers drawn from `[0, n)` has at most `n`
/// elements.
proof fn lemma_distinct_indices_bound(idxs: Seq<int>, n: int)
    requires
        idxs.no_duplicates(),
        forall|k: int| 0 <= k < idxs.len() ==> 0 <= #[trigger] idxs[k] < n,
        n >= 0,
    ensures
        idxs.len() <= n,
{
    idxs.unique_seq_to_set();
    assert(idxs.to_set().subset_of(vstd::set_lib::set_int_range(0, n))) by {
        assert forall|x: int| idxs.to_set().contains(x) implies vstd::set_lib::set_int_range(
            0,
            n,
        ).contains(x) by {
            let k = choose|k: int| 0 <= k < idxs.len() && idxs[k] == x;
        }
    }
    vstd::set_lib::lemma_int_range(0, n);
    vstd::set_lib::lemma_len_subset(idxs.to_set(), vstd::set_lib::set_int_range(0, n));
}

/// What a finished expansion of `input` looks like. A completed
/// expansion carries a witness chain of rewrites applying the reported
/// path in order, ends in text that no alias rewrites, and repeats no
/// name; an aborted one repeats its last name earlier in the path, which
/// is otherwise free of repetition.
pub open spec fn expansion_ok(
    entries: Seq<Alias>,
    channel: Seq<char>,
    input: Seq<char>,
    r: Expansion,
) -> bool {
    match r {
        Expansion::Done { text, path } => {
            &&& exists|msgs: Seq<Seq<char>>|
                {
                    &&& chain_ok(entries, channel, msgs, path_view(path@))
                    &&& msgs[0] == input
                    &&& msgs.last() == text@
                }
            &&& resolve_spec(entries, channel, text@) is None
            &&& lower_distinct(path_view(path@))
        },
        Expansion::Cycle { path } => {
            &&& path@.len() >= 2
            &&& lower_distinct(path_view(path@).drop_last())
            &&& exists|i: int|
                0 <= i < path@.len() - 1 && lower_seq(path_view(path@)[i]) == lower_seq(
                    path_view(path@).last(),
                )
            &&& exists|msgs: Seq<Seq<char>>|
                {
                    &&& msgs.len() == path@.len()
                    &&& msgs[0] == input
                    &&& forall|i: int|
                        0 <= i < path@.len() - 1 ==> resolve_spec(entries, channel, msgs[i])
                            == Some((path_view(path@)[i], msgs[i + 1]))
                    &&& resolve_spec(entries, channel, msgs.last()) is Some
                    &&& (resolve_spec(entries, channel, msgs.last())->0).0 == path_view(
                        path@,
                    ).last()
                }
        },
    }
}

/// Two chains of rewrites from the same start agree step for step, as
/// far as both run: each step is the one resolution the table gives.
proof fn lemma_chain_agree(
    entries: Seq<Alias>,
    channel: Seq<char>,
    msgs1: Seq<Seq<char>>,
    names1: Seq<Seq<char>>,
    msgs2: Seq<Seq<char>>,
    names2: Seq<Seq<char>>,
    i: int,
)
    requires
        chain_ok(entries, channel, msgs1, names1),
        chain_ok(entries, channel, msgs2, names2),
        msgs1[0] == msgs2[0],
        0 <= i <= names1.len(),
        i <= names2.len(),
    ensures
        msgs1[i] == msgs2[i],
        forall|j: int| 0 <= j < i ==> names1[j] == names2[j],
    decreases i,
{
    if i > 0 {
        lemma_chain_agree(entries, channel, msgs1, names1, msgs2, names2, i - 1);
        assert(resolve_spec(entries, channel, msgs1[i - 1]) == Some((names1[i - 1], msgs1[i])));
        assert(resolve_spec(entries, channel, msgs2[i - 1]) == Some((names2[i - 1], msgs2[i])));
    }
}

/// The table and the input force the outcome of expansion: any two
/// results both describing an expansion of the same input either both
/// complete with the same text and the same path, or both abort with
/// the same path. A non-repeating chain thus compels completion, and a
/// repeating one compels the abort, exactly as reported.
pub proof fn lemma_expansion_deterministic(
    entries: Seq<Alias>,
    channel: Seq<char>,
    input: Seq<char>,
    r1: Expansion,
    r2: Expansion,
)
    requires
        expansion_ok(entries, channel, input, r1),
        expansion_ok(entries, channel, input, r2),
    ensures
        (match (r1, r2) {
            (Expansion::Done { text: t1, path: p1 }, Expansion::Done { text: t2, path: p2 }) => {
                &&& t1@ == t2@
                &&& path_view(p1@) == path_view(p2@)
            },
            (Expansion::Cycle { path: p1 }, Expansion::Cycle { path: p2 }) => path_view(p1@)
                == path_view(p2@),
            _ => false,
        }),
{
    match (r1, r2) {
        (Expansion::Done { text: t1, path: p1 }, Expansion::Done { text: t2, path: p2 }) => {
            let dm1 = choose|msgs: Seq<Seq<char>>|
                {
                    &&& chain_ok(entries, channel, msgs, path_view(p1@))
                    &&& msgs[0] == input
                    &&& msgs.last() == t1@
                };
            let dm2 = choose|msgs: Seq<Seq<char>>|
                {
                    &&& chain_ok(entries, channel, msgs, path_view(p2@))
                    &&& msgs[0] == input
                    &&& msgs.last() == t2@
                };
            let k1 = path_view(p1@).len() as int;
            let k2 = path_view(p2@).len() as int;
            if k1 <= k2 {
                lemma_chain_agree(entries, channel, dm1, path_view(p1@), dm2, path_view(p2@), k1);
                assert(dm1[k1] == dm1.last());
                if k1 < k2 {
                    assert(resolve_spec(entries, channel, dm2[k1]) == Some(
                        (path_view(p2@)[k1], dm2[k1 + 1]),
                    ));
                    assert(false);
                }
                assert(dm2[k2] == dm2.last());
                assert(path_view(p1@) =~= path_view(p2@));
            } else {
                lemma_chain_agree(entries, channel, dm2, path_view(p2@), dm1, path_view(p1@), k2);
                assert(dm2[k2] == dm2.last());
                assert(resolve_spec(entries, channel, dm1[k2]) == Some(
                    (path_view(p1@)[k2], dm1[k2 + 1]),
                ));
                assert(false);
            }
        },
        (Expansion::Cycle { path: p1 }, Expansion::Cycle { path: p2 }) => {
            let q1 = path_view(p1@);
            let q2 = path_view(p2@);
            let m1 = q1.len() as int;
            let m2 = q2.len() as int;
            let cm1 = choose|msgs: Seq<Seq<char>>|
                {
                    &&& msgs.len() == p1@.len()
                    &&& msgs[0] == input
                    &&& forall|i: int|
                        0 <= i < p1@.len() - 1 ==> resolve_spec(entries, channel, msgs[i]) == Some(
                            (path_view(p1@)[i], msgs[i + 1]),
                        )
                    &&& resolve_spec(entries, channel, msgs.last()) is Some
                    &&& (resolve_spec(entries, channel, msgs.last())->0).0 == path_view(p1@).last()
                };
            let cm2 = choose|msgs: Seq<Seq<char>>|
                {
                    &&& msgs.len() == p2@.len()
                    &&& msgs[0] == input
                    &&& forall|i: int|
                        0 <= i < p2@.len() - 1 ==> resolve_spec(entries, channel, msgs[i]) == Some(
                            (path_view(p2@)[i], msgs[i + 1]),
                        )
                    &&& resolve_spec(entries, channel, msgs.last()) is Some
                    &&& (resolve_spec(entries, channel, msgs.last())->0).0 == path_view(p2@).last()
                };
            assert(chain_ok(entries, channel, cm1, q1.take(m1 - 1))) by {
                assert forall|i: int|
                    0 <= i < q1.take(m1 - 1).len() implies resolve_spec(entries, channel, cm1[i])
                    == Some((q1.take(m1 - 1)[i], cm1[i + 1])) by {
                    assert(q1.take(m1 - 1)[i] == q1[i]);
                }
            }
            assert(chain_ok(entries, channel, cm2, q2.take(m2 - 1))) by {
                assert forall|i: int|
                    0 <= i < q2.take(m2 - 1).len() implies resolve_spec(entries, channel, cm2[i])
                    == Some((q2.take(m2 - 1)[i], cm2[i + 1])) by {
                    assert(q2.take(m2 - 1)[i] == q2[i]);
                }
            }
            if m1 <= m2 {
                lemma_chain_agree(
                    entries,
                    channel,
                    cm1,
                    q1.take(m1 - 1),
                    cm2,
                    q2.take(m2 - 1),
                    m1 - 1,
                );
                assert(cm1[m1 - 1] == cm1.last());
                if m1 < m2 {
                    // the shorter abort's repeated name would already
                    // repeat inside the longer one's distinct prefix
                    assert(resolve_spec(entries, channel, cm2[m1 - 1]) == Some(
                        (q2[m1 - 1], cm2[m1]),
                    ));
                    assert(q1.last() == q2[m1 - 1]);
                    let j = choose|j: int|
                        0 <= j < p1@.len() - 1 && lower_seq(q1[j]) == lower_seq(q1.last());
                    assert(q1[j] == q1.take(m1 - 1)[j]);
                    assert(q1.take(m1 - 1)[j] == q2.take(m2 - 1)[j]);
                    assert(lower_seq(q2.drop_last()[j]) == lower_seq(q2.drop_last()[m1 - 1]));
                    assert(false);
                }
                assert(cm2[m2 - 1] == cm2.last());
                assert forall|j: int| 0 <= j < m1 implies q1[j] == q2[j] by {
                    if j < m1 - 1 {
                        assert(q1.take(m1 - 1)[j] == q2.take(m2 - 1)[j]);
                    } else {
                        assert(q1.last() == (resolve_spec(entries, channel, cm1.last())->0).0);
                        assert(q2.last() == (resolve_spec(entries, channel, cm2.last())->0).0);
                    }
                }
                assert(q1 =~= q2);
            } else {
                lemma_chain_agree(
                    entries,
                    channel,
                    cm2,
                    q2.take(m2 - 1),
                    cm1,
                    q1.take(m1 - 1),
                    m2 - 1,
                );
                assert(cm2[m2 - 1] == cm2.last());
                assert(resolve_spec(entries, channel, cm1[m2 - 1]) == Some(
                    (q1[m2 - 1], cm1[m2]),
                ));
                assert(q2.last() == q1[m2 - 1]);
                let j = choose|j: int|
                    0 <= j < p2@.len() - 1 && lower_seq(q2[j]) == lower_seq(q2.last());
                assert(q2[j] == q2.take(m2 - 1)[j]);
                assert(q2.take(m2 - 1)[j] == q1.take(m1 - 1)[j]);
                assert(lower_seq(q1.drop_last()[j]) == lower_seq(q1.drop_last()[m2 - 1]));
                assert(false);
            }
        },
        (Expansion::Done { text: t1, path: p1 }, Expansion::Cycle { path: p2 }) => {
            let q = path_view(p2@);
            let m = q.len() as int;
            let k = path_view(p1@).len() as int;
            let dm = choose|msgs: Seq<Seq<char>>|
                {
                    &&& chain_ok(entries, channel, msgs, path_view(p1@))
                    &&& msgs[0] == input
                    &&& msgs.last() == t1@
                };
            let cm = choose|msgs: Seq<Seq<char>>|
                {
                    &&& msgs.len() == p2@.len()
                    &&& msgs[0] == input
                    &&& forall|i: int|
                        0 <= i < p2@.len() - 1 ==> resolve_spec(entries, channel, msgs[i])
                            == Some((path_view(p2@)[i], msgs[i + 1]))
                    &&& resolve_spec(entries, channel, msgs.last()) is Some
                    &&& (resolve_spec(entries, channel, msgs.last())->0).0 == path_view(
                        p2@,
                    ).last()
                };
            assert(chain_ok(entries, channel, cm, q.take(m - 1))) by {
                assert forall|i: int|
                    0 <= i < q.take(m - 1).len() implies resolve_spec(entries, channel, cm[i])
                    == Some((q.take(m - 1)[i], cm[i + 1])) by {
                    assert(q.take(m - 1)[i] == q[i]);
                }
            }
            if m - 1 <= k {
                lemma_chain_agree(entries, channel, cm, q.take(m - 1), dm, path_view(p1@), m - 1);
                assert(cm[m - 1] == cm.last());
                if m - 1 == k {
                    assert(dm[k] == dm.last());
                    assert(resolve_spec(entries, channel, t1@) is None);
                    assert(false);
                } else {
                    // the abort's repeated name is a repeat inside the
                    // completed path, which has none
                    assert(resolve_spec(entries, channel, dm[m - 1]) == Some(
                        (path_view(p1@)[m - 1], dm[m]),
                    ));
                    assert(q.last() == path_view(p1@)[m - 1]);
                    let j = choose|j: int|
                        0 <= j < p2@.len() - 1 && lower_seq(q[j]) == lower_seq(q.last());
                    assert(q[j] == q.take(m - 1)[j]);
                    assert(q.take(m - 1)[j] == path_view(p1@)[j]);
                    assert(lower_seq(path_view(p1@)[j]) == lower_seq(path_view(p1@)[m - 1]));
                    assert(false);
                }
            } else {
                lemma_chain_agree(entries, channel, dm, path_view(p1@), cm, q.take(m - 1), k);
                assert(dm[k] == dm.last());
                assert(resolve_spec(entries, channel, cm[k]) == Some((q[k], cm[k + 1])));
                assert(resolve_spec(entries, channel, t1@) is None);
                assert(false);
            }
        },
        (Expansion::Cycle { path: p1 }, Expansion::Done { text: t2, path: p2 }) => {
            let q = path_view(p1@);
            let m = q.len() as int;
            let k = path_view(p2@).len() as int;
            let dm = choose|msgs: Seq<Seq<char>>|
                {
                    &&& chain_ok(entries, channel, msgs, path_view(p2@))
                    &&& msgs[0] == input
                    &&& msgs.last() == t2@
                };
            let cm = choose|msgs: Seq<Seq<char>>|
                {
                    &&& msgs.len() == p1@.len()
                    &&& msgs[0] == input
                    &&& forall|i: int|
                        0 <= i < p1@.len() - 1 ==> resolve_spec(entries, channel, msgs[i])
                            == Some((path_view(p1@)[i], msgs[i + 1]))
                    &&& resolve_spec(entries, channel, msgs.last()) is Some
                    &&& (resolve_spec(entries, channel, msgs.last())->0).0 == path_view(
                        p1@,
                    ).last()
                };
            assert(chain_ok(entries, channel, cm, q.take(m - 1))) by {
                assert forall|i: int|
                    0 <= i < q.take(m - 1).len() implies resolve_spec(entries, channel, cm[i])
                    == Some((q.take(m - 1)[i], cm[i + 1])) by {
                    assert(q.take(m - 1)[i] == q[i]);
                }
            }
            if m - 1 <= k {
                lemma_chain_agree(entries, channel, cm, q.take(m - 1), dm, path_view(p2@), m - 1);
                assert(cm[m - 1] == cm.last());
                if m - 1 == k {
                    assert(dm[k] == dm.last());
                    assert(resolve_spec(entries, channel, t2@) is None);
                    assert(false);
                } else {
                    // the abort's repeated name is a repeat inside the
                    // completed path, which has none
                    assert(resolve_spec(entries, channel, dm[m - 1]) == Some(
                        (path_view(p2@)[m - 1], dm[m]),
                    ));
                    assert(q.last() == path_view(p2@)[m - 1]);
                    let j = choose|j: int|
                        0 <= j < p1@.len() - 1 && lower_seq(q[j]) == lower_seq(q.last());
                    assert(q[j] == q.take(m - 1)[j]);
                    assert(q.take(m - 1)[j] == path_view(p2@)[j]);
                    assert(lower_seq(path_view(p2@)[j]) == lower_seq(path_view(p2@)[m - 1]));
                    assert(false);
                }
            } else {
                lemma_chain_agree(entries, channel, dm, path_view(p2@), cm, q.take(m - 1), k);
                assert(dm[k] == dm.last());
                assert(resolve_spec(entries, channel, cm[k]) == Some((q[k], cm[k + 1])));
                assert(resolve_spec(entries, channel, t2@) is None);
                assert(false);
            }
        },
    }
}

impl Aliases {
    /// Expands `message` by repeatedly applying the first matching
    /// alias. A chain without a repeated name runs to completion and
    /// yields the final text together with the path of names applied; a
    /// repeated name aborts the expansion, and the reported path holds
    /// that name at both its first and its repeated occurrence.
    pub fn expand(&self, channel: &str, message: &str) -> (r: Expansion)
        requires
            self.wf(),
        ensures
            expansion_ok(self.entries@, channel@, message@, r),
    {
        let ghost gentries = self.entries@;
        let ghost gchannel = channel@;
        let mut current = String::from_str(message);
        let mut path: Vec<String> = Vec::new();
        let ghost gmessage = current@;
        let ghost mut msgs: Seq<Seq<char>> = seq![gmessage];
        let ghost mut idxs: Seq<int> = Seq::<int>::empty();

        loop
            invariant
                self.wf(),
                gentries == self.entries@,
                gchannel == channel@,
                gmessage == message@,
                msgs.len() == path@.len() + 1,
                msgs[0] == gmessage,
                msgs.last() == current@,
                chain_ok(gentries, gchannel, msgs, path_view(path@)),
                lower_distinct(path_view(path@)),
                idxs.no_duplicates(),
                idxs.len() == path@.len(),
                forall|k: int|
                    0 <= k < idxs.len() ==> 0 <= #[trigger] idxs[k] < gentries.len()
                        && gentries[idxs[k]].name@ == path_view(path@)[k],
                path@.len() <= gentries.len(),
            decreases gentries.len() - path@.len(),
        {
            let step = self.lookup(channel, current.as_str());

            match step {
                None => {
                    proof {
                        let m = msgs;
                        assert({
                            &&& chain_ok(gentries, gchannel, m, path_view(path@))
                            &&& m[0] == gmessage
                            &&& m.last() == current@
                        });
                        assert(exists|msgs2: Seq<Seq<char>>|
                            {
                                &&& chain_ok(gentries, gchannel, msgs2, path_view(path@))
                                &&& msgs2[0] == gmessage
                                &&& msgs2.last() == current@
                            });
                    }
                    return Expansion::Done { text: current, path };
                },
                Some((name, next)) => {
                    // look for an earlier occurrence of the name
                    let mut repeat = false;
                    let mut k: usize = 0;
                    while k < path.len() && !repeat
                        invariant
                            0 <= k <= path@.len(),
                            repeat ==> exists|j: int|
                                0 <= j < path@.len() && lower_seq(path_view(path@)[j])
                                    == lower_seq(name@),
                            !repeat ==> forall|j: int|
                                0 <= j < k ==> lower_seq(path_view(path@)[j]) != lower_seq(name@),
                        decreases path@.len() - k,
                    {
                        if eq_ignore_case(path[k].as_str(), name.as_str()) {
                            assert(lower_seq(path_view(path@)[k as int]) == lower_seq(name@));
                            repeat = true;
                        }
                        k = k + 1;
                    }

                    let ghost gidx = first_alias_index(gentries, gchannel, current@);
                    proof {
                        lemma_first_alias_index_range(gentries, gchannel, current@);
                    }

                    if repeat {
                        let ghost oldpath = path_view(path@);
                        let ghost gname = name@;
                        path.push(name);
                        proof {
                            assert(path_view(path@) =~= oldpath.push(gname));
                            assert(path_view(path@).drop_last() =~= oldpath);
                            let j = choose|j: int|
                                0 <= j < oldpath.len() && lower_seq(oldpath[j]) == lower_seq(
                                    gname,
                                );
                            assert(path_view(path@)[j] == oldpath[j]);
                            assert(path_view(path@).last() == gname);
                            assert(0 <= j < path@.len() - 1 && lower_seq(path_view(path@)[j])
                                == lower_seq(path_view(path@).last()));
                            let m = msgs;
                            assert(resolve_spec(gentries, gchannel, m.last()) == Some(
                                (gname, next@),
                            ));
                            assert({
                                &&& m.len() == path@.len()
                                &&& m[0] == gmessage
                                &&& forall|i: int|
                                    0 <= i < path@.len() - 1 ==> resolve_spec(
                                        gentries,
                                        gchannel,
                                        m[i],
                                    ) == Some((path_view(path@)[i], m[i + 1]))
                                &&& resolve_spec(gentries, gchannel, m.last()) is Some
                                &&& (resolve_spec(gentries, gchannel, m.last())->0).0
                                    == path_view(path@).last()
                            }) by {
                                assert forall|i: int| 0 <= i < path@.len() - 1 implies resolve_spec(
                                    gentries,
                                    gchannel,
                                    m[i],
                                ) == Some((path_view(path@)[i], m[i + 1])) by {
                                    assert(path_view(path@)[i] == oldpath[i]);
                                }
                            }
                            assert(exists|msgs2: Seq<Seq<char>>|
                                {
                                    &&& msgs2.len() == path@.len()
                                    &&& msgs2[0] == gmessage
                                    &&& forall|i: int|
                                        0 <= i < path@.len() - 1 ==> resolve_spec(
                                            gentries,
                                            gchannel,
                                            msgs2[i],
                                        ) == Some((path_view(path@)[i], msgs2[i + 1]))
                                    &&& resolve_spec(gentries, gchannel, msgs2.last()) is Some
                                    &&& (resolve_spec(gentries, gchannel, msgs2.last())->0).0
                                        == path_view(path@).last()
                                });
                        }
                        return Expansion::Cycle { path };
                    }

                    proof {
                        // the matched entry is a fresh index: a repeat of
                        // the index would be a repeat of the name
                        assert(gentries[gidx].name@ == name@);
                        assert forall|k2: int| 0 <= k2 < idxs.len() implies idxs[k2] != gidx by {
                            if idxs[k2] == gidx {
                                assert(lower_seq(path_view(path@)[k2]) == lower_seq(name@));
                            }
                        }
                        assert(idxs.push(gidx).no_duplicates());
                        lemma_distinct_indices_bound(idxs.push(gidx), gentries.len() as int);
                    }

                    let ghost oldpath = path_view(path@);
                    let ghost oldmsgs = msgs;
                    path.push(name);
                    proof {
                        msgs = msgs.push(next@);
                        idxs = idxs.push(gidx);
                        assert(path_view(path@) =~= oldpath.push(name@));
                        assert forall|i: int|
                            0 <= i < path_view(path@).len() implies resolve_spec(
                            gentries,
                            gchannel,
                            msgs[i],
                        ) == Some((path_view(path@)[i], msgs[i + 1])) by {
                            if i < oldpath.len() {
                                assert(msgs[i] == oldmsgs[i]);
                                assert(msgs[i + 1] == oldmsgs[i + 1]);
                            } else {
                                assert(msgs[i] == oldmsgs.last());
                            }
                        }
                    }
                    current = next;
                },
            }
        }
    }
}

} // verus!
