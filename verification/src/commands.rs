//! The table-driven command table: a message whose leading token names a
//! registered command renders that command's template, with the sender,
//! the channel owner, the usage counter and the remaining words bound.

use vstd::prelude::*;

verus! {

use crate::template::{contains_placeholder, render_spec, render_template, template_has_var,
    vars_view};
use crate::text::{
    after_leading_word, dec_spec, eq_ignore_case, leading_word, lower_seq, split_leading_word,
    str_eq, u64_to_dec, words, words_of,
};

/// One registered table-driven command.
pub struct Command {
    /// The channel the command belongs to.
    pub channel: String,
    /// The command name, matched case-insensitively against a message's
    /// leading token.
    pub name: String,
    /// The response template.
    pub template: String,
    /// How often the command has been used; bound as `{{count}}`.
    pub count: u64,
    /// The group the command belongs to, if any.
    pub group: Option<String>,
    /// A disabled command stays registered but never answers a
    /// message.
    pub disabled: bool,
}

/// Two commands collide when they belong to the same channel and their
/// names agree up to case.
pub open spec fn same_command_key(a: Command, b: Command) -> bool {
    a.channel@ == b.channel@ && lower_seq(a.name@) == lower_seq(b.name@)
}

/// Does command `c` answer `msg` in `channel`? A disabled command
/// answers nothing.
pub open spec fn command_matches(c: Command, channel: Seq<char>, msg: Seq<char>) -> bool {
    &&& !c.disabled
    &&& c.channel@ == channel
    &&& leading_word(msg) is Some
    &&& lower_seq(leading_word(msg)->0) == lower_seq(c.name@)
}

/// Index of the first command that answers `msg`, or -1.
pub open spec fn first_command_index(entries: Seq<Command>, channel: Seq<char>, msg: Seq<char>) -> int
    decreases entries.len(),
{
    if entries.len() == 0 {
        -1
    } else if command_matches(entries[0], channel, msg) {
        0
    } else {
        let r = first_command_index(entries.drop_first(), channel, msg);
        if r < 0 {
            -1
        } else {
            r + 1
        }
    }
}

proof fn lemma_first_command_index_at(
    entries: Seq<Command>,
    channel: Seq<char>,
    msg: Seq<char>,
    j: int,
)
    requires
        0 <= j < entries.len(),
        command_matches(entries[j], channel, msg),
        forall|k: int| 0 <= k < j ==> !command_matches(entries[k], channel, msg),
    ensures
        first_command_index(entries, channel, msg) == j,
    decreases entries.len(),
{
    if j > 0 {
        lemma_first_command_index_at(entries.drop_first(), channel, msg, j - 1);
    }
}

proof fn lemma_first_command_index_none(entries: Seq<Command>, channel: Seq<char>, msg: Seq<char>)
    requires
        forall|k: int| 0 <= k < entries.len() ==> !command_matches(entries[k], channel, msg),
    ensures
        first_command_index(entries, channel, msg) == -1,
    decreases entries.len(),
{
    if entries.len() > 0 {
        lemma_first_command_index_none(entries.drop_first(), channel, msg);
    }
}

/// The bindings a command template is rendered against: the sender's
/// name, the channel owner, the usage counter, the rest of the message,
/// and each remaining word as a numbered capture.
pub open spec fn command_bindings_spec(
    sender: Option<Seq<char>>,
    target: Seq<char>,
    count: int,
    msg: Seq<char>,
) -> Seq<(Seq<char>, Seq<char>)> {
    seq![
        ("name"@, if sender is Some { sender->0 } else { Seq::<char>::empty() }),
        ("target"@, target),
        ("count"@, dec_spec(count)),
        ("rest"@, after_leading_word(msg)),
    ] + Seq::new(words_of(after_leading_word(msg)).len(), |i: int| (dec_spec(i), words_of(
        after_leading_word(msg),
    )[i]))
}

/// Builds the bindings for one command use.
pub fn command_bindings(sender: Option<&String>, target: &str, count: u64, msg: &str) -> (r: Vec<
    (String, String),
>)
    ensures
        vars_view(r@) == command_bindings_spec(
            match sender {
                Some(s) => Some(s@),
                None => None,
            },
            target@,
            count as int,
            msg@,
        ),
{
    let mut r: Vec<(String, String)> = Vec::new();
    let sender_text = match sender {
        Some(s) => s.clone(),
        None => String::new(),
    };
    r.push((String::from_str("name"), sender_text));
    r.push((String::from_str("target"), String::from_str(target)));
    r.push((String::from_str("count"), u64_to_dec(count)));

    let (rest, caps) = match split_leading_word(msg) {
        Some((_word, rest)) => {
            let caps = words(rest.as_str());
            (rest, caps)
        },
        None => {
            let rest = String::new();
            let caps: Vec<String> = Vec::new();
            proof {
                assert(after_leading_word(msg@) =~= msg@.subrange(
                    crate::text::first_non_space(msg@, crate::text::first_space(msg@,
                        crate::text::first_non_space(msg@, 0))),
                    msg@.len() as int,
                ));
            }
            (rest, caps)
        },
    };

    // with no leading word the rest is empty
    proof {
        if leading_word(msg@) is None {
            crate::text::lemma_first_non_space_bounds(msg@, 0);
            let start = crate::text::first_non_space(msg@, 0);
            crate::text::lemma_first_space_bounds(msg@, start);
            let end = crate::text::first_space(msg@, start);
            crate::text::lemma_first_non_space_bounds(msg@, end);
            assert(after_leading_word(msg@) =~= Seq::<char>::empty());
            assert(words_of(after_leading_word(msg@)) =~= Seq::<Seq<char>>::empty());
        }
    }

    r.push((String::from_str("rest"), rest));

    let ncaps = caps.len();
    let mut i: usize = 0;
    while i < ncaps
        invariant
            0 <= i <= ncaps,
            ncaps == caps@.len(),
            caps@.map_values(|w: String| w@) == words_of(after_leading_word(msg@)),
            r@.len() == 4 + i,
            forall|k: int| 4 <= k < r@.len() ==> (#[trigger] r@[k].0)@ == dec_spec(k - 4)
                && r@[k].1@ == words_of(after_leading_word(msg@))[k - 4],
            vars_view(r@.take(4)) =~= command_bindings_spec(
                match sender {
                    Some(s) => Some(s@),
                    None => None,
                },
                target@,
                count as int,
                msg@,
            ).take(4),
        decreases ncaps - i,
    {
        let idx = u64_to_dec(i as u64);
        r.push((idx, caps[i].clone()));
        i = i + 1;
    }

    proof {
        reveal_strlit("name");
        reveal_strlit("target");
        reveal_strlit("count");
        reveal_strlit("rest");
        let gsender = match sender {
            Some(s) => Some(s@),
            None => None,
        };
        let spec = command_bindings_spec(gsender, target@, count as int, msg@);
        let ws = words_of(after_leading_word(msg@));
        assert(spec.len() == 4 + ws.len());
        assert(r@.len() == spec.len());
        assert forall|k: int| 0 <= k < r@.len() implies vars_view(r@)[k] == spec[k] by {
            if k < 4 {
                assert(vars_view(r@.take(4))[k] == vars_view(r@)[k]);
                assert(vars_view(r@.take(4))[k] == spec.take(4)[k]);
            } else {
                assert(spec[k] == (dec_spec(k - 4), ws[k - 4]));
            }
        }
        assert(vars_view(r@) =~= spec);
    }
    r
}

/// The channel's command table.
pub struct CommandTable {
    pub entries: Vec<Command>,
}

/// What one table lookup did: the rendered response, and whether the
/// matched command's usage counter was bumped.
pub struct CommandOutcome {
    pub response: String,
    pub counted: bool,
}

impl CommandTable {
    /// No two commands collide.
    pub open spec fn wf(self) -> bool {
        forall|i: int, j: int|
            0 <= i < j < self.entries@.len() ==> !same_command_key(
                self.entries@[i],
                self.entries@[j],
            )
    }

    pub fn new() -> (r: CommandTable)
        ensures
            r.wf(),
            r.entries@.len() == 0,
    {
        CommandTable { entries: Vec::new() }
    }

    /// Resolves `msg` against the table and renders the first matching
    /// command. A command whose template holds `{{count}}` tracks usage:
    /// its counter is incremented first and the new value is rendered.
    /// Other entries, and every entry on a miss, are left unchanged.
    pub fn run(&mut self, channel: &str, sender: Option<&String>, target: &str, msg: &str) -> (r:
        Option<CommandOutcome>)
        ensures
            ({
                let idx = first_command_index(old(self).entries@, channel@, msg@);
                match r {
                    Some(outcome) => {
                        &&& idx >= 0
                        &&& outcome.counted == contains_placeholder(
                            old(self).entries@[idx].template@,
                            "count"@,
                        )
                        &&& final(self).entries@.len() == old(self).entries@.len()
                        &&& forall|k: int|
                            0 <= k < old(self).entries@.len() && k != idx ==> final(self).entries@[k] == old(self).entries@[k]
                        &&& final(self).entries@[idx].count == if outcome.counted {
                            if old(self).entries@[idx].count < u64::MAX {
                                old(self).entries@[idx].count + 1
                            } else {
                                old(self).entries@[idx].count as int
                            }
                        } else {
                            old(self).entries@[idx].count as int
                        }
                        &&& final(self).entries@[idx].name@ == old(self).entries@[idx].name@
                        &&& final(self).entries@[idx].channel@ == old(self).entries@[idx].channel@
                        &&& final(self).entries@[idx].template@ == old(self).entries@[idx].template@
                        &&& outcome.response@ == render_spec(
                            old(self).entries@[idx].template@,
                            command_bindings_spec(
                                match sender {
                                    Some(s) => Some(s@),
                                    None => None,
                                },
                                target@,
                                final(self).entries@[idx].count as int,
                                msg@,
                            ),
                        )
                    },
                    None => {
                        &&& idx == -1
                        &&& final(self).entries@ == old(self).entries@
                    },
                }
            }),
    {
        let ghost gchannel = channel@;
        let ghost gmsg = msg@;
        let split = split_leading_word(msg);
        let (word, _rest) = match split {
            Some(p) => p,
            None => {
                proof {
                    lemma_first_command_index_none(self.entries@, gchannel, gmsg);
                }
                return None;
            },
        };

        let n = self.entries.len();
        let mut i: usize = 0;
        while i < n
            invariant
                0 <= i <= n,
                n == self.entries@.len(),
                gchannel == channel@,
                gmsg == msg@,
                self.entries@ == old(self).entries@,
                leading_word(msg@) == Some(word@),
                forall|k: int|
                    0 <= k < i ==> !command_matches(#[trigger] self.entries@[k], channel@, msg@),
            decreases n - i,
        {
            let matched = {
                let c = &self.entries[i];
                !c.disabled && str_eq(c.channel.as_str(), channel) && eq_ignore_case(
                    word.as_str(),
                    c.name.as_str(),
                )
            };

            if matched {
                proof {
                    lemma_first_command_index_at(self.entries@, channel@, msg@, i as int);
                }
                let counted = template_has_var(self.entries[i].template.as_str(), "count");
                if counted {
                    let c = self.entries[i].count;
                    if c < u64::MAX {
                        let mut entry = self.entries.remove(i);
                        entry.count = c + 1;
                        self.entries.insert(i, entry);
                    }
                }
                proof {
                    assert(self.entries@.len() == old(self).entries@.len());
                    assert(forall|k: int|
                        0 <= k < old(self).entries@.len() && k != i
                            ==> self.entries@[k] == old(self).entries@[k]);
                }
                let bindings = command_bindings(
                    sender,
                    target,
                    self.entries[i].count,
                    msg,
                );
                let response = render_template(self.entries[i].template.as_str(), &bindings);
                return Some(CommandOutcome { response, counted });
            }
            i = i + 1;
        }

        proof {
            lemma_first_command_index_none(self.entries@, channel@, msg@);
        }
        None
    }
}

} // verus!
