//! Sets of member names (moderators, VIPs, whitelisted hosts) and the
//! parser for the freeform member-list service notices.

use vstd::prelude::*;

verus! {

use crate::text::{
    end_not_char, first_at_char, lemma_end_not_char_bounds, lemma_first_at_char_bounds,
    scan_to_char, str_eq, trim, trim_spaces,
};

/// The set of views of a sequence of names.
spec fn seq_names_set(items: Seq<String>) -> Set<Seq<char>> {
    Set::new(|x: Seq<char>| exists|i: int| 0 <= i < items.len() && items[i]@ == x)
}

/// A set of names, represented without duplicates.
pub struct MemberSet {
    items: Vec<String>,
}

impl MemberSet {
    /// The mathematical set of names held.
    pub closed spec fn view(self) -> Set<Seq<char>> {
        Set::new(|x: Seq<char>| exists|i: int| 0 <= i < self.items@.len() && self.items@[i]@ == x)
    }

    /// No name is held twice.
    pub closed spec fn wf(self) -> bool {
        forall|i: int, j: int|
            0 <= i < j < self.items@.len() ==> self.items@[i]@ != self.items@[j]@
    }

    pub fn new() -> (r: MemberSet)
        ensures
            r.wf(),
            r@ =~= Set::<Seq<char>>::empty(),
    {
        MemberSet { items: Vec::new() }
    }

    /// The set held is finite, and for a well-formed set its cardinality
    /// is the number of names stored.
    proof fn lemma_card(items: Seq<String>)
        ensures
            seq_names_set(items).finite(),
            (forall|i: int, j: int| 0 <= i < j < items.len() ==> items[i]@ != items[j]@)
                ==> seq_names_set(items).len() == items.len(),
        decreases items.len(),
    {
        if items.len() == 0 {
            assert(seq_names_set(items) =~= Set::<Seq<char>>::empty());
        } else {
            let rest = items.drop_last();
            Self::lemma_card(rest);
            assert(seq_names_set(items) =~= seq_names_set(rest).insert(items.last()@)) by {
                assert forall|x: Seq<char>| seq_names_set(items).contains(x) implies seq_names_set(
                    rest,
                ).insert(items.last()@).contains(x) by {
                    let i = choose|i: int| 0 <= i < items.len() && items[i]@ == x;
                    if i < items.len() - 1 {
                        assert(rest[i]@ == x);
                    }
                }
                assert forall|x: Seq<char>|
                    seq_names_set(rest).insert(items.last()@).contains(x) implies seq_names_set(
                    items,
                ).contains(x) by {
                    if seq_names_set(rest).contains(x) {
                        let i = choose|i: int| 0 <= i < rest.len() && rest[i]@ == x;
                        assert(items[i]@ == x);
                    } else {
                        assert(items[items.len() - 1]@ == x);
                    }
                }
            }
            if forall|i: int, j: int| 0 <= i < j < items.len() ==> items[i]@ != items[j]@ {
                assert(!seq_names_set(rest).contains(items.last()@)) by {
                    if seq_names_set(rest).contains(items.last()@) {
                        let i = choose|i: int| 0 <= i < rest.len() && rest[i]@ == items.last()@;
                        assert(items[i]@ == items[items.len() - 1]@);
                    }
                }
            }
        }
    }

    /// The number of names held.
    pub fn count(&self) -> (n: usize)
        ensures
            self@.finite(),
            self.wf() ==> n == self@.len(),
    {
        proof {
            Self::lemma_card(self.items@);
            assert(self@ =~= seq_names_set(self.items@));
        }
        self.items.len()
    }

    pub fn contains(&self, name: &str) -> (r: bool)
        ensures
            r == self@.contains(name@),
    {
        let mut i: usize = 0;
        while i < self.items.len()
            invariant
                i <= self.items@.len(),
                forall|j: int| 0 <= j < i ==> self.items@[j]@ != name@,
            decreases self.items@.len() - i,
        {
            if str_eq(self.items[i].as_str(), name) {
                return true;
            }
            i = i + 1;
        }
        false
    }

    /// Does the set hold a name equal to `name` up to ASCII case?
    pub fn contains_ci(&self, name: &str) -> (r: bool)
        ensures
            r == exists|x: Seq<char>|
                self@.contains(x) && crate::text::lower_seq(x) == crate::text::lower_seq(name@),
    {
        let mut i: usize = 0;
        while i < self.items.len()
            invariant
                i <= self.items@.len(),
                forall|j: int|
                    0 <= j < i ==> crate::text::lower_seq(#[trigger] self.items@[j]@)
                        != crate::text::lower_seq(name@),
            decreases self.items@.len() - i,
        {
            if crate::text::eq_ignore_case(self.items[i].as_str(), name) {
                assert(self@.contains(self.items@[i as int]@));
                return true;
            }
            i = i + 1;
        }
        proof {
            if exists|x: Seq<char>|
                self@.contains(x) && crate::text::lower_seq(x) == crate::text::lower_seq(name@) {
                let x = choose|x: Seq<char>|
                    self@.contains(x) && crate::text::lower_seq(x) == crate::text::lower_seq(
                        name@,
                    );
                let j = choose|j: int| 0 <= j < self.items@.len() && self.items@[j]@ == x;
            }
        }
        false
    }

    /// Inserts a name; a name already held is not duplicated.
    pub fn insert(&mut self, name: String)
        ensures
            final(self)@ =~= old(self)@.insert(name@),
            old(self).wf() ==> final(self).wf(),
    {
        if !self.contains(name.as_str()) {
            let ghost olditems = self.items@;
            self.items.push(name);
            proof {
                assert forall|x: Seq<char>| self@.contains(x) implies old(self)@.insert(
                    name@,
                ).contains(x) by {
                    let i = choose|i: int|
                        0 <= i < self.items@.len() && self.items@[i]@ == x;
                    if i < olditems.len() {
                        assert(olditems[i]@ == x);
                    }
                }
                assert forall|x: Seq<char>| old(self)@.insert(name@).contains(x) implies self@.contains(
                    x,
                ) by {
                    if x == name@ {
                        assert(self.items@[olditems.len() as int]@ == x);
                    } else {
                        let i = choose|i: int| 0 <= i < olditems.len() && olditems[i]@ == x;
                        assert(self.items@[i]@ == x);
                    }
                }
            }
        } else {
            proof {
                assert(self@ =~= old(self)@.insert(name@));
            }
        }
    }

    /// Removes every name.
    pub fn clear(&mut self)
        ensures
            final(self).wf(),
            final(self)@ =~= Set::<Seq<char>>::empty(),
    {
        self.items = Vec::new();
    }

    /// The names held, in insertion order.
    pub fn names(&self) -> (r: &Vec<String>)
        ensures
            forall|i: int| 0 <= i < r@.len() ==> self@.contains(#[trigger] r@[i]@),
            forall|x: Seq<char>|
                self@.contains(x) ==> exists|i: int| 0 <= i < r@.len() && r@[i]@ == x,
    {
        &self.items
    }
}

/// The set of entries named by a comma-split member list: each entry
/// trimmed of surrounding whitespace, empty entries dropped.
pub open spec fn entry_set(es: Seq<Seq<char>>) -> Set<Seq<char>> {
    Set::new(
        |x: Seq<char>|
            exists|i: int| 0 <= i < es.len() && trim_spaces(#[trigger] es[i]) == x && x.len() > 0,
    )
}

/// `s` split at every comma.
pub open spec fn split_commas(s: Seq<char>) -> Seq<Seq<char>>
    decreases s.len(),
{
    let i = first_at_char(s, 0, ',');
    if i < 0 || i >= s.len() {
        seq![s]
    } else {
        seq![s.take(i)] + split_commas(s.skip(i + 1))
    }
}

/// What a member-list notice names: everything after the first colon,
/// with trailing periods stripped, split at commas, each entry trimmed,
/// empty entries dropped. A message without a colon names nobody.
pub open spec fn room_members_spec(msg: Seq<char>) -> Set<Seq<char>> {
    let c = first_at_char(msg, 0, ':');
    if c >= msg.len() {
        Set::<Seq<char>>::empty()
    } else {
        let region = msg.skip(c + 1);
        entry_set(split_commas(region.take(end_not_char(region, region.len() as int, '.'))))
    }
}

proof fn lemma_entry_set_cons(head: Seq<char>, rest: Seq<Seq<char>>)
    ensures
        entry_set(seq![head] + rest) =~= entry_set(rest).union(
            if trim_spaces(head).len() > 0 {
                Set::<Seq<char>>::empty().insert(trim_spaces(head))
            } else {
                Set::<Seq<char>>::empty()
            },
        ),
{
    let es = seq![head] + rest;
    assert forall|x: Seq<char>| entry_set(es).contains(x) implies entry_set(rest).union(
        if trim_spaces(head).len() > 0 {
            Set::<Seq<char>>::empty().insert(trim_spaces(head))
        } else {
            Set::<Seq<char>>::empty()
        },
    ).contains(x) by {
        let i = choose|i: int| 0 <= i < es.len() && trim_spaces(#[trigger] es[i]) == x && x.len() > 0;
        if i > 0 {
            assert(es[i] == rest[i - 1]);
        }
    }
    assert forall|x: Seq<char>|
        entry_set(rest).union(
            if trim_spaces(head).len() > 0 {
                Set::<Seq<char>>::empty().insert(trim_spaces(head))
            } else {
                Set::<Seq<char>>::empty()
            },
        ).contains(x) implies entry_set(es).contains(x) by {
        if entry_set(rest).contains(x) {
            let i = choose|i: int|
                0 <= i < rest.len() && trim_spaces(#[trigger] rest[i]) == x && x.len() > 0;
            assert(es[i + 1] == rest[i]);
        } else {
            assert(es[0] == head);
        }
    }
}

/// Member-list parsing is order-independent: two entry lists that name
/// the same entries the same number of times (in any order) parse to the
/// same set of members.
pub proof fn lemma_entry_set_order_independent(e1: Seq<Seq<char>>, e2: Seq<Seq<char>>)
    requires
        e1.to_multiset() == e2.to_multiset(),
    ensures
        entry_set(e1) =~= entry_set(e2),
{
    broadcast use vstd::seq_lib::group_to_multiset_ensures;

    assert forall|x: Seq<char>| entry_set(e1).contains(x) implies entry_set(e2).contains(x) by {
        let i = choose|i: int| 0 <= i < e1.len() && trim_spaces(#[trigger] e1[i]) == x && x.len() > 0;
        assert(e1.contains(e1[i]));
        assert(e1.to_multiset().count(e1[i]) > 0);
        assert(e2.to_multiset().count(e1[i]) > 0);
        assert(e2.contains(e1[i]));
        let j = choose|j: int| 0 <= j < e2.len() && e2[j] == e1[i];
        assert(trim_spaces(e2[j]) == x);
    }
    assert forall|x: Seq<char>| entry_set(e2).contains(x) implies entry_set(e1).contains(x) by {
        let i = choose|i: int| 0 <= i < e2.len() && trim_spaces(#[trigger] e2[i]) == x && x.len() > 0;
        assert(e2.contains(e2[i]));
        assert(e2.to_multiset().count(e2[i]) > 0);
        assert(e1.to_multiset().count(e2[i]) > 0);
        assert(e1.contains(e2[i]));
        let j = choose|j: int| 0 <= j < e1.len() && e1[j] == e2[i];
        assert(trim_spaces(e1[j]) == x);
    }
}

/// Member-list parsing is insensitive to repetition: naming an entry a
/// second time does not change the parsed set.
pub proof fn lemma_entry_set_duplicate(es: Seq<Seq<char>>, i: int)
    requires
        0 <= i < es.len(),
    ensures
        entry_set(es.push(es[i])) =~= entry_set(es),
{
    let pushed = es.push(es[i]);
    assert forall|x: Seq<char>| entry_set(pushed).contains(x) implies entry_set(es).contains(x) by {
        let k = choose|k: int|
            0 <= k < pushed.len() && trim_spaces(#[trigger] pushed[k]) == x && x.len() > 0;
        if k < es.len() {
            assert(trim_spaces(es[k]) == x);
        } else {
            assert(pushed[k] == es[i]);
            assert(trim_spaces(es[i]) == x);
        }
    }
    assert forall|x: Seq<char>| entry_set(es).contains(x) implies entry_set(pushed).contains(x) by {
        let k = choose|k: int| 0 <= k < es.len() && trim_spaces(#[trigger] es[k]) == x && x.len() > 0;
        assert(pushed[k] == es[k]);
        assert(trim_spaces(pushed[k]) == x);
    }
}

/// Collects the trimmed, nonempty comma-separated entries of `region`
/// into `out`.
fn collect_entries(region: &str, out: &mut MemberSet)
    requires
        old(out).wf(),
    ensures
        final(out).wf(),
        final(out)@ =~= old(out)@.union(entry_set(split_commas(region@))),
    decreases region@.len(),
{
    let len = region.unicode_len();
    let i = scan_to_char(region, 0, ',');

    proof {
        lemma_first_at_char_bounds(region@, 0, ',');
    }

    if i >= len {
        // last entry: the whole region
        let entry = trim(region);
        let nonempty = entry.as_str().unicode_len() > 0;
        if nonempty {
            out.insert(entry);
        }
        proof {
            assert(split_commas(region@) =~= seq![region@]);
            assert(seq![region@][0] == region@);
            if nonempty {
                assert(entry_set(seq![region@]).contains(trim_spaces(region@)));
                assert(entry_set(seq![region@]) =~= Set::<Seq<char>>::empty().insert(
                    trim_spaces(region@),
                )) by {
                    assert forall|x: Seq<char>|
                        entry_set(seq![region@]).contains(x) implies x == trim_spaces(
                        region@,
                    ) by {
                        let i = choose|i: int|
                            0 <= i < seq![region@].len() && trim_spaces(
                                #[trigger] seq![region@][i],
                            ) == x && x.len() > 0;
                    }
                }
                assert(out@ =~= old(out)@.union(entry_set(seq![region@])));
            } else {
                assert(entry_set(seq![region@]) =~= Set::<Seq<char>>::empty()) by {
                    assert forall|x: Seq<char>|
                        !entry_set(seq![region@]).contains(x) by {
                        if entry_set(seq![region@]).contains(x) {
                            let i = choose|i: int|
                                0 <= i < seq![region@].len() && trim_spaces(
                                    #[trigger] seq![region@][i],
                                ) == x && x.len() > 0;
                        }
                    }
                }
                assert(out@ =~= old(out)@.union(entry_set(seq![region@])));
            }
        }
    } else {
        let head = region.substring_char(0, i);
        let entry = trim(head);
        let nonempty = entry.as_str().unicode_len() > 0;
        if nonempty {
            out.insert(entry);
        }
        let rest = region.substring_char(i + 1, len);
        proof {
            assert(head@ =~= region@.take(i as int));
            assert(rest@ =~= region@.skip(i as int + 1));
        }
        collect_entries(rest, out);
        proof {
            lemma_entry_set_cons(region@.take(i as int), split_commas(region@.skip(i as int + 1)));
        }
    }
}

/// Parses a member-list service notice ("The moderators of this channel
/// are: foo, bar") into the set of member names it carries.
pub fn parse_room_members(message: &str) -> (r: MemberSet)
    ensures
        r.wf(),
        r@ =~= room_members_spec(message@),
{
    let len = message.unicode_len();
    let c = scan_to_char(message, 0, ':');

    proof {
        lemma_first_at_char_bounds(message@, 0, ':');
    }

    let mut out = MemberSet::new();

    if c >= len {
        return out;
    }

    let after = message.substring_char(c + 1, len);
    proof {
        assert(after@ =~= message@.skip(c as int + 1));
    }

    let alen = after.unicode_len();
    let mut e: usize = alen;
    while e > 0 && after.get_char(e - 1) == '.'
        invariant
            0 <= e <= alen,
            alen == after@.len(),
            end_not_char(after@, alen as int, '.') == end_not_char(after@, e as int, '.'),
        decreases e,
    {
        e = e - 1;
    }
    proof {
        lemma_end_not_char_bounds(after@, e as int, '.');
        assert(end_not_char(after@, e as int, '.') == e);
    }

    let region = after.substring_char(0, e);
    proof {
        assert(region@ =~= after@.take(e as int));
    }

    collect_entries(region, &mut out);
    out
}

} // verus!
