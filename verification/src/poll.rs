//! The poll handler's logic: starting a poll over keyword options,
//! collecting at most one vote per user through the per-message hook,
//! and closing a poll into a sorted result list.

use vstd::prelude::*;

verus! {

use crate::members::MemberSet;
use crate::text::{
    eq_ignore_case, first_at_char, lemma_first_at_char_bounds, lower_seq, scan_to_char, trim_punct,
    trim_word, words, words_of,
};

/// One poll option: the keyword voters type, and an optional
/// description shown in the results.
pub struct PollOption {
    pub keyword: String,
    pub description: Option<String>,
}

/// Parsing one option word: `keyword=description` splits at the first
/// `=`; a word without one is a bare keyword.
pub open spec fn option_spec(w: Seq<char>) -> (Seq<char>, Option<Seq<char>>) {
    let i = first_at_char(w, 0, '=');
    if i >= w.len() {
        (w, None)
    } else {
        (w.take(i), Some(w.skip(i + 1)))
    }
}

/// Parses one option word.
pub fn parse_option(w: &str) -> (r: PollOption)
    ensures
        (r.keyword@, match r.description {
            Some(d) => Some(d@),
            None => None,
        }) == option_spec(w@),
{
    let len = w.unicode_len();
    let i = scan_to_char(w, 0, '=');
    proof {
        lemma_first_at_char_bounds(w@, 0, '=');
    }
    if i >= len {
        PollOption { keyword: String::from_str(w), description: None }
    } else {
        let key = w.substring_char(0, i);
        let desc = w.substring_char(i + 1, len);
        proof {
            assert(key@ =~= w@.take(i as int));
            assert(desc@ =~= w@.skip(i as int + 1));
        }
        PollOption {
            keyword: String::from_str(key),
            description: Some(String::from_str(desc)),
        }
    }
}

/// The view of one option: its keyword and its description.
pub open spec fn option_view(o: PollOption) -> (Seq<char>, Option<Seq<char>>) {
    (o.keyword@, match o.description {
        Some(d) => Some(d@),
        None => None,
    })
}

/// The views of a list of options.
pub open spec fn options_view(opts: Seq<PollOption>) -> Seq<(Seq<char>, Option<Seq<char>>)> {
    opts.map_values(|o: PollOption| option_view(o))
}

/// Index of the first built option whose keyword equals `k` up to
/// case, or -1.
pub open spec fn built_index(acc: Seq<(Seq<char>, Option<Seq<char>>)>, k: Seq<char>) -> int
    decreases acc.len(),
{
    if acc.len() == 0 {
        -1
    } else if lower_seq(acc[0].0) == lower_seq(k) {
        0
    } else {
        let r = built_index(acc.drop_first(), k);
        if r < 0 {
            -1
        } else {
            r + 1
        }
    }
}

proof fn lemma_built_index_at(acc: Seq<(Seq<char>, Option<Seq<char>>)>, k: Seq<char>, j: int)
    requires
        0 <= j < acc.len(),
        lower_seq(acc[j].0) == lower_seq(k),
        forall|x: int| 0 <= x < j ==> lower_seq((#[trigger] acc[x]).0) != lower_seq(k),
    ensures
        built_index(acc, k) == j,
    decreases acc.len(),
{
    if j > 0 {
        lemma_built_index_at(acc.drop_first(), k, j - 1);
    }
}

proof fn lemma_built_index_none(acc: Seq<(Seq<char>, Option<Seq<char>>)>, k: Seq<char>)
    requires
        forall|x: int| 0 <= x < acc.len() ==> lower_seq((#[trigger] acc[x]).0) != lower_seq(k),
    ensures
        built_index(acc, k) == -1,
    decreases acc.len(),
{
    if acc.len() > 0 {
        lemma_built_index_none(acc.drop_first(), k);
    }
}

/// One option word folded into the options built so far: a word naming
/// an existing keyword (up to case) replaces that option in place; a
/// fresh word appends one.
pub open spec fn fold_option(
    acc: Seq<(Seq<char>, Option<Seq<char>>)>,
    w: Seq<char>,
) -> Seq<(Seq<char>, Option<Seq<char>>)> {
    let parsed = option_spec(w);
    let i = built_index(acc, parsed.0);
    if i >= 0 {
        acc.update(i, parsed)
    } else {
        acc.push(parsed)
    }
}

/// The options built from the option words, folded in order.
pub open spec fn built_options(ws: Seq<Seq<char>>) -> Seq<(Seq<char>, Option<Seq<char>>)>
    decreases ws.len(),
{
    if ws.len() == 0 {
        Seq::<(Seq<char>, Option<Seq<char>>)>::empty()
    } else {
        fold_option(built_options(ws.drop_last()), ws.last())
    }
}

/// One running poll: the question, when it started, its options, who
/// has voted, and each option's count.
pub struct ActivePoll {
    pub question: String,
    pub created_at_ms: i64,
    pub options: Vec<PollOption>,
    pub voted: MemberSet,
    pub votes: Vec<u64>,
}

/// Index of the first option whose keyword equals `w` up to case, or -1.
pub open spec fn option_index(opts: Seq<PollOption>, w: Seq<char>) -> int
    decreases opts.len(),
{
    if opts.len() == 0 {
        -1
    } else if lower_seq(opts[0].keyword@) == lower_seq(w) {
        0
    } else {
        let r = option_index(opts.drop_first(), w);
        if r < 0 {
            -1
        } else {
            r + 1
        }
    }
}

proof fn lemma_option_index_at(opts: Seq<PollOption>, w: Seq<char>, j: int)
    requires
        0 <= j < opts.len(),
        lower_seq(opts[j].keyword@) == lower_seq(w),
        forall|k: int| 0 <= k < j ==> lower_seq(opts[k].keyword@) != lower_seq(w),
    ensures
        option_index(opts, w) == j,
    decreases opts.len(),
{
    if j > 0 {
        lemma_option_index_at(opts.drop_first(), w, j - 1);
    }
}

proof fn lemma_option_index_none(opts: Seq<PollOption>, w: Seq<char>)
    requires
        forall|k: int| 0 <= k < opts.len() ==> lower_seq(opts[k].keyword@) != lower_seq(w),
    ensures
        option_index(opts, w) == -1,
    decreases opts.len(),
{
    if opts.len() > 0 {
        lemma_option_index_none(opts.drop_first(), w);
    }
}

/// The option the first matching trimmed word of the message votes for,
/// or -1 when no word matches.
pub open spec fn voted_option(ws: Seq<Seq<char>>, opts: Seq<PollOption>) -> int
    decreases ws.len(),
{
    if ws.len() == 0 {
        -1
    } else if option_index(opts, trim_punct(ws[0])) >= 0 {
        option_index(opts, trim_punct(ws[0]))
    } else {
        voted_option(ws.drop_first(), opts)
    }
}

proof fn lemma_voted_option_at(ws: Seq<Seq<char>>, opts: Seq<PollOption>, i: int)
    requires
        0 <= i < ws.len(),
        option_index(opts, trim_punct(ws[i])) >= 0,
        forall|k: int| 0 <= k < i ==> option_index(opts, trim_punct(#[trigger] ws[k])) < 0,
    ensures
        voted_option(ws, opts) == option_index(opts, trim_punct(ws[i])),
    decreases ws.len(),
{
    if i > 0 {
        lemma_voted_option_at(ws.drop_first(), opts, i - 1);
    }
}

proof fn lemma_voted_option_none(ws: Seq<Seq<char>>, opts: Seq<PollOption>)
    requires
        forall|k: int| 0 <= k < ws.len() ==> option_index(opts, trim_punct(#[trigger] ws[k])) < 0,
    ensures
        voted_option(ws, opts) == -1,
    decreases ws.len(),
{
    if ws.len() > 0 {
        lemma_voted_option_none(ws.drop_first(), opts);
    }
}

impl ActivePoll {
    /// One count per option.
    pub open spec fn wf(self) -> bool {
        &&& self.votes@.len() == self.options@.len()
        &&& self.voted.wf()
    }

    /// Starts a poll: each whitespace-delimited word of the option list
    /// becomes one option; a later word naming an existing keyword (up
    /// to case) replaces that option. Every count starts at zero and
    /// nobody has voted.
    pub fn start(question: String, option_text: &str, created_at_ms: i64) -> (r: ActivePoll)
        ensures
            r.wf(),
            r.question == question,
            r.created_at_ms == created_at_ms,
            r.voted@ =~= Set::<Seq<char>>::empty(),
            forall|k: int| 0 <= k < r.votes@.len() ==> r.votes@[k] == 0,
            options_view(r.options@) == built_options(crate::text::words_of(option_text@)),
    {
        let ws = words(option_text);
        let ghost gws = crate::text::words_of(option_text@);
        let mut options: Vec<PollOption> = Vec::new();
        let n = ws.len();
        let mut i: usize = 0;
        proof {
            assert(gws.take(0) =~= Seq::<Seq<char>>::empty());
            assert(options_view(options@) =~= built_options(gws.take(0)));
        }
        while i < n
            invariant
                0 <= i <= n,
                n == ws@.len(),
                n == gws.len(),
                ws@.map_values(|w: String| w@) == gws,
                options_view(options@) == built_options(gws.take(i as int)),
            decreases n - i,
        {
            proof {
                assert(ws@[i as int]@ == gws[i as int]);
            }
            let opt = parse_option(ws[i].as_str());
            let ghost parsed = option_spec(gws[i as int]);
            proof {
                assert(option_view(opt) == parsed);
            }
            let mut j: usize = 0;
            let mut found: Option<usize> = None;
            while j < options.len() && found.is_none()
                invariant
                    0 <= j <= options@.len(),
                    option_view(opt) == parsed,
                    (match found {
                        Some(f) => f < options@.len() && built_index(
                            options_view(options@),
                            parsed.0,
                        ) == f as int,
                        None => forall|x: int|
                            0 <= x < j ==> lower_seq(
                                (#[trigger] options_view(options@)[x]).0,
                            ) != lower_seq(parsed.0),
                    }),
                decreases options@.len() - j,
            {
                if eq_ignore_case(options[j].keyword.as_str(), opt.keyword.as_str()) {
                    proof {
                        lemma_built_index_at(options_view(options@), parsed.0, j as int);
                    }
                    found = Some(j);
                }
                j = j + 1;
            }
            let ghost before = options_view(options@);
            proof {
                assert(gws.take(i + 1).drop_last() =~= gws.take(i as int));
                assert(gws.take(i + 1).last() == gws[i as int]);
            }
            match found {
                Some(f) => {
                    let _ = options.remove(f);
                    options.insert(f, opt);
                    proof {
                        assert(options_view(options@) =~= before.update(
                            f as int,
                            parsed,
                        ));
                    }
                },
                None => {
                    proof {
                        lemma_built_index_none(before, parsed.0);
                    }
                    options.push(opt);
                    proof {
                        assert(options_view(options@) =~= before.push(parsed));
                    }
                },
            }
            i = i + 1;
        }
        proof {
            assert(gws.take(n as int) =~= gws);
        }

        let mut votes: Vec<u64> = Vec::new();
        let m = options.len();
        let mut k: usize = 0;
        while k < m
            invariant
                0 <= k <= m,
                votes@.len() == k,
                forall|x: int| 0 <= x < k ==> votes@[x] == 0,
            decreases m - k,
        {
            votes.push(0);
            k = k + 1;
        }

        ActivePoll {
            question,
            created_at_ms,
            options,
            voted: MemberSet::new(),
            votes,
        }
    }

    /// Collects one message as a possible vote: a user who has already
    /// voted is ignored; otherwise the first trimmed word that names an
    /// option casts that user's vote for it.
    pub fn peek(&mut self, login: &str, message: &str)
        requires
            old(self).wf(),
        ensures
            final(self).wf(),
            final(self).options@ == old(self).options@,
            final(self).question == old(self).question,
            final(self).created_at_ms == old(self).created_at_ms,
            ({
                let w = voted_option(words_of(message@), old(self).options@);
                if old(self).voted@.contains(login@) || w < 0 {
                    &&& final(self).votes@ == old(self).votes@
                    &&& final(self).voted@ =~= old(self).voted@
                } else {
                    &&& final(self).voted@ =~= old(self).voted@.insert(login@)
                    &&& final(self).votes@.len() == old(self).votes@.len()
                    &&& forall|k: int|
                        0 <= k < old(self).votes@.len() && k != w ==> final(self).votes@[k]
                            == old(self).votes@[k]
                    &&& final(self).votes@[w] == (if old(self).votes@[w] < u64::MAX {
                        old(self).votes@[w] + 1
                    } else {
                        old(self).votes@[w] as int
                    })
                }
            }),
    {
        if self.voted.contains(login) {
            return;
        }

        let ghost gopts = self.options@;
        let ws = words(message);
        let ghost gws = words_of(message@);
        let n = ws.len();
        let mut i: usize = 0;
        while i < n
            invariant
                0 <= i <= n,
                n == gws.len(),
                ws@.map_values(|w: String| w@) == gws,
                gopts == self.options@,
                gws == words_of(message@),
                *self == *old(self),
                old(self).wf(),
                !old(self).voted@.contains(login@),
                forall|k: int|
                    0 <= k < i ==> option_index(gopts, trim_punct(#[trigger] gws[k])) < 0,
            decreases n - i,
        {
            proof {
                assert(ws@[i as int]@ == gws[i as int]);
            }
            let tw = trim_word(ws[i].as_str());

            let m = self.options.len();
            let mut j: usize = 0;
            let mut hit: Option<usize> = None;
            while j < m && hit.is_none()
                invariant
                    0 <= j <= m,
                    m == gopts.len(),
                    gopts == self.options@,
                    tw@ == trim_punct(gws[i as int]),
                    i < gws.len(),
                    (match hit {
                        Some(h) => h < m && option_index(gopts, trim_punct(gws[i as int]))
                            == h as int,
                        None => forall|k: int|
                            0 <= k < j ==> lower_seq(gopts[k].keyword@) != lower_seq(
                                trim_punct(gws[i as int]),
                            ),
                    }),
                decreases m - j,
            {
                if eq_ignore_case(self.options[j].keyword.as_str(), tw.as_str()) {
                    proof {
                        lemma_option_index_at(gopts, trim_punct(gws[i as int]), j as int);
                    }
                    hit = Some(j);
                }
                j = j + 1;
            }

            match hit {
                Some(h) => {
                    proof {
                        lemma_voted_option_at(gws, gopts, i as int);
                        assert(voted_option(gws, gopts) == h as int);
                        assert(self.votes@.len() == gopts.len());
                    }
                    let c = self.votes[h];
                    if c < u64::MAX {
                        self.votes.set(h, c + 1);
                    }
                    self.voted.insert(String::from_str(login));
                    return;
                },
                None => {
                    proof {
                        lemma_option_index_none(gopts, trim_punct(gws[i as int]));
                    }
                },
            }
            i = i + 1;
        }
        proof {
            lemma_voted_option_none(gws, gopts);
        }
    }

    /// Closes the poll: each option becomes one result pair, its label
    /// (the description, or the keyword when it has none) with its own
    /// count, sorted by count, largest first.
    pub fn close(&self) -> (r: Vec<(String, u64)>)
        requires
            self.wf(),
        ensures
            r@.len() == self.options@.len(),
            forall|i: int, j: int| 0 <= i < j < r@.len() ==> r@[i].1 >= r@[j].1,
            r@.to_multiset() == poll_entries(*self).to_multiset(),
    {
        let mut results: Vec<(String, u64)> = Vec::new();
        let n = self.options.len();
        let mut i: usize = 0;
        while i < n
            invariant
                0 <= i <= n,
                n == self.options@.len(),
                self.votes@.len() == n,
                results@.len() == i,
                forall|k: int| 0 <= k < i ==> #[trigger] results@[k] == poll_entries(*self)[k],
            decreases n - i,
        {
            let label = match &self.options[i].description {
                Some(d) => d.clone(),
                None => self.options[i].keyword.clone(),
            };
            results.push((label, self.votes[i]));
            i = i + 1;
        }
        proof {
            assert(results@ =~= poll_entries(*self));
        }

        // insertion sort, largest count first
        let mut sorted: Vec<(String, u64)> = Vec::new();
        let mut k: usize = 0;
        let ghost unsorted = results@;
        proof {
            assert(sorted@ =~= unsorted.take(0));
        }
        while k < results.len()
            invariant
                0 <= k <= results@.len(),
                results@ == unsorted,
                sorted@.len() == k,
                forall|a: int, b: int| 0 <= a < b < sorted@.len() ==> sorted@[a].1 >= sorted@[b].1,
                sorted@.to_multiset() == unsorted.take(k as int).to_multiset(),
            decreases results@.len() - k,
        {
            let item = (results[k].0.clone(), results[k].1);
            proof {
                assert(item == unsorted[k as int]);
            }
            let mut pos: usize = 0;
            while pos < sorted.len() && sorted[pos].1 >= item.1
                invariant
                    0 <= pos <= sorted@.len(),
                    forall|a: int| 0 <= a < pos ==> (#[trigger] sorted@[a]).1 >= item.1,
                decreases sorted@.len() - pos,
            {
                pos = pos + 1;
            }
            let ghost presorted = sorted@;
            sorted.insert(pos, item);
            proof {
                broadcast use vstd::seq_lib::group_to_multiset_ensures;

                assert(forall|a: int|
                    pos <= a < presorted.len() ==> (#[trigger] presorted[a]).1 <= item.1);
                assert(sorted@ =~= presorted.insert(pos as int, item));
                lemma_insert_pair_multiset(presorted, item, pos as int);
                assert(unsorted.take(k + 1) =~= unsorted.take(k as int).push(unsorted[k as int]));
            }
            k = k + 1;
        }
        proof {
            assert(unsorted.take(results@.len() as int) =~= unsorted);
        }
        sorted
    }
}

/// The label a result line carries for one option: its description, or
/// its keyword when it has none.
pub open spec fn option_label(o: PollOption) -> String {
    match o.description {
        Some(d) => d,
        None => o.keyword,
    }
}

/// The result pairs a closing poll reports, one per option in option
/// order: the option's label with its own count.
pub open spec fn poll_entries(p: ActivePoll) -> Seq<(String, u64)> {
    Seq::new(p.options@.len(), |k: int| (option_label(p.options@[k]), p.votes@[k]))
}

/// Inserting a pair at any position adds exactly it to the sequence's
/// multiset.
proof fn lemma_insert_pair_multiset(s: Seq<(String, u64)>, item: (String, u64), pos: int)
    requires
        0 <= pos <= s.len(),
    ensures
        s.insert(pos, item).to_multiset() == s.to_multiset().insert(item),
{
    broadcast use vstd::seq_lib::group_to_multiset_ensures;

    let t = s.insert(pos, item);
    assert(t.remove(pos) =~= s);
    assert(t[pos] == item);
    assert(s.to_multiset() =~= t.to_multiset().remove(item));
    assert(t.contains(item));
    assert(t.to_multiset().count(item) > 0);
    assert(t.to_multiset() =~= t.to_multiset().remove(item).insert(item));
}

/// The wording of one count: "no votes", "one vote", or "`n` votes".
pub open spec fn votes_text_spec(n: int) -> Seq<char> {
    if n == 0 {
        "no votes"@
    } else if n == 1 {
        "one vote"@
    } else {
        crate::text::dec_spec(n) + " votes"@
    }
}

/// Renders one count in words.
pub fn votes_text(n: u64) -> (r: String)
    ensures
        r@ == votes_text_spec(n as int),
{
    proof {
        reveal_strlit("no votes");
        reveal_strlit("one vote");
        reveal_strlit(" votes");
    }
    if n == 0 {
        String::from_str("no votes")
    } else if n == 1 {
        String::from_str("one vote")
    } else {
        let mut s = crate::text::u64_to_dec(n);
        s.append(" votes");
        s
    }
}

/// The sum of all counts.
pub open spec fn total_votes(results: Seq<(String, u64)>) -> int
    decreases results.len(),
{
    if results.len() == 0 {
        0
    } else {
        total_votes(results.drop_last()) + results.last().1
    }
}

proof fn lemma_total_votes_take(results: Seq<(String, u64)>, j: int)
    requires
        0 <= j <= results.len(),
    ensures
        0 <= total_votes(results.take(j)) <= total_votes(results),
    decreases results.len() - j,
{
    if j == results.len() {
        assert(results.take(j) =~= results);
        lemma_total_votes_bounds(results);
    } else {
        assert(results.take(j + 1).drop_last() =~= results.take(j));
        assert(results.take(j + 1).last() == results[j]);
        lemma_total_votes_take(results, j + 1);
        lemma_total_votes_bounds(results.take(j));
    }
}

proof fn lemma_total_votes_bounds(results: Seq<(String, u64)>)
    ensures
        total_votes(results) >= 0,
        forall|k: int| 0 <= k < results.len() ==> (#[trigger] results[k]).1 <= total_votes(results),
    decreases results.len(),
{
    if results.len() > 0 {
        lemma_total_votes_bounds(results.drop_last());
        assert forall|k: int|
            0 <= k < results.len() implies (#[trigger] results[k]).1 <= total_votes(results) by {
            if k < results.len() - 1 {
                assert(results.drop_last()[k] == results[k]);
            }
        }
    }
}

/// One result rendered for the closing report:
/// "`label` = `count in words` (`share`%)".
pub open spec fn poll_part_spec(label: Seq<char>, count: int, total: int) -> Seq<char> {
    label + " = "@ + votes_text_spec(count) + " ("@ + crate::text::dec_spec(
        if total == 0 {
            0
        } else {
            (count * 100) / total
        },
    ) + "%)"@
}

/// All results rendered for the closing report.
pub open spec fn poll_parts_spec(results: Seq<(String, u64)>, total: int) -> Seq<Seq<char>> {
    Seq::new(results.len(), |k: int| poll_part_spec(results[k].0@, results[k].1 as int, total))
}

/// The line of the closing report: the rendered results joined with
/// commas after the question.
pub fn format_poll_results(question: &str, results: &Vec<(String, u64)>) -> (r: String)
    requires
        total_votes(results@) <= u64::MAX,
    ensures
        r@ == question@ + " -> "@ + crate::format::join_sep(
            poll_parts_spec(results@, total_votes(results@)),
            ", "@,
        ) + "."@,
{
    proof {
        reveal_strlit(" -> ");
        reveal_strlit(" -> .");
        reveal_strlit(".");
        lemma_total_votes_bounds(results@);
    }
    let n = results.len();

    let mut total: u64 = 0;
    let mut i: usize = 0;
    while i < n
        invariant
            0 <= i <= n,
            n == results@.len(),
            total == total_votes(results@.take(i as int)),
            total_votes(results@) <= u64::MAX,
        decreases n - i,
    {
        proof {
            assert(results@.take(i + 1).drop_last() =~= results@.take(i as int));
            assert(results@.take(i + 1).last() == results@[i as int]);
            lemma_total_votes_take(results@, i as int);
            lemma_total_votes_take(results@, i + 1);
        }
        total = total + results[i].1;
        i = i + 1;
    }
    proof {
        assert(results@.take(n as int) =~= results@);
    }

    let mut parts: Vec<String> = Vec::new();
    let mut i: usize = 0;
    while i < n
        invariant
            0 <= i <= n,
            n == results@.len(),
            parts@.len() == i,
            total == total_votes(results@),
            crate::format::lines_view(parts@) =~= poll_parts_spec(
                results@,
                total as int,
            ).take(i as int),
            forall|k: int|
                0 <= k < results@.len() ==> (#[trigger] results@[k]).1 <= total_votes(results@),
        decreases n - i,
    {
        let (label, count) = (&results[i].0, results[i].1);
        let p = percentage(count, total);
        let mut part = label.clone();
        part.append(" = ");
        let vt = votes_text(count);
        part.append(vt.as_str());
        part.append(" (");
        let pd = crate::text::u64_to_dec(p);
        part.append(pd.as_str());
        part.append("%)");
        proof {
            reveal_strlit(" = ");
            reveal_strlit(" (");
            reveal_strlit("%)");
            assert(part@ =~= poll_part_spec(
                results@[i as int].0@,
                results@[i as int].1 as int,
                total as int,
            ));
        }
        parts.push(part);
        i = i + 1;
    }

    let mut out = String::from_str(question);
    out.append(" -> ");
    let joined = crate::format::join_with(&parts, ", ");
    out.append(joined.as_str());
    out.append(".");
    proof {
        assert(crate::format::lines_view(parts@) =~= poll_parts_spec(results@, total as int));
        assert(out@ =~= question@ + " -> "@ + crate::format::join_sep(
            poll_parts_spec(results@, total_votes(results@)),
            ", "@,
        ) + "."@);
    }
    out
}

/// The set of running polls, each under the hook id its vote collector
/// was registered with.
pub struct PollSet {
    pub polls: Vec<(u64, ActivePoll)>,
}

/// Index of the poll registered under `id`, or -1.
pub open spec fn poll_index(polls: Seq<(u64, ActivePoll)>, id: u64) -> int
    decreases polls.len(),
{
    if polls.len() == 0 {
        -1
    } else if polls[0].0 == id {
        0
    } else {
        let r = poll_index(polls.drop_first(), id);
        if r < 0 {
            -1
        } else {
            r + 1
        }
    }
}

proof fn lemma_poll_index_at(polls: Seq<(u64, ActivePoll)>, id: u64, j: int)
    requires
        0 <= j < polls.len(),
        polls[j].0 == id,
        forall|k: int| 0 <= k < j ==> (#[trigger] polls[k]).0 != id,
    ensures
        poll_index(polls, id) == j,
    decreases polls.len(),
{
    if j > 0 {
        lemma_poll_index_at(polls.drop_first(), id, j - 1);
    }
}

proof fn lemma_poll_index_none(polls: Seq<(u64, ActivePoll)>, id: u64)
    requires
        forall|k: int| 0 <= k < polls.len() ==> (#[trigger] polls[k]).0 != id,
    ensures
        poll_index(polls, id) == -1,
    decreases polls.len(),
{
    if polls.len() > 0 {
        lemma_poll_index_none(polls.drop_first(), id);
    }
}

impl PollSet {
    pub fn new() -> (r: PollSet)
        ensures
            r.polls@.len() == 0,
    {
        PollSet { polls: Vec::new() }
    }

    /// Registers a started poll under its hook id.
    pub fn insert(&mut self, id: u64, poll: ActivePoll)
        ensures
            final(self).polls@ == old(self).polls@.push((id, poll)),
    {
        self.polls.push((id, poll));
    }

    /// The id of the most recently started poll: the one a bare `close`
    /// closes. Of equally old polls the earliest registered wins.
    pub fn latest(&self) -> (r: Option<u64>)
        ensures
            (match r {
                Some(id) => exists|i: int|
                    {
                        &&& 0 <= i < self.polls@.len()
                        &&& (#[trigger] self.polls@[i]).0 == id
                        &&& forall|j: int|
                            0 <= j < self.polls@.len() ==> (#[trigger] self.polls@[j]).1.created_at_ms
                                <= self.polls@[i].1.created_at_ms
                    },
                None => self.polls@.len() == 0,
            }),
    {
        if self.polls.len() == 0 {
            return None;
        }
        let mut best: usize = 0;
        let mut i: usize = 1;
        while i < self.polls.len()
            invariant
                1 <= i <= self.polls@.len(),
                0 <= best < i,
                forall|j: int|
                    0 <= j < i ==> (#[trigger] self.polls@[j]).1.created_at_ms
                        <= self.polls@[best as int].1.created_at_ms,
            decreases self.polls@.len() - i,
        {
            if self.polls[i].1.created_at_ms > self.polls[best].1.created_at_ms {
                best = i;
            }
            i = i + 1;
        }
        Some(self.polls[best].0)
    }

    /// Removes and returns the poll registered under `id`.
    pub fn remove(&mut self, id: u64) -> (r: Option<ActivePoll>)
        ensures
            (match r {
                Some(p) => {
                    let i = poll_index(old(self).polls@, id);
                    &&& i >= 0
                    &&& p == old(self).polls@[i].1
                    &&& final(self).polls@ == old(self).polls@.remove(i)
                },
                None => {
                    &&& poll_index(old(self).polls@, id) == -1
                    &&& final(self).polls@ == old(self).polls@
                },
            }),
    {
        let mut i: usize = 0;
        while i < self.polls.len()
            invariant
                0 <= i <= self.polls@.len(),
                *self == *old(self),
                forall|k: int| 0 <= k < i ==> (#[trigger] self.polls@[k]).0 != id,
            decreases self.polls@.len() - i,
        {
            if self.polls[i].0 == id {
                proof {
                    lemma_poll_index_at(self.polls@, id, i as int);
                }
                let (_, poll) = self.polls.remove(i);
                return Some(poll);
            }
            i = i + 1;
        }
        proof {
            lemma_poll_index_none(self.polls@, id);
        }
        None
    }
}

/// What the poll command decided to do.
pub enum PollCommand {
    /// Start a poll over the given question and option words.
    Run { question: String, options: String },
    /// Close the poll with the given id.
    CloseId { id: u64 },
    /// Close the most recently started poll.
    CloseLatest,
    /// A close with an unparsable id: report it.
    BadId { id: String },
    /// No recognized subcommand: report the available ones.
    Usage,
}

/// Decides the poll command: `run <question> <options...>` starts a
/// poll; `close [id]` closes the given poll, or the latest when no id
/// is given; anything else reports the usage.
pub fn poll_decide(args: &str) -> (r: PollCommand)
    ensures
        ({
            let ws = crate::text::words_of(args@);
            if ws.len() >= 2 && ws[0] == "run"@ {
                r matches PollCommand::Run { question, options } && question@ == ws[1]
                    && options@ == crate::text::after_leading_word(
                    crate::text::after_leading_word(args@),
                )
            } else if ws.len() >= 1 && ws[0] == "run"@ {
                r is Usage
            } else if ws.len() >= 1 && ws[0] == "close"@ {
                if ws.len() == 1 {
                    r is CloseLatest
                } else if crate::text::u64_parseable(ws[1]) {
                    r matches PollCommand::CloseId { id } && id == crate::text::dec_value(ws[1])
                } else {
                    r matches PollCommand::BadId { id } && id@ == ws[1]
                }
            } else {
                r is Usage
            }
        }),
{
    proof {
        reveal_strlit("run");
        reveal_strlit("close");
    }
    let split = crate::text::split_leading_word(args);
    let (sub, rest) = match split {
        Some(p) => p,
        None => {
            return PollCommand::Usage;
        },
    };
    proof {
        assert(crate::text::words_of(args@)[0] == sub@);
    }

    if crate::text::str_eq(sub.as_str(), "run") {
        let split2 = crate::text::split_leading_word(rest.as_str());
        let (question, options) = match split2 {
            Some(p) => p,
            None => {
                proof {
                    assert(crate::text::words_of(args@) =~= seq![sub@] + crate::text::words_of(
                        rest@,
                    ));
                    assert(crate::text::words_of(rest@) =~= Seq::<Seq<char>>::empty());
                    assert(crate::text::words_of(args@).len() == 1);
                }
                return PollCommand::Usage;
            },
        };
        proof {
            assert(crate::text::words_of(args@) =~= seq![sub@] + crate::text::words_of(rest@));
            assert(crate::text::words_of(rest@) =~= seq![question@] + crate::text::words_of(
                crate::text::after_leading_word(rest@),
            ));
            assert(crate::text::words_of(args@).len() >= 2);
            assert(crate::text::words_of(args@)[1] == question@);
        }
        return PollCommand::Run { question, options };
    }

    if crate::text::str_eq(sub.as_str(), "close") {
        let split2 = crate::text::split_leading_word(rest.as_str());
        let (id_text, _tail) = match split2 {
            Some(p) => p,
            None => {
                proof {
                    assert(crate::text::words_of(args@) =~= seq![sub@] + crate::text::words_of(
                        rest@,
                    ));
                    assert(crate::text::words_of(rest@) =~= Seq::<Seq<char>>::empty());
                    assert(crate::text::words_of(args@).len() == 1);
                }
                return PollCommand::CloseLatest;
            },
        };
        proof {
            assert(crate::text::words_of(args@) =~= seq![sub@] + crate::text::words_of(rest@));
            assert(crate::text::words_of(rest@) =~= seq![id_text@] + crate::text::words_of(
                crate::text::after_leading_word(rest@),
            ));
            assert(crate::text::words_of(args@).len() >= 2);
            assert(crate::text::words_of(args@)[1] == id_text@);
        }
        match crate::text::parse_u64(id_text.as_str()) {
            Some(id) => {
                return PollCommand::CloseId { id };
            },
            None => {
                return PollCommand::BadId { id: id_text };
            },
        }
    }

    PollCommand::Usage
}

/// The percentage one count makes of a total; zero of nothing is zero.
pub fn percentage(votes: u64, total: u64) -> (r: u64)
    requires
        votes <= total,
    ensures
        total == 0 ==> r == 0,
        total > 0 ==> r == (votes * 100) / (total as int),
        r <= 100,
{
    if total == 0 {
        0
    } else {
        let wide = (votes as u128) * 100;
        proof {
            assert((votes as int * 100) / (total as int) <= 100) by (nonlinear_arith)
                requires
                    votes <= total,
                    total >= 1,
            ;
            assert((votes as int * 100) / (total as int) >= 0) by (nonlinear_arith)
                requires
                    votes >= 0,
                    total >= 1,
            ;
        }
        (wide / (total as u128)) as u64
    }
}

} // verus!
