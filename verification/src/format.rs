//! Response formatting: partitioning a sequence of display items into
//! protocol-safe lines of bounded width.

use vstd::prelude::*;

verus! {

use crate::text::dec_spec;
use crate::text::u64_to_dec;

/// The views of a vector of lines.
pub open spec fn lines_view(v: Seq<String>) -> Seq<Seq<char>> {
    v.map_values(|s: String| s@)
}

/// An over-wide item cut down to fit a line of `width` characters: its
/// first `width - 3` characters (fewer when the item is shorter) with an
/// ellipsis appended.
pub open spec fn truncated(item: Seq<char>, width: int) -> Seq<char> {
    let cut = if item.len() <= width - 3 {
        item.len() as int
    } else {
        width - 3
    };
    item.take(cut) + seq!['.', '.', '.']
}

/// The lines produced from `items[i..]`, greedily packed, with `cur`
/// the line being accumulated (`started` says whether it holds anything,
/// an empty first item included). An accumulation that is still empty
/// when its line closes is dropped: no empty line is ever produced.
pub open spec fn partition_from(
    items: Seq<Seq<char>>,
    i: int,
    cur: Seq<char>,
    started: bool,
    width: int,
    sep: Seq<char>,
) -> Seq<Seq<char>>
    decreases items.len() - i, (if started { 1int } else { 0int }) when 0 <= i <= items.len()
{
    if i >= items.len() {
        if started && cur.len() > 0 {
            seq![cur]
        } else {
            Seq::<Seq<char>>::empty()
        }
    } else if !started {
        if items[i].len() <= width {
            partition_from(items, i + 1, items[i], true, width, sep)
        } else {
            seq![truncated(items[i], width)] + partition_from(
                items,
                i + 1,
                Seq::<char>::empty(),
                false,
                width,
                sep,
            )
        }
    } else if cur.len() + sep.len() + items[i].len() <= width {
        partition_from(items, i + 1, cur + sep + items[i], true, width, sep)
    } else {
        (if cur.len() > 0 {
            seq![cur]
        } else {
            Seq::<Seq<char>>::empty()
        }) + partition_from(items, i, Seq::<char>::empty(), false, width, sep)
    }
}

/// The lines produced by partitioning `items` at width `width` with the
/// separator `sep`: items accumulate into a line while they fit; an item
/// that does not fit an empty line is truncated onto a line of its own.
pub open spec fn partition_spec(items: Seq<Seq<char>>, width: int, sep: Seq<char>) -> Seq<
    Seq<char>,
> {
    partition_from(items, 0, Seq::<char>::empty(), false, width, sep)
}

/// Partitions display items into protocol-safe lines.
pub fn partition_response(items: &Vec<String>, width: usize, sep: &str) -> (lines: Vec<String>)
    requires
        3 <= width,
        width + sep@.len() <= usize::MAX,
    ensures
        lines_view(lines@) == partition_spec(lines_view(items@), width as int, sep@),
{
    let ghost gitems = lines_view(items@);
    let mut out: Vec<String> = Vec::new();
    let mut cur = String::new();
    let mut started = false;
    let mut i: usize = 0;

    while i < items.len()
        invariant
            0 <= i <= items@.len(),
            gitems == lines_view(items@),
            3 <= width,
            width + sep@.len() <= usize::MAX,
            started ==> cur@.len() <= width,
            !started ==> cur@ =~= Seq::<char>::empty(),
            partition_spec(gitems, width as int, sep@) == lines_view(out@) + partition_from(
                gitems,
                i as int,
                cur@,
                started,
                width as int,
                sep@,
            ),
        decreases items@.len() - i, (if started { 1int } else { 0int }),
    {
        let item = &items[i];
        let item_len = item.as_str().unicode_len();

        if !started {
            if item_len <= width {
                cur = item.clone();
                started = true;
                i = i + 1;
            } else {
                let cut = width - 3;
                let head = item.as_str().substring_char(0, cut);
                let line = String::from_str(head).concat("...");
                proof {
                    reveal_strlit("...");
                    assert(line@ =~= truncated(gitems[i as int], width as int));
                }
                let ghost old_out = out@;
                out.push(line);
                i = i + 1;
                proof {
                    assert(lines_view(out@) =~= lines_view(old_out) + seq![line@]);
                    assert((lines_view(old_out) + seq![line@]) + partition_from(
                        gitems,
                        i as int,
                        cur@,
                        false,
                        width as int,
                        sep@,
                    ) =~= lines_view(old_out) + (seq![line@] + partition_from(
                        gitems,
                        i as int,
                        cur@,
                        false,
                        width as int,
                        sep@,
                    )));
                }
            }
        } else {
            let cur_len = cur.as_str().unicode_len();
            let sep_len = sep.unicode_len();
            let fits = item_len <= width && cur_len + sep_len <= width - item_len;

            if fits {
                cur.append(sep);
                cur.append(item.as_str());
                i = i + 1;
            } else {
                let ghost finished_view = cur@;
                let ghost old_out = out@;
                let finished = cur;
                cur = String::new();
                started = false;
                if finished.as_str().unicode_len() > 0 {
                    out.push(finished);
                    proof {
                        assert(lines_view(out@) =~= lines_view(old_out) + seq![finished_view]);
                        assert((lines_view(old_out) + seq![finished_view]) + partition_from(
                            gitems,
                            i as int,
                            cur@,
                            false,
                            width as int,
                            sep@,
                        ) =~= lines_view(old_out) + (seq![finished_view] + partition_from(
                            gitems,
                            i as int,
                            cur@,
                            false,
                            width as int,
                            sep@,
                        )));
                    }
                }
                proof {
                    assert(partition_from(
                        gitems,
                        i as int,
                        finished_view,
                        true,
                        width as int,
                        sep@,
                    ) == (if finished_view.len() > 0 {
                        seq![finished_view]
                    } else {
                        Seq::<Seq<char>>::empty()
                    }) + partition_from(
                        gitems,
                        i as int,
                        Seq::<char>::empty(),
                        false,
                        width as int,
                        sep@,
                    ));
                    if finished_view.len() == 0 {
                        assert(lines_view(out@) + partition_from(
                            gitems,
                            i as int,
                            cur@,
                            false,
                            width as int,
                            sep@,
                        ) =~= lines_view(old_out) + (Seq::<Seq<char>>::empty() + partition_from(
                            gitems,
                            i as int,
                            cur@,
                            false,
                            width as int,
                            sep@,
                        )));
                    }
                }
            }
        }
    }

    if started && cur.as_str().unicode_len() > 0 {
        out.push(cur);
        proof {
            assert(lines_view(out@) =~= lines_view(out@.drop_last()) + seq![out@.last()@]);
        }
    }

    proof {
        assert(lines_view(out@) =~= lines_view(out@) + Seq::<Seq<char>>::empty());
    }
    out
}

/// Every produced line holds something and fits the width: the
/// formatter never yields an empty line nor one longer than `width`.
pub proof fn lemma_partition_lines_bounded(
    items: Seq<Seq<char>>,
    i: int,
    cur: Seq<char>,
    started: bool,
    width: int,
    sep: Seq<char>,
)
    requires
        3 <= width,
        0 <= i <= items.len(),
        started ==> cur.len() <= width,
    ensures
        forall|k: int|
            0 <= k < partition_from(items, i, cur, started, width, sep).len() ==> 1 <= (
            #[trigger] partition_from(items, i, cur, started, width, sep)[k]).len() <= width,
    decreases items.len() - i, (if started { 1int } else { 0int }),
{
    let lines = partition_from(items, i, cur, started, width, sep);
    if i >= items.len() {
    } else if !started {
        if items[i].len() <= width {
            lemma_partition_lines_bounded(items, i + 1, items[i], true, width, sep);
            let rest = partition_from(items, i + 1, items[i], true, width, sep);
            assert(lines == rest);
            assert forall|k: int| 0 <= k < lines.len() implies 1 <= (#[trigger] lines[k]).len()
                <= width by {
                assert(lines[k] == rest[k]);
                assert(1 <= rest[k].len() <= width);
            }
        } else {
            lemma_partition_lines_bounded(items, i + 1, Seq::<char>::empty(), false, width, sep);
            assert(truncated(items[i], width).len() == width);
            let rest = partition_from(items, i + 1, Seq::<char>::empty(), false, width, sep);
            assert forall|k: int| 0 <= k < lines.len() implies 1 <= (#[trigger] lines[k]).len()
                <= width by {
                if k > 0 {
                    assert(lines[k] == rest[k - 1]);
                    assert(1 <= rest[k - 1].len() <= width);
                } else {
                    assert(lines[0] == truncated(items[i], width));
                }
            }
        }
    } else if cur.len() + sep.len() + items[i].len() <= width {
        lemma_partition_lines_bounded(items, i + 1, cur + sep + items[i], true, width, sep);
        let rest = partition_from(items, i + 1, cur + sep + items[i], true, width, sep);
        assert(lines == rest);
        assert forall|k: int| 0 <= k < lines.len() implies 1 <= (#[trigger] lines[k]).len()
            <= width by {
            assert(lines[k] == rest[k]);
            assert(1 <= rest[k].len() <= width);
        }
    } else {
        lemma_partition_lines_bounded(items, i, Seq::<char>::empty(), false, width, sep);
        let head: Seq<Seq<char>> = if cur.len() > 0 {
            seq![cur]
        } else {
            Seq::<Seq<char>>::empty()
        };
        let rest = partition_from(items, i, Seq::<char>::empty(), false, width, sep);
        assert forall|k: int| 0 <= k < lines.len() implies 1 <= (#[trigger] lines[k]).len()
            <= width by {
            if k >= head.len() {
                assert(lines[k] == rest[k - head.len()]);
                assert(1 <= rest[k - head.len()].len() <= width);
            } else {
                assert(lines[k] == cur);
            }
        }
    }
}

/// Every line of a partition holds something and fits the width.
pub proof fn lemma_partition_spec_lines_bounded(items: Seq<Seq<char>>, width: int, sep: Seq<char>)
    requires
        3 <= width,
    ensures
        forall|k: int|
            0 <= k < partition_spec(items, width, sep).len() ==> 1 <= (#[trigger] partition_spec(
                items,
                width,
                sep,
            )[k]).len() <= width,
{
    lemma_partition_lines_bounded(items, 0, Seq::<char>::empty(), false, width, sep);
}

/// The items joined into a single line with `sep` between them.
pub open spec fn join_sep(items: Seq<Seq<char>>, sep: Seq<char>) -> Seq<char>
    decreases items.len(),
{
    if items.len() == 0 {
        Seq::<char>::empty()
    } else if items.len() == 1 {
        items[0]
    } else {
        join_sep(items.drop_last(), sep) + sep + items.last()
    }
}

/// The width of a protocol-safe response line.
pub const RESPONSE_WIDTH: usize = 360;

/// Renders a result set for a user at the protocol width, with ` | `
/// between items.
pub fn respond_lines(items: &Vec<String>, empty: &str) -> (r: String)
    ensures
        r@ == response_lines_spec(lines_view(items@), RESPONSE_WIDTH as int, " | "@, empty@),
{
    proof {
        broadcast use vstd::string::group_string_axioms;

        reveal_strlit(" | ");
        assert(" | "@.len() == 3);
    }
    render_response_lines(items, RESPONSE_WIDTH, " | ", empty)
}

/// Joins the items into one string with `sep` between them.
pub fn join_with(items: &Vec<String>, sep: &str) -> (r: String)
    ensures
        r@ == join_sep(lines_view(items@), sep@),
{
    let mut r = String::new();
    let n = items.len();
    let mut i: usize = 0;
    while i < n
        invariant
            0 <= i <= n,
            n == items@.len(),
            r@ == join_sep(lines_view(items@).take(i as int), sep@),
        decreases n - i,
    {
        if i > 0 {
            r.append(sep);
        }
        r.append(items[i].as_str());
        i = i + 1;
        proof {
            if i == 1 {
                assert(lines_view(items@).take(1).len() == 1);
                assert(lines_view(items@).take(1)[0] == items@[0]@);
            } else {
                lemma_join_take_succ(lines_view(items@), sep@, i - 1);
            }
        }
    }
    proof {
        if n == 0 {
            assert(lines_view(items@).take(0) =~= Seq::<Seq<char>>::empty());
        }
        assert(lines_view(items@).take(n as int) =~= lines_view(items@));
    }
    r
}

proof fn lemma_join_take_succ(items: Seq<Seq<char>>, sep: Seq<char>, k: int)
    requires
        1 <= k < items.len(),
    ensures
        join_sep(items.take(k + 1), sep) == join_sep(items.take(k), sep) + sep + items[k],
{
    assert(items.take(k + 1).drop_last() =~= items.take(k));
    assert(items.take(k + 1).last() == items[k]);
}

proof fn lemma_join_take_len_mono(items: Seq<Seq<char>>, sep: Seq<char>, k: int)
    requires
        1 <= k <= items.len(),
    ensures
        join_sep(items.take(k), sep).len() <= join_sep(items, sep).len(),
    decreases items.len() - k,
{
    if k == items.len() {
        assert(items.take(k) =~= items);
    } else {
        lemma_join_take_succ(items, sep, k);
        lemma_join_take_len_mono(items, sep, k + 1);
    }
}

proof fn lemma_partition_fits_from(items: Seq<Seq<char>>, sep: Seq<char>, width: int, k: int)
    requires
        1 <= k <= items.len(),
        0 < join_sep(items, sep).len() <= width,
    ensures
        partition_from(items, k, join_sep(items.take(k), sep), true, width, sep) == seq![
            join_sep(items, sep),
        ],
    decreases items.len() - k,
{
    if k == items.len() {
        assert(items.take(k) =~= items);
    } else {
        lemma_join_take_succ(items, sep, k);
        lemma_join_take_len_mono(items, sep, k + 1);
        lemma_partition_fits_from(items, sep, width, k + 1);
    }
}

/// An input whose items joined with the separator fit into one line
/// (and render as something) is partitioned into exactly one line, the
/// joined input itself.
pub proof fn lemma_partition_single_line(items: Seq<Seq<char>>, width: int, sep: Seq<char>)
    requires
        items.len() > 0,
        0 < join_sep(items, sep).len() <= width,
    ensures
        partition_spec(items, width, sep) == seq![join_sep(items, sep)],
{
    lemma_join_take_len_mono(items, sep, 1);
    assert(items.take(1).len() == 1 && items.take(1)[0] == items[0]);
    assert(join_sep(items.take(1), sep) == items[0]);
    lemma_partition_fits_from(items, sep, width, 1);
}

/// Re-partitioning a line that already fits yields exactly that line.
pub proof fn lemma_partition_idempotent(line: Seq<char>, width: int, sep: Seq<char>)
    requires
        0 < line.len() <= width,
    ensures
        partition_spec(seq![line], width, sep) == seq![line],
{
    assert(join_sep(seq![line], sep) == line);
    lemma_partition_single_line(seq![line], width, sep);
}

/// An item wider than `width`, alone on its line, is truncated to a line
/// of exactly `width` characters, the appended ellipsis included.
pub proof fn lemma_partition_overwide(item: Seq<char>, width: int, sep: Seq<char>)
    requires
        3 <= width < item.len(),
    ensures
        partition_spec(seq![item], width, sep) == seq![truncated(item, width)],
        truncated(item, width).len() == width,
{
    assert(partition_from(seq![item], 1, Seq::<char>::empty(), false, width, sep) =~= Seq::<
        Seq<char>,
    >::empty());
    assert(seq![truncated(item, width)] + Seq::<Seq<char>>::empty() =~= seq![
        truncated(item, width),
    ]);
}

/// The text sent for a result set rendered to a user: the single line
/// when everything fits one line, the first line with a note of how many
/// lines are not shown otherwise, and the caller's empty-state message
/// when there is nothing to show.
pub open spec fn response_lines_spec(
    items: Seq<Seq<char>>,
    width: int,
    sep: Seq<char>,
    empty: Seq<char>,
) -> Seq<char> {
    let lines = partition_spec(items, width, sep);
    if lines.len() == 0 {
        empty
    } else if lines.len() == 1 {
        lines[0]
    } else {
        lines[0] + seq![' ', '.', '.', '.', ' '] + dec_spec(lines.len() - 1) + seq![
            ' ',
            'l',
            'i',
            'n',
            'e',
            '(',
            's',
            ')',
            ' ',
            'n',
            'o',
            't',
            ' ',
            's',
            'h',
            'o',
            'w',
            'n',
        ]
    }
}

/// Renders a result set as one response line.
pub fn render_response_lines(items: &Vec<String>, width: usize, sep: &str, empty: &str) -> (r:
    String)
    requires
        3 <= width,
        width + sep@.len() <= usize::MAX,
    ensures
        r@ == response_lines_spec(lines_view(items@), width as int, sep@, empty@),
{
    let lines = partition_response(items, width, sep);

    if lines.len() == 0 {
        return String::from_str(empty);
    }

    if lines.len() == 1 {
        let first = lines[0].clone();
        proof {
            assert(lines_view(lines@)[0] == lines@[0]@);
        }
        return first;
    }

    let not_shown = lines.len() - 1;
    let mut r = lines[0].clone();
    r.append(" ... ");
    let count = u64_to_dec(not_shown as u64);
    r.append(count.as_str());
    r.append(" line(s) not shown");
    proof {
        reveal_strlit(" ... ");
        reveal_strlit(" line(s) not shown");
        assert(lines_view(lines@)[0] == lines@[0]@);
        assert(lines_view(lines@).len() == lines@.len());
        assert(r@ =~= response_lines_spec(lines_view(items@), width as int, sep@, empty@));
    }
    r
}

} // verus!
