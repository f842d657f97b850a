//! The moderation filter: deciding whether an inbound message is deleted
//! for carrying a denylisted word or a link to a host outside the
//! whitelist. Moderators and the streamer are never filtered.

use vstd::prelude::*;

verus! {

use crate::members::MemberSet;
use crate::template::{render_spec, render_template, vars_view};
use crate::text::{
    eq_ignore_case, lower_seq, str_starts_with, trim_punct, trim_word, words, words_of,
};

/// A denylist entry: the word itself and, optionally, the explanation
/// template rendered back to the channel when the word is matched.
pub struct BadWord {
    pub word: String,
    pub why: Option<String>,
}

/// Does the trimmed word `w` match denylist entry `e` (up to case)?
pub open spec fn bad_word_hits(w: Seq<char>, e: BadWord) -> bool {
    lower_seq(trim_punct(w)) == lower_seq(e.word@)
}

/// The first denylist entry matched by any word of the message, scanned
/// word by word and, within a word, in list order.
pub open spec fn first_bad_word(ws: Seq<Seq<char>>, list: Seq<BadWord>) -> Option<(int, int)>
    decreases ws.len(),
{
    if ws.len() == 0 {
        None
    } else {
        let j = first_hit_in_list(ws[0], list);
        if j >= 0 {
            Some((0, j))
        } else {
            match first_bad_word(ws.drop_first(), list) {
                Some(p) => Some((p.0 + 1, p.1)),
                None => None,
            }
        }
    }
}

/// Index of the first denylist entry that the word hits, or -1.
pub open spec fn first_hit_in_list(w: Seq<char>, list: Seq<BadWord>) -> int
    decreases list.len(),
{
    if list.len() == 0 {
        -1
    } else if bad_word_hits(w, list[0]) {
        0
    } else {
        let r = first_hit_in_list(w, list.drop_first());
        if r < 0 {
            -1
        } else {
            r + 1
        }
    }
}

proof fn lemma_first_hit_at(w: Seq<char>, list: Seq<BadWord>, j: int)
    requires
        0 <= j < list.len(),
        bad_word_hits(w, list[j]),
        forall|k: int| 0 <= k < j ==> !bad_word_hits(w, list[k]),
    ensures
        first_hit_in_list(w, list) == j,
    decreases list.len(),
{
    if j > 0 {
        lemma_first_hit_at(w, list.drop_first(), j - 1);
    }
}

proof fn lemma_first_hit_none(w: Seq<char>, list: Seq<BadWord>)
    requires
        forall|k: int| 0 <= k < list.len() ==> !bad_word_hits(w, list[k]),
    ensures
        first_hit_in_list(w, list) == -1,
    decreases list.len(),
{
    if list.len() > 0 {
        lemma_first_hit_none(w, list.drop_first());
    }
}

proof fn lemma_first_bad_word_at(ws: Seq<Seq<char>>, list: Seq<BadWord>, i: int)
    requires
        0 <= i < ws.len(),
        first_hit_in_list(ws[i], list) >= 0,
        forall|k: int| 0 <= k < i ==> first_hit_in_list(#[trigger] ws[k], list) < 0,
    ensures
        first_bad_word(ws, list) == Some((i, first_hit_in_list(ws[i], list))),
    decreases ws.len(),
{
    if i > 0 {
        lemma_first_bad_word_at(ws.drop_first(), list, i - 1);
    }
}

proof fn lemma_first_bad_word_none(ws: Seq<Seq<char>>, list: Seq<BadWord>)
    requires
        forall|k: int| 0 <= k < ws.len() ==> first_hit_in_list(#[trigger] ws[k], list) < 0,
    ensures
        first_bad_word(ws, list) is None,
    decreases ws.len(),
{
    if ws.len() > 0 {
        lemma_first_bad_word_none(ws.drop_first(), list);
    }
}

/// The host part of a word that is a URL: what stands between the
/// scheme and the first `/`, `:`, `?` or `#`. A word without a scheme,
/// or with an empty host, is no URL.
pub open spec fn url_host(w: Seq<char>) -> Option<Seq<char>> {
    let start: int = if "http://"@.is_prefix_of(w) {
        7
    } else if "https://"@.is_prefix_of(w) {
        8
    } else {
        -1
    };
    if start < 0 {
        None
    } else {
        let e = host_end(w, start);
        if e == start {
            None
        } else {
            Some(w.subrange(start, e))
        }
    }
}

/// Index of the first host-delimiting character at or after `from`.
pub open spec fn host_end(s: Seq<char>, from: int) -> int
    decreases s.len() - from when 0 <= from <= s.len()
{
    if from >= s.len() || s[from] == '/' || s[from] == ':' || s[from] == '?' || s[from] == '#' {
        from
    } else {
        host_end(s, from + 1)
    }
}

proof fn lemma_host_end_bounds(s: Seq<char>, from: int)
    requires
        0 <= from <= s.len(),
    ensures
        from <= host_end(s, from) <= s.len(),
    decreases s.len() - from,
{
    if from < s.len() && s[from] != '/' && s[from] != ':' && s[from] != '?' && s[from] != '#' {
        lemma_host_end_bounds(s, from + 1);
    }
}

/// A message links outside the whitelist when some word of it is a URL
/// whose host (up to case) is not whitelisted.
pub open spec fn has_bad_link_spec(ws: Seq<Seq<char>>, whitelist: Set<Seq<char>>) -> bool {
    exists|i: int|
        0 <= i < ws.len() && url_host(#[trigger] ws[i]) is Some && !(exists|x: Seq<char>|
            whitelist.contains(x) && lower_seq(x) == lower_seq(url_host(ws[i])->0))
}

/// Extracts the URL host of one word, if the word is a URL.
pub fn word_url_host(w: &str) -> (r: Option<String>)
    ensures
        match r {
            Some(h) => url_host(w@) == Some(h@),
            None => url_host(w@) is None,
        },
{
    proof {
        reveal_strlit("http://");
        reveal_strlit("https://");
        broadcast use vstd::string::group_string_axioms;

        assert("http://"@.len() == 7);
        assert("https://"@.len() == 8);
    }
    let start: usize = if str_starts_with(w, "http://") {
        7
    } else if str_starts_with(w, "https://") {
        8
    } else {
        return None;
    };

    let len = w.unicode_len();
    let mut e: usize = start;
    while e < len && w.get_char(e) != '/' && w.get_char(e) != ':' && w.get_char(e) != '?'
        && w.get_char(e) != '#'
        invariant
            start <= e <= len,
            len == w@.len(),
            host_end(w@, start as int) == host_end(w@, e as int),
        decreases len - e,
    {
        e = e + 1;
    }
    proof {
        assert(host_end(w@, e as int) == e);
    }

    if e == start {
        return None;
    }
    Some(String::from_str(w.substring_char(start, e)))
}

/// Does the message link to any host outside the whitelist?
pub fn has_bad_link(message: &str, whitelist: &MemberSet) -> (r: bool)
    ensures
        r == has_bad_link_spec(words_of(message@), whitelist@),
{
    let ws = words(message);
    let ghost gws = words_of(message@);
    let n = ws.len();
    let mut i: usize = 0;
    while i < n
        invariant
            0 <= i <= n,
            n == gws.len(),
            gws == words_of(message@),
            ws@.map_values(|w: String| w@) == gws,
            forall|k: int|
                0 <= k < i ==> !(url_host(#[trigger] gws[k]) is Some && !(exists|x: Seq<char>|
                    whitelist@.contains(x) && lower_seq(x) == lower_seq(url_host(gws[k])->0))),
        decreases n - i,
    {
        proof {
            assert(ws@[i as int]@ == gws[i as int]);
        }
        match word_url_host(ws[i].as_str()) {
            Some(host) => {
                if !whitelist.contains_ci(host.as_str()) {
                    proof {
                        assert(url_host(gws[i as int]) == Some(host@));
                        assert(has_bad_link_spec(gws, whitelist@)) by {
                            assert(0 <= i < gws.len() && url_host(#[trigger] gws[i as int])
                                is Some && !(exists|x: Seq<char>|
                                whitelist@.contains(x) && lower_seq(x) == lower_seq(
                                    url_host(gws[i as int])->0,
                                )));
                        }
                    }
                    return true;
                }
            },
            None => {},
        }
        i = i + 1;
    }
    false
}

/// The verdict of the moderation filter for one message.
pub enum Verdict {
    /// The message stays.
    Keep,
    /// Delete: a denylisted word was matched; when its entry carries an
    /// explanation template, the rendered explanation is sent first.
    BadWord { why: Option<String> },
    /// Delete: the message links outside the whitelist.
    BadLink,
}

/// The bindings an explanation template is rendered against.
pub open spec fn why_bindings_spec(sender: Option<Seq<char>>, target: Seq<char>) -> Seq<
    (Seq<char>, Seq<char>),
> {
    seq![
        ("name"@, if sender is Some { sender->0 } else { Seq::<char>::empty() }),
        ("target"@, target),
    ]
}

/// Decides whether the message is deleted. An exempt sender (a
/// moderator or the streamer) says what they want. Otherwise, with the
/// bad-word filter enabled, the first denylisted word marks the message
/// for deletion, with its explanation rendered; else, with
/// URL-whitelist enforcement enabled and no bypass scope, a link to a
/// host outside the whitelist marks it for deletion.
pub fn moderate(
    message: &str,
    exempt: bool,
    bad_words_enabled: bool,
    denylist: &Vec<BadWord>,
    url_whitelist_enabled: bool,
    bypass_url_whitelist: bool,
    whitelist: &MemberSet,
    sender: Option<&String>,
    target: &str,
) -> (r: Verdict)
    ensures
        ({
            let ws = words_of(message@);
            let hit = first_bad_word(ws, denylist@);
            if exempt {
                r is Keep
            } else if bad_words_enabled && hit is Some {
                {
                    let e = denylist@[(hit->0).1];
                    match r {
                        Verdict::BadWord { why } => match why {
                            Some(text) => e.why is Some && text@ == render_spec(
                                (e.why)->0@,
                                why_bindings_spec(
                                    match sender {
                                        Some(s) => Some(s@),
                                        None => None,
                                    },
                                    target@,
                                ),
                            ),
                            None => e.why is None,
                        },
                        _ => false,
                    }
                }
            } else if url_whitelist_enabled && !bypass_url_whitelist && has_bad_link_spec(
                ws,
                whitelist@,
            ) {
                r is BadLink
            } else {
                r is Keep
            }
        }),
{
    if exempt {
        return Verdict::Keep;
    }

    let ghost gws = words_of(message@);

    if bad_words_enabled {
        let ws = words(message);
        let n = ws.len();
        let mut i: usize = 0;
        while i < n
            invariant
                0 <= i <= n,
                n == gws.len(),
                gws == words_of(message@),
                !exempt,
                bad_words_enabled,
                ws@.map_values(|w: String| w@) == gws,
                forall|k: int|
                    0 <= k < i ==> first_hit_in_list(#[trigger] gws[k], denylist@) < 0,
            decreases n - i,
        {
            proof {
                assert(ws@[i as int]@ == gws[i as int]);
            }
            let tw = trim_word(ws[i].as_str());
            let m = denylist.len();
            let mut j: usize = 0;
            let mut hit: Option<usize> = None;
            while j < m && hit.is_none()
                invariant
                    0 <= j <= m,
                    m == denylist@.len(),
                    tw@ == trim_punct(gws[i as int]),
                    i < gws.len(),
                    match hit {
                        Some(h) => h < m && first_hit_in_list(gws[i as int], denylist@)
                            == h as int,
                        None => forall|k: int|
                            0 <= k < j ==> !bad_word_hits(gws[i as int], denylist@[k]),
                    },
                decreases m - j,
            {
                if eq_ignore_case(tw.as_str(), denylist[j].word.as_str()) {
                    proof {
                        lemma_first_hit_at(gws[i as int], denylist@, j as int);
                    }
                    hit = Some(j);
                }
                j = j + 1;
            }

            match hit {
                Some(h) => {
                    proof {
                        lemma_first_bad_word_at(gws, denylist@, i as int);
                        assert(first_bad_word(gws, denylist@) == Some((i as int, h as int)));
                    }
                    let why = match &denylist[h].why {
                        Some(tpl) => {
                            let mut vars: Vec<(String, String)> = Vec::new();
                            let sender_text = match sender {
                                Some(s) => s.clone(),
                                None => String::new(),
                            };
                            vars.push((String::from_str("name"), sender_text));
                            vars.push((String::from_str("target"), String::from_str(target)));
                            let rendered = render_template(tpl.as_str(), &vars);
                            proof {
                                reveal_strlit("name");
                                reveal_strlit("target");
                                assert(vars_view(vars@) =~= why_bindings_spec(
                                    match sender {
                                        Some(s) => Some(s@),
                                        None => None,
                                    },
                                    target@,
                                ));
                            }
                            Some(rendered)
                        },
                        None => None,
                    };
                    proof {
                        let gsender = match sender {
                            Some(s) => Some(s@),
                            None => None,
                        };
                        let e = denylist@[h as int];
                        if e.why is Some {
                            assert(why is Some);
                            assert(why->0@ == render_spec(
                                (e.why)->0@,
                                why_bindings_spec(gsender, target@),
                            ));
                        } else {
                            assert(why is None);
                        }
                    }
                    return Verdict::BadWord { why };
                },
                None => {
                    proof {
                        lemma_first_hit_none(gws[i as int], denylist@);
                    }
                },
            }
            i = i + 1;
        }
        proof {
            lemma_first_bad_word_none(gws, denylist@);
        }
    }

    if url_whitelist_enabled && !bypass_url_whitelist {
        if has_bad_link(message, whitelist) {
            return Verdict::BadLink;
        }
    }

    Verdict::Keep
}

} // verus!
