//! Template rendering: a template is plain text in which `{{key}}`
//! placeholders are replaced by the values bound to their keys.

use vstd::prelude::*;

verus! {

/// The placeholder text that stands for `key` in a template.
pub open spec fn placeholder(key: Seq<char>) -> Seq<char> {
    seq!['{', '{'] + key + seq!['}', '}']
}

/// View of an executable variable binding list.
pub open spec fn vars_view(vars: Seq<(String, String)>) -> Seq<(Seq<char>, Seq<char>)> {
    vars.map_values(|p: (String, String)| (p.0@, p.1@))
}

/// Index of the first binding whose placeholder is a prefix of `tpl`,
/// or -1 if none matches.
pub open spec fn matching_var(tpl: Seq<char>, vars: Seq<(Seq<char>, Seq<char>)>) -> int
    decreases vars.len(),
{
    if vars.len() == 0 {
        -1
    } else if placeholder(vars[0].0).is_prefix_of(tpl) {
        0
    } else {
        let r = matching_var(tpl, vars.drop_first());
        if r < 0 {
            -1
        } else {
            r + 1
        }
    }
}

pub proof fn lemma_matching_var_range(tpl: Seq<char>, vars: Seq<(Seq<char>, Seq<char>)>)
    ensures
        -1 <= matching_var(tpl, vars) < vars.len(),
        matching_var(tpl, vars) >= 0 ==> placeholder(
            vars[matching_var(tpl, vars)].0,
        ).is_prefix_of(tpl),
    decreases vars.len(),
{
    if vars.len() > 0 && !placeholder(vars[0].0).is_prefix_of(tpl) {
        lemma_matching_var_range(tpl, vars.drop_first());
    }
}

/// `matching_var` is the first index that matches.
pub proof fn lemma_matching_var_index(
    tpl: Seq<char>,
    vars: Seq<(Seq<char>, Seq<char>)>,
    j: int,
)
    requires
        0 <= j < vars.len(),
        placeholder(vars[j].0).is_prefix_of(tpl),
        forall|k: int| 0 <= k < j ==> !placeholder(vars[k].0).is_prefix_of(tpl),
    ensures
        matching_var(tpl, vars) == j,
    decreases vars.len(),
{
    if j > 0 {
        lemma_matching_var_index(tpl, vars.drop_first(), j - 1);
    }
}

pub proof fn lemma_matching_var_none(tpl: Seq<char>, vars: Seq<(Seq<char>, Seq<char>)>)
    requires
        forall|k: int| 0 <= k < vars.len() ==> !placeholder(vars[k].0).is_prefix_of(tpl),
    ensures
        matching_var(tpl, vars) == -1,
    decreases vars.len(),
{
    if vars.len() > 0 {
        lemma_matching_var_none(tpl, vars.drop_first());
    }
}

/// The rendering of `tpl` against the bindings `vars`: scanning left to
/// right, each placeholder occurrence is replaced by the value of the
/// first binding that matches; other characters are kept.
pub open spec fn render_spec(tpl: Seq<char>, vars: Seq<(Seq<char>, Seq<char>)>) -> Seq<char>
    decreases tpl.len(),
{
    if tpl.len() == 0 {
        Seq::<char>::empty()
    } else {
        let m = matching_var(tpl, vars);
        if 0 <= m < vars.len() && placeholder(vars[m].0).is_prefix_of(tpl) {
            vars[m].1 + render_spec(tpl.skip(placeholder(vars[m].0).len() as int), vars)
        } else {
            seq![tpl[0]] + render_spec(tpl.drop_first(), vars)
        }
    }
}

/// A placeholder for `key` occurs somewhere in `tpl`.
pub open spec fn contains_placeholder(tpl: Seq<char>, key: Seq<char>) -> bool {
    exists|i: int| 0 <= i <= tpl.len() && placeholder(key).is_prefix_of(#[trigger] tpl.skip(i))
}

/// Does the placeholder for `key` stand at position `i` of `tpl`?
pub fn match_placeholder_at(tpl: &str, i: usize, key: &str) -> (b: bool)
    requires
        i <= tpl@.len(),
    ensures
        b == placeholder(key@).is_prefix_of(tpl@.skip(i as int)),
{
    let tlen = tpl.unicode_len();
    let klen = key.unicode_len();

    if klen > tlen - i || tlen - i - klen < 4 {
        assert(placeholder(key@).len() == key@.len() + 4);
        assert(tpl@.skip(i as int).len() == tlen - i);
        return false;
    }
    assert(i + klen + 4 <= tlen);

    if tpl.get_char(i) != '{' || tpl.get_char(i + 1) != '{' {
        assert(!placeholder(key@).is_prefix_of(tpl@.skip(i as int))) by {
            if placeholder(key@).is_prefix_of(tpl@.skip(i as int)) {
                assert(placeholder(key@)[0] == '{' && placeholder(key@)[1] == '{');
                assert(tpl@.skip(i as int)[0] == tpl@[i as int]);
                assert(tpl@.skip(i as int)[1] == tpl@[i as int + 1]);
            }
        }
        return false;
    }

    let mut j: usize = 0;
    while j < klen
        invariant
            0 <= j <= klen,
            klen == key@.len(),
            tlen == tpl@.len(),
            i + klen + 4 <= tlen,
            tpl@[i as int] == '{' && tpl@[i as int + 1] == '{',
            forall|k: int| 0 <= k < j ==> key@[k] == tpl@[i + 2 + k],
        decreases klen - j,
    {
        if key.get_char(j) != tpl.get_char(i + 2 + j) {
            assert(!placeholder(key@).is_prefix_of(tpl@.skip(i as int))) by {
                if placeholder(key@).is_prefix_of(tpl@.skip(i as int)) {
                    assert(placeholder(key@)[2 + j] == key@[j as int]);
                    assert(tpl@.skip(i as int)[2 + j] == tpl@[i + 2 + j]);
                }
            }
            return false;
        }
        j = j + 1;
    }

    if tpl.get_char(i + 2 + klen) != '}' || tpl.get_char(i + 3 + klen) != '}' {
        assert(!placeholder(key@).is_prefix_of(tpl@.skip(i as int))) by {
            if placeholder(key@).is_prefix_of(tpl@.skip(i as int)) {
                assert(placeholder(key@)[2 + klen] == '}');
                assert(placeholder(key@)[3 + klen] == '}');
                assert(tpl@.skip(i as int)[2 + klen] == tpl@[i + 2 + klen]);
                assert(tpl@.skip(i as int)[3 + klen] == tpl@[i + 3 + klen]);
            }
        }
        return false;
    }

    assert(placeholder(key@).is_prefix_of(tpl@.skip(i as int))) by {
        let ph = placeholder(key@);
        let suf = tpl@.skip(i as int);
        assert forall|k: int| 0 <= k < ph.len() implies ph[k] == suf[k] by {
            assert(suf[k] == tpl@[i + k]);
            if k >= 2 && k < 2 + klen {
                assert(ph[k] == key@[k - 2]);
            }
        }
        assert(ph =~= suf.subrange(0, ph.len() as int));
    }
    true
}

/// Renders `tpl` against `vars`, replacing each `{{key}}` occurrence by
/// the value of the first binding with that key.
pub fn render_template(tpl: &str, vars: &Vec<(String, String)>) -> (r: String)
    ensures
        r@ == render_spec(tpl@, vars_view(vars@)),
{
    let ghost gvars = vars_view(vars@);
    let tlen = tpl.unicode_len();
    let mut out = String::new();
    let mut i: usize = 0;

    proof {
        assert(tpl@.skip(0) =~= tpl@);
        assert(out@ + render_spec(tpl@, gvars) =~= render_spec(tpl@, gvars));
    }

    while i < tlen
        invariant
            0 <= i <= tlen,
            tlen == tpl@.len(),
            render_spec(tpl@, gvars) == out@ + render_spec(tpl@.skip(i as int), gvars),
            gvars == vars_view(vars@),
        decreases tlen - i,
    {
        let ghost suf = tpl@.skip(i as int);
        let mut matched: Option<usize> = None;
        let mut j: usize = 0;

        while j < vars.len() && matched.is_none()
            invariant
                0 <= j <= vars.len(),
                i <= tpl@.len(),
                gvars == vars_view(vars@),
                suf == tpl@.skip(i as int),
                match matched {
                    Some(m) => {
                        &&& m < vars.len()
                        &&& placeholder(gvars[m as int].0).is_prefix_of(suf)
                        &&& forall|k: int|
                            0 <= k < m ==> !placeholder(gvars[k].0).is_prefix_of(suf)
                    },
                    None => forall|k: int|
                        0 <= k < j ==> !placeholder(gvars[k].0).is_prefix_of(suf),
                },
            decreases vars.len() - j,
        {
            if match_placeholder_at(tpl, i, vars[j].0.as_str()) {
                matched = Some(j);
            }
            j = j + 1;
        }

        match matched {
            Some(m) => {
                proof {
                    lemma_matching_var_index(suf, gvars, m as int);
                }
                let key_len = vars[m].0.as_str().unicode_len();
                out.append(vars[m].1.as_str());
                proof {
                    assert(placeholder(gvars[m as int].0).len() == key_len + 4);
                }
                i = i + key_len + 4;
                proof {
                    assert(tpl@.skip(i as int) =~= suf.skip(key_len + 4));
                }
            },
            None => {
                proof {
                    lemma_matching_var_none(suf, gvars);
                }
                let c = tpl.substring_char(i, i + 1);
                out.append(c);
                proof {
                    assert(c@ =~= seq![suf[0]]);
                }
                i = i + 1;
                proof {
                    assert(tpl@.skip(i as int) =~= suf.drop_first());
                }
            },
        }
    }

    proof {
        assert(tpl@.skip(tlen as int) =~= Seq::<char>::empty());
        assert(render_spec(Seq::<char>::empty(), gvars) =~= Seq::<char>::empty());
        assert(out@ =~= out@ + Seq::<char>::empty());
    }
    out
}

/// Does `tpl` contain the placeholder `{{key}}` anywhere?
pub fn template_has_var(tpl: &str, key: &str) -> (b: bool)
    ensures
        b == contains_placeholder(tpl@, key@),
{
    let tlen = tpl.unicode_len();
    let mut i: usize = 0;
    while i < tlen
        invariant
            0 <= i <= tlen,
            tlen == tpl@.len(),
            forall|k: int| 0 <= k < i ==> !placeholder(key@).is_prefix_of(#[trigger] tpl@.skip(k)),
        decreases tlen - i,
    {
        if match_placeholder_at(tpl, i, key) {
            return true;
        }
        i = i + 1;
    }
    if match_placeholder_at(tpl, tlen, key) {
        return true;
    }
    assert forall|k: int| 0 <= k <= tpl@.len() implies !placeholder(key@).is_prefix_of(
        #[trigger] tpl@.skip(k),
    ) by {}
    false
}

} // verus!
