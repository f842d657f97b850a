//! Character-level text utilities shared by the whole engine: whitespace
//! classification, ASCII case folding, and word splitting.

use vstd::prelude::*;

verus! {

use crate::is_space_char;

/// ASCII lower-casing of a single character; non-ASCII characters are kept.
pub open spec fn lower_char(c: char) -> char {
    if 'A' <= c && c <= 'Z' {
        (((c as u8) + 32) as char)
    } else {
        c
    }
}

/// ASCII lower-casing of a character sequence.
pub open spec fn lower_seq(s: Seq<char>) -> Seq<char> {
    s.map_values(|c: char| lower_char(c))
}

/// Executable ASCII lower-casing of one character.
pub fn lower_char_exec(c: char) -> (r: char)
    ensures
        r == lower_char(c),
{
    if 'A' <= c && c <= 'Z' {
        ((c as u8) + 32) as char
    } else {
        c
    }
}

/// Index of the first non-whitespace character at or after `from`.
pub open spec fn first_non_space(s: Seq<char>, from: int) -> int
    decreases s.len() - from when 0 <= from <= s.len()
{
    if from >= s.len() || !is_space_char(s[from]) {
        from
    } else {
        first_non_space(s, from + 1)
    }
}

/// Index of the first whitespace character at or after `from`.
pub open spec fn first_space(s: Seq<char>, from: int) -> int
    decreases s.len() - from when 0 <= from <= s.len()
{
    if from >= s.len() || is_space_char(s[from]) {
        from
    } else {
        first_space(s, from + 1)
    }
}

pub proof fn lemma_first_non_space_bounds(s: Seq<char>, from: int)
    requires
        0 <= from <= s.len(),
    ensures
        from <= first_non_space(s, from) <= s.len(),
        first_non_space(s, from) < s.len() ==> !is_space_char(s[first_non_space(s, from)]),
        forall|j: int| from <= j < first_non_space(s, from) ==> is_space_char(s[j]),
    decreases s.len() - from,
{
    if from < s.len() && is_space_char(s[from]) {
        lemma_first_non_space_bounds(s, from + 1);
    }
}

pub proof fn lemma_first_space_bounds(s: Seq<char>, from: int)
    requires
        0 <= from <= s.len(),
    ensures
        from <= first_space(s, from) <= s.len(),
        first_space(s, from) < s.len() ==> is_space_char(s[first_space(s, from)]),
        forall|j: int| from <= j < first_space(s, from) ==> !is_space_char(s[j]),
    decreases s.len() - from,
{
    if from < s.len() && !is_space_char(s[from]) {
        lemma_first_space_bounds(s, from + 1);
    }
}

/// The leading whitespace-delimited word of `s`, if any: the run of
/// non-whitespace characters after the leading whitespace.
pub open spec fn leading_word(s: Seq<char>) -> Option<Seq<char>> {
    let start = first_non_space(s, 0);
    if start >= s.len() {
        None
    } else {
        Some(s.subrange(start, first_space(s, start)))
    }
}

/// What remains of `s` after its leading word and the whitespace that
/// follows the word.
pub open spec fn after_leading_word(s: Seq<char>) -> Seq<char> {
    let start = first_non_space(s, 0);
    let end = first_space(s, start);
    s.subrange(first_non_space(s, end), s.len() as int)
}

/// Finds the first non-whitespace position at or after `from`.
pub fn scan_non_space(s: &str, from: usize) -> (i: usize)
    requires
        from <= s@.len(),
    ensures
        i == first_non_space(s@, from as int),
{
    let len = s.unicode_len();
    let mut i: usize = from;
    while i < len && s.get_char(i) == ' ' || i < len && s.get_char(i) == '\t' || i < len
        && s.get_char(i) == '\r' || i < len && s.get_char(i) == '\n'
        invariant
            from <= i <= len,
            len == s@.len(),
            first_non_space(s@, from as int) == first_non_space(s@, i as int),
        decreases len - i,
    {
        i = i + 1;
    }
    i
}

/// Finds the first whitespace position at or after `from`.
pub fn scan_space(s: &str, from: usize) -> (i: usize)
    requires
        from <= s@.len(),
    ensures
        i == first_space(s@, from as int),
{
    let len = s.unicode_len();
    let mut i: usize = from;
    while i < len && s.get_char(i) != ' ' && s.get_char(i) != '\t' && s.get_char(i) != '\r'
        && s.get_char(i) != '\n'
        invariant
            from <= i <= len,
            len == s@.len(),
            first_space(s@, from as int) == first_space(s@, i as int),
        decreases len - i,
    {
        i = i + 1;
    }
    i
}

/// Splits off the leading word: returns the word and the rest of the
/// message (with the whitespace separating them dropped).
pub fn split_leading_word(s: &str) -> (r: Option<(String, String)>)
    ensures
        match r {
            Some((word, rest)) => {
                &&& leading_word(s@) == Some(word@)
                &&& rest@ == after_leading_word(s@)
            },
            None => leading_word(s@) is None,
        },
{
    let len = s.unicode_len();
    let start = scan_non_space(s, 0);

    proof {
        lemma_first_non_space_bounds(s@, 0);
    }

    if start >= len {
        return None;
    }

    let end = scan_space(s, start);

    proof {
        lemma_first_space_bounds(s@, start as int);
    }

    let word = s.substring_char(start, end);
    let rest_start = scan_non_space(s, end);

    proof {
        lemma_first_non_space_bounds(s@, end as int);
    }

    let rest = s.substring_char(rest_start, len);
    Some((String::from_str(word), String::from_str(rest)))
}

/// Index of the first occurrence of `c` at or after `from`.
pub open spec fn first_at_char(s: Seq<char>, from: int, c: char) -> int
    decreases s.len() - from when 0 <= from <= s.len()
{
    if from >= s.len() || s[from] == c {
        from
    } else {
        first_at_char(s, from + 1, c)
    }
}

pub proof fn lemma_first_at_char_bounds(s: Seq<char>, from: int, c: char)
    requires
        0 <= from <= s.len(),
    ensures
        from <= first_at_char(s, from, c) <= s.len(),
        first_at_char(s, from, c) < s.len() ==> s[first_at_char(s, from, c)] == c,
        forall|j: int| from <= j < first_at_char(s, from, c) ==> s[j] != c,
    decreases s.len() - from,
{
    if from < s.len() && s[from] != c {
        lemma_first_at_char_bounds(s, from + 1, c);
    }
}

/// Finds the first occurrence of `c` at or after `from`.
pub fn scan_to_char(s: &str, from: usize, c: char) -> (i: usize)
    requires
        from <= s@.len(),
    ensures
        i == first_at_char(s@, from as int, c),
{
    let len = s.unicode_len();
    let mut i: usize = from;
    while i < len && s.get_char(i) != c
        invariant
            from <= i <= len,
            len == s@.len(),
            first_at_char(s@, from as int, c) == first_at_char(s@, i as int, c),
        decreases len - i,
    {
        i = i + 1;
    }
    i
}

/// Index just past the last character of `s.take(upto)` that is not
/// whitespace; 0 when they all are.
pub open spec fn end_non_space(s: Seq<char>, upto: int) -> int
    decreases upto when 0 <= upto <= s.len()
{
    if upto <= 0 {
        0
    } else if is_space_char(s[upto - 1]) {
        end_non_space(s, upto - 1)
    } else {
        upto
    }
}

pub proof fn lemma_end_non_space_bounds(s: Seq<char>, upto: int)
    requires
        0 <= upto <= s.len(),
    ensures
        0 <= end_non_space(s, upto) <= upto,
        end_non_space(s, upto) > 0 ==> !is_space_char(s[end_non_space(s, upto) - 1]),
        forall|j: int| end_non_space(s, upto) <= j < upto ==> is_space_char(s[j]),
    decreases upto,
{
    if upto > 0 && is_space_char(s[upto - 1]) {
        lemma_end_non_space_bounds(s, upto - 1);
    }
}

/// Index just past the last character of `s.take(upto)` that is not `c`;
/// 0 when they all are `c`.
pub open spec fn end_not_char(s: Seq<char>, upto: int, c: char) -> int
    decreases upto when 0 <= upto <= s.len()
{
    if upto <= 0 {
        0
    } else if s[upto - 1] == c {
        end_not_char(s, upto - 1, c)
    } else {
        upto
    }
}

pub proof fn lemma_end_not_char_bounds(s: Seq<char>, upto: int, c: char)
    requires
        0 <= upto <= s.len(),
    ensures
        0 <= end_not_char(s, upto, c) <= upto,
        end_not_char(s, upto, c) > 0 ==> s[end_not_char(s, upto, c) - 1] != c,
        forall|j: int| end_not_char(s, upto, c) <= j < upto ==> s[j] == c,
    decreases upto,
{
    if upto > 0 && s[upto - 1] == c {
        lemma_end_not_char_bounds(s, upto - 1, c);
    }
}

/// A character that counts as part of a word when words are trimmed of
/// surrounding punctuation.
pub open spec fn is_word_char(c: char) -> bool {
    ('a' <= c && c <= 'z') || ('A' <= c && c <= 'Z') || ('0' <= c && c <= '9')
}

/// Executable test for `is_word_char`.
pub fn word_char(c: char) -> (r: bool)
    ensures
        r == is_word_char(c),
{
    ('a' <= c && c <= 'z') || ('A' <= c && c <= 'Z') || ('0' <= c && c <= '9')
}

/// Index of the first word character at or after `from`.
pub open spec fn first_word_char(s: Seq<char>, from: int) -> int
    decreases s.len() - from when 0 <= from <= s.len()
{
    if from >= s.len() || is_word_char(s[from]) {
        from
    } else {
        first_word_char(s, from + 1)
    }
}

pub proof fn lemma_first_word_char_bounds(s: Seq<char>, from: int)
    requires
        0 <= from <= s.len(),
    ensures
        from <= first_word_char(s, from) <= s.len(),
    decreases s.len() - from,
{
    if from < s.len() && !is_word_char(s[from]) {
        lemma_first_word_char_bounds(s, from + 1);
    }
}

/// Index just past the last word character of `s.take(upto)`; 0 when
/// there is none.
pub open spec fn end_word_char(s: Seq<char>, upto: int) -> int
    decreases upto when 0 <= upto <= s.len()
{
    if upto <= 0 {
        0
    } else if !is_word_char(s[upto - 1]) {
        end_word_char(s, upto - 1)
    } else {
        upto
    }
}

pub proof fn lemma_end_word_char_bounds(s: Seq<char>, upto: int)
    requires
        0 <= upto <= s.len(),
    ensures
        0 <= end_word_char(s, upto) <= upto,
    decreases upto,
{
    if upto > 0 && !is_word_char(s[upto - 1]) {
        lemma_end_word_char_bounds(s, upto - 1);
    }
}

/// `s` with leading and trailing punctuation (anything that is not a
/// letter or digit) dropped.
pub open spec fn trim_punct(s: Seq<char>) -> Seq<char> {
    let e = end_word_char(s, s.len() as int);
    let b = first_word_char(s, 0);
    if b > e {
        Seq::<char>::empty()
    } else {
        s.subrange(b, e)
    }
}

/// Trims leading and trailing punctuation from `s`.
pub fn trim_word(s: &str) -> (r: String)
    ensures
        r@ == trim_punct(s@),
{
    let len = s.unicode_len();

    let mut b: usize = 0;
    while b < len && !word_char(s.get_char(b))
        invariant
            0 <= b <= len,
            len == s@.len(),
            first_word_char(s@, 0) == first_word_char(s@, b as int),
        decreases len - b,
    {
        b = b + 1;
    }
    proof {
        assert(first_word_char(s@, b as int) == b);
    }

    let mut e: usize = len;
    while e > b && !word_char(s.get_char(e - 1))
        invariant
            b <= e <= len,
            len == s@.len(),
            b == first_word_char(s@, 0),
            end_word_char(s@, len as int) == end_word_char(s@, e as int),
        decreases e,
    {
        e = e - 1;
    }

    if e <= b {
        proof {
            lemma_end_word_char_bounds(s@, e as int);
            if b <= end_word_char(s@, e as int) {
                assert(s@.subrange(b as int, end_word_char(s@, e as int)) =~= Seq::<
                    char,
                >::empty());
            }
        }
        String::new()
    } else {
        proof {
            assert(end_word_char(s@, e as int) == e);
        }
        String::from_str(s.substring_char(b, e))
    }
}

/// Does `s` start with `prefix`?
pub fn str_starts_with(s: &str, prefix: &str) -> (r: bool)
    ensures
        r == prefix@.is_prefix_of(s@),
{
    let slen = s.unicode_len();
    let plen = prefix.unicode_len();
    if plen > slen {
        return false;
    }
    let mut i: usize = 0;
    while i < plen
        invariant
            0 <= i <= plen,
            plen == prefix@.len(),
            plen <= s@.len(),
            slen == s@.len(),
            forall|j: int| 0 <= j < i ==> prefix@[j] == s@[j],
        decreases plen - i,
    {
        if s.get_char(i) != prefix.get_char(i) {
            assert(!prefix@.is_prefix_of(s@)) by {
                if prefix@.is_prefix_of(s@) {
                    assert(prefix@[i as int] == s@.subrange(0, plen as int)[i as int]);
                }
            }
            return false;
        }
        i = i + 1;
    }
    assert(prefix@ =~= s@.subrange(0, plen as int));
    true
}

/// `s` with leading and trailing whitespace dropped.
pub open spec fn trim_spaces(s: Seq<char>) -> Seq<char> {
    let e = end_non_space(s, s.len() as int);
    let b = first_non_space(s, 0);
    if b > e {
        Seq::<char>::empty()
    } else {
        s.subrange(b, e)
    }
}

/// Trims leading and trailing whitespace from `s`.
pub fn trim(s: &str) -> (r: String)
    ensures
        r@ == trim_spaces(s@),
{
    let len = s.unicode_len();
    let b = scan_non_space(s, 0);

    proof {
        lemma_first_non_space_bounds(s@, 0);
    }

    let mut e: usize = len;
    while e > b && (s.get_char(e - 1) == ' ' || s.get_char(e - 1) == '\t' || s.get_char(e - 1)
        == '\r' || s.get_char(e - 1) == '\n')
        invariant
            b <= e <= len,
            len == s@.len(),
            b == first_non_space(s@, 0),
            b <= s@.len(),
            end_non_space(s@, len as int) == end_non_space(s@, e as int),
        decreases e,
    {
        e = e - 1;
    }

    if e <= b {
        proof {
            lemma_end_non_space_bounds(s@, e as int);
            if b > end_non_space(s@, e as int) {
            } else {
                assert(s@.subrange(b as int, end_non_space(s@, e as int)) =~= Seq::<
                    char,
                >::empty());
            }
        }
        String::new()
    } else {
        proof {
            assert(end_non_space(s@, e as int) == e);
        }
        String::from_str(s.substring_char(b, e))
    }
}

/// All whitespace-delimited words of `s`, in order.
pub open spec fn words_of(s: Seq<char>) -> Seq<Seq<char>>
    decreases s.len() via words_of_decreases
{
    match leading_word(s) {
        Option::None => Seq::<Seq<char>>::empty(),
        Option::Some(w) => seq![w] + words_of(after_leading_word(s)),
    }
}

#[via_fn]
proof fn words_of_decreases(s: Seq<char>) {
    if leading_word(s) is Some {
        lemma_first_non_space_bounds(s, 0);
        let start = first_non_space(s, 0);
        lemma_first_space_bounds(s, start);
        let end = first_space(s, start);
        lemma_first_non_space_bounds(s, end);
    }
}

/// Splits `s` into its whitespace-delimited words.
pub fn words(s: &str) -> (r: Vec<String>)
    ensures
        r@.map_values(|w: String| w@) == words_of(s@),
    decreases s@.len(),
{
    let split = split_leading_word(s);
    match split {
        None => {
            let r: Vec<String> = Vec::new();
            proof {
                assert(r@.map_values(|w: String| w@) =~= words_of(s@));
            }
            r
        },
        Some((word, rest)) => {
            proof {
                lemma_first_non_space_bounds(s@, 0);
                let start = first_non_space(s@, 0);
                lemma_first_space_bounds(s@, start);
                let end = first_space(s@, start);
                lemma_first_non_space_bounds(s@, end);
            }
            let mut r = words(rest.as_str());
            r.insert(0, word);
            proof {
                assert(r@.map_values(|w: String| w@) =~= words_of(s@));
            }
            r
        },
    }
}

/// A decimal digit.
pub open spec fn is_digit(c: char) -> bool {
    '0' <= c && c <= '9'
}

/// The number a digit string denotes.
pub open spec fn dec_value(s: Seq<char>) -> int
    decreases s.len(),
{
    if s.len() == 0 {
        0
    } else {
        dec_value(s.drop_last()) * 10 + ((s.last() as u8) - 48)
    }
}

/// Is `s` a parsable decimal number: nonempty, all digits, in range?
pub open spec fn u64_parseable(s: Seq<char>) -> bool {
    &&& s.len() > 0
    &&& forall|k: int| 0 <= k < s.len() ==> is_digit(#[trigger] s[k])
    &&& dec_value(s) <= u64::MAX
}

/// Parses a decimal number: every character must be a digit, and the
/// value must fit.
pub fn parse_u64(s: &str) -> (r: Option<u64>)
    ensures
        (match r {
            Some(v) => u64_parseable(s@) && v == dec_value(s@),
            None => !u64_parseable(s@),
        }),
{
    let len = s.unicode_len();
    if len == 0 {
        return None;
    }
    let mut v: u64 = 0;
    let mut i: usize = 0;
    while i < len
        invariant
            0 <= i <= len,
            len == s@.len(),
            forall|k: int| 0 <= k < i ==> is_digit(#[trigger] s@[k]),
            v == dec_value(s@.take(i as int)),
        decreases len - i,
    {
        let c = s.get_char(i);
        if c < '0' || c > '9' {
            return None;
        }
        let d = (c as u8) - 48;
        proof {
            assert(s@.take(i + 1).drop_last() =~= s@.take(i as int));
            assert(s@.take(i + 1).last() == s@[i as int]);
        }
        if v > u64::MAX / 10 || (v == u64::MAX / 10 && d as u64 > u64::MAX % 10) {
            proof {
                assert(dec_value(s@.take(i + 1)) == v * 10 + d);
                assert(dec_value(s@.take(i + 1)) > u64::MAX);
                lemma_dec_value_extend_ge(s@, i + 1, s@.len() as int);
                assert(s@.take(s@.len() as int) =~= s@);
                assert(dec_value(s@) > u64::MAX);
            }
            return None;
        }
        v = v * 10 + (d as u64);
        i = i + 1;
    }
    proof {
        assert(s@.take(len as int) =~= s@);
    }
    Some(v)
}

/// Once a digit prefix denotes at least 6, any extension of it denotes
/// at least as much: each further character multiplies the value by ten
/// and changes it by less than 48.
proof fn lemma_dec_value_extend_ge(s: Seq<char>, a: int, b: int)
    requires
        0 <= a <= b <= s.len(),
        dec_value(s.take(a)) >= 6,
    ensures
        dec_value(s.take(b)) >= dec_value(s.take(a)),
    decreases b - a,
{
    if a < b {
        lemma_dec_value_extend_ge(s, a, b - 1);
        assert(s.take(b).drop_last() =~= s.take(b - 1));
        let c = s.take(b).last();
        assert(dec_value(s.take(b)) == dec_value(s.take(b - 1)) * 10 + ((c as u8) - 48));
        assert((c as u8) >= 0);
    }
}

/// The decimal digit character for `d` (0 to 9).
pub open spec fn digit_char(d: int) -> char {
    (((d + 48) as u8) as char)
}

/// The decimal rendering of a non-negative integer.
pub open spec fn dec_spec(n: int) -> Seq<char>
    decreases n when n >= 0
{
    if n < 10 {
        seq![digit_char(n)]
    } else {
        dec_spec(n / 10) + seq![digit_char(n % 10)]
    }
}

fn digit_str(d: u64) -> (r: &'static str)
    requires
        d < 10,
    ensures
        r@ == seq![digit_char(d as int)],
{
    proof {
        reveal_strlit("0");
        reveal_strlit("1");
        reveal_strlit("2");
        reveal_strlit("3");
        reveal_strlit("4");
        reveal_strlit("5");
        reveal_strlit("6");
        reveal_strlit("7");
        reveal_strlit("8");
        reveal_strlit("9");
    }
    match d {
        0 => "0",
        1 => "1",
        2 => "2",
        3 => "3",
        4 => "4",
        5 => "5",
        6 => "6",
        7 => "7",
        8 => "8",
        _ => "9",
    }
}

/// Renders a non-negative integer in decimal.
pub fn u64_to_dec(n: u64) -> (r: String)
    ensures
        r@ == dec_spec(n as int),
    decreases n,
{
    if n < 10 {
        String::from_str(digit_str(n))
    } else {
        let high = u64_to_dec(n / 10);
        high.concat(digit_str(n % 10))
    }
}

/// Exact equality of two strings.
pub fn str_eq(a: &str, b: &str) -> (r: bool)
    ensures
        r == (a@ == b@),
{
    let a_len = a.unicode_len();
    let b_len = b.unicode_len();

    if a_len != b_len {
        return false;
    }

    let mut i: usize = 0;
    while i < a_len
        invariant
            i <= a_len,
            a_len == a@.len(),
            a_len == b@.len(),
            forall|j: int| 0 <= j < i ==> a@[j] == b@[j],
        decreases a_len - i,
    {
        if a.get_char(i) != b.get_char(i) {
            return false;
        }
        i = i + 1;
    }

    assert(a@ =~= b@);
    true
}

/// Relies on String::push: appends exactly the one character.
#[verifier::external_body]
fn push_char(s: &mut String, c: char)
    ensures
        final(s)@ == old(s)@.push(c),
{
    s.push(c);
}

/// ASCII-lowercases a string.
pub fn to_lowercase(s: &str) -> (r: String)
    ensures
        r@ == lower_seq(s@),
{
    let len = s.unicode_len();
    let mut r = String::new();
    let mut i: usize = 0;
    while i < len
        invariant
            0 <= i <= len,
            len == s@.len(),
            r@ =~= lower_seq(s@.take(i as int)),
        decreases len - i,
    {
        let c = lower_char_exec(s.get_char(i));
        push_char(&mut r, c);
        i = i + 1;
        proof {
            assert(r@ =~= lower_seq(s@.take(i as int)));
        }
    }
    proof {
        assert(s@.take(len as int) =~= s@);
    }
    r
}

/// Case-insensitive (ASCII) equality of two strings.
pub fn eq_ignore_case(a: &str, b: &str) -> (r: bool)
    ensures
        r == (lower_seq(a@) == lower_seq(b@)),
{
    let a_len = a.unicode_len();
    let b_len = b.unicode_len();

    if a_len != b_len {
        assert(lower_seq(a@).len() == a@.len());
        assert(lower_seq(b@).len() == b@.len());
        return false;
    }

    let mut i: usize = 0;
    while i < a_len
        invariant
            i <= a_len,
            a_len == a@.len(),
            a_len == b@.len(),
            forall|j: int| 0 <= j < i ==> lower_char(a@[j]) == lower_char(b@[j]),
        decreases a_len - i,
    {
        let ca = a.get_char(i);
        let cb = b.get_char(i);

        if lower_char_exec(ca) != lower_char_exec(cb) {
            assert(lower_seq(a@)[i as int] != lower_seq(b@)[i as int]);
            return false;
        }

        i = i + 1;
    }

    assert(lower_seq(a@) =~= lower_seq(b@));
    true
}

} // verus!
