//! Character and string helpers shared by the pipeline stages: splitting,
//! decimal parsing and formatting, and repetition, each specified over
//! `Seq<char>`.

use vstd::prelude::*;
use vstd::string::StrSliceExecFns;

verus! {

/// The whitespace characters that separate words of the source language.
pub open spec fn is_space(c: char) -> bool {
    c == ' ' || c == '\t' || c == '\n' || c == '\r' || c == '\u{0B}' || c == '\u{0C}'
}

/// A decimal digit.
pub open spec fn is_digit(c: char) -> bool {
    48 <= c as int <= 57
}

pub open spec fn digit_char(d: int) -> char {
    (48 + d) as char
}

pub open spec fn all_digits(s: Seq<char>) -> bool {
    forall|i: int| 0 <= i < s.len() ==> is_digit(s[i])
}

/// The value of a digit string read as a decimal number.
pub open spec fn dec_val(s: Seq<char>) -> int
    decreases s.len(),
{
    if s.len() == 0 {
        0
    } else {
        dec_val(s.drop_last()) * 10 + (s.last() as int - 48)
    }
}

/// What parsing a word as a `usize` yields: a value exactly when the word is
/// a non-empty run of digits whose value fits.
pub open spec fn parse_usize_spec(s: Seq<char>) -> Option<usize> {
    if s.len() > 0 && all_digits(s) && dec_val(s) <= usize::MAX as int {
        Some(dec_val(s) as usize)
    } else {
        None
    }
}

/// What parsing a word as a `u8` yields.
pub open spec fn parse_u8_spec(s: Seq<char>) -> Option<u8> {
    if s.len() > 0 && all_digits(s) && dec_val(s) <= 255 {
        Some(dec_val(s) as u8)
    } else {
        None
    }
}

/// The decimal digit string of a non-negative number, without leading zeros.
pub open spec fn dec_str(n: int) -> Seq<char>
    recommends
        n >= 0,
    decreases n,
{
    if n < 10 {
        seq![digit_char(n)]
    } else {
        dec_str(n / 10).push(digit_char(n % 10))
    }
}

/// `n` copies of one character.
pub open spec fn repeat_char(c: char, n: int) -> Seq<char> {
    Seq::new(n as nat, |i: int| c)
}

/// Splitting on a separator, keeping empty segments: the result always has
/// one more segment than the text has separators.
pub open spec fn split_seq(s: Seq<char>, sep: char) -> Seq<Seq<char>>
    decreases s.len(),
{
    if s.len() == 0 {
        seq![Seq::<char>::empty()]
    } else {
        let first = split_seq(s.drop_last(), sep);
        if s.last() == sep {
            first.push(Seq::<char>::empty())
        } else {
            first.update(first.len() - 1, first.last().push(s.last()))
        }
    }
}

/// Splitting on whitespace, keeping empty segments.
pub open spec fn split_ws_raw(s: Seq<char>) -> Seq<Seq<char>>
    decreases s.len(),
{
    if s.len() == 0 {
        seq![Seq::<char>::empty()]
    } else {
        let first = split_ws_raw(s.drop_last());
        if is_space(s.last()) {
            first.push(Seq::<char>::empty())
        } else {
            first.update(first.len() - 1, first.last().push(s.last()))
        }
    }
}

/// The non-empty segments, in order.
pub open spec fn nonempties(ps: Seq<Seq<char>>) -> Seq<Seq<char>>
    decreases ps.len(),
{
    if ps.len() == 0 {
        Seq::empty()
    } else if ps.last().len() > 0 {
        nonempties(ps.drop_last()).push(ps.last())
    } else {
        nonempties(ps.drop_last())
    }
}

/// The words of a text: its whitespace-separated non-empty segments.
pub open spec fn words_of(s: Seq<char>) -> Seq<Seq<char>> {
    nonempties(split_ws_raw(s))
}

/// Segments joined with a single space between them.
pub open spec fn join_sp(ps: Seq<Seq<char>>) -> Seq<char>
    decreases ps.len(),
{
    if ps.len() == 0 {
        Seq::empty()
    } else if ps.len() == 1 {
        ps[0]
    } else {
        join_sp(ps.drop_last()) + seq![' '] + ps.last()
    }
}

/// Segments joined with a single newline between them.
pub open spec fn join_nl(ps: Seq<Seq<char>>) -> Seq<char>
    decreases ps.len(),
{
    if ps.len() == 0 {
        Seq::empty()
    } else if ps.len() == 1 {
        ps[0]
    } else {
        join_nl(ps.drop_last()) + seq!['\n'] + ps.last()
    }
}

/// The views of a sequence of strings.
pub open spec fn strs_view(ss: Seq<String>) -> Seq<Seq<char>> {
    ss.map_values(|x: String| x@)
}

/// A split always yields at least one segment.
pub proof fn lemma_split_seq_len(s: Seq<char>, sep: char)
    ensures
        split_seq(s, sep).len() >= 1,
    decreases s.len(),
{
    if s.len() > 0 {
        lemma_split_seq_len(s.drop_last(), sep);
    }
}

/// A whitespace split always yields at least one segment.
pub proof fn lemma_split_ws_raw_len(s: Seq<char>)
    ensures
        split_ws_raw(s).len() >= 1,
    decreases s.len(),
{
    if s.len() > 0 {
        lemma_split_ws_raw_len(s.drop_last());
    }
}

pub proof fn lemma_dec_val_nonneg(s: Seq<char>)
    requires
        all_digits(s),
    ensures
        dec_val(s) >= 0,
    decreases s.len(),
{
    if s.len() > 0 {
        assert(all_digits(s.drop_last()));
        lemma_dec_val_nonneg(s.drop_last());
    }
}

/// Reading more digits never makes the value smaller.
pub proof fn lemma_dec_val_prefix(s: Seq<char>, j: int)
    requires
        all_digits(s),
        0 <= j <= s.len(),
    ensures
        dec_val(s.subrange(0, j)) <= dec_val(s),
    decreases s.len() - j,
{
    if j == s.len() {
        assert(s.subrange(0, j) =~= s);
    } else {
        lemma_dec_val_prefix(s, j + 1);
        let t = s.subrange(0, j + 1);
        assert(t.drop_last() =~= s.subrange(0, j));
        assert(all_digits(t.drop_last()));
        lemma_dec_val_nonneg(t.drop_last());
        assert(dec_val(t) == dec_val(s.subrange(0, j)) * 10 + (t.last() as int - 48));
    }
}

/// Relies on std's `String::push`: appends the given character to the end
/// of the string.
#[verifier::external_body]
pub(crate) fn push_char(s: &mut String, c: char)
    ensures
        final(s)@ == old(s)@.push(c),
{
    s.push(c);
}

/// Compares two strings character by character.
pub(crate) fn str_eq(a: &str, b: &str) -> (r: bool)
    ensures
        r == (a@ == b@),
{
    let na = a.unicode_len();
    let nb = b.unicode_len();
    if na != nb {
        return false;
    }
    let mut i: usize = 0;
    while i < na
        invariant
            0 <= i <= na,
            na == a@.len(),
            na == b@.len(),
            forall|j: int| 0 <= j < i ==> a@[j] == b@[j],
        decreases na - i,
    {
        if a.get_char(i) != b.get_char(i) {
            return false;
        }
        i = i + 1;
    }
    proof {
        assert(a@ =~= b@);
    }
    true
}

/// Appends `n` copies of a character.
pub(crate) fn repeat_push(s: &mut String, c: char, n: usize)
    ensures
        final(s)@ == old(s)@ + repeat_char(c, n as int),
{
    let mut i: usize = 0;
    while i < n
        invariant
            0 <= i <= n,
            s@ == old(s)@ + repeat_char(c, i as int),
        decreases n - i,
    {
        push_char(s, c);
        proof {
            assert(old(s)@ + repeat_char(c, (i + 1) as int) =~= (old(s)@ + repeat_char(
                c,
                i as int,
            )).push(c));
        }
        i = i + 1;
    }
    proof {
        assert(s@ =~= old(s)@ + repeat_char(c, n as int));
    }
}

/// Splits on a separator character, keeping empty segments.
pub(crate) fn split_char(s: &str, sep: char) -> (r: Vec<String>)
    ensures
        strs_view(r@) == split_seq(s@, sep),
{
    let n = s.unicode_len();
    let mut parts: Vec<String> = Vec::new();
    let mut cur = String::new();
    let mut i: usize = 0;
    while i < n
        invariant
            0 <= i <= n,
            n == s@.len(),
            strs_view(parts@).push(cur@) == split_seq(s@.subrange(0, i as int), sep),
        decreases n - i,
    {
        let c = s.get_char(i);
        proof {
            lemma_split_seq_len(s@.subrange(0, i as int), sep);
            assert(s@.subrange(0, (i + 1) as int).drop_last() =~= s@.subrange(0, i as int));
        }
        if c == sep {
            let ghost old_parts = parts@;
            let ghost old_cur = cur@;
            parts.push(cur);
            cur = String::new();
            proof {
                assert(strs_view(old_parts.push(parts@.last())) =~~= strs_view(old_parts).push(
                    old_cur,
                ));
                assert(strs_view(parts@).push(cur@) =~~= split_seq(
                    s@.subrange(0, (i + 1) as int),
                    sep,
                ));
            }
        } else {
            let ghost old_cur = cur@;
            push_char(&mut cur, c);
            proof {
                let prev = split_seq(s@.subrange(0, i as int), sep);
                assert(strs_view(parts@).push(cur@) =~~= prev.update(
                    prev.len() - 1,
                    prev.last().push(c),
                ));
            }
        }
        i = i + 1;
    }
    proof {
        assert(s@.subrange(0, n as int) =~= s@);
    }
    parts.push(cur);
    proof {
        assert(strs_view(parts@) =~~= split_seq(s@, sep));
    }
    parts
}

pub(crate) fn is_space_exec(c: char) -> (r: bool)
    ensures
        r == is_space(c),
{
    c == ' ' || c == '\t' || c == '\n' || c == '\r' || c == '\u{0B}' || c == '\u{0C}'
}

/// Splits on whitespace, dropping empty segments: the words of the text.
pub(crate) fn split_ws(s: &str) -> (r: Vec<String>)
    ensures
        strs_view(r@) == words_of(s@),
{
    let n = s.unicode_len();
    let mut parts: Vec<String> = Vec::new();
    let mut cur = String::new();
    let mut i: usize = 0;
    while i < n
        invariant
            0 <= i <= n,
            n == s@.len(),
            cur@ == split_ws_raw(s@.subrange(0, i as int)).last(),
            strs_view(parts@) == nonempties(split_ws_raw(s@.subrange(0, i as int)).drop_last()),
        decreases n - i,
    {
        let c = s.get_char(i);
        proof {
            assert(s@.subrange(0, (i + 1) as int).drop_last() =~= s@.subrange(0, i as int));
        }
        let ghost prev = split_ws_raw(s@.subrange(0, i as int));
        let ghost next = split_ws_raw(s@.subrange(0, (i + 1) as int));
        proof {
            lemma_split_ws_raw_len(s@.subrange(0, i as int));
        }
        if is_space_exec(c) {
            proof {
                assert(next.drop_last() =~~= prev);
            }
            if cur.unicode_len() > 0 {
                let ghost old_parts = parts@;
                parts.push(cur);
                cur = String::new();
                proof {
                    assert(strs_view(parts@) =~~= strs_view(old_parts).push(prev.last()));
                    assert(nonempties(prev) =~~= nonempties(prev.drop_last()).push(prev.last()));
                }
            } else {
                cur = String::new();
                proof {
                    assert(nonempties(prev) =~~= nonempties(prev.drop_last()));
                }
            }
        } else {
            push_char(&mut cur, c);
            proof {
                assert(next =~~= prev.update(prev.len() - 1, prev.last().push(c)));
                assert(next.drop_last() =~~= prev.drop_last());
            }
        }
        i = i + 1;
    }
    proof {
        assert(s@.subrange(0, n as int) =~= s@);
    }
    let ghost whole = split_ws_raw(s@);
    proof {
        lemma_split_ws_raw_len(s@);
    }
    if cur.unicode_len() > 0 {
        let ghost old_parts = parts@;
        parts.push(cur);
        proof {
            assert(strs_view(parts@) =~~= strs_view(old_parts).push(whole.last()));
            assert(nonempties(whole) =~~= nonempties(whole.drop_last()).push(whole.last()));
        }
    } else {
        proof {
            assert(nonempties(whole) =~~= nonempties(whole.drop_last()));
        }
    }
    parts
}

/// Parses a word as a `usize`: a non-empty run of digits whose value fits.
pub(crate) fn parse_usize_str(s: &str) -> (r: Option<usize>)
    ensures
        r == parse_usize_spec(s@),
{
    let n = s.unicode_len();
    if n == 0 {
        return None;
    }
    let mut acc: usize = 0;
    let mut i: usize = 0;
    while i < n
        invariant
            0 <= i <= n,
            n == s@.len(),
            n > 0,
            all_digits(s@.subrange(0, i as int)),
            acc as int == dec_val(s@.subrange(0, i as int)),
        decreases n - i,
    {
        let c = s.get_char(i);
        let u = c as u32;
        proof {
            assert(s@.subrange(0, (i + 1) as int).drop_last() =~= s@.subrange(0, i as int));
        }
        if !(48 <= u && u <= 57) {
            assert(!is_digit(s@[i as int]));
            return None;
        }
        let d = (u - 48) as usize;
        let ghost next = s@.subrange(0, (i + 1) as int);
        assert(dec_val(next) == acc as int * 10 + d);
        match acc.checked_mul(10) {
            Some(m) => match m.checked_add(d) {
                Some(a2) => {
                    acc = a2;
                },
                None => {
                    proof {
                        if all_digits(s@) {
                            lemma_dec_val_prefix(s@, i + 1);
                        }
                    }
                    return None;
                },
            },
            None => {
                proof {
                    if all_digits(s@) {
                        lemma_dec_val_prefix(s@, i + 1);
                    }
                }
                return None;
            },
        }
        i = i + 1;
    }
    proof {
        assert(s@.subrange(0, n as int) =~= s@);
    }
    Some(acc)
}

/// Parses a word as a `u8`.
pub(crate) fn parse_u8_str(s: &str) -> (r: Option<u8>)
    ensures
        r == parse_u8_spec(s@),
{
    proof {
        if s@.len() > 0 && all_digits(s@) {
            lemma_dec_val_nonneg(s@);
        }
    }
    match parse_usize_str(s) {
        Some(v) => {
            if v <= 255 {
                Some(v as u8)
            } else {
                None
            }
        },
        None => None,
    }
}

/// Formats a number as its decimal digit string.
pub(crate) fn usize_to_dec(n: usize) -> (r: String)
    ensures
        r@ == dec_str(n as int),
    decreases n,
{
    let d = ((n % 10) as u8 + 48) as char;
    assert(d == digit_char(n as int % 10));
    if n < 10 {
        let mut s = String::new();
        push_char(&mut s, d);
        proof {
            assert(s@ =~= dec_str(n as int));
        }
        s
    } else {
        let mut s = usize_to_dec(n / 10);
        push_char(&mut s, d);
        s
    }
}

} // verus!
