//! Character-level helpers shared by the parsers: decimal digits and
//! whitespace, stated over `Seq<char>`.

use vstd::prelude::*;

verus! {

pub open spec fn is_digit(c: char) -> bool {
    '0' <= c && c <= '9'
}

pub open spec fn all_digits(s: Seq<char>) -> bool {
    forall|i: int| 0 <= i < s.len() ==> is_digit(#[trigger] s[i])
}

/// The number that a run of decimal digits denotes.
pub open spec fn digits_value(s: Seq<char>) -> int
    decreases s.len(),
{
    if s.len() == 0 {
        0
    } else {
        10 * digits_value(s.drop_last()) + (s.last() as int - '0' as int)
    }
}

/// A longer run of digits denotes at least as much as any of its prefixes.
pub proof fn lemma_digits_prefix_le(s: Seq<char>, j: int)
    requires
        all_digits(s),
        0 <= j <= s.len(),
    ensures
        0 <= digits_value(s.take(j)) <= digits_value(s),
    decreases s.len(),
{
    if j < s.len() {
        let t = s.drop_last();
        assert(all_digits(t)) by {
            assert forall|i: int| 0 <= i < t.len() implies is_digit(#[trigger] t[i]) by {
                assert(t[i] == s[i]);
            }
        }
        lemma_digits_prefix_le(t, j);
        assert(t.take(j) =~= s.take(j));
        assert(is_digit(s[s.len() - 1]));
    } else {
        assert(s.take(j) =~= s);
        if s.len() > 0 {
            lemma_digits_prefix_le(s.drop_last(), 0);
            assert(s.drop_last().take(0) =~= s.take(0).take(0));
        }
        lemma_digits_nonneg(s);
    }
}

proof fn lemma_digits_nonneg(s: Seq<char>)
    requires
        all_digits(s),
    ensures
        0 <= digits_value(s),
    decreases s.len(),
{
    if s.len() > 0 {
        let t = s.drop_last();
        assert(all_digits(t)) by {
            assert forall|i: int| 0 <= i < t.len() implies is_digit(#[trigger] t[i]) by {
                assert(t[i] == s[i]);
            }
        }
        lemma_digits_nonneg(t);
        assert(is_digit(s[s.len() - 1]));
    }
}

/// The value of the digits `s[start..]`, when they are all digits and the value
/// does not exceed `limit`.
pub fn digits_at_most(s: &Vec<char>, start: usize, limit: u64) -> (r: Option<u64>)
    requires
        start <= s.len(),
        limit <= 4294967296,
    ensures
        r == (if all_digits(s@.subrange(start as int, s.len() as int)) && digits_value(
            s@.subrange(start as int, s.len() as int),
        ) <= limit {
            Some(digits_value(s@.subrange(start as int, s.len() as int)) as u64)
        } else {
            None
        }),
        r matches Some(v) ==> v <= limit && v as int == digits_value(
            s@.subrange(start as int, s.len() as int),
        ),
{
    let ghost whole = s@.subrange(start as int, s.len() as int);
    let mut acc: u64 = 0;
    let mut i: usize = start;
    assert(s@.subrange(start as int, start as int) =~= Seq::<char>::empty());
    while i < s.len()
        invariant
            start <= i <= s.len(),
            limit <= 4294967296,
            whole == s@.subrange(start as int, s.len() as int),
            all_digits(s@.subrange(start as int, i as int)),
            acc as int == digits_value(s@.subrange(start as int, i as int)),
            acc <= limit,
        decreases s.len() - i,
    {
        let c = s[i];
        if !('0' <= c && c <= '9') {
            assert(whole[i - start] == c);
            return None;
        }
        let d = (c as u32 - '0' as u32) as u64;
        let next = acc * 10 + d;
        let ghost prefix = s@.subrange(start as int, i + 1);
        assert(prefix.drop_last() =~= s@.subrange(start as int, i as int));
        assert(prefix.last() == c);
        assert(all_digits(prefix)) by {
            assert forall|k: int| 0 <= k < prefix.len() implies is_digit(#[trigger] prefix[k]) by {
                if k < prefix.len() - 1 {
                    assert(prefix[k] == s@.subrange(start as int, i as int)[k]);
                }
            }
        }
        if next > limit {
            proof {
                if all_digits(whole) {
                    lemma_digits_prefix_le(whole, i + 1 - start);
                    assert(whole.take(i + 1 - start) =~= prefix);
                }
            }
            return None;
        }
        acc = next;
        i = i + 1;
    }
    assert(s@.subrange(start as int, i as int) =~= whole);
    Some(acc)
}

/// Characters with the Unicode White_Space property, as `char::is_whitespace`
/// documents them.
pub open spec fn is_whitespace(c: char) -> bool {
    ('\u{9}' <= c && c <= '\u{d}') || c == ' ' || c == '\u{85}' || c == '\u{a0}' || c
        == '\u{1680}' || ('\u{2000}' <= c && c <= '\u{200a}') || c == '\u{2028}' || c
        == '\u{2029}' || c == '\u{202f}' || c == '\u{205f}' || c == '\u{3000}'
}

pub fn whitespace(c: char) -> (r: bool)
    ensures
        r == is_whitespace(c),
{
    ('\u{9}' <= c && c <= '\u{d}') || c == ' ' || c == '\u{85}' || c == '\u{a0}' || c
        == '\u{1680}' || ('\u{2000}' <= c && c <= '\u{200a}') || c == '\u{2028}' || c
        == '\u{2029}' || c == '\u{202f}' || c == '\u{205f}' || c == '\u{3000}'
}

/// The value of a decimal `i32` text: an optional sign and at least one digit,
/// within the range of `i32`.
pub open spec fn i32_text_value(s: Seq<char>) -> Option<i32> {
    if s.len() >= 2 && s[0] == '-' && all_digits(s.drop_first()) && digits_value(s.drop_first())
        <= 2147483648 {
        Some((-digits_value(s.drop_first())) as i32)
    } else if s.len() >= 2 && s[0] == '+' && all_digits(s.drop_first()) && digits_value(
        s.drop_first(),
    ) <= i32::MAX {
        Some(digits_value(s.drop_first()) as i32)
    } else if s.len() >= 1 && all_digits(s) && digits_value(s) <= i32::MAX {
        Some(digits_value(s) as i32)
    } else {
        None
    }
}

/// Reads a decimal `i32`: an optional '+' or '-' and at least one digit.
pub fn i32_in(s: &Vec<char>) -> (r: Option<i32>)
    ensures
        r == i32_text_value(s@),
{
    let n = s.len();
    if n >= 2 && s[0] == '-' {
        assert(s@.drop_first() =~= s@.subrange(1, n as int));
        match digits_at_most(s, 1, 2147483648) {
            Some(v) => Some((-(v as i64)) as i32),
            None => None,
        }
    } else if n >= 2 && s[0] == '+' {
        assert(s@.drop_first() =~= s@.subrange(1, n as int));
        match digits_at_most(s, 1, 2147483647) {
            Some(v) => Some(v as i32),
            None => None,
        }
    } else if n >= 1 {
        assert(s@.subrange(0, n as int) =~= s@);
        match digits_at_most(s, 0, 2147483647) {
            Some(v) => Some(v as i32),
            None => None,
        }
    } else {
        None
    }
}

/// A copy of `s[start..end]`.
pub fn sub_chars(s: &Vec<char>, start: usize, end: usize) -> (r: Vec<char>)
    requires
        start <= end <= s.len(),
    ensures
        r@ == s@.subrange(start as int, end as int),
{
    let mut r: Vec<char> = Vec::new();
    let mut i: usize = start;
    while i < end
        invariant
            start <= i <= end <= s.len(),
            r@ == s@.subrange(start as int, i as int),
        decreases end - i,
    {
        r.push(s[i]);
        i = i + 1;
        assert(r@ =~= s@.subrange(start as int, i as int));
    }
    r
}

/// The characters of a string, in order.
pub fn chars_of(s: &str) -> (r: Vec<char>)
    ensures
        r@ == s@,
{
    let mut r: Vec<char> = Vec::new();
    for c in it: s.chars()
        invariant
            r@ == it.seq().take(it.index() as int),
    {
        r.push(c);
    }
    r
}

} // verus!
