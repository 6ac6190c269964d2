//! Arguments of a new time entry.

use crate::error::Error;
use crate::text::{chars_of, i32_in, i32_text_value, is_whitespace, sub_chars, whitespace};
use vstd::prelude::*;

verus! {

/// `s` without its leading spaces and '#' characters.
pub open spec fn skip_issue_prefix(s: Seq<char>) -> Seq<char>
    decreases s.len(),
{
    if s.len() > 0 && (s[0] == ' ' || s[0] == '#') {
        skip_issue_prefix(s.drop_first())
    } else {
        s
    }
}

/// `s` without its trailing whitespace.
pub open spec fn trim_end(s: Seq<char>) -> Seq<char>
    decreases s.len(),
{
    if s.len() > 0 && is_whitespace(s.last()) {
        trim_end(s.drop_last())
    } else {
        s
    }
}

/// The issue id that a text names: leading spaces and '#' and trailing
/// whitespace are dropped, and what is left must be a decimal `i32`.
pub open spec fn issue_id_of(s: Seq<char>) -> Option<i32> {
    i32_text_value(trim_end(skip_issue_prefix(s)))
}

/// Reads an issue id such as "12345", "#12345" or " #  12345 ".
pub fn parse_issue(input: &str) -> (r: Result<i32, Error>)
    ensures
        match issue_id_of(input@) {
            Some(id) => r == Ok::<i32, Error>(id),
            None => r matches Err(Error::InvalidIssueId(m)) && m@ == input@,
        },
{
    let s = chars_of(input);
    let n = s.len();
    let mut start: usize = 0;
    assert(s@.subrange(0, n as int) =~= s@);
    while start < n && (s[start] == ' ' || s[start] == '#')
        invariant
            start <= n == s.len(),
            skip_issue_prefix(s@) == skip_issue_prefix(s@.subrange(start as int, n as int)),
        decreases n - start,
    {
        assert(s@.subrange(start as int, n as int).drop_first() =~= s@.subrange(
            start + 1,
            n as int,
        ));
        start = start + 1;
    }
    let ghost rest = s@.subrange(start as int, n as int);
    assert(skip_issue_prefix(rest) == rest);
    let mut end: usize = n;
    while end > start && whitespace(s[end - 1])
        invariant
            start <= end <= n == s.len(),
            rest == s@.subrange(start as int, n as int),
            trim_end(rest) == trim_end(s@.subrange(start as int, end as int)),
        decreases end - start,
    {
        assert(s@.subrange(start as int, end as int).drop_last() =~= s@.subrange(
            start as int,
            end - 1,
        ));
        end = end - 1;
    }
    let core = sub_chars(&s, start, end);
    assert(trim_end(core@) == core@);
    match i32_in(&core) {
        Some(id) => Ok(id),
        None => Err(Error::InvalidIssueId(input.to_owned())),
    }
}

} // verus!
