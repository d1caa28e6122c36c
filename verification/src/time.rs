//! The `mm:ss.ms` times of `clicks-def.yml`, split into their parts.

use vstd::prelude::*;

use crate::paths::string_of_range;
use crate::pattern::chars_of;
use crate::text::{concat, is_whitespace, white_space};

verus! {

broadcast use vstd::string::group_string_axioms;

/// `s` without the white space at either end.
pub open spec fn trimmed(s: Seq<char>, a: int, b: int) -> bool {
    &&& 0 <= a <= b <= s.len()
    &&& forall|i: int| 0 <= i < a ==> white_space(#[trigger] s[i])
    &&& forall|i: int| b <= i < s.len() ==> white_space(#[trigger] s[i])
    &&& a < b ==> !white_space(s[a]) && !white_space(s[b - 1])
}

/// The parts of a time: whether a `-` comes first, then the minutes and
/// the seconds on either side of the first `:`.
#[derive(Debug, Clone, PartialEq)]
pub struct TimeParts {
    /// The time counts back: a `-` stood before the minutes.
    pub negative: bool,
    /// The text of the minutes.
    pub minutes: String,
    /// The text of the seconds.
    pub seconds: String,
}

/// The message of a time without a `:`.
pub open spec fn format_message(s: Seq<char>) -> Seq<char> {
    "expected mm:ss.ms format, got "@ + s
}

/// `t` without its leading `-`, if it has one.
pub open spec fn unsigned(t: Seq<char>) -> Seq<char> {
    if t.len() > 0 && t[0] == '-' {
        t.skip(1)
    } else {
        t
    }
}

/// `i` is the position of the first `:` of `body`.
pub open spec fn is_first_colon(body: Seq<char>, i: int) -> bool {
    0 <= i < body.len() && body[i] == ':' && forall|j: int| 0 <= j < i ==> body[j] != ':'
}

/// `parts` is what `s` splits into: with the white space at either end
/// removed and a leading `-` taken as the sign, the minutes come before the
/// first `:` and the seconds after it.
pub open spec fn splits_into(s: Seq<char>, parts: TimeParts) -> bool {
    exists|a: int, b: int| {
        &&& #[trigger] trimmed(s, a, b)
        &&& {
            let t = s.subrange(a, b);
            let body = unsigned(t);
            &&& parts.negative == (t.len() > 0 && t[0] == '-')
            &&& exists|i: int| #[trigger] is_first_colon(body, i) && parts.minutes@ == body.take(i)
                && parts.seconds@ == body.skip(i + 1)
        }
    }
}

/// `s` has no `:` once trimmed and stripped of its sign.
pub open spec fn has_no_colon(s: Seq<char>) -> bool {
    exists|a: int, b: int| {
        &&& #[trigger] trimmed(s, a, b)
        &&& {
            let body = unsigned(s.subrange(a, b));
            forall|j: int| 0 <= j < body.len() ==> body[j] != ':'
        }
    }
}

/// Splits a time in `mm:ss.ms` form into its sign, minutes and seconds. The
/// numbers themselves are read by the caller.
pub fn split_time(s: &str) -> (r: Result<TimeParts, String>)
    ensures
        r matches Ok(p) ==> splits_into(s@, p),
        r matches Err(e) ==> has_no_colon(s@) && e@ == format_message(s@),
{
    let c = chars_of(s);
    let mut a: usize = 0;
    while a < c.len() && is_whitespace(c[a])
        invariant
            a <= c@.len(),
            c@ == s@,
            forall|i: int| 0 <= i < a ==> white_space(#[trigger] c@[i]),
        decreases c@.len() - a,
    {
        a = a + 1;
    }
    let mut b: usize = c.len();
    while b > a && is_whitespace(c[b - 1])
        invariant
            a <= b <= c@.len(),
            c@ == s@,
            forall|i: int| b <= i < c@.len() ==> white_space(#[trigger] c@[i]),
        decreases b,
    {
        b = b - 1;
    }
    assert(trimmed(s@, a as int, b as int));
    let ghost t = s@.subrange(a as int, b as int);
    let negative = a < b && c[a] == '-';
    let start = if negative { a + 1 } else { a };
    let ghost body = unsigned(t);
    assert(body =~= s@.subrange(start as int, b as int));
    let mut k: usize = start;
    while k < b && c[k] != ':'
        invariant
            start <= k <= b <= c@.len(),
            c@ == s@,
            forall|j: int| start <= j < k ==> c@[j] != ':',
        decreases b - k,
    {
        k = k + 1;
    }
    if k < b {
        let minutes = string_of_range(&c, start, k);
        let seconds = string_of_range(&c, k + 1, b);
        let parts = TimeParts { negative, minutes, seconds };
        let ghost i = k - start;
        assert(is_first_colon(body, i));
        assert(parts.minutes@ =~= body.take(i));
        assert(parts.seconds@ =~= body.skip(i + 1));
        assert(splits_into(s@, parts));
        Ok(parts)
    } else {
        assert(forall|j: int| 0 <= j < body.len() ==> body[j] != ':');
        assert(has_no_colon(s@));
        Err(concat("expected mm:ss.ms format, got ", s))
    }
}

} // verus!
