//! The point-in-time boundary of a request, and the two incident windows.
//!
//! A timestamp is text of the form `YYYY-MM-DD HH:MM:SS`; timestamps are
//! ordered as text.

use vstd::prelude::*;
use crate::text::{
    has_prefix, is_digit, lemma_lex_skip_common, lex_lt, str_precedes, str_starts_with,
};

verus! {

/// The latest timestamp that can be written: the boundary of a request that
/// asks for no point in time.
pub const END_OF_TIME: &'static str = "9999-12-31 23:59:59";

/// The hour of the first bulk-operation incident. Moderation entries stamped
/// within it are never taken for real moderation events.
pub const REWIND_INCIDENT_HOUR: &'static str = "2022-02-16 01:";

/// The hour of the second bulk-operation incident.
pub const ROLLBACK_INCIDENT_HOUR: &'static str = "2022-02-26 23:";

/// The boundary that a request asks for: its cutoff, or the end of time.
pub open spec fn resolved_cutoff(requested: Option<String>) -> Seq<char> {
    match requested {
        Some(cutoff) => cutoff@,
        None => END_OF_TIME@,
    }
}

/// Whether a timestamp lies in one of the two incident windows.
pub open spec fn in_incident_window(time: Seq<char>) -> bool {
    has_prefix(time, REWIND_INCIDENT_HOUR@) || has_prefix(time, ROLLBACK_INCIDENT_HOUR@)
}

/// The number that the two digits of `time` at positions `at` and `at + 1`
/// write.
pub open spec fn two_digits(time: Seq<char>, at: int) -> int {
    (time[at] as int - '0' as int) * 10 + (time[at + 1] as int - '0' as int)
}

/// Whether `time` has the form `YYYY-MM-DD HH:MM:SS` of a time of the
/// calendar and the clock.
pub open spec fn is_timestamp(time: Seq<char>) -> bool {
    &&& time.len() == 19
    &&& forall|i: int|
        0 <= i < 19 && i != 4 && i != 7 && i != 10 && i != 13 && i != 16 ==> is_digit(
            #[trigger] time[i],
        )
    &&& time[4] == '-' && time[7] == '-' && time[10] == ' ' && time[13] == ':' && time[16] == ':'
    &&& 1 <= two_digits(time, 5) <= 12
    &&& 1 <= two_digits(time, 8) <= 31
    &&& two_digits(time, 11) <= 23
    &&& two_digits(time, 14) <= 59
    &&& two_digits(time, 17) <= 59
}

/// No timestamp is later than the end of time: a boundary at the end of
/// time admits every row but one made in its very last second.
pub proof fn lemma_end_of_time_is_last(time: Seq<char>)
    requires
        is_timestamp(time),
    ensures
        is_timestamp(END_OF_TIME@),
        time == END_OF_TIME@ || lex_lt(time, END_OF_TIME@),
{
    reveal_strlit("9999-12-31 23:59:59");
    let end = END_OF_TIME@;
    assert(is_digit(time[0]) && is_digit(time[1]) && is_digit(time[2]) && is_digit(time[3]));
    assert(is_digit(time[5]) && is_digit(time[6]) && is_digit(time[8]) && is_digit(time[9]));
    assert(is_digit(time[11]) && is_digit(time[12]) && is_digit(time[14]) && is_digit(time[15]));
    assert(is_digit(time[17]) && is_digit(time[18]));
    if time != end {
        assert(time.take(0) =~= end.take(0));
        let n = first_difference(time, end, 0);
        lemma_lex_skip_common(time, end, n);
        assert(time.skip(n)[0] == time[n]);
        assert(end.skip(n)[0] == end[n]);
        assert forall|k: int| 0 <= k < n implies time[k] == end[k] by {
            assert(time.take(n)[k] == end.take(n)[k]);
        }
        assert(time[n] < end[n]);
    }
}

/// The first position, from `from` on, at which two sequences of the same
/// length differ.
proof fn first_difference(a: Seq<char>, b: Seq<char>, from: int) -> (n: int)
    requires
        a.len() == b.len(),
        a != b,
        0 <= from <= a.len(),
        a.take(from) == b.take(from),
    ensures
        from <= n < a.len(),
        a.take(n) == b.take(n),
        a[n] != b[n],
    decreases a.len() - from,
{
    if from == a.len() {
        assert(a.take(from) =~= a);
        assert(b.take(from) =~= b);
        from
    } else if a[from] != b[from] {
        from
    } else {
        assert(a.take(from + 1) =~= a.take(from).push(a[from]));
        assert(b.take(from + 1) =~= b.take(from).push(b[from]));
        first_difference(a, b, from + 1)
    }
}

/// Resolves the optional cutoff of a request to the boundary that every
/// time comparison of the request uses.
pub fn get_datetime_sql_param(datetime: Option<String>) -> (r: String)
    ensures
        r@ == resolved_cutoff(datetime),
{
    match datetime {
        Some(datetime) => datetime,
        None => String::from_str(END_OF_TIME),
    }
}

/// Whether `time` is strictly before `cutoff`.
pub fn is_before(time: &str, cutoff: &str) -> (r: bool)
    ensures
        r == lex_lt(time@, cutoff@),
{
    str_precedes(time, cutoff)
}

/// Whether a timestamp lies in one of the two incident windows.
pub fn falls_in_incident_window(time: &str) -> (r: bool)
    ensures
        r == in_incident_window(time@),
{
    str_starts_with(time, REWIND_INCIDENT_HOUR) || str_starts_with(time, ROLLBACK_INCIDENT_HOUR)
}

} // verus!
