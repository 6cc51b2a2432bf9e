//! Character-level operations on the text values of the archive.
//!
//! Timestamps are compared as text, character by character, which orders
//! zero-padded `YYYY-MM-DD HH:MM:SS` values chronologically.

use vstd::prelude::*;

verus! {

/// Strict lexicographic order on character sequences: at the first position
/// where the two differ the smaller character decides, and a proper prefix
/// comes before every sequence that extends it.
pub open spec fn lex_lt(a: Seq<char>, b: Seq<char>) -> bool
    decreases a.len(),
{
    if b.len() == 0 {
        false
    } else if a.len() == 0 {
        true
    } else if a[0] != b[0] {
        a[0] < b[0]
    } else {
        lex_lt(a.drop_first(), b.drop_first())
    }
}

/// `p` is a prefix of `s`.
pub open spec fn has_prefix(s: Seq<char>, p: Seq<char>) -> bool {
    p.len() <= s.len() && s.take(p.len() as int) == p
}

/// `word` occurs in `text` as a contiguous run of characters.
pub open spec fn contains_run(text: Seq<char>, word: Seq<char>) -> bool {
    exists|at: int| occurs_at(text, word, at)
}

/// `word` occurs in `text` starting at position `at`.
pub open spec fn occurs_at(text: Seq<char>, word: Seq<char>, at: int) -> bool {
    0 <= at && at + word.len() <= text.len() && text.subrange(at, at + word.len()) == word
}

/// No sequence comes before itself.
pub proof fn lemma_lex_irreflexive(a: Seq<char>)
    ensures
        !lex_lt(a, a),
    decreases a.len(),
{
    if a.len() > 0 {
        lemma_lex_irreflexive(a.drop_first());
    }
}

/// The order is transitive.
pub proof fn lemma_lex_transitive(a: Seq<char>, b: Seq<char>, c: Seq<char>)
    requires
        lex_lt(a, b),
        lex_lt(b, c),
    ensures
        lex_lt(a, c),
    decreases a.len(),
{
    if a.len() > 0 && a[0] == b[0] && b[0] == c[0] {
        lemma_lex_transitive(a.drop_first(), b.drop_first(), c.drop_first());
    }
}

/// Any two sequences are comparable: one comes first, or they are equal.
pub proof fn lemma_lex_total(a: Seq<char>, b: Seq<char>)
    ensures
        lex_lt(a, b) || lex_lt(b, a) || a == b,
    decreases a.len(),
{
    if a.len() > 0 && b.len() > 0 && a[0] == b[0] {
        lemma_lex_total(a.drop_first(), b.drop_first());
        if a.drop_first() == b.drop_first() {
            assert(a =~= seq![a[0]] + a.drop_first());
            assert(b =~= seq![b[0]] + b.drop_first());
        }
    } else if a.len() == 0 && b.len() == 0 {
        assert(a =~= b);
    }
}

/// Where neither of two sequences comes before the next, the first does not
/// come before the last.
pub proof fn lemma_lex_negatively_transitive(a: Seq<char>, b: Seq<char>, c: Seq<char>)
    requires
        !lex_lt(a, b),
        !lex_lt(b, c),
    ensures
        !lex_lt(a, c),
{
    lemma_lex_total(a, b);
    if lex_lt(a, c) && lex_lt(b, a) {
        lemma_lex_transitive(b, a, c);
    }
}

/// Sequences that agree on their first `n` characters compare as their
/// remainders do.
pub proof fn lemma_lex_skip_common(a: Seq<char>, b: Seq<char>, n: int)
    requires
        0 <= n <= a.len(),
        n <= b.len(),
        a.take(n) == b.take(n),
    ensures
        lex_lt(a, b) == lex_lt(a.skip(n), b.skip(n)),
    decreases n,
{
    if n == 0 {
        assert(a.skip(0) =~= a);
        assert(b.skip(0) =~= b);
    } else {
        assert(a[0] == a.take(n)[0]);
        assert(b[0] == b.take(n)[0]);
        let a1 = a.drop_first();
        let b1 = b.drop_first();
        assert(a1.take(n - 1) =~= a.take(n).drop_first());
        assert(b1.take(n - 1) =~= b.take(n).drop_first());
        lemma_lex_skip_common(a1, b1, n - 1);
        assert(a1.skip(n - 1) =~= a.skip(n));
        assert(b1.skip(n - 1) =~= b.skip(n));
    }
}

/// The characters of a string, in order.
pub fn to_chars(s: &str) -> (v: Vec<char>)
    ensures
        v@ == s@,
{
    let mut v: Vec<char> = Vec::new();
    for c in it: s.chars()
        invariant
            v@ == it.seq().take(it.index()),
    {
        v.push(c);
    }
    v
}

/// Whether `word` occurs in `text` at position `at`.
fn chars_occur_at(text: &[char], word: &[char], at: usize) -> (r: bool)
    requires
        at + word.len() <= text.len(),
    ensures
        r == occurs_at(text@, word@, at as int),
{
    let mut i: usize = 0;
    while i < word.len()
        invariant
            i <= word.len(),
            at + word.len() <= text.len(),
            forall|k: int| 0 <= k < i ==> text@[at + k] == word@[k],
        decreases word.len() - i,
    {
        if text[at + i] != word[i] {
            assert(text@.subrange(at as int, at + word.len())[i as int] != word@[i as int]);
            return false;
        }
        i += 1;
    }
    assert(text@.subrange(at as int, at + word.len()) =~= word@);
    true
}

/// Whether `word` occurs somewhere in `text`.
pub fn chars_contain(text: &[char], word: &[char]) -> (r: bool)
    ensures
        r == contains_run(text@, word@),
{
    if word.len() > text.len() {
        return false;
    }
    let last: usize = text.len() - word.len();
    let mut at: usize = 0;
    while at < last
        invariant
            at <= last,
            last == text.len() - word.len(),
            word.len() <= text.len(),
            forall|k: int| 0 <= k < at ==> !occurs_at(text@, word@, k),
        decreases last - at,
    {
        if chars_occur_at(text, word, at) {
            return true;
        }
        at += 1;
    }
    chars_occur_at(text, word, last)
}

/// Whether `a` comes strictly before `b` in lexicographic order.
pub fn str_precedes(a: &str, b: &str) -> (r: bool)
    ensures
        r == lex_lt(a@, b@),
{
    let mut rest = b.chars();
    let ghost mut n: int = 0;
    for c in it: a.chars()
        invariant
            n == it.index(),
            n <= b@.len(),
            it.seq() == a@,
            vstd::std_specs::iter::IteratorSpec::remaining(&rest) == b@.skip(n),
            a@.take(n) == b@.take(n),
    {
        match rest.next() {
            None => {
                proof {
                    lemma_lex_skip_common(a@, b@, n);
                }
                return false;
            },
            Some(d) => {
                if c != d {
                    proof {
                        lemma_lex_skip_common(a@, b@, n);
                    }
                    return c < d;
                }
                proof {
                    assert(a@.take(n + 1) =~= a@.take(n).push(a@[n]));
                    assert(b@.take(n + 1) =~= b@.take(n).push(b@[n]));
                    assert(b@.skip(n).drop_first() =~= b@.skip(n + 1));
                    n = n + 1;
                }
            },
        }
    }
    proof {
        lemma_lex_skip_common(a@, b@, n);
    }
    rest.next().is_some()
}

/// Whether `a` and `b` hold the same characters.
pub fn str_equal(a: &str, b: &str) -> (r: bool)
    ensures
        r == (a@ == b@),
{
    proof {
        lemma_lex_total(a@, b@);
        lemma_lex_irreflexive(a@);
    }
    !str_precedes(a, b) && !str_precedes(b, a)
}

/// Whether `p` is a prefix of `s`.
pub fn str_starts_with(s: &str, p: &str) -> (r: bool)
    ensures
        r == has_prefix(s@, p@),
{
    let mut rest = s.chars();
    let ghost mut n: int = 0;
    for c in it: p.chars()
        invariant
            n == it.index(),
            n <= s@.len(),
            it.seq() == p@,
            vstd::std_specs::iter::IteratorSpec::remaining(&rest) == s@.skip(n),
            s@.take(n) == p@.take(n),
    {
        match rest.next() {
            None => {
                return false;
            },
            Some(d) => {
                if c != d {
                    proof {
                        if p@.len() <= s@.len() {
                            assert(s@.take(p@.len() as int)[n] != p@[n]);
                        }
                    }
                    return false;
                }
                proof {
                    assert(s@.take(n + 1) =~= s@.take(n).push(s@[n]));
                    assert(p@.take(n + 1) =~= p@.take(n).push(p@[n]));
                    assert(s@.skip(n).drop_first() =~= s@.skip(n + 1));
                    n = n + 1;
                }
            },
        }
    }
    assert(p@.take(p@.len() as int) =~= p@);
    true
}

/// Whether `c` is one of the decimal digits.
pub open spec fn is_digit(c: char) -> bool {
    '0' <= c <= '9'
}

/// Whether `s` consists of decimal digits only.
pub open spec fn all_digits(s: Seq<char>) -> bool {
    forall|i: int| 0 <= i < s.len() ==> is_digit(#[trigger] s[i])
}

/// The number that the digits of `s` write in base ten.
pub open spec fn digits_value(s: Seq<char>) -> int
    decreases s.len(),
{
    if s.len() == 0 {
        0
    } else {
        digits_value(s.drop_last()) * 10 + (s.last() as int - '0' as int)
    }
}

/// The number that `s` writes, if `s` is a non-empty run of decimal digits.
pub open spec fn decimal_value(s: Seq<char>) -> Option<int> {
    if s.len() > 0 && all_digits(s) {
        Some(digits_value(s))
    } else {
        None
    }
}

/// The whole number that `s` writes: a non-empty run of decimal digits,
/// after a `-` for a number below zero.
pub open spec fn signed_value(s: Seq<char>) -> Option<int> {
    if s.len() > 0 && s[0] == '-' {
        match decimal_value(s.skip(1)) {
            Some(v) => Some(-v),
            None => None,
        }
    } else {
        decimal_value(s)
    }
}

/// The whole number that `s` writes, if it is one that `i64` holds.
pub open spec fn decimal_i64(s: Seq<char>) -> Option<i64> {
    match signed_value(s) {
        Some(v) => if i64::MIN <= v <= i64::MAX {
            Some(v as i64)
        } else {
            None
        },
        None => None,
    }
}

/// A run of digits writes a number that is no smaller than the number its
/// first `n` digits write.
pub proof fn lemma_digits_value_grows(s: Seq<char>, n: int)
    requires
        all_digits(s),
        0 <= n <= s.len(),
    ensures
        0 <= digits_value(s.take(n)) <= digits_value(s),
    decreases s.len() - n,
{
    lemma_digits_value_nonnegative(s.take(n));
    if n == s.len() {
        assert(s.take(n) =~= s);
    } else {
        lemma_digits_value_grows(s, n + 1);
        let longer = s.take(n + 1);
        assert(longer.drop_last() =~= s.take(n));
        assert(is_digit(s[n]));
        assert(longer.last() == s[n]);
    }
}

/// A run of digits writes a number that is not negative.
pub proof fn lemma_digits_value_nonnegative(s: Seq<char>)
    requires
        all_digits(s),
    ensures
        digits_value(s) >= 0,
    decreases s.len(),
{
    if s.len() > 0 {
        lemma_digits_value_nonnegative(s.drop_last());
        assert(is_digit(s[s.len() - 1]));
    }
}

/// Reads a whole number written in decimal digits, with a `-` before the
/// digits of a number below zero. Text of another form, and a number that
/// `i64` does not hold, give `None`.
pub fn parse_decimal(s: &str) -> (r: Option<i64>)
    ensures
        r == decimal_i64(s@),
{
    let chars = to_chars(s);
    let n = chars.len();
    let negative = n > 0 && chars[0] == '-';
    let start: usize = if negative {
        1
    } else {
        0
    };
    let ghost digits = chars@.skip(start as int);
    assert(!negative ==> digits =~= s@);
    let mut magnitude: u64 = 0;
    let mut i: usize = start;
    assert(digits.take(0) =~= Seq::<char>::empty());
    while i < n
        invariant
            start <= i <= n,
            n == chars.len(),
            chars@ == s@,
            negative == (s@.len() > 0 && s@[0] == '-'),
            start == if negative { 1int } else { 0int },
            digits == chars@.skip(start as int),
            !negative ==> digits == s@,
            all_digits(digits.take(i - start)),
            magnitude == digits_value(digits.take(i - start)),
        decreases n - i,
    {
        let c = chars[i];
        assert(digits[i - start] == c);
        if c < '0' || c > '9' {
            assert(!is_digit(digits[i - start]));
            return None;
        }
        let digit: u64 = (c as u32 - '0' as u32) as u64;
        proof {
            let longer = digits.take(i - start + 1);
            assert(longer.drop_last() =~= digits.take(i - start));
            assert(longer.last() == digits[i - start]);
            assert forall|k: int| 0 <= k < longer.len() implies is_digit(#[trigger] longer[k]) by {
                if k < i - start {
                    assert(longer[k] == digits.take(i - start)[k]);
                }
            }
        }
        if magnitude > (u64::MAX - digit) / 10 {
            proof {
                if all_digits(digits) {
                    lemma_digits_value_grows(digits, i - start + 1);
                }
            }
            return None;
        }
        magnitude = magnitude * 10 + digit;
        i += 1;
    }
    assert(digits.take(n - start) =~= digits);
    assert(!negative ==> digits =~= s@);
    if start == n {
        None
    } else if negative {
        if magnitude > 0x8000_0000_0000_0000 {
            None
        } else if magnitude == 0x8000_0000_0000_0000 {
            Some(i64::MIN)
        } else {
            Some(-(magnitude as i64))
        }
    } else if magnitude > 0x7fff_ffff_ffff_ffff {
        None
    } else {
        Some(magnitude as i64)
    }
}

} // verus!
