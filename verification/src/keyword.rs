//! The keyword filter of the thread listing.
//!
//! A search is carried as a pattern: the keyword between two `%` marks. A
//! pattern selects the contents in which its keyword occurs; the pattern of
//! a request without keyword holds the empty keyword and selects every
//! content.

use vstd::prelude::*;
use vstd::slice::slice_subrange;
use crate::text::{chars_contain, contains_run, occurs_at, to_chars};

verus! {

/// The pattern that carries an optional keyword.
pub open spec fn keyword_pattern(keyword: Option<String>) -> Seq<char> {
    match keyword {
        Some(keyword) => seq!['%'] + keyword@ + seq!['%'],
        None => seq!['%', '%'],
    }
}

/// Whether `pattern` is a keyword between two `%` marks.
pub open spec fn is_pattern(pattern: Seq<char>) -> bool {
    pattern.len() >= 2 && pattern.first() == '%' && pattern.last() == '%'
}

/// The keyword that a pattern carries.
pub open spec fn pattern_keyword(pattern: Seq<char>) -> Seq<char> {
    pattern.subrange(1, pattern.len() - 1)
}

/// Whether `pattern` selects `content`: the keyword of the pattern occurs
/// in the content. Text that is no pattern selects nothing.
pub open spec fn pattern_selects(pattern: Seq<char>, content: Seq<char>) -> bool {
    is_pattern(pattern) && contains_run(content, pattern_keyword(pattern))
}

/// The pattern of a keyword selects the contents in which the keyword
/// occurs, and the pattern of no keyword selects every content.
pub proof fn lemma_keyword_pattern_selects(keyword: Option<String>, content: Seq<char>)
    ensures
        is_pattern(keyword_pattern(keyword)),
        pattern_selects(keyword_pattern(keyword), content) == match keyword {
            Some(keyword) => contains_run(content, keyword@),
            None => true,
        },
{
    let pattern = keyword_pattern(keyword);
    match keyword {
        Some(keyword) => {
            assert(pattern_keyword(pattern) =~= keyword@);
        },
        None => {
            assert(pattern_keyword(pattern) =~= Seq::<char>::empty());
            assert(occurs_at(content, Seq::<char>::empty(), 0)) by {
                assert(content.subrange(0, 0) =~= Seq::<char>::empty());
            }
        },
    }
}

/// Builds the pattern that carries an optional keyword.
pub fn get_keyword_sql_param(keyword: Option<String>) -> (r: String)
    ensures
        r@ == keyword_pattern(keyword),
{
    proof {
        reveal_strlit("%");
        reveal_strlit("%%");
    }
    match keyword {
        Some(keyword) => {
            let mut pattern = String::from_str("%");
            pattern.append(keyword.as_str());
            pattern.append("%");
            assert(pattern@ =~= seq!['%'] + keyword@ + seq!['%']);
            pattern
        },
        None => {
            let pattern = String::from_str("%%");
            assert(pattern@ =~= seq!['%', '%']);
            pattern
        },
    }
}

/// The keyword that `pattern` carries, or `None` where the text is no
/// pattern.
pub fn keyword_of_pattern(pattern: &str) -> (r: Option<Vec<char>>)
    ensures
        r is Some == is_pattern(pattern@),
        r matches Some(keyword) ==> keyword@ == pattern_keyword(pattern@),
{
    let chars = to_chars(pattern);
    let n = chars.len();
    if n < 2 || chars[0] != '%' || chars[n - 1] != '%' {
        return None;
    }
    let inner = slice_subrange(chars.as_slice(), 1, n - 1);
    let mut keyword: Vec<char> = Vec::new();
    let mut i: usize = 0;
    while i < inner.len()
        invariant
            i <= inner.len(),
            keyword@ == inner@.take(i as int),
        decreases inner.len() - i,
    {
        keyword.push(inner[i]);
        assert(inner@.take(i + 1) =~= inner@.take(i as int).push(inner@[i as int]));
        i += 1;
    }
    assert(inner@.take(inner.len() as int) =~= inner@);
    Some(keyword)
}

/// Whether the keyword occurs in `content`.
pub fn content_holds(content: &str, keyword: &Vec<char>) -> (r: bool)
    ensures
        r == contains_run(content@, keyword@),
{
    let chars = to_chars(content);
    chars_contain(chars.as_slice(), keyword.as_slice())
}

/// Whether `pattern` selects `content`.
pub fn matches_pattern(content: &str, pattern: &str) -> (r: bool)
    ensures
        r == pattern_selects(pattern@, content@),
{
    match keyword_of_pattern(pattern) {
        Some(keyword) => content_holds(content, &keyword),
        None => false,
    }
}

} // verus!
