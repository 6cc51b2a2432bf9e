//! Selection and ordering of the rows of a table, by row position.
//!
//! A listing is described by a rule: a condition that says which rows belong
//! to it and a ranking that says in which order they come. Rows that the
//! ranking does not tell apart keep the order they have in the table, so a
//! rule has exactly one listing.

use vstd::prelude::*;
use vstd::seq_lib::*;

verus! {

/// The description of a listing over a table whose rows are addressed by
/// position.
pub trait Rule {
    /// Number of rows in the table.
    spec fn span(&self) -> nat;

    /// Whether the row at position `i` belongs to the listing.
    spec fn admits(&self, i: int) -> bool;

    /// Whether the row at position `i` ranks strictly above the row at `j`.
    spec fn outranks(&self, i: int, j: int) -> bool;

    /// The ranking is a strict weak order: no row outranks itself,
    /// outranking is transitive, and so is its absence.
    proof fn lemma_ranking(&self, i: int, j: int, k: int)
        requires
            0 <= i < self.span(),
            0 <= j < self.span(),
            0 <= k < self.span(),
        ensures
            !self.outranks(i, i),
            self.outranks(i, j) && self.outranks(j, k) ==> self.outranks(i, k),
            !self.outranks(i, j) && !self.outranks(j, k) ==> !self.outranks(i, k),
    ;
}

/// What a request has prepared to evaluate a rule against an archive.
pub trait Plan {
    /// The kind of rule that this plan evaluates.
    type Spec: Rule;

    /// The rule that this plan evaluates.
    spec fn rule(&self) -> Self::Spec;

    /// What the plan has prepared agrees with its rule.
    spec fn well_formed(&self) -> bool;

    /// Number of rows in the table.
    fn rows(&self) -> (n: usize)
        requires
            self.well_formed(),
        ensures
            n == self.rule().span(),
    ;
}

/// A plan that can tell which rows its rule admits.
pub trait Sieve: Plan {
    /// Whether the rule admits the row at position `i`.
    fn test(&self, i: usize) -> (b: bool)
        requires
            self.well_formed(),
            i < self.rule().span(),
        ensures
            b == self.rule().admits(i as int),
    ;
}

/// A plan that can tell which of two rows its rule ranks above the other.
pub trait Order: Plan {
    /// Whether the rule ranks the row at `i` strictly above the row at `j`.
    fn ranks_above(&self, i: usize, j: usize) -> (b: bool)
        requires
            self.well_formed(),
            i < self.rule().span(),
            j < self.rule().span(),
        ensures
            b == self.rule().outranks(i as int, j as int),
    ;
}

/// Every position in `s` is a row of a table with `n` rows.
pub open spec fn within(s: Seq<usize>, n: nat) -> bool {
    forall|k: int| 0 <= k < s.len() ==> (#[trigger] s[k]) < n
}

/// `s` holds the positions of the rows that `q` admits, each once, in
/// table order.
pub open spec fn selects<R: Rule>(q: R, s: Seq<usize>) -> bool {
    &&& forall|k: int| 0 <= k < s.len() ==> (#[trigger] s[k]) < q.span() && q.admits(s[k] as int)
    &&& forall|i: int| 0 <= i < q.span() && #[trigger] q.admits(i) ==> s.contains(i as usize)
    &&& forall|a: int, b: int| 0 <= a < b < s.len() ==> (#[trigger] s[a]) < (#[trigger] s[b])
}

/// The order of a listing: row `i` comes before row `j` when it outranks
/// `j`, or when neither outranks the other and `i` stands earlier in the
/// table.
pub open spec fn comes_first<R: Rule>(r: R, i: int, j: int) -> bool {
    r.outranks(i, j) || (!r.outranks(j, i) && i < j)
}

/// No position in `s` stands before one that should come first.
pub open spec fn arranged<R: Rule>(r: R, s: Seq<usize>) -> bool {
    forall|a: int, b: int|
        0 <= a < b < s.len() ==> !comes_first(r, (#[trigger] s[b]) as int, (#[trigger] s[a]) as int)
}

/// Each position in `s` comes strictly before all that follow it.
pub open spec fn strictly_arranged<R: Rule>(r: R, s: Seq<usize>) -> bool {
    forall|a: int, b: int|
        0 <= a < b < s.len() ==> comes_first(r, (#[trigger] s[a]) as int, (#[trigger] s[b]) as int)
}

/// `comes_first` is a strict total order on the rows of the table.
pub proof fn lemma_comes_first_order<R: Rule>(r: R, i: int, j: int, k: int)
    requires
        0 <= i < r.span(),
        0 <= j < r.span(),
        0 <= k < r.span(),
    ensures
        !comes_first(r, i, i),
        i != j ==> comes_first(r, i, j) || comes_first(r, j, i),
        !(comes_first(r, i, j) && comes_first(r, j, i)),
        comes_first(r, i, j) && comes_first(r, j, k) ==> comes_first(r, i, k),
        !comes_first(r, i, j) && !comes_first(r, j, k) ==> !comes_first(r, i, k),
{
    r.lemma_ranking(i, j, k);
    r.lemma_ranking(i, k, j);
    r.lemma_ranking(j, i, k);
    r.lemma_ranking(j, k, i);
    r.lemma_ranking(k, i, j);
    r.lemma_ranking(k, j, i);
    r.lemma_ranking(i, j, i);
    r.lemma_ranking(j, k, j);
    r.lemma_ranking(i, k, i);
}

/// An arrangement without repeated positions is strict.
pub proof fn lemma_arranged_distinct_is_strict<R: Rule>(r: R, s: Seq<usize>)
    requires
        within(s, r.span()),
        arranged(r, s),
        s.no_duplicates(),
    ensures
        strictly_arranged(r, s),
{
    assert forall|a: int, b: int| 0 <= a < b < s.len() implies comes_first(
        r,
        (#[trigger] s[a]) as int,
        (#[trigger] s[b]) as int,
    ) by {
        lemma_comes_first_order(r, s[a] as int, s[b] as int, s[a] as int);
    }
}

/// Two strict arrangements of the same positions are the same sequence.
pub proof fn lemma_strict_arrangement_unique<R: Rule>(r: R, s: Seq<usize>, t: Seq<usize>)
    requires
        within(s, r.span()),
        within(t, r.span()),
        strictly_arranged(r, s),
        strictly_arranged(r, t),
        forall|x: usize| s.contains(x) <==> t.contains(x),
    ensures
        s == t,
{
    lemma_agree_up_to(r, s, t, s.len() as int);
    lemma_agree_up_to(r, t, s, t.len() as int);
    assert(s =~= t);
}

/// Two strict arrangements of the same positions agree on their first `n`
/// places, as far as the first one reaches.
proof fn lemma_agree_up_to<R: Rule>(r: R, s: Seq<usize>, t: Seq<usize>, n: int)
    requires
        within(s, r.span()),
        within(t, r.span()),
        strictly_arranged(r, s),
        strictly_arranged(r, t),
        forall|x: usize| s.contains(x) <==> t.contains(x),
        0 <= n <= s.len(),
    ensures
        n <= t.len(),
        forall|k: int| 0 <= k < n ==> s[k] == t[k],
    decreases n,
{
    if n > 0 {
        lemma_agree_up_to(r, s, t, n - 1);
        let k = n - 1;
        let x = s[k];
        assert(s.contains(x));
        let p = choose|p: int| 0 <= p < t.len() && t[p] == x;
        if p < k {
            // t[p] == s[p] by induction, so s[p] == s[k] with p < k
            lemma_comes_first_order(r, s[p] as int, s[k] as int, s[k] as int);
        }
        assert(k < t.len());
        let y = t[k];
        assert(t.contains(y));
        let q = choose|q: int| 0 <= q < s.len() && s[q] == y;
        if q < k {
            lemma_comes_first_order(r, t[q] as int, t[k] as int, t[k] as int);
        }
        if p > k && q > k {
            lemma_comes_first_order(r, s[k] as int, t[k] as int, s[k] as int);
        } else if p > k {
            // q == k: s[k] == t[k] == t[p] with k < p
            lemma_comes_first_order(r, t[k] as int, t[p] as int, t[k] as int);
        }
    }
}

/// `s` is the listing that `q` describes: the positions of the rows that
/// `q` admits, each once, in the order of its ranking.
pub open spec fn lists<R: Rule>(q: R, s: Seq<usize>) -> bool {
    &&& forall|k: int| 0 <= k < s.len() ==> (#[trigger] s[k]) < q.span() && q.admits(s[k] as int)
    &&& forall|i: int| 0 <= i < q.span() && #[trigger] q.admits(i) ==> s.contains(i as usize)
    &&& strictly_arranged(q, s)
}

/// The listing that a rule describes.
pub open spec fn listing<R: Rule>(q: R) -> Seq<usize> {
    choose|s: Seq<usize>| lists(q, s)
}

/// A table has one listing for a given condition and ranking.
pub proof fn lemma_listing_unique<R: Rule>(q: R, s: Seq<usize>, t: Seq<usize>)
    requires
        lists(q, s),
        lists(q, t),
    ensures
        s == t,
{
    assert forall|x: usize| s.contains(x) <==> t.contains(x) by {
        if s.contains(x) {
            let k = choose|k: int| 0 <= k < s.len() && s[k] == x;
            assert(q.admits(s[k] as int));
        }
        if t.contains(x) {
            let k = choose|k: int| 0 <= k < t.len() && t[k] == x;
            assert(q.admits(t[k] as int));
        }
    }
    lemma_strict_arrangement_unique(q, s, t);
}

/// The first place of `s`, from `from` on, whose row does not come before
/// row `x`.
proof fn place_of<R: Rule>(q: R, s: Seq<usize>, x: int, from: int) -> (p: int)
    requires
        0 <= from <= s.len(),
        forall|k: int| 0 <= k < from ==> comes_first(q, (#[trigger] s[k]) as int, x),
    ensures
        from <= p <= s.len(),
        forall|k: int| 0 <= k < p ==> comes_first(q, (#[trigger] s[k]) as int, x),
        p < s.len() ==> !comes_first(q, s[p] as int, x),
    decreases s.len() - from,
{
    if from == s.len() || !comes_first(q, s[from] as int, x) {
        from
    } else {
        place_of(q, s, x, from + 1)
    }
}

/// The listing of the first `n` rows of the table.
proof fn listing_of_first<R: Rule>(q: R, n: nat) -> (s: Seq<usize>)
    requires
        n <= q.span() <= usize::MAX,
    ensures
        forall|k: int| 0 <= k < s.len() ==> (#[trigger] s[k]) < n && q.admits(s[k] as int),
        forall|i: int| 0 <= i < n && #[trigger] q.admits(i) ==> s.contains(i as usize),
        strictly_arranged(q, s),
    decreases n,
{
    if n == 0 {
        Seq::empty()
    } else {
        let rest = listing_of_first(q, (n - 1) as nat);
        let x = (n - 1) as int;
        if !q.admits(x) {
            rest
        } else {
            let p = place_of(q, rest, x, 0);
            let s = rest.subrange(0, p).push(x as usize) + rest.subrange(p, rest.len() as int);
            assert forall|i: int| 0 <= i < n && #[trigger] q.admits(i) implies s.contains(
                i as usize,
            ) by {
                if i == x {
                    assert(s[p] == x as usize);
                } else {
                    assert(rest.contains(i as usize));
                    let k = choose|k: int| 0 <= k < rest.len() && rest[k] == i as usize;
                    if k < p {
                        assert(s[k] == rest[k]);
                    } else {
                        assert(s[k + 1] == rest[k]);
                    }
                }
            }
            assert forall|a: int, b: int| 0 <= a < b < s.len() implies comes_first(
                q,
                (#[trigger] s[a]) as int,
                (#[trigger] s[b]) as int,
            ) by {
                if b < p {
                    assert(s[a] == rest[a] && s[b] == rest[b]);
                } else if b == p {
                    assert(s[a] == rest[a]);
                } else if a == p {
                    // x against a row that stands at or after place p
                    assert(s[b] == rest[b - 1]);
                    lemma_comes_first_order(q, x, rest[p] as int, rest[b - 1] as int);
                    lemma_comes_first_order(q, rest[p] as int, x, x);
                    if b - 1 > p {
                        assert(comes_first(q, rest[p] as int, rest[b - 1] as int));
                    }
                } else if a < p {
                    assert(s[a] == rest[a] && s[b] == rest[b - 1]);
                } else {
                    assert(s[a] == rest[a - 1] && s[b] == rest[b - 1]);
                }
            }
            s
        }
    }
}

/// Every rule has a listing: `listing` names a sequence that lists the
/// rule.
pub proof fn lemma_listing_exists<R: Rule>(q: R)
    requires
        q.span() <= usize::MAX,
    ensures
        lists(q, listing(q)),
{
    let s = listing_of_first(q, q.span());
    assert(lists(q, s));
}

/// The positions of the rows that `q` admits, in table order.
pub fn select<Q: Sieve>(q: &Q) -> (found: Vec<usize>)
    requires
        q.well_formed(),
    ensures
        selects(q.rule(), found@),
{
    let n = q.rows();
    let mut found: Vec<usize> = Vec::new();
    let mut i: usize = 0;
    while i < n
        invariant
            q.well_formed(),
            i <= n,
            n == q.rule().span(),
            forall|k: int| 0 <= k < found.len() ==> (#[trigger] found[k]) < i && q.rule().admits(found[k] as int),
            forall|j: int| 0 <= j < i && #[trigger] q.rule().admits(j) ==> found@.contains(j as usize),
            forall|a: int, b: int| 0 <= a < b < found.len() ==> (#[trigger] found[a]) < (#[trigger] found[b]),
        decreases n - i,
    {
        if q.test(i) {
            let ghost before = found@;
            found.push(i);
            assert forall|j: int| 0 <= j < i + 1 && #[trigger] q.rule().admits(j) implies found@.contains(
                j as usize,
            ) by {
                if j < i {
                    let p = choose|p: int| 0 <= p < before.len() && before[p] == j as usize;
                    assert(found@[p] == j as usize);
                } else {
                    assert(found@[found.len() - 1] == j as usize);
                }
            }
        }
        i += 1;
    }
    found
}

/// Whether row `i` comes before row `j` in a listing ranked by `r`.
pub fn precedes<Q: Order>(q: &Q, i: usize, j: usize) -> (b: bool)
    requires
        q.well_formed(),
        i < q.rule().span(),
        j < q.rule().span(),
    ensures
        b == comes_first(q.rule(), i as int, j as int),
{
    if q.ranks_above(i, j) {
        true
    } else if q.ranks_above(j, i) {
        false
    } else {
        i < j
    }
}

/// Merges two arranged runs into one.
fn merge<Q: Order>(q: &Q, left: &Vec<usize>, right: &Vec<usize>) -> (out: Vec<usize>)
    requires
        q.well_formed(),
        within(left@, q.rule().span()),
        within(right@, q.rule().span()),
        arranged(q.rule(), left@),
        arranged(q.rule(), right@),
    ensures
        within(out@, q.rule().span()),
        arranged(q.rule(), out@),
        out@.to_multiset() == left@.to_multiset().add(right@.to_multiset()),
{
    broadcast use group_to_multiset_ensures;

    let mut out: Vec<usize> = Vec::new();
    let mut i: usize = 0;
    let mut j: usize = 0;
    assert(left@.take(0) =~= Seq::<usize>::empty());
    assert(right@.take(0) =~= Seq::<usize>::empty());
    assert(out@.to_multiset() =~= left@.take(0).to_multiset().add(right@.take(0).to_multiset()));
    while i < left.len() || j < right.len()
        invariant
            q.well_formed(),
            i <= left.len(),
            j <= right.len(),
            within(left@, q.rule().span()),
            within(right@, q.rule().span()),
            arranged(q.rule(), left@),
            arranged(q.rule(), right@),
            within(out@, q.rule().span()),
            arranged(q.rule(), out@),
            out@.to_multiset() == left@.take(i as int).to_multiset().add(
                right@.take(j as int).to_multiset(),
            ),
            forall|k: int, p: int|
                0 <= k < out.len() && i <= p < left.len() ==> !comes_first(
                    q.rule(),
                    (#[trigger] left[p]) as int,
                    (#[trigger] out[k]) as int,
                ),
            forall|k: int, p: int|
                0 <= k < out.len() && j <= p < right.len() ==> !comes_first(
                    q.rule(),
                    (#[trigger] right[p]) as int,
                    (#[trigger] out[k]) as int,
                ),
        decreases (left.len() - i) + (right.len() - j),
    {
        let from_left: bool = if j == right.len() {
            true
        } else if i == left.len() {
            false
        } else {
            !precedes(q, right[j], left[i])
        };
        let ghost before = out@;
        if from_left {
            let x = left[i];
            out.push(x);
            assert(left@.take(i + 1) =~= left@.take(i as int).push(x));
            assert(out@ =~= before.push(x));
            proof {
                to_multiset_build(before, x);
                to_multiset_build(left@.take(i as int), x);
            }
            assert(out@.to_multiset() =~= left@.take(i + 1).to_multiset().add(
                right@.take(j as int).to_multiset(),
            ));
            assert forall|k: int, p: int|
                0 <= k < out.len() && i + 1 <= p < left.len() implies !comes_first(
                q.rule(),
                (#[trigger] left[p]) as int,
                (#[trigger] out[k]) as int,
            ) by {
                if k == out.len() - 1 {
                    assert(out[k] == left[i as int]);
                } else {
                    assert(out[k] == before[k]);
                }
            }
            assert forall|k: int, p: int|
                0 <= k < out.len() && j <= p < right.len() implies !comes_first(
                q.rule(),
                (#[trigger] right[p]) as int,
                (#[trigger] out[k]) as int,
            ) by {
                if k == out.len() - 1 {
                    assert(out[k] == left[i as int]);
                    if p > j {
                        lemma_comes_first_order(q.rule(), right[p] as int, right[j as int] as int, x as int);
                    }
                } else {
                    assert(out[k] == before[k]);
                }
            }
            assert forall|a: int, b: int| 0 <= a < b < out.len() implies !comes_first(
                q.rule(),
                (#[trigger] out[b]) as int,
                (#[trigger] out[a]) as int,
            ) by {
                assert(out[a] == before[a]);
                if b == out.len() - 1 {
                    assert(out[b] == left[i as int]);
                } else {
                    assert(out[b] == before[b]);
                }
            }
            i += 1;
        } else {
            let x = right[j];
            out.push(x);
            assert(right@.take(j + 1) =~= right@.take(j as int).push(x));
            assert(out@ =~= before.push(x));
            proof {
                to_multiset_build(before, x);
                to_multiset_build(right@.take(j as int), x);
            }
            assert(out@.to_multiset() =~= left@.take(i as int).to_multiset().add(
                right@.take(j + 1).to_multiset(),
            ));
            assert forall|k: int, p: int|
                0 <= k < out.len() && j + 1 <= p < right.len() implies !comes_first(
                q.rule(),
                (#[trigger] right[p]) as int,
                (#[trigger] out[k]) as int,
            ) by {
                if k == out.len() - 1 {
                    assert(out[k] == right[j as int]);
                } else {
                    assert(out[k] == before[k]);
                }
            }
            assert forall|k: int, p: int|
                0 <= k < out.len() && i <= p < left.len() implies !comes_first(
                q.rule(),
                (#[trigger] left[p]) as int,
                (#[trigger] out[k]) as int,
            ) by {
                if k == out.len() - 1 {
                    assert(out[k] == right[j as int]);
                    lemma_comes_first_order(q.rule(), left[p] as int, left[i as int] as int, x as int);
                    lemma_comes_first_order(q.rule(), left[i as int] as int, x as int, left[i as int] as int);
                } else {
                    assert(out[k] == before[k]);
                }
            }
            assert forall|a: int, b: int| 0 <= a < b < out.len() implies !comes_first(
                q.rule(),
                (#[trigger] out[b]) as int,
                (#[trigger] out[a]) as int,
            ) by {
                assert(out[a] == before[a]);
                if b == out.len() - 1 {
                    assert(out[b] == right[j as int]);
                } else {
                    assert(out[b] == before[b]);
                }
            }
            j += 1;
        }
    }
    assert(left@.take(left.len() as int) =~= left@);
    assert(right@.take(right.len() as int) =~= right@);
    out
}

/// Arranges the part of `members` between `lo` and `hi`.
fn arrange_range<Q: Order>(q: &Q, members: &Vec<usize>, lo: usize, hi: usize) -> (out: Vec<
    usize,
>)
    requires
        q.well_formed(),
        lo <= hi <= members.len(),
        within(members@, q.rule().span()),
    ensures
        within(out@, q.rule().span()),
        arranged(q.rule(), out@),
        out@.to_multiset() == members@.subrange(lo as int, hi as int).to_multiset(),
    decreases hi - lo,
{
    broadcast use group_to_multiset_ensures;

    if hi - lo == 0 {
        let out: Vec<usize> = Vec::new();
        assert(out@ =~= members@.subrange(lo as int, hi as int));
        out
    } else if hi - lo == 1 {
        let mut out: Vec<usize> = Vec::new();
        out.push(members[lo]);
        assert(out@ =~= members@.subrange(lo as int, hi as int));
        out
    } else {
        let mid: usize = lo + (hi - lo) / 2;
        let left = arrange_range(q, members, lo, mid);
        let right = arrange_range(q, members, mid, hi);
        proof {
            let a = members@.subrange(lo as int, mid as int);
            let b = members@.subrange(mid as int, hi as int);
            assert(a + b =~= members@.subrange(lo as int, hi as int));
            lemma_multiset_commutative(a, b);
        }
        merge(q, &left, &right)
    }
}

/// Puts `members` in the order of a listing ranked by `r`.
pub fn arrange<Q: Order>(q: &Q, members: &Vec<usize>) -> (out: Vec<usize>)
    requires
        q.well_formed(),
        within(members@, q.rule().span()),
    ensures
        within(out@, q.rule().span()),
        arranged(q.rule(), out@),
        out@.to_multiset() == members@.to_multiset(),
        out.len() == members.len(),
        forall|x: usize| out@.contains(x) <==> members@.contains(x),
        members@.no_duplicates() ==> strictly_arranged(q.rule(), out@),
{
    broadcast use group_to_multiset_ensures;

    assert(members@.subrange(0, members.len() as int) =~= members@);
    let out = arrange_range(q, members, 0, members.len());
    proof {
        to_multiset_len(out@);
        to_multiset_len(members@);
        assert forall|x: usize| out@.contains(x) <==> members@.contains(x) by {
            to_multiset_contains(out@, x);
            to_multiset_contains(members@, x);
        }
        if members@.no_duplicates() {
            members@.lemma_multiset_has_no_duplicates();
            out@.lemma_multiset_has_no_duplicates_conv();
            lemma_arranged_distinct_is_strict(q.rule(), out@);
        }
    }
    out
}

/// The listing that `q` describes.
pub fn list<Q: Sieve + Order>(q: &Q) -> (out: Vec<usize>)
    requires
        q.well_formed(),
    ensures
        lists(q.rule(), out@),
        out@ == listing(q.rule()),
{
    let found = select(q);
    let out = arrange(q, &found);
    proof {
        assert(found@.no_duplicates());
        assert forall|k: int| 0 <= k < out.len() implies (#[trigger] out[k]) < q.rule().span() && q.rule().admits(
            out[k] as int,
        ) by {
            assert(out@.contains(out[k]));
            let p = choose|p: int| 0 <= p < found.len() && found[p] == out[k];
            assert(q.rule().admits(found[p] as int));
        }
        assert(lists(q.rule(), out@));
        lemma_listing_unique(q.rule(), out@, listing(q.rule()));
    }
    out
}

} // verus!
