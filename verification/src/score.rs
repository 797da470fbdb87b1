use vstd::multiset::Multiset;
use vstd::prelude::*;

use crate::player::{Color, ColorCounts, ColorTotals};

verus! {

// ------------------------------------------------------------------
// Bucket schedules
// ------------------------------------------------------------------
/// The bucket value for ranked position `i`: positions beyond the end of
/// the schedule are worth nothing.
pub open spec fn bucket_at(buckets: Seq<i8>, i: int) -> int {
    if 0 <= i < buckets.len() {
        buckets[i] as int
    } else {
        0
    }
}

/// The sum of the bucket values for the `n` ranked positions starting at
/// `lo`.
pub open spec fn bucket_range_total(buckets: Seq<i8>, lo: int, n: nat) -> int
    decreases n,
{
    if n == 0 {
        0
    } else {
        bucket_at(buckets, lo) + bucket_range_total(buckets, lo + 1, (n - 1) as nat)
    }
}

/// The sum of the whole bucket schedule.
pub open spec fn bucket_total(buckets: Seq<i8>) -> int {
    bucket_range_total(buckets, 0, buckets.len())
}

/// Every bucket value is non-negative.
pub open spec fn buckets_nonneg(buckets: Seq<i8>) -> bool {
    forall|i: int| 0 <= i < buckets.len() ==> 0 <= #[trigger] buckets[i]
}

proof fn lemma_brt_snoc(buckets: Seq<i8>, lo: int, n: nat)
    ensures
        bucket_range_total(buckets, lo, (n + 1) as nat) == bucket_range_total(buckets, lo, n)
            + bucket_at(buckets, lo + n),
{
    lemma_brt_split(buckets, lo, n, 1nat);
    assert(bucket_range_total(buckets, lo + n, 1nat) == bucket_at(buckets, lo + n)
        + bucket_range_total(buckets, lo + n + 1, 0nat));
}

proof fn lemma_brt_nonneg(buckets: Seq<i8>, lo: int, n: nat)
    requires
        buckets_nonneg(buckets),
    ensures
        0 <= bucket_range_total(buckets, lo, n),
    decreases n,
{
    if n > 0 {
        lemma_brt_nonneg(buckets, lo + 1, (n - 1) as nat);
    }
}

proof fn lemma_brt_split(buckets: Seq<i8>, lo: int, m: nat, n: nat)
    ensures
        bucket_range_total(buckets, lo, (m + n) as nat) == bucket_range_total(buckets, lo, m)
            + bucket_range_total(buckets, lo + m, n),
    decreases m,
{
    if m > 0 {
        lemma_brt_split(buckets, lo + 1, (m - 1) as nat, n);
    }
}

proof fn lemma_brt_out_of_range(buckets: Seq<i8>, lo: int, n: nat)
    requires
        lo >= buckets.len(),
    ensures
        bucket_range_total(buckets, lo, n) == 0,
    decreases n,
{
    if n > 0 {
        lemma_brt_out_of_range(buckets, lo + 1, (n - 1) as nat);
    }
}

/// Any range of positions is worth at most the whole schedule.
proof fn lemma_brt_le_total(buckets: Seq<i8>, lo: int, n: nat)
    requires
        buckets_nonneg(buckets),
        lo >= 0,
    ensures
        bucket_range_total(buckets, lo, n) <= bucket_total(buckets),
{
    let len = buckets.len();
    lemma_brt_split(buckets, 0, lo as nat, n);
    lemma_brt_nonneg(buckets, 0, lo as nat);
    if lo + n <= len {
        lemma_brt_split(buckets, 0, (lo + n) as nat, (len - lo - n) as nat);
        lemma_brt_nonneg(buckets, lo + n, (len - lo - n) as nat);
    } else {
        lemma_brt_split(buckets, 0, len, (lo + n - len) as nat);
        lemma_brt_out_of_range(buckets, len as int, (lo + n - len) as nat);
    }
}

// ------------------------------------------------------------------
// Tally collections
// ------------------------------------------------------------------
/// At most one tally entry per player.
pub open spec fn players_unique(tallies: Seq<(Color, i8)>) -> bool {
    forall|i: int, j: int|
        0 <= i < j < tallies.len() ==> (#[trigger] tallies[i]).0 != (#[trigger] tallies[j]).0
}

/// The predicate holding of entries whose tally is strictly above `t`.
pub open spec fn tally_gt(t: int) -> spec_fn((Color, i8)) -> bool {
    |e: (Color, i8)| e.1 > t
}

/// The predicate holding of entries whose tally is exactly `t`.
pub open spec fn tally_eq(t: int) -> spec_fn((Color, i8)) -> bool {
    |e: (Color, i8)| e.1 == t
}

/// How many entries rank strictly above tally value `t`.
pub open spec fn ranked_above(m: Multiset<(Color, i8)>, t: int) -> int {
    m.filter(tally_gt(t)).len() as int
}

/// How many entries are tied at exactly tally value `t`.
pub open spec fn tied_at(m: Multiset<(Color, i8)>, t: int) -> int {
    m.filter(tally_eq(t)).len() as int
}

/// Whether some entry belongs to player `p`.
pub open spec fn has_entry(m: Multiset<(Color, i8)>, p: Color) -> bool {
    exists|e: (Color, i8)| m.contains(e) && e.0 == p
}

/// The entry belonging to player `p` (meaningful when entries are unique).
pub open spec fn entry_for(m: Multiset<(Color, i8)>, p: Color) -> (Color, i8) {
    choose|e: (Color, i8)| m.contains(e) && e.0 == p
}

/// The points awarded to player `p` by the bucket schedule: the players
/// tied with `p` together occupy one ranked position per member, starting
/// right below everyone with a strictly higher tally; the group's bucket
/// values are summed and split evenly, rounding down, the remainder lost.
/// A player without an entry is awarded nothing.
pub open spec fn award(buckets: Seq<i8>, m: Multiset<(Color, i8)>, p: Color) -> int {
    if has_entry(m, p) {
        let t = entry_for(m, p).1 as int;
        bucket_range_total(buckets, ranked_above(m, t), tied_at(m, t) as nat) / tied_at(m, t)
    } else {
        0
    }
}

/// The points awarded to player `p` for a tally collection given as a
/// sequence: only the entries matter, never their order.
pub open spec fn seq_award(buckets: Seq<i8>, tallies: Seq<(Color, i8)>, p: Color) -> int {
    award(buckets, tallies.to_multiset(), p)
}

/// Scoring is order-independent: two tally collections holding the same
/// entries award every player exactly the same points.
pub proof fn lemma_scores_order_independent(
    buckets: Seq<i8>,
    t1: Seq<(Color, i8)>,
    t2: Seq<(Color, i8)>,
    p: Color,
)
    requires
        t1.to_multiset() == t2.to_multiset(),
    ensures
        seq_award(buckets, t1, p) == seq_award(buckets, t2, p),
{
}

// ------------------------------------------------------------------
// Relating sequences to their multisets
// ------------------------------------------------------------------
/// Inserting anywhere in a sequence inserts into its multiset.
proof fn lemma_insert_to_multiset<A>(s: Seq<A>, i: int, v: A)
    requires
        0 <= i <= s.len(),
    ensures
        s.insert(i, v).to_multiset() == s.to_multiset().insert(v),
{
    broadcast use vstd::seq_lib::group_to_multiset_ensures;
    broadcast use vstd::multiset::group_multiset_axioms;

    let s2 = s.insert(i, v);
    assert(s2.remove(i) =~= s);
    assert(s2[i] == v);
    assert(s2.contains(v));
    assert(s.to_multiset() =~= s2.to_multiset().remove(v));
    assert(s2.to_multiset().count(v) >= 1);
    assert(s2.to_multiset() =~= s.to_multiset().insert(v));
}

/// Filtering a sequence's multiset keeps as many entries as filtering the
/// sequence itself.
pub proof fn lemma_to_multiset_filter_len<A>(s: Seq<A>, p: spec_fn(A) -> bool)
    ensures
        s.to_multiset().filter(p).len() == s.filter(p).len(),
    decreases s.len(),
{
    broadcast use vstd::seq_lib::group_to_multiset_ensures;
    broadcast use vstd::multiset::group_multiset_axioms;

    reveal(Seq::filter);
    if s.len() == 0 {
        assert(s.to_multiset() =~= Multiset::<A>::empty());
        assert(s.to_multiset().filter(p) =~= Multiset::<A>::empty());
    } else {
        let rest = s.drop_last();
        let x = s.last();
        lemma_to_multiset_filter_len(rest, p);
        assert(s =~= rest.push(x));
        assert(s.to_multiset() =~= rest.to_multiset().insert(x));
        if p(x) {
            assert(s.to_multiset().filter(p) =~= rest.to_multiset().filter(p).insert(x));
        } else {
            assert(s.to_multiset().filter(p) =~= rest.to_multiset().filter(p));
        }
    }
}

/// A sequence where the predicate holds everywhere filters to itself.
proof fn lemma_filter_all_true<A>(s: Seq<A>, p: spec_fn(A) -> bool)
    requires
        forall|i: int| 0 <= i < s.len() ==> p(#[trigger] s[i]),
    ensures
        s.filter(p) == s,
    decreases s.len(),
{
    reveal(Seq::filter);
    if s.len() > 0 {
        lemma_filter_all_true(s.drop_last(), p);
        assert(s.drop_last().push(s.last()) =~= s);
    }
}

/// A sequence where the predicate fails everywhere filters to nothing.
proof fn lemma_filter_all_false<A>(s: Seq<A>, p: spec_fn(A) -> bool)
    requires
        forall|i: int| 0 <= i < s.len() ==> !p(#[trigger] s[i]),
    ensures
        s.filter(p).len() == 0,
    decreases s.len(),
{
    reveal(Seq::filter);
    if s.len() > 0 {
        lemma_filter_all_false(s.drop_last(), p);
    }
}

/// Uniqueness of players is a property of the entries alone, so it
/// survives any permutation.
proof fn lemma_players_unique_permutation(t: Seq<(Color, i8)>, s: Seq<(Color, i8)>)
    requires
        players_unique(t),
        s.to_multiset() == t.to_multiset(),
    ensures
        players_unique(s),
{
    broadcast use vstd::seq_lib::group_to_multiset_ensures;
    broadcast use vstd::multiset::group_multiset_axioms;

    assert forall|i: int, j: int| 0 <= i < j < s.len() implies (#[trigger] s[i]).0 != (
    #[trigger] s[j]).0 by {
        if s[i].0 == s[j].0 {
            if s[i] == s[j] {
                let s0 = s.subrange(0, j);
                let s1 = s.subrange(j, s.len() as int);
                assert(s =~= s0 + s1);
                vstd::seq_lib::lemma_multiset_commutative(s0, s1);
                assert(s0[i] == s[i]);
                assert(s0.contains(s[i]));
                assert(s1[0] == s[j]);
                assert(s1.contains(s[j]));
                assert(s.to_multiset().count(s[i]) >= 2);
                // but in `t` every entry occurs at most once
                assert(forall|a: int, b: int|
                    0 <= a < b < t.len() ==> #[trigger] t[a] != #[trigger] t[b]);
                assert(t.no_duplicates());
                t.lemma_multiset_has_no_duplicates();
                assert(t.to_multiset().contains(s[i]));
                assert(false);
            } else {
                assert(s.contains(s[i]));
                assert(s.contains(s[j]));
                assert(s.to_multiset().contains(s[i]));
                assert(s.to_multiset().contains(s[j]));
                assert(t.to_multiset().contains(s[i]));
                assert(t.to_multiset().contains(s[j]));
                assert(t.contains(s[i]));
                assert(t.contains(s[j]));
                let a = choose|a: int| 0 <= a < t.len() && t[a] == s[i];
                let b = choose|b: int| 0 <= b < t.len() && t[b] == s[j];
                assert(t[a].0 == t[b].0 && t[a] != t[b]);
                assert(false);
            }
        }
    }
}

/// All tally entries are sorted by descending tally value.
pub open spec fn sorted_desc(s: Seq<(Color, i8)>) -> bool {
    forall|i: int, j: int| 0 <= i <= j < s.len() ==> (#[trigger] s[i]).1 >= (#[trigger] s[j]).1
}

/// Sort a tally collection by descending tally, keeping exactly the same
/// entries.
fn sort_tallies_desc(tallies: &Vec<(Color, i8)>) -> (sorted: Vec<(Color, i8)>)
    ensures
        sorted@.to_multiset() == tallies@.to_multiset(),
        sorted_desc(sorted@),
        sorted@.len() == tallies@.len(),
{
    let ghost all = tallies@;
    let mut sorted: Vec<(Color, i8)> = Vec::new();
    proof {
        assert(sorted@ =~= all.take(0));
    }
    let mut i: usize = 0;
    while i < tallies.len()
        invariant
            0 <= i <= all.len(),
            tallies@ == all,
            sorted@.len() == i,
            sorted@.to_multiset() == all.take(i as int).to_multiset(),
            sorted_desc(sorted@),
        decreases all.len() - i,
    {
        let e = tallies[i];
        let ghost pre = sorted@;
        let mut j: usize = 0;
        while j < sorted.len() && sorted[j].1 >= e.1
            invariant
                0 <= j <= sorted@.len(),
                sorted@ == pre,
                forall|k: int| 0 <= k < j ==> (#[trigger] sorted@[k]).1 >= e.1,
            decreases sorted@.len() - j,
        {
            j = j + 1;
        }
        sorted.insert(j, e);
        proof {
            broadcast use vstd::seq_lib::group_to_multiset_ensures;

            lemma_insert_to_multiset(pre, j as int, e);
            assert(all.take(i + 1) =~= all.take(i as int).push(e));
            assert(all.take(i + 1).to_multiset() =~= all.take(i as int).to_multiset().insert(e));
            assert forall|a: int, b: int| 0 <= a <= b < sorted@.len() implies (
            #[trigger] sorted@[a]).1 >= (#[trigger] sorted@[b]).1 by {
                if b >= j + 1 && a >= j + 1 {
                    assert(sorted@[a] == pre[a - 1] && sorted@[b] == pre[b - 1]);
                } else if b >= j + 1 && a < j {
                    assert(sorted@[b] == pre[b - 1]);
                } else if b >= j + 1 && a == j {
                    // the element right of the insertion point was rejected
                    // by the scan, so it ranks strictly below `e`
                    assert(pre[j as int].1 < e.1);
                    assert(sorted@[b] == pre[b - 1]);
                } else if b == j && a < j {
                    assert(sorted@[a] == pre[a]);
                }
            }
        }
        i = i + 1;
    }
    proof {
        assert(all.take(all.len() as int) =~= all);
    }
    sorted
}

/// Whether player `p` owns one of the entries of `s`.
pub open spec fn appears(s: Seq<(Color, i8)>, p: Color) -> bool {
    exists|k: int| 0 <= k < s.len() && (#[trigger] s[k]).0 == p
}

/// In a sorted tally sequence, a maximal run of one tally value determines
/// exactly how many entries rank above that value and how many are tied at
/// it.
#[verifier::rlimit(60)]
proof fn lemma_group_measures(s: Seq<(Color, i8)>, gs: int, ge: int)
    requires
        sorted_desc(s),
        0 <= gs < ge <= s.len(),
        forall|k: int| gs <= k < ge ==> (#[trigger] s[k]).1 == s[gs].1,
        gs == 0 || s[gs - 1].1 > s[gs].1,
        ge == s.len() || s[ge].1 < s[gs].1,
    ensures
        ranked_above(s.to_multiset(), s[gs].1 as int) == gs,
        tied_at(s.to_multiset(), s[gs].1 as int) == ge - gs,
{
    let t = s[gs].1 as int;
    let p_gt = tally_gt(t);
    let p_eq = tally_eq(t);
    let a = s.subrange(0, gs);
    let b = s.subrange(gs, ge);
    let c = s.subrange(ge, s.len() as int);
    assert(s =~= (a + b) + c);
    lemma_to_multiset_filter_len(s, p_gt);
    lemma_to_multiset_filter_len(s, p_eq);
    Seq::filter_distributes_over_add(a + b, c, p_gt);
    Seq::filter_distributes_over_add(a, b, p_gt);
    Seq::filter_distributes_over_add(a + b, c, p_eq);
    Seq::filter_distributes_over_add(a, b, p_eq);
    assert forall|k: int| 0 <= k < a.len() implies (#[trigger] a[k]).1 > t by {
        assert(a[k] == s[k]);
        assert(s[k].1 >= s[gs - 1].1);
    }
    assert forall|k: int| 0 <= k < b.len() implies (#[trigger] b[k]).1 == t by {
        assert(b[k] == s[gs + k]);
    }
    assert forall|k: int| 0 <= k < c.len() implies (#[trigger] c[k]).1 < t by {
        assert(c[k] == s[ge + k]);
        assert(s[ge + k].1 <= s[ge].1);
    }
    lemma_filter_all_true(a, p_gt);
    lemma_filter_all_false(b, p_gt);
    lemma_filter_all_false(c, p_gt);
    lemma_filter_all_false(a, p_eq);
    lemma_filter_all_true(b, p_eq);
    lemma_filter_all_false(c, p_eq);
}

/// Compute the scores for a scoring event: rank the tallies in descending
/// order against the bucket schedule, and split each tie group's combined
/// bucket values evenly among its members, rounding down.
pub fn compute_scores(buckets: &Vec<i8>, tallies: &Vec<(Color, i8)>) -> (scores: ColorCounts)
    requires
        players_unique(tallies@),
        tallies@.len() <= 5,
        buckets_nonneg(buckets@),
        bucket_total(buckets@) <= i8::MAX,
    ensures
        forall|p: Color| #[trigger] scores@.get(p) == seq_award(buckets@, tallies@, p),
        scores@.nonneg(),
        forall|p: Color| #[trigger] scores@.get(p) <= bucket_total(buckets@),
{
    let sorted = sort_tallies_desc(tallies);
    let ghost m = tallies@.to_multiset();
    proof {
        lemma_players_unique_permutation(tallies@, sorted@);
    }
    let n = sorted.len();
    let mut scores = ColorCounts::zero();
    proof {
        lemma_brt_nonneg(buckets@, 0, buckets@.len());
    }
    let mut gs: usize = 0;
    while gs < n
        invariant
            n == sorted@.len(),
            n <= 5,
            sorted@.to_multiset() == m,
            sorted_desc(sorted@),
            players_unique(sorted@),
            buckets_nonneg(buckets@),
            bucket_total(buckets@) <= i8::MAX,
            0 <= gs <= n,
            gs == 0 || gs == n || sorted@[gs - 1].1 > sorted@[gs as int].1,
            forall|p: Color|
                appears(sorted@.take(gs as int), p) ==> #[trigger] scores@.get(p) == award(
                    buckets@,
                    m,
                    p,
                ),
            forall|p: Color|
                !appears(sorted@.take(gs as int), p) ==> #[trigger] scores@.get(p) == 0,
            forall|p: Color| 0 <= #[trigger] scores@.get(p) <= bucket_total(buckets@),
        decreases n - gs,
    {
        let t = sorted[gs].1;
        let mut ge: usize = gs + 1;
        while ge < n && sorted[ge].1 == t
            invariant
                n == sorted@.len(),
                gs < ge <= n,
                forall|k: int| gs <= k < ge ==> (#[trigger] sorted@[k]).1 == t,
            decreases n - ge,
        {
            ge = ge + 1;
        }
        proof {
            if ge < n {
                assert(sorted@[ge as int].1 <= sorted@[gs as int].1);
            }
            lemma_group_measures(sorted@, gs as int, ge as int);
        }
        // the combined worth of the ranked positions this tie group occupies
        let mut pts: i8 = 0;
        let mut k: usize = gs;
        while k < ge
            invariant
                gs <= k <= ge <= n,
                n == sorted@.len(),
                buckets_nonneg(buckets@),
                bucket_total(buckets@) <= i8::MAX,
                pts as int == bucket_range_total(buckets@, gs as int, (k - gs) as nat),
                0 <= pts,
            decreases ge - k,
        {
            let bv: i8 = if k < buckets.len() {
                buckets[k]
            } else {
                0
            };
            proof {
                assert(bv as int == bucket_at(buckets@, k as int));
                lemma_brt_snoc(buckets@, gs as int, (k - gs) as nat);
                lemma_brt_nonneg(buckets@, gs as int, ((k - gs) + 1) as nat);
                lemma_brt_le_total(buckets@, gs as int, ((k - gs) + 1) as nat);
            }
            pts = pts + bv;
            k = k + 1;
        }
        let size: i8 = (ge - gs) as i8;
        let per: i8 = pts / size;
        proof {
            assert(per as int == pts as int / (ge - gs));
            assert(per >= 0 && per <= pts) by (nonlinear_arith)
                requires
                    pts >= 0,
                    ge > gs,
                    per as int == pts as int / (ge - gs),
            ;
            lemma_brt_le_total(buckets@, gs as int, (ge - gs) as nat);
        }
        assert(per as int == bucket_range_total(buckets@, gs as int, (ge - gs) as nat) / (ge
            - gs));
        proof {
            broadcast use vstd::seq_lib::group_to_multiset_ensures;

            assert forall|k3: int| gs <= k3 < ge implies award(
                buckets@,
                m,
                (#[trigger] sorted@[k3]).0,
            ) == per as int by {
                let p = sorted@[k3].0;
                assert(sorted@.contains(sorted@[k3]));
                assert(m.contains(sorted@[k3]));
                assert(has_entry(m, p));
                let e = entry_for(m, p);
                assert(m.contains(e) && e.0 == p);
                assert(sorted@.contains(e));
                let l = choose|l: int| 0 <= l < sorted@.len() && sorted@[l] == e;
                assert(sorted@[l] == e);
                if l < k3 {
                    assert(sorted@[l].0 != sorted@[k3].0);
                } else if l > k3 {
                    assert(sorted@[k3].0 != sorted@[l].0);
                }
                assert(e == sorted@[k3]);
                assert(e.1 == t);
                assert(ranked_above(m, t as int) == gs);
                assert(tied_at(m, t as int) == ge - gs);
            }
        }
        // every member of the tie group receives the same share
        let mut k2: usize = gs;
        while k2 < ge
            invariant
                gs <= k2 <= ge <= n,
                n == sorted@.len(),
                sorted@.to_multiset() == m,
                players_unique(sorted@),
                0 <= per,
                forall|k3: int|
                    gs <= k3 < ge ==> award(buckets@, m, (#[trigger] sorted@[k3]).0) == per as int,
                forall|p: Color|
                    appears(sorted@.take(k2 as int), p) ==> #[trigger] scores@.get(p) == award(
                        buckets@,
                        m,
                        p,
                    ),
                forall|p: Color|
                    !appears(sorted@.take(k2 as int), p) ==> #[trigger] scores@.get(p) == 0,
                forall|p: Color| 0 <= #[trigger] scores@.get(p) <= bucket_total(buckets@),
                per as int <= bucket_total(buckets@),
            decreases ge - k2,
        {
            let p = sorted[k2].0;
            let ghost pre = scores@;
            proof {
                if appears(sorted@.take(k2 as int), p) {
                    let l = choose|l: int|
                        0 <= l < sorted@.take(k2 as int).len() && (#[trigger] sorted@.take(
                            k2 as int,
                        )[l]).0 == p;
                    assert(sorted@[l].0 == sorted@[k2 as int].0);
                    assert(false);
                }
                assert(pre.get(p) == 0);
            }
            scores.add_to(p, per);
            proof {
                assert(scores@ == pre.update(p, pre.get(p) + per));
                assert(sorted@.take(k2 + 1) =~= sorted@.take(k2 as int).push(
                    sorted@[k2 as int],
                ));
                assert forall|q: Color| appears(sorted@.take(k2 + 1), q) implies #[trigger] scores@.get(
                    q,
                ) == award(buckets@, m, q) by {
                    pre.lemma_update_get(p, pre.get(p) + per, q);
                    if q == p {
                        assert(scores@.get(p) == per as int);
                        assert(award(buckets@, m, sorted@[k2 as int].0) == per as int);
                    } else {
                        let l = choose|l: int|
                            0 <= l < sorted@.take(k2 + 1).len() && (#[trigger] sorted@.take(
                                k2 + 1,
                            )[l]).0 == q;
                        assert(sorted@.take(k2 + 1)[l] == sorted@[l]);
                        assert(l != k2);
                        assert(sorted@.take(k2 as int)[l].0 == q);
                        assert(appears(sorted@.take(k2 as int), q));
                        assert(pre.get(q) == award(buckets@, m, q));
                    }
                }
                assert forall|q: Color| 0 <= #[trigger] scores@.get(q) <= bucket_total(
                    buckets@,
                ) by {
                    pre.lemma_update_get(p, pre.get(p) + per, q);
                }
                assert forall|q: Color| !appears(sorted@.take(k2 + 1), q) implies #[trigger] scores@.get(
                    q,
                ) == 0 by {
                    pre.lemma_update_get(p, pre.get(p) + per, q);
                    assert(q != p) by {
                        assert(sorted@.take(k2 + 1)[k2 as int].0 == p);
                    }
                    assert(!appears(sorted@.take(k2 as int), q)) by {
                        if appears(sorted@.take(k2 as int), q) {
                            let l = choose|l: int|
                                0 <= l < sorted@.take(k2 as int).len() && (#[trigger] sorted@.take(
                                    k2 as int,
                                )[l]).0 == q;
                            assert(sorted@.take(k2 + 1)[l].0 == q);
                        }
                    }
                    assert(pre.get(q) == 0);
                }
            }
            k2 = k2 + 1;
        }
        proof {
            if ge < n {
                assert(sorted@[ge - 1].1 == t);
                assert(sorted@[ge as int].1 < t);
            }
        }
        gs = ge;
    }
    proof {
        broadcast use vstd::seq_lib::group_to_multiset_ensures;

        assert(sorted@.take(n as int) =~= sorted@);
        assert forall|p: Color| #[trigger] scores@.get(p) == seq_award(buckets@, tallies@, p) by {
            if appears(sorted@, p) {
                assert(scores@.get(p) == award(buckets@, m, p));
            } else {
                if has_entry(m, p) {
                    let e = entry_for(m, p);
                    assert(m.contains(e) && e.0 == p);
                    assert(sorted@.contains(e));
                    let l = choose|l: int| 0 <= l < sorted@.len() && sorted@[l] == e;
                    assert((sorted@[l]).0 == p);
                    assert(false);
                }
                assert(award(buckets@, m, p) == 0);
            }
        }
        assert(scores@.get(Color::Red) >= 0);
        assert(scores@.get(Color::Blue) >= 0);
        assert(scores@.get(Color::Yellow) >= 0);
        assert(scores@.get(Color::Black) >= 0);
        assert(scores@.get(Color::Grey) >= 0);
    }
    scores
}

/// The bucket schedule for scoring a successful military dominance:
/// doubled on the final dominance check of the game.
pub open spec fn block_buckets(doubled: bool) -> Seq<i8> {
    if doubled {
        seq![10i8, 6i8, 2i8]
    } else {
        seq![5i8, 3i8, 1i8]
    }
}

/// The bucket schedule for scoring a check without a dominant coalition:
/// doubled on the final dominance check of the game.
pub open spec fn cylinder_buckets(doubled: bool) -> Seq<i8> {
    if doubled {
        seq![6i8, 2i8]
    } else {
        seq![3i8, 1i8]
    }
}

proof fn lemma_bucket_total_3(buckets: Seq<i8>)
    requires
        buckets.len() == 3,
    ensures
        bucket_total(buckets) == buckets[0] + buckets[1] + buckets[2],
{
    reveal_with_fuel(bucket_range_total, 4);
}

proof fn lemma_bucket_total_2(buckets: Seq<i8>)
    requires
        buckets.len() == 2,
    ensures
        bucket_total(buckets) == buckets[0] + buckets[1],
{
    reveal_with_fuel(bucket_range_total, 3);
}

/// Score a successful military dominance from the influence tallies of the
/// dominant coalition's loyal players.
pub fn compute_block_scores(influence_tallies: &Vec<(Color, i8)>, doubled: bool) -> (scores:
    ColorCounts)
    requires
        players_unique(influence_tallies@),
        influence_tallies@.len() <= 5,
    ensures
        forall|p: Color|
            #[trigger] scores@.get(p) == seq_award(block_buckets(doubled), influence_tallies@, p),
        scores@.nonneg(),
        forall|p: Color| #[trigger] scores@.get(p) <= 18,
{
    let mut buckets: Vec<i8> = Vec::new();
    if doubled {
        buckets.push(10);
        buckets.push(6);
        buckets.push(2);
    } else {
        buckets.push(5);
        buckets.push(3);
        buckets.push(1);
    }
    proof {
        assert(buckets@ =~= block_buckets(doubled));
        lemma_bucket_total_3(buckets@);
    }
    compute_scores(&buckets, influence_tallies)
}

/// Score a dominance check without a dominant coalition from the tallies of
/// tribes, spies and gifts of every player.
pub fn compute_cylinder_scores(cylinder_tallies: &Vec<(Color, i8)>, doubled: bool) -> (scores:
    ColorCounts)
    requires
        players_unique(cylinder_tallies@),
        cylinder_tallies@.len() <= 5,
    ensures
        forall|p: Color|
            #[trigger] scores@.get(p) == seq_award(cylinder_buckets(doubled), cylinder_tallies@, p),
        scores@.nonneg(),
        forall|p: Color| #[trigger] scores@.get(p) <= 18,
{
    let mut buckets: Vec<i8> = Vec::new();
    if doubled {
        buckets.push(6);
        buckets.push(2);
    } else {
        buckets.push(3);
        buckets.push(1);
    }
    proof {
        assert(buckets@ =~= cylinder_buckets(doubled));
        lemma_bucket_total_2(buckets@);
    }
    compute_scores(&buckets, cylinder_tallies)
}

} // verus!
