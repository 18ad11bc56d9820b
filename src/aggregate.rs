//! Counting attempts by key and grade, for any rule that keys walls.

use vstd::prelude::*;
use crate::date::Date;
use crate::grade::{Cotation, NB_GRADES};
use crate::journal::{all_attempts, flatten, within_limits, Journal, MAX_ATTEMPTS};
use crate::wall::Wall;

verus! {

/// A rule that gives each wall a key; attempts are grouped by key, in
/// increasing order of keys.
pub trait KeyRule {
    spec fn key_spec(&self, w: Wall) -> u64;

    fn key(&self, w: Wall) -> (r: u64)
        ensures
            r == self.key_spec(w),
    ;
}

/// Groups by wall; the key is the wall's rank in the order of names.
#[derive(Clone, Copy, Debug, PartialEq, Eq)]
pub struct ByWall;

/// Groups by wall category; the key is the category's index.
#[derive(Clone, Copy, Debug, PartialEq, Eq)]
pub struct ByKind;

/// Puts every wall in a single group, of key 0.
#[derive(Clone, Copy, Debug, PartialEq, Eq)]
pub struct Whole;

impl KeyRule for ByWall {
    open spec fn key_spec(&self, w: Wall) -> u64 {
        w.rank_spec() as u64
    }

    fn key(&self, w: Wall) -> (r: u64) {
        w.rank() as u64
    }
}

impl KeyRule for ByKind {
    open spec fn key_spec(&self, w: Wall) -> u64 {
        w.kind_spec().index_spec() as u64
    }

    fn key(&self, w: Wall) -> (r: u64) {
        w.kind().index() as u64
    }
}

impl KeyRule for Whole {
    open spec fn key_spec(&self, w: Wall) -> u64 {
        0
    }

    fn key(&self, w: Wall) -> (r: u64) {
        0
    }
}

/// Number of attempts of grade index `g` in `a`.
pub open spec fn occ(a: Seq<Cotation>, g: nat) -> nat
    decreases a.len(),
{
    if a.len() == 0 {
        0
    } else {
        occ(a.drop_last(), g) + if a.last().index_spec() == g { 1nat } else { 0nat }
    }
}

/// Number of attempts of grade index `g` made on walls of key `k`.
pub open spec fn tally<R: KeyRule>(rule: R, we: Seq<(Wall, Seq<Cotation>)>, k: u64, g: nat) -> nat
    decreases we.len(),
{
    if we.len() == 0 {
        0
    } else {
        tally(rule, we.drop_last(), k, g) + if rule.key_spec(we.last().0) == k {
            occ(we.last().1, g)
        } else {
            0
        }
    }
}

/// Number of attempts, of any grade, made on walls of key `k`.
pub open spec fn keyed_count<R: KeyRule>(rule: R, we: Seq<(Wall, Seq<Cotation>)>, k: u64) -> nat
    decreases we.len(),
{
    if we.len() == 0 {
        0
    } else {
        keyed_count(rule, we.drop_last(), k) + if rule.key_spec(we.last().0) == k {
            we.last().1.len()
        } else {
            0
        }
    }
}

/// Some wall of `we` has key `k`.
pub open spec fn has_key<R: KeyRule>(rule: R, we: Seq<(Wall, Seq<Cotation>)>, k: u64) -> bool {
    exists|i: int| 0 <= i < we.len() && rule.key_spec((#[trigger] we[i]).0) == k
}

/// The walls of a journal with their attempts, day after day.
pub open spec fn wall_entries(days: Seq<(Date, Seq<(Wall, Seq<Cotation>)>)>) -> Seq<(Wall, Seq<Cotation>)>
    decreases days.len(),
{
    if days.len() == 0 {
        Seq::empty()
    } else {
        wall_entries(days.drop_last()) + days.last().1
    }
}

/// Some row of `a` has key `k`.
pub open spec fn has_row(a: Seq<(u64, Seq<u32>)>, k: u64) -> bool {
    exists|i: int| 0 <= i < a.len() && (#[trigger] a[i]).0 == k
}

/// One zero count for each grade.
pub open spec fn zero_counts() -> Seq<u32> {
    Seq::new(NB_GRADES as nat, |g: int| 0u32)
}

/// Sum of a sequence of counts.
pub open spec fn sum(s: Seq<u32>) -> nat
    decreases s.len(),
{
    if s.len() == 0 {
        0
    } else {
        sum(s.drop_last()) + s.last() as nat
    }
}

/// The counts of one key, one per grade, from the easiest grade.
#[derive(Clone, Debug, PartialEq, Eq)]
pub struct Row {
    pub key: u64,
    pub counts: Vec<u32>,
}

impl View for Row {
    type V = (u64, Seq<u32>);

    open spec fn view(&self) -> (u64, Seq<u32>) {
        (self.key, self.counts@)
    }
}

/// Counts of attempts by key and grade, in increasing order of keys.
#[derive(Clone, Debug, PartialEq, Eq)]
pub struct Aggregate {
    pub rows: Vec<Row>,
}

pub open spec fn rows_view(rows: Seq<Row>) -> Seq<(u64, Seq<u32>)> {
    rows.map_values(|r: Row| r@)
}

impl View for Aggregate {
    type V = Seq<(u64, Seq<u32>)>;

    open spec fn view(&self) -> Seq<(u64, Seq<u32>)> {
        rows_view(self.rows@)
    }
}

/// Keys strictly increasing, and one count per grade in each row.
pub open spec fn aggregate_wf(a: Seq<(u64, Seq<u32>)>) -> bool {
    &&& forall|i: int, j: int| 0 <= i < j < a.len() ==> (#[trigger] a[i]).0 < (#[trigger] a[j]).0
    &&& forall|i: int| 0 <= i < a.len() ==> (#[trigger] a[i]).1.len() == NB_GRADES
}

/// `a` holds exactly the keys of `we`, each with its counts by grade.
pub open spec fn counts_of<R: KeyRule>(rule: R, we: Seq<(Wall, Seq<Cotation>)>, a: Seq<(u64, Seq<u32>)>) -> bool {
    &&& aggregate_wf(a)
    &&& forall|i: int, g: int| 0 <= i < a.len() && 0 <= g < NB_GRADES ==> (#[trigger] a[i].1[g]) == tally(rule, we, a[i].0, g as nat)
    &&& forall|k: u64| has_key(rule, we, k) <==> has_row(a, k)
}

proof fn lemma_occ_take(a: Seq<Cotation>, t: int)
    requires
        0 <= t < a.len(),
    ensures
        forall|g: nat| occ(a.take(t + 1), g) == occ(a.take(t), g) + if a[t].index_spec() == g { 1nat } else { 0nat },
{
    assert(a.take(t + 1).drop_last() == a.take(t));
}

proof fn lemma_tally_last<R: KeyRule>(rule: R, pre: Seq<(Wall, Seq<Cotation>)>, w: Wall, a: Seq<Cotation>)
    ensures
        forall|k: u64, g: nat| #[trigger] tally(rule, pre.push((w, a)), k, g) == tally(rule, pre, k, g) + if rule.key_spec(w) == k { occ(a, g) } else { 0 },
        forall|k: u64| #[trigger] has_key(rule, pre.push((w, a)), k) <==> (has_key(rule, pre, k) || rule.key_spec(w) == k),
{
    let s = pre.push((w, a));
    assert(s.drop_last() == pre);
    assert forall|k: u64| has_key(rule, s, k) <==> (has_key(rule, pre, k) || rule.key_spec(w) == k) by {
        if has_key(rule, s, k) {
            let i = choose|i: int| 0 <= i < s.len() && rule.key_spec((#[trigger] s[i]).0) == k;
            if i < pre.len() {
                assert(s[i] == pre[i]);
            }
        }
        if has_key(rule, pre, k) {
            let i = choose|i: int| 0 <= i < pre.len() && rule.key_spec((#[trigger] pre[i]).0) == k;
            assert(s[i] == pre[i]);
        }
        if rule.key_spec(w) == k {
            assert(s[pre.len() as int] == (w, a));
        }
    }
}

proof fn lemma_tally_no_key<R: KeyRule>(rule: R, we: Seq<(Wall, Seq<Cotation>)>, k: u64, g: nat)
    requires
        !has_key(rule, we, k),
    ensures
        tally(rule, we, k, g) == 0,
    decreases we.len(),
{
    if we.len() > 0 {
        let pre = we.drop_last();
        assert(pre.push(we.last()) == we);
        lemma_tally_last(rule, pre, we.last().0, we.last().1);
        lemma_tally_no_key(rule, pre, k, g);
    }
}

proof fn lemma_wall_entries_take(days: Seq<(Date, Seq<(Wall, Seq<Cotation>)>)>, i: int)
    requires
        0 <= i < days.len(),
    ensures
        wall_entries(days.take(i + 1)) == wall_entries(days.take(i)) + days[i].1,
{
    assert(days.take(i + 1).drop_last() == days.take(i));
}

/// The position of key `k` in `rows`, where it is added with zero counts if absent.
fn find_or_insert(rows: &mut Vec<Row>, k: u64) -> (r: usize)
    requires
        aggregate_wf(rows_view(old(rows)@)),
    ensures
        aggregate_wf(rows_view(final(rows)@)),
        r < final(rows)@.len(),
        r <= old(rows)@.len(),
        final(rows)@[r as int].key == k,
        has_row(rows_view(old(rows)@), k) ==> rows_view(final(rows)@) == rows_view(old(rows)@),
        !has_row(rows_view(old(rows)@), k) ==> rows_view(final(rows)@) == rows_view(old(rows)@).insert(r as int, (k, zero_counts())),
{
    let ghost a = rows_view(rows@);
    let mut i: usize = 0;
    while i < rows.len() && rows[i].key < k
        invariant
            i <= rows@.len(),
            a == rows_view(rows@),
            forall|m: int| 0 <= m < i ==> (#[trigger] rows@[m]).key < k,
        decreases rows@.len() - i,
    {
        i = i + 1;
    }
    if i < rows.len() && rows[i].key == k {
        proof {
            assert(a[i as int].0 == k);
        }
        return i;
    }
    proof {
        assert forall|m: int| 0 <= m < rows@.len() implies (#[trigger] rows@[m]).key != k by {
            if m < i {
            } else {
                assert(a[i as int].0 <= a[m].0);
            }
        }
    }
    let mut counts: Vec<u32> = Vec::new();
    let mut g: usize = 0;
    while g < NB_GRADES
        invariant
            g <= NB_GRADES,
            counts@ == Seq::new(g as nat, |x: int| 0u32),
        decreases NB_GRADES - g,
    {
        counts.push(0);
        g = g + 1;
        proof {
            assert(counts@ =~= Seq::new(g as nat, |x: int| 0u32));
        }
    }
    proof {
        assert(counts@ =~= zero_counts());
    }
    rows.insert(i, Row { key: k, counts });
    proof {
        let b = rows_view(rows@);
        assert(b =~= a.insert(i as int, (k, Seq::new(NB_GRADES as nat, |x: int| 0u32))));
        assert forall|p: int, q: int| 0 <= p < q < b.len() implies (#[trigger] b[p]).0 < (#[trigger] b[q]).0 by {
            if q < i {
            } else if q == i {
            } else if p < i {
                assert(a[q - 1].0 > k);
            } else if p == i {
                assert(a[q - 1].0 > k || q - 1 == i);
                if q - 1 > i {
                    assert(a[i as int].0 < a[q - 1].0);
                }
            } else {
                assert(a[p - 1].0 < a[q - 1].0);
            }
        }
    }
    i
}

/// Counts the attempts of a journal by the key of their wall and by grade.
///
/// Every wall climbed on some day gives its key a row, even without attempts;
/// rows come in increasing order of keys, and counts in increasing order of
/// grades.
pub fn group_by<R: KeyRule>(journal: &Journal, rule: &R) -> (r: Aggregate)
    requires
        within_limits(journal@),
    ensures
        counts_of(*rule, wall_entries(journal@), r@),
        r@.len() <= wall_entries(journal@).len(),
{
    let ghost v = journal@;
    let mut rows: Vec<Row> = Vec::new();
    let ghost mut processed: int = 0;
    proof {
        assert(rows_view(rows@) =~= Seq::<(u64, Seq<u32>)>::empty());
    }
    let mut i: usize = 0;
    while i < journal.len()
        invariant
            v == journal@,
            within_limits(v),
            i <= v.len(),
            counts_of(*rule, wall_entries(v.take(i as int)), rows_view(rows@)),
            rows@.len() <= wall_entries(v.take(i as int)).len(),
            processed == all_attempts(v.take(i as int)).len(),
            forall|m: int, g: int| 0 <= m < rows@.len() && 0 <= g < NB_GRADES ==> (#[trigger] rows@[m].counts@[g]) <= processed,
        decreases v.len() - i,
    {
        let entries = journal.entries(i);
        let ghost day = entries@;
        let ghost base = wall_entries(v.take(i as int));
        proof {
            lemma_wall_entries_take(v, i as int);
            crate::journal::lemma_all_attempts_take(v, i as int);
            crate::journal::lemma_all_attempts_prefix_len(v, i + 1);
            assert(day.take(0) + Seq::<(Wall, Seq<Cotation>)>::empty() == Seq::<(Wall, Seq<Cotation>)>::empty());
            assert(base + day.take(0) == base);
        }
        let mut j: usize = 0;
        while j < entries.len()
            invariant
                v == journal@,
                within_limits(v),
                i < v.len(),
                day == v[i as int].1,
                day == entries@,
                j <= day.len(),
                base == wall_entries(v.take(i as int)),
                all_attempts(v.take(i + 1)) == all_attempts(v.take(i as int)) + flatten(day),
                all_attempts(v.take(i + 1)).len() <= all_attempts(v).len(),
                counts_of(*rule, base + day.take(j as int), rows_view(rows@)),
                rows@.len() <= (base + day.take(j as int)).len(),
                processed == all_attempts(v.take(i as int)).len() + flatten(day.take(j as int)).len(),
                forall|m: int, g: int| 0 <= m < rows@.len() && 0 <= g < NB_GRADES ==> (#[trigger] rows@[m].counts@[g]) <= processed,
            decreases day.len() - j,
        {
            let wall = entries.wall(j);
            let attempts = &entries.entry(j).0;
            let k = rule.key(wall);
            let ghost seen = base + day.take(j as int);
            let ghost old_rows = rows_view(rows@);
            let idx = find_or_insert(&mut rows, k);
            proof {
                assert(rows_view(rows@).len() == rows@.len());
                crate::journal::lemma_flatten_take(day, j as int);
                crate::journal::lemma_flatten_prefix_len(day, j + 1);
                lemma_tally_last(*rule, seen, wall, Seq::<Cotation>::empty());
                assert(attempts@.take(0) == Seq::<Cotation>::empty());
                let s1 = seen.push((wall, attempts@.take(0)));
                let b = rows_view(rows@);
                if has_row(old_rows, k) {
                    assert(has_key(*rule, seen, k));
                    assert forall|m: int, g: int| 0 <= m < rows@.len() && 0 <= g < NB_GRADES implies (#[trigger] rows@[m].counts@[g]) <= processed by {
                        assert(rows@[m].counts@ == b[m].1);
                        assert(b[m] == old_rows[m]);
                    }
                } else {
                    assert(!has_key(*rule, seen, k));
                    let zero = (k, zero_counts());
                    old_rows.insert_ensures(idx as int, zero);
                    assert forall|m: int| idx < m < b.len() implies #[trigger] b[m] == old_rows[m - 1] by {
                        let p = m - 1;
                        assert(old_rows.insert(idx as int, zero)[p + 1] == old_rows[p]);
                    }
                    assert forall|m: int| 0 <= m < idx implies #[trigger] b[m] == old_rows[m] by {
                        assert(old_rows.insert(idx as int, zero)[m] == old_rows[m]);
                    }
                    assert(b[idx as int] == zero);
                    assert forall|m: int, g: int| 0 <= m < b.len() && 0 <= g < NB_GRADES implies (#[trigger] b[m].1[g]) == tally(*rule, s1, b[m].0, g as nat) by {
                        if m == idx {
                            lemma_tally_no_key(*rule, seen, k, g as nat);
                        } else if m < idx {
                            assert(b[m] == old_rows[m]);
                        } else {
                            assert(b[m] == old_rows[m - 1]);
                        }
                    }
                    assert forall|kk: u64| has_key(*rule, s1, kk) <==> has_row(b, kk) by {
                        if kk == k {
                            assert(b[idx as int].0 == k);
                        }
                        if has_key(*rule, seen, kk) {
                            assert(has_row(old_rows, kk));
                            let m = choose|m: int| 0 <= m < old_rows.len() && (#[trigger] old_rows[m]).0 == kk;
                            if m < idx {
                                assert(b[m] == old_rows[m]);
                                assert(b[m].0 == kk);
                            } else {
                                assert(b[m + 1] == old_rows[(m + 1) - 1]);
                                assert(b[m + 1].0 == kk);
                            }
                        }
                        if has_row(b, kk) {
                            let m = choose|m: int| 0 <= m < b.len() && (#[trigger] b[m]).0 == kk;
                            if m < idx {
                                assert(b[m] == old_rows[m]);
                                assert(old_rows[m].0 == kk);
                                assert(has_row(old_rows, kk));
                            } else if m > idx {
                                assert(b[m] == old_rows[m - 1]);
                                assert(old_rows[m - 1].0 == kk);
                                assert(has_row(old_rows, kk));
                            }
                        }
                        assert(has_key(*rule, s1, kk) == (has_key(*rule, seen, kk) || rule.key_spec(wall) == kk));
                    }
                    assert forall|m: int, g: int| 0 <= m < rows@.len() && 0 <= g < NB_GRADES implies (#[trigger] rows@[m].counts@[g]) <= processed by {
                        assert(rows@[m].counts@ == b[m].1);
                        if m < idx {
                            assert(b[m] == old_rows[m]);
                        } else if m > idx {
                            assert(b[m] == old_rows[m - 1]);
                        }
                    }
                }
            }
            let mut t: usize = 0;
            while t < attempts.len()
                invariant
                    v == journal@,
                    within_limits(v),
                    i < v.len(),
                    day == v[i as int].1,
                    j < day.len(),
                    attempts@ == day[j as int].1,
                    t <= attempts@.len(),
                    seen == base + day.take(j as int),
                    base == wall_entries(v.take(i as int)),
                    flatten(day.take(j + 1)) == flatten(day.take(j as int)) + attempts@,
                    flatten(day.take(j + 1)).len() <= flatten(day).len(),
                    all_attempts(v.take(i + 1)) == all_attempts(v.take(i as int)) + flatten(day),
                    all_attempts(v.take(i + 1)).len() <= all_attempts(v).len(),
                    idx < rows@.len(),
                    rows@[idx as int].key == k,
                    k == rule.key_spec(wall),
                    wall == day[j as int].0,
                    counts_of(*rule, seen.push((wall, attempts@.take(t as int))), rows_view(rows@)),
                    rows@.len() <= seen.len() + 1,
                    processed == all_attempts(v.take(i as int)).len() + flatten(day.take(j as int)).len() + t,
                    forall|m: int, g: int| 0 <= m < rows@.len() && 0 <= g < NB_GRADES ==> (#[trigger] rows@[m].counts@[g]) <= processed,
                decreases attempts@.len() - t,
            {
                let gi = attempts[t].index();
                let ghost before = rows_view(rows@);
                let mut row = rows.remove(idx);
                proof {
                    assert(row@ == before[idx as int]);
                    assert(row.counts@[gi as int] <= processed);
                    assert(processed + 1 <= all_attempts(v).len());
                }
                let c = row.counts[gi];
                row.counts.set(gi, c + 1);
                rows.insert(idx, row);
                proof {
                    let b = rows_view(rows@);
                    assert(b =~= before.update(idx as int, (k, before[idx as int].1.update(gi as int, (c + 1) as u32))));
                    lemma_occ_take(attempts@, t as int);
                    lemma_tally_last(*rule, seen, wall, attempts@.take(t as int));
                    lemma_tally_last(*rule, seen, wall, attempts@.take(t + 1));
                    let s0 = seen.push((wall, attempts@.take(t as int)));
                    let s1 = seen.push((wall, attempts@.take(t + 1)));
                    assert forall|m: int, g: int| 0 <= m < b.len() && 0 <= g < NB_GRADES implies (#[trigger] b[m].1[g]) == tally(*rule, s1, b[m].0, g as nat) by {
                        if m != idx {
                            assert(b[m] == before[m]);
                            assert(before[m].0 != k) by {
                                if m < idx {
                                    assert(before[m].0 < before[idx as int].0);
                                } else {
                                    assert(before[idx as int].0 < before[m].0);
                                }
                            }
                        }
                    }
                    assert forall|kk: u64| has_key(*rule, s1, kk) <==> has_row(b, kk) by {
                        assert(has_key(*rule, s1, kk) == has_key(*rule, s0, kk));
                        if has_row(b, kk) {
                            let m = choose|m: int| 0 <= m < b.len() && (#[trigger] b[m]).0 == kk;
                            assert(before[m].0 == kk);
                        }
                        if has_row(before, kk) {
                            let m = choose|m: int| 0 <= m < before.len() && (#[trigger] before[m]).0 == kk;
                            assert(b[m].0 == kk);
                        }
                    }
                    assert forall|m: int| 0 <= m < b.len() implies (#[trigger] b[m]).1.len() == NB_GRADES by {
                        if m != idx {
                            assert(b[m] == before[m]);
                        }
                    }
                    assert forall|p: int, q: int| 0 <= p < q < b.len() implies (#[trigger] b[p]).0 < (#[trigger] b[q]).0 by {
                        assert(b[p].0 == before[p].0 && b[q].0 == before[q].0);
                    }
                    assert forall|m: int, g: int| 0 <= m < rows@.len() && 0 <= g < NB_GRADES implies (#[trigger] rows@[m].counts@[g]) <= processed + 1 by {
                        assert(rows@[m].counts@ == b[m].1);
                        assert(before[m].1[g] <= processed) by {
                            if m != idx {
                                assert(b[m] == before[m]);
                            }
                        }
                    }
                }
                proof {
                    processed = processed + 1;
                }
                t = t + 1;
            }
            proof {
                assert(attempts@.take(t as int) == attempts@);
                assert(day.take(j + 1) == day.take(j as int).push((wall, attempts@)));
                assert(base + day.take(j + 1) == seen.push((wall, attempts@)));
            }
            j = j + 1;
        }
        proof {
            assert(day.take(j as int) == day);
        }
        i = i + 1;
    }
    proof {
        assert(v.take(i as int) == v);
    }
    Aggregate { rows }
}

/// Sum of the counts of key `k` over the grade indexes below `n`.
pub open spec fn tally_sum<R: KeyRule>(rule: R, we: Seq<(Wall, Seq<Cotation>)>, k: u64, n: nat) -> nat
    decreases n,
{
    if n == 0 {
        0
    } else {
        tally_sum(rule, we, k, (n - 1) as nat) + tally(rule, we, k, (n - 1) as nat)
    }
}

/// Number of attempts of `a` whose grade index is below `n`.
pub open spec fn occ_sum(a: Seq<Cotation>, n: nat) -> nat
    decreases n,
{
    if n == 0 {
        0
    } else {
        occ_sum(a, (n - 1) as nat) + occ(a, (n - 1) as nat)
    }
}

proof fn lemma_occ_sum_push(a: Seq<Cotation>, x: Cotation, n: nat)
    ensures
        occ_sum(a.push(x), n) == occ_sum(a, n) + if x.index_spec() < n { 1nat } else { 0nat },
    decreases n,
{
    assert(a.push(x).drop_last() == a);
    if n > 0 {
        lemma_occ_sum_push(a, x, (n - 1) as nat);
    }
}

proof fn lemma_occ_sum_all(a: Seq<Cotation>)
    ensures
        occ_sum(a, NB_GRADES as nat) == a.len(),
    decreases a.len(),
{
    if a.len() == 0 {
        lemma_occ_sum_empty(a, NB_GRADES as nat);
    } else {
        let pre = a.drop_last();
        assert(pre.push(a.last()) == a);
        lemma_occ_sum_push(pre, a.last(), NB_GRADES as nat);
        lemma_occ_sum_all(pre);
    }
}

proof fn lemma_occ_sum_empty(a: Seq<Cotation>, n: nat)
    requires
        a.len() == 0,
    ensures
        occ_sum(a, n) == 0,
    decreases n,
{
    if n > 0 {
        lemma_occ_sum_empty(a, (n - 1) as nat);
    }
}

proof fn lemma_tally_sum_last<R: KeyRule>(rule: R, we: Seq<(Wall, Seq<Cotation>)>, k: u64, n: nat)
    requires
        we.len() > 0,
    ensures
        tally_sum(rule, we, k, n) == tally_sum(rule, we.drop_last(), k, n) + if rule.key_spec(we.last().0) == k {
            occ_sum(we.last().1, n)
        } else {
            0
        },
    decreases n,
{
    if n > 0 {
        lemma_tally_sum_last(rule, we, k, (n - 1) as nat);
    }
}

proof fn lemma_tally_sum_empty<R: KeyRule>(rule: R, we: Seq<(Wall, Seq<Cotation>)>, k: u64, n: nat)
    requires
        we.len() == 0,
    ensures
        tally_sum(rule, we, k, n) == 0,
    decreases n,
{
    if n > 0 {
        lemma_tally_sum_empty(rule, we, k, (n - 1) as nat);
    }
}

proof fn lemma_tally_sum_all<R: KeyRule>(rule: R, we: Seq<(Wall, Seq<Cotation>)>, k: u64)
    ensures
        tally_sum(rule, we, k, NB_GRADES as nat) == keyed_count(rule, we, k),
    decreases we.len(),
{
    if we.len() == 0 {
        lemma_tally_sum_empty(rule, we, k, NB_GRADES as nat);
    } else {
        lemma_tally_sum_last(rule, we, k, NB_GRADES as nat);
        lemma_tally_sum_all(rule, we.drop_last(), k);
        lemma_occ_sum_all(we.last().1);
    }
}

proof fn lemma_sum_take(c: Seq<u32>, n: int)
    requires
        0 <= n < c.len(),
    ensures
        sum(c.take(n + 1)) == sum(c.take(n)) + c[n],
{
    assert(c.take(n + 1).drop_last() == c.take(n));
}

proof fn lemma_sum_prefix<R: KeyRule>(rule: R, we: Seq<(Wall, Seq<Cotation>)>, a: Seq<(u64, Seq<u32>)>, i: int, n: int)
    requires
        counts_of(rule, we, a),
        0 <= i < a.len(),
        0 <= n <= NB_GRADES,
    ensures
        sum(a[i].1.take(n)) == tally_sum(rule, we, a[i].0, n as nat),
    decreases n,
{
    if n == 0 {
        assert(a[i].1.take(0) =~= Seq::<u32>::empty());
    } else {
        lemma_sum_prefix(rule, we, a, i, n - 1);
        lemma_sum_take(a[i].1, n - 1);
        assert(a[i].1[n - 1] == tally(rule, we, a[i].0, (n - 1) as nat));
    }
}

/// Summed over all grades, the counts of a key are the number of attempts
/// made on walls of that key.
pub proof fn lemma_row_total<R: KeyRule>(rule: R, we: Seq<(Wall, Seq<Cotation>)>, a: Seq<(u64, Seq<u32>)>, i: int)
    requires
        counts_of(rule, we, a),
        0 <= i < a.len(),
    ensures
        sum(a[i].1) == keyed_count(rule, we, a[i].0),
{
    let c = a[i].1;
    let k = a[i].0;
    lemma_sum_prefix(rule, we, a, i, NB_GRADES as int);
    assert(c.take(NB_GRADES as int) == c);
    lemma_tally_sum_all(rule, we, k);
}

proof fn lemma_sorted_keys_equal(a1: Seq<(u64, Seq<u32>)>, a2: Seq<(u64, Seq<u32>)>)
    requires
        aggregate_wf(a1),
        aggregate_wf(a2),
        forall|k: u64| has_row(a1, k) <==> has_row(a2, k),
    ensures
        a1.len() == a2.len(),
        forall|i: int| 0 <= i < a1.len() ==> (#[trigger] a1[i]).0 == a2[i].0,
    decreases a1.len() + a2.len(),
{
    if a1.len() == 0 {
        if a2.len() > 0 {
            assert(has_row(a2, a2[0].0));
        }
    } else if a2.len() == 0 {
        assert(has_row(a1, a1[0].0));
    } else {
        let x = a1[0].0;
        let y = a2[0].0;
        assert(has_row(a1, x));
        assert(has_row(a2, y));
        let j2 = choose|m: int| 0 <= m < a2.len() && (#[trigger] a2[m]).0 == x;
        let j1 = choose|m: int| 0 <= m < a1.len() && (#[trigger] a1[m]).0 == y;
        if j2 > 0 {
            assert(a2[0].0 < a2[j2].0);
        }
        if j1 > 0 {
            assert(a1[0].0 < a1[j1].0);
        }
        assert(x == y);
        let b1 = a1.drop_first();
        let b2 = a2.drop_first();
        assert forall|p: int, q: int| 0 <= p < q < b1.len() implies (#[trigger] b1[p]).0 < (#[trigger] b1[q]).0 by {
            assert(b1[p] == a1[p + 1] && b1[q] == a1[q + 1]);
        }
        assert forall|p: int| 0 <= p < b1.len() implies (#[trigger] b1[p]).1.len() == NB_GRADES by {
            assert(b1[p] == a1[p + 1]);
        }
        assert forall|p: int, q: int| 0 <= p < q < b2.len() implies (#[trigger] b2[p]).0 < (#[trigger] b2[q]).0 by {
            assert(b2[p] == a2[p + 1] && b2[q] == a2[q + 1]);
        }
        assert forall|p: int| 0 <= p < b2.len() implies (#[trigger] b2[p]).1.len() == NB_GRADES by {
            assert(b2[p] == a2[p + 1]);
        }
        assert forall|k: u64| has_row(b1, k) <==> has_row(b2, k) by {
            if has_row(b1, k) {
                let m = choose|m: int| 0 <= m < b1.len() && (#[trigger] b1[m]).0 == k;
                assert(a1[m + 1].0 == k);
                assert(a1[0].0 < a1[m + 1].0);
                assert(has_row(a1, k));
                let n = choose|n: int| 0 <= n < a2.len() && (#[trigger] a2[n]).0 == k;
                assert(n != 0);
                assert(b2[n - 1].0 == k);
            }
            if has_row(b2, k) {
                let m = choose|m: int| 0 <= m < b2.len() && (#[trigger] b2[m]).0 == k;
                assert(a2[m + 1].0 == k);
                assert(a2[0].0 < a2[m + 1].0);
                assert(has_row(a2, k));
                let n = choose|n: int| 0 <= n < a1.len() && (#[trigger] a1[n]).0 == k;
                assert(n != 0);
                assert(b1[n - 1].0 == k);
            }
        }
        lemma_sorted_keys_equal(b1, b2);
        assert forall|i: int| 0 <= i < a1.len() implies (#[trigger] a1[i]).0 == a2[i].0 by {
            if i > 0 {
                assert(a1[i] == b1[i - 1] && a2[i] == b2[i - 1]);
            }
        }
    }
}

/// The counts of a journal's attempts by key and grade are determined by the
/// journal and the rule: two results that meet `counts_of` are equal.
pub proof fn lemma_counts_unique<R: KeyRule>(rule: R, we: Seq<(Wall, Seq<Cotation>)>, a1: Seq<(u64, Seq<u32>)>, a2: Seq<(u64, Seq<u32>)>)
    requires
        counts_of(rule, we, a1),
        counts_of(rule, we, a2),
    ensures
        a1 == a2,
{
    lemma_sorted_keys_equal(a1, a2);
    assert forall|i: int| 0 <= i < a1.len() implies #[trigger] a1[i] == a2[i] by {
        assert(a1[i].1 =~= a2[i].1) by {
            assert forall|g: int| 0 <= g < a1[i].1.len() implies a1[i].1[g] == a2[i].1[g] by {
                assert(a1[i].1[g] == tally(rule, we, a1[i].0, g as nat));
                assert(a2[i].1[g] == tally(rule, we, a2[i].0, g as nat));
            }
        }
    }
    assert(a1 =~= a2);
}

} // verus!
