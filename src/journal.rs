//! The climbing journal: for each day, the walls climbed and the grades of
//! the attempts made on each.

use vstd::prelude::*;
use crate::date::Date;
use crate::grade::{Color, Cotation};
use crate::wall::Wall;

verus! {

/// Most attempts that a journal may hold for its statistics to be computed;
/// it keeps every day's score within `u32`.
pub const MAX_ATTEMPTS: usize = 262143;

/// Most days that a journal may hold for its trend to be fitted.
pub const MAX_DAYS: usize = 32768;

/// Total score of a sequence of attempts.
pub open spec fn score_of(s: Seq<Cotation>) -> nat
    decreases s.len(),
{
    if s.len() == 0 {
        0
    } else {
        score_of(s.drop_last()) + s.last().score_spec()
    }
}

/// All the attempts of a day, wall after wall.
pub open spec fn flatten(v: Seq<(Wall, Seq<Cotation>)>) -> Seq<Cotation>
    decreases v.len(),
{
    if v.len() == 0 {
        Seq::empty()
    } else {
        flatten(v.drop_last()) + v.last().1
    }
}

/// All the attempts of a journal, day after day.
pub open spec fn all_attempts(days: Seq<(Date, Seq<(Wall, Seq<Cotation>)>)>) -> Seq<Cotation>
    decreases days.len(),
{
    if days.len() == 0 {
        Seq::empty()
    } else {
        all_attempts(days.drop_last()) + flatten(days.last().1)
    }
}

/// `g` is a hardest grade of the attempts `s`.
pub open spec fn is_hardest(s: Seq<Cotation>, g: Cotation) -> bool {
    s.contains(g) && forall|i: int| 0 <= i < s.len() ==> (#[trigger] s[i]).level_spec() <= g.level_spec()
}

pub proof fn lemma_score_of_append(a: Seq<Cotation>, b: Seq<Cotation>)
    ensures
        score_of(a + b) == score_of(a) + score_of(b),
    decreases b.len(),
{
    if b.len() > 0 {
        assert((a + b).drop_last() == a + b.drop_last());
        lemma_score_of_append(a, b.drop_last());
    } else {
        assert(a + b == a);
    }
}

pub proof fn lemma_score_of_bound(s: Seq<Cotation>)
    ensures
        score_of(s) <= 16384 * s.len(),
    decreases s.len(),
{
    if s.len() > 0 {
        lemma_score_of_bound(s.drop_last());
        crate::grade::lemma_pow2_le(s.last().level_spec(), 14);
        reveal_with_fuel(crate::grade::pow2, 15);
    }
}

pub proof fn lemma_flatten_take(v: Seq<(Wall, Seq<Cotation>)>, i: int)
    requires
        0 <= i < v.len(),
    ensures
        flatten(v.take(i + 1)) == flatten(v.take(i)) + v[i].1,
{
    assert(v.take(i + 1).drop_last() == v.take(i));
}

pub proof fn lemma_all_attempts_take(days: Seq<(Date, Seq<(Wall, Seq<Cotation>)>)>, i: int)
    requires
        0 <= i < days.len(),
    ensures
        all_attempts(days.take(i + 1)) == all_attempts(days.take(i)) + flatten(days[i].1),
{
    assert(days.take(i + 1).drop_last() == days.take(i));
}

/// The attempts made on one wall during one day.
#[derive(Clone, Debug, PartialEq, Eq, Default)]
pub struct Entry(pub Vec<Cotation>);

impl View for Entry {
    type V = Seq<Cotation>;

    open spec fn view(&self) -> Seq<Cotation> {
        self.0@
    }
}

impl Entry {
    /// Number of attempts.
    pub fn len(&self) -> (r: usize)
        ensures
            r == self@.len(),
    {
        self.0.len()
    }

    /// Total score of the attempts.
    pub fn score(&self) -> (r: u32)
        requires
            self@.len() <= MAX_ATTEMPTS,
        ensures
            r == score_of(self@),
    {
        let mut r: u32 = 0;
        let mut i: usize = 0;
        while i < self.0.len()
            invariant
                i <= self@.len() <= MAX_ATTEMPTS,
                r == score_of(self@.take(i as int)),
                r <= 16384 * i,
            decreases self@.len() - i,
        {
            proof {
                assert(self@.take(i + 1).drop_last() == self@.take(i as int));
            }
            let s = self.0[i].score();
            r = r + s;
            i = i + 1;
        }
        proof {
            assert(self@.take(i as int) == self@);
        }
        r
    }
}

/// The walls climbed during one day, each with its attempts, in the order of
/// wall names, each wall once.
#[derive(Clone, Debug, PartialEq, Eq, Default)]
pub struct Entries {
    walls: Vec<(Wall, Entry)>,
}

impl View for Entries {
    type V = Seq<(Wall, Seq<Cotation>)>;

    closed spec fn view(&self) -> Seq<(Wall, Seq<Cotation>)> {
        self.walls@.map_values(|p: (Wall, Entry)| (p.0, p.1@))
    }
}

/// Walls listed in strictly increasing order of names.
pub open spec fn walls_sorted(v: Seq<(Wall, Seq<Cotation>)>) -> bool {
    forall|i: int, j: int| 0 <= i < j < v.len() ==> (#[trigger] v[i]).0.rank_spec() < (#[trigger] v[j]).0.rank_spec()
}

impl Entries {
    /// A day with no wall climbed.
    pub fn new() -> (r: Entries)
        ensures
            r@ == Seq::<(Wall, Seq<Cotation>)>::empty(),
            walls_sorted(r@),
    {
        let r = Entries { walls: Vec::new() };
        proof {
            assert(r@ =~= Seq::<(Wall, Seq<Cotation>)>::empty());
        }
        r
    }

    /// Adds a wall after the others; refused where its name does not come
    /// after theirs.
    pub fn push(&mut self, wall: Wall, entry: Entry) -> (r: Result<(), crate::LoadError>)
        requires
            walls_sorted(old(self)@),
        ensures
            walls_sorted(final(self)@),
            r.is_ok() <==> (old(self)@.len() == 0 || old(self)@.last().0.rank_spec() < wall.rank_spec()),
            r.is_ok() ==> final(self)@ == old(self)@.push((wall, entry@)),
            r.is_err() ==> final(self)@ == old(self)@ && r == Err::<(), crate::LoadError>(crate::LoadError::WallOrder),
    {
        let n = self.walls.len();
        if n > 0 && self.walls[n - 1].0.rank() >= wall.rank() {
            return Err(crate::LoadError::WallOrder);
        }
        let ghost before = self@;
        self.walls.push((wall, entry));
        proof {
            assert(self@ =~= before.push((wall, entry@)));
            let v = self@;
            assert forall|i: int, j: int| 0 <= i < j < v.len() implies (#[trigger] v[i]).0.rank_spec() < (#[trigger] v[j]).0.rank_spec() by {
                if j == v.len() - 1 && i < j - 1 {
                    assert(before[i].0.rank_spec() < before[j - 1].0.rank_spec());
                }
            }
        }
        Ok(())
    }

    /// Number of walls climbed.
    pub fn len(&self) -> (r: usize)
        ensures
            r == self@.len(),
    {
        self.walls.len()
    }

    /// The `i`-th wall climbed, in the order of names.
    pub fn wall(&self, i: usize) -> (r: Wall)
        requires
            i < self@.len(),
        ensures
            r == self@[i as int].0,
    {
        self.walls[i].0
    }

    /// The attempts made on the `i`-th wall climbed.
    pub fn entry(&self, i: usize) -> (r: &Entry)
        requires
            i < self@.len(),
        ensures
            r@ == self@[i as int].1,
    {
        &self.walls[i].1
    }

    /// Number of attempts of the day.
    pub fn count(&self) -> (r: usize)
        requires
            flatten(self@).len() <= usize::MAX,
        ensures
            r == flatten(self@).len(),
    {
        let mut r: usize = 0;
        let mut i: usize = 0;
        while i < self.walls.len()
            invariant
                i <= self@.len(),
                flatten(self@).len() <= usize::MAX,
                r == flatten(self@.take(i as int)).len(),
            decreases self@.len() - i,
        {
            proof {
                lemma_flatten_take(self@, i as int);
                lemma_flatten_prefix_len(self@, i + 1);
            }
            r = r + self.walls[i].1.len();
            i = i + 1;
        }
        proof {
            assert(self@.take(i as int) == self@);
        }
        r
    }

    /// Score of the day: the sum of the scores of all its attempts.
    pub fn score(&self) -> (r: u32)
        requires
            flatten(self@).len() <= MAX_ATTEMPTS,
        ensures
            r == score_of(flatten(self@)),
    {
        let mut r: u32 = 0;
        let mut i: usize = 0;
        while i < self.walls.len()
            invariant
                i <= self@.len(),
                flatten(self@).len() <= MAX_ATTEMPTS,
                r == score_of(flatten(self@.take(i as int))),
                r <= 16384 * flatten(self@.take(i as int)).len(),
            decreases self@.len() - i,
        {
            proof {
                lemma_flatten_take(self@, i as int);
                lemma_flatten_prefix_len(self@, i + 1);
                lemma_score_of_append(flatten(self@.take(i as int)), self@[i as int].1);
                lemma_score_of_bound(self@[i as int].1);
            }
            let s = self.walls[i].1.score();
            r = r + s;
            i = i + 1;
        }
        proof {
            assert(self@.take(i as int) == self@);
        }
        r
    }

    /// The hardest grade attempted during the day; none for a day without attempts.
    pub fn hardest(&self) -> (r: Option<Cotation>)
        ensures
            r.is_none() <==> flatten(self@).len() == 0,
            r.is_some() ==> is_hardest(flatten(self@), r.unwrap()),
    {
        let mut best: Option<Cotation> = None;
        let mut i: usize = 0;
        while i < self.walls.len()
            invariant
                i <= self@.len(),
                best.is_none() <==> flatten(self@.take(i as int)).len() == 0,
                best.is_some() ==> is_hardest(flatten(self@.take(i as int)), best.unwrap()),
            decreases self@.len() - i,
        {
            proof {
                lemma_flatten_take(self@, i as int);
            }
            let ghost prev = flatten(self@.take(i as int));
            let attempts = &self.walls[i].1.0;
            let mut j: usize = 0;
            while j < attempts.len()
                invariant
                    j <= attempts@.len(),
                    attempts@ == self@[i as int].1,
                    best.is_none() <==> (prev + attempts@.take(j as int)).len() == 0,
                    best.is_some() ==> is_hardest(prev + attempts@.take(j as int), best.unwrap()),
                decreases attempts@.len() - j,
            {
                let g = attempts[j];
                let ghost s0 = prev + attempts@.take(j as int);
                let ghost s1 = prev + attempts@.take(j + 1);
                proof {
                    assert(s1 == s0.push(g));
                }
                match best {
                    None => {
                        best = Some(g);
                        proof {
                            assert(s1[s1.len() - 1] == g);
                        }
                    },
                    Some(b) => {
                        if g.level() > b.level() {
                            best = Some(g);
                            proof {
                                assert(s1[s1.len() - 1] == g);
                            }
                        } else {
                            proof {
                                let k = choose|k: int| 0 <= k < s0.len() && s0[k] == b;
                                assert(s1[k] == b);
                            }
                        }
                    },
                }
                proof {
                    let bb = best.unwrap();
                    assert forall|k: int| 0 <= k < s1.len() implies (#[trigger] s1[k]).level_spec() <= bb.level_spec() by {
                        if k < s0.len() {
                            assert(s1[k] == s0[k]);
                        }
                    }
                }
                j = j + 1;
            }
            proof {
                assert(attempts@.take(j as int) == attempts@);
            }
            i = i + 1;
        }
        proof {
            assert(self@.take(i as int) == self@);
        }
        best
    }

    /// Colour of the hardest grade attempted during the day; none for a day
    /// without attempts.
    pub fn color(&self) -> (r: Option<Color>)
        ensures
            r.is_none() <==> flatten(self@).len() == 0,
            r.is_some() ==> exists|g: Cotation| is_hardest(flatten(self@), g) && g.color_spec() == r.unwrap(),
    {
        match self.hardest() {
            Some(g) => Some(g.color()),
            None => None,
        }
    }
}

pub proof fn lemma_flatten_prefix_len(v: Seq<(Wall, Seq<Cotation>)>, i: int)
    requires
        0 <= i <= v.len(),
    ensures
        flatten(v.take(i)).len() <= flatten(v).len(),
    decreases v.len() - i,
{
    if i < v.len() {
        lemma_flatten_prefix_len(v, i + 1);
        lemma_flatten_take(v, i);
    } else {
        assert(v.take(i) == v);
    }
}

/// The days of a journal: strictly increasing dates, and on each day walls in
/// strictly increasing order of names.
pub open spec fn journal_wf(days: Seq<(Date, Seq<(Wall, Seq<Cotation>)>)>) -> bool {
    &&& forall|i: int, j: int| 0 <= i < j < days.len() ==> (#[trigger] days[i]).0.days < (#[trigger] days[j]).0.days
    &&& forall|i: int| 0 <= i < days.len() ==> walls_sorted(#[trigger] days[i].1)
}

/// A journal whose statistics fit the machine integers they are computed in.
pub open spec fn within_limits(days: Seq<(Date, Seq<(Wall, Seq<Cotation>)>)>) -> bool {
    all_attempts(days).len() <= MAX_ATTEMPTS && days.len() <= MAX_DAYS
}

/// A climbing journal: the days of climbing, in increasing order of dates.
#[derive(Clone, Debug, PartialEq, Eq, Default)]
pub struct Journal {
    days: Vec<(Date, Entries)>,
}

impl View for Journal {
    type V = Seq<(Date, Seq<(Wall, Seq<Cotation>)>)>;

    closed spec fn view(&self) -> Seq<(Date, Seq<(Wall, Seq<Cotation>)>)> {
        self.days@.map_values(|p: (Date, Entries)| (p.0, p.1@))
    }
}

impl Journal {
    /// An empty journal.
    pub fn new() -> (r: Journal)
        ensures
            r@ == Seq::<(Date, Seq<(Wall, Seq<Cotation>)>)>::empty(),
            journal_wf(r@),
    {
        let r = Journal { days: Vec::new() };
        proof {
            assert(r@ =~= Seq::<(Date, Seq<(Wall, Seq<Cotation>)>)>::empty());
        }
        r
    }

    /// Adds a day after the others; refused where its date does not come after
    /// theirs.
    pub fn push(&mut self, date: Date, entries: Entries) -> (r: Result<(), crate::LoadError>)
        requires
            journal_wf(old(self)@),
            walls_sorted(entries@),
        ensures
            journal_wf(final(self)@),
            r.is_ok() <==> (old(self)@.len() == 0 || old(self)@.last().0.days < date.days),
            r.is_ok() ==> final(self)@ == old(self)@.push((date, entries@)),
            r.is_err() ==> final(self)@ == old(self)@ && r == Err::<(), crate::LoadError>(crate::LoadError::DateOrder),
    {
        let n = self.days.len();
        if n > 0 && self.days[n - 1].0.days >= date.days {
            return Err(crate::LoadError::DateOrder);
        }
        let ghost before = self@;
        let ghost e = entries@;
        self.days.push((date, entries));
        proof {
            assert(self@ =~= before.push((date, e)));
            let v = self@;
            assert forall|i: int, j: int| 0 <= i < j < v.len() implies (#[trigger] v[i]).0.days < (#[trigger] v[j]).0.days by {
                if j == v.len() - 1 && i < j - 1 {
                    assert(before[i].0.days < before[j - 1].0.days);
                }
            }
            assert forall|i: int| 0 <= i < v.len() implies walls_sorted(#[trigger] v[i].1) by {
                if i < before.len() {
                    assert(v[i] == before[i]);
                }
            }
        }
        Ok(())
    }

    /// Number of days.
    pub fn len(&self) -> (r: usize)
        ensures
            r == self@.len(),
    {
        self.days.len()
    }

    /// Date of the `i`-th day.
    pub fn date(&self, i: usize) -> (r: Date)
        requires
            i < self@.len(),
        ensures
            r == self@[i as int].0,
    {
        self.days[i].0
    }

    /// Walls climbed on the `i`-th day.
    pub fn entries(&self, i: usize) -> (r: &Entries)
        requires
            i < self@.len(),
        ensures
            r@ == self@[i as int].1,
    {
        &self.days[i].1
    }

    /// Whether the journal is small enough for its statistics: at most
    /// `MAX_ATTEMPTS` attempts and `MAX_DAYS` days.
    pub fn within_limits(&self) -> (r: bool)
        ensures
            r == within_limits(self@),
    {
        if self.days.len() > MAX_DAYS {
            return false;
        }
        let mut total: usize = 0;
        let mut i: usize = 0;
        while i < self.days.len()
            invariant
                i <= self@.len(),
                total == all_attempts(self@.take(i as int)).len(),
                total <= MAX_ATTEMPTS,
                self@.len() <= MAX_DAYS,
            decreases self@.len() - i,
        {
            let entries = &self.days[i].1;
            let ghost day = entries@;
            proof {
                lemma_all_attempts_take(self@, i as int);
            }
            let mut j: usize = 0;
            let mut day_total: usize = 0;
            while j < entries.len()
                invariant
                    j <= day.len(),
                    day == entries@,
                    i < self@.len(),
                    day == self@[i as int].1,
                    total == all_attempts(self@.take(i as int)).len(),
                    all_attempts(self@.take(i + 1)) == all_attempts(self@.take(i as int)) + flatten(day),
                    day_total == flatten(day.take(j as int)).len(),
                    total + day_total <= MAX_ATTEMPTS,
                decreases day.len() - j,
            {
                proof {
                    lemma_flatten_take(day, j as int);
                }
                let n = entries.entry(j).len();
                if n > MAX_ATTEMPTS - total - day_total {
                    proof {
                        lemma_flatten_prefix_len(day, j + 1);
                        lemma_all_attempts_prefix_len(self@, i + 1);
                    }
                    return false;
                }
                day_total = day_total + n;
                j = j + 1;
            }
            proof {
                assert(day.take(j as int) == day);
            }
            total = total + day_total;
            i = i + 1;
        }
        proof {
            assert(self@.take(i as int) == self@);
        }
        true
    }

    /// Score of each day, with its date.
    pub fn scores(&self) -> (r: Vec<(Date, u32)>)
        requires
            within_limits(self@),
        ensures
            r@.len() == self@.len(),
            forall|i: int| 0 <= i < r@.len() ==> (#[trigger] r@[i]).0 == self@[i].0 && r@[i].1 == score_of(flatten(self@[i].1)),
    {
        let mut r: Vec<(Date, u32)> = Vec::new();
        let mut i: usize = 0;
        while i < self.days.len()
            invariant
                i <= self@.len(),
                within_limits(self@),
                r@.len() == i,
                forall|k: int| 0 <= k < i ==> (#[trigger] r@[k]).0 == self@[k].0 && r@[k].1 == score_of(flatten(self@[k].1)),
            decreases self@.len() - i,
        {
            proof {
                lemma_day_len(self@, i as int);
            }
            let s = self.days[i].1.score();
            r.push((self.days[i].0, s));
            i = i + 1;
        }
        r
    }
}

pub proof fn lemma_all_attempts_prefix_len(days: Seq<(Date, Seq<(Wall, Seq<Cotation>)>)>, i: int)
    requires
        0 <= i <= days.len(),
    ensures
        all_attempts(days.take(i)).len() <= all_attempts(days).len(),
    decreases days.len() - i,
{
    if i < days.len() {
        lemma_all_attempts_prefix_len(days, i + 1);
        lemma_all_attempts_take(days, i);
    } else {
        assert(days.take(i) == days);
    }
}

/// A day holds no more attempts than the whole journal.
pub proof fn lemma_day_len(days: Seq<(Date, Seq<(Wall, Seq<Cotation>)>)>, i: int)
    requires
        0 <= i < days.len(),
    ensures
        flatten(days[i].1).len() <= all_attempts(days).len(),
{
    lemma_all_attempts_take(days, i);
    lemma_all_attempts_prefix_len(days, i + 1);
}

/// A day without attempts scores zero and has no hardest grade, hence no colour.
pub proof fn lemma_empty_day(v: Seq<(Wall, Seq<Cotation>)>)
    requires
        flatten(v).len() == 0,
    ensures
        score_of(flatten(v)) == 0,
        forall|g: Cotation| !is_hardest(flatten(v), g),
{
    assert(flatten(v) =~= Seq::<Cotation>::empty());
}

} // verus!
