//! The whole report on a journal: what each of its four charts shows.

use vstd::prelude::*;
use crate::aggregate::{counts_of, group_by, wall_entries, Aggregate, ByKind, ByWall, Whole};
use crate::bar::{layout, layout_of, layout_view, BarLayout, Segment, Tick, LEFT_MARGIN, RIGHT_MARGIN};
use crate::date::Date;
use crate::grade::{Color, Cotation};
use crate::journal::{flatten, is_hardest, journal_wf, score_of, walls_sorted, within_limits, Journal};
use crate::trend::{fit, fit_of, FitError, TrendLine};
use crate::wall::{Wall, NB_WALLS};

verus! {

/// One day of the score chart.
#[derive(Clone, Copy, Debug, PartialEq, Eq, Structural)]
pub struct DayPoint {
    pub date: Date,
    /// Number of walls climbed.
    pub walls: usize,
    /// Score of the day.
    pub score: u32,
    /// Colour of the hardest grade of the day; none without attempts.
    pub color: Option<Color>,
}

/// What the four charts of a report show.
#[derive(Debug, PartialEq, Eq)]
pub struct Report {
    /// The days, in order, for the score chart.
    pub days: Vec<DayPoint>,
    /// Trend of the daily score over the day numbers.
    pub trend: Result<TrendLine, FitError>,
    /// Attempts by grade over the whole journal, for the pie chart.
    pub grades: Aggregate,
    /// Attempts by wall and grade.
    pub wall_counts: Aggregate,
    /// Attempts by wall category and grade.
    pub kind_counts: Aggregate,
    /// Bar chart of `wall_counts`.
    pub walls: BarLayout,
    /// Bar chart of `kind_counts`.
    pub kinds: BarLayout,
}

/// The points that the trend is fitted on: each day's number and score.
pub open spec fn trend_points(days: Seq<(Date, Seq<(Wall, Seq<Cotation>)>)>) -> Seq<(i32, u32)> {
    Seq::new(days.len(), |i: int| (days[i].0.days, score_of(flatten(days[i].1)) as u32))
}

/// `p` is the score chart's point of the day `d`.
pub open spec fn day_point_of(d: (Date, Seq<(Wall, Seq<Cotation>)>), p: DayPoint) -> bool {
    &&& p.date == d.0
    &&& p.walls == d.1.len()
    &&& p.score == score_of(flatten(d.1))
    &&& p.color.is_none() <==> flatten(d.1).len() == 0
    &&& p.color.is_some() ==> exists|g: Cotation| is_hardest(flatten(d.1), g) && g.color_spec() == p.color.unwrap()
}

/// `r` is the report of the journal `j`, with bar charts `width` wide whose
/// first rows stand at `wall_top` and `kind_top`.
pub open spec fn report_of(j: Seq<(Date, Seq<(Wall, Seq<Cotation>)>)>, width: int, wall_top: int, kind_top: int, r: Report) -> bool {
    &&& r.days@.len() == j.len()
    &&& forall|i: int| 0 <= i < j.len() ==> day_point_of(j[i], #[trigger] r.days@[i])
    &&& fit_of(trend_points(j), r.trend)
    &&& counts_of(Whole, wall_entries(j), r.grades@)
    &&& counts_of(ByWall, wall_entries(j), r.wall_counts@)
    &&& counts_of(ByKind, wall_entries(j), r.kind_counts@)
    &&& layout_of(r.wall_counts@, width, wall_top, r.walls)
    &&& layout_of(r.kind_counts@, width, kind_top, r.kinds)
}

proof fn lemma_rank_at_least(v: Seq<(Wall, Seq<Cotation>)>, i: int)
    requires
        walls_sorted(v),
        0 <= i < v.len(),
    ensures
        v[i].0.rank_spec() >= i,
    decreases i,
{
    if i > 0 {
        lemma_rank_at_least(v, i - 1);
    }
}

/// A day lists at most every wall once.
proof fn lemma_day_walls(v: Seq<(Wall, Seq<Cotation>)>)
    requires
        walls_sorted(v),
    ensures
        v.len() <= NB_WALLS,
{
    if v.len() > NB_WALLS {
        lemma_rank_at_least(v, NB_WALLS as int);
        crate::wall::lemma_wall_numbering(v[NB_WALLS as int].0, v[NB_WALLS as int].0);
    }
}

proof fn lemma_wall_entries_len(days: Seq<(Date, Seq<(Wall, Seq<Cotation>)>)>)
    requires
        journal_wf(days),
    ensures
        wall_entries(days).len() <= NB_WALLS * days.len(),
    decreases days.len(),
{
    if days.len() > 0 {
        let pre = days.drop_last();
        assert(journal_wf(pre)) by {
            assert forall|i: int| 0 <= i < pre.len() implies walls_sorted(#[trigger] pre[i].1) by {
                assert(pre[i] == days[i]);
            }
            assert forall|i: int, k: int| 0 <= i < k < pre.len() implies (#[trigger] pre[i]).0.days < (#[trigger] pre[k]).0.days by {
                assert(pre[i] == days[i] && pre[k] == days[k]);
            }
        }
        lemma_wall_entries_len(pre);
        lemma_day_walls(days.last().1);
    }
}

/// Computes the report of a journal, with bar charts `width` wide whose first
/// rows stand at `wall_top` and `kind_top`.
pub fn report(journal: &Journal, width: u32, wall_top: i32, kind_top: i32) -> (r: Report)
    requires
        journal_wf(journal@),
        within_limits(journal@),
        width >= LEFT_MARGIN + RIGHT_MARGIN,
    ensures
        report_of(journal@, width as int, wall_top as int, kind_top as int, r),
{
    let ghost j = journal@;
    let mut days: Vec<DayPoint> = Vec::new();
    let mut points: Vec<(i32, u32)> = Vec::new();
    let mut i: usize = 0;
    while i < journal.len()
        invariant
            j == journal@,
            journal_wf(j),
            within_limits(j),
            i <= j.len(),
            days@.len() == i,
            points@.len() == i,
            forall|k: int| 0 <= k < i ==> day_point_of(j[k], #[trigger] days@[k]),
            forall|k: int| 0 <= k < i ==> #[trigger] points@[k] == trend_points(j)[k],
        decreases j.len() - i,
    {
        let entries = journal.entries(i);
        let date = journal.date(i);
        proof {
            crate::journal::lemma_day_len(j, i as int);
        }
        let score = entries.score();
        let color = entries.color();
        days.push(DayPoint { date, walls: entries.len(), score, color });
        points.push((date.days, score));
        i = i + 1;
    }
    proof {
        assert(points@ =~= trend_points(j));
    }
    let trend = fit(&points);
    let grades = group_by(journal, &Whole);
    let wall_counts = group_by(journal, &ByWall);
    let kind_counts = group_by(journal, &ByKind);
    proof {
        lemma_wall_entries_len(j);
    }
    let walls = layout(&wall_counts, width, wall_top);
    let kinds = layout(&kind_counts, width, kind_top);
    Report { days, trend, grades, wall_counts, kind_counts, walls, kinds }
}

/// A report as plain values.
pub open spec fn report_view(r: Report) -> (
    Seq<DayPoint>,
    Result<TrendLine, FitError>,
    Seq<(u64, Seq<u32>)>,
    Seq<(u64, Seq<u32>)>,
    Seq<(u64, Seq<u32>)>,
    (u64, i64, Seq<(u64, i64, i64, Seq<Segment>)>, Option<(i64, i64, i64, Seq<Tick>)>),
    (u64, i64, Seq<(u64, i64, i64, Seq<Segment>)>, Option<(i64, i64, i64, Seq<Tick>)>),
) {
    (r.days@, r.trend, r.grades@, r.wall_counts@, r.kind_counts@, layout_view(r.walls), layout_view(r.kinds))
}

proof fn lemma_hardest_unique(s: Seq<Cotation>, g1: Cotation, g2: Cotation)
    requires
        is_hardest(s, g1),
        is_hardest(s, g2),
    ensures
        g1 == g2,
{
    let i1 = choose|i: int| 0 <= i < s.len() && s[i] == g1;
    let i2 = choose|i: int| 0 <= i < s.len() && s[i] == g2;
    assert(s[i1].level_spec() <= g2.level_spec());
    assert(s[i2].level_spec() <= g1.level_spec());
    crate::grade::lemma_level_injective(g1, g2);
}

/// Nothing but the journal and the chart sizes decides a report: two reports
/// of the same journal, width and tops are equal in every value they hold.
pub proof fn lemma_report_deterministic(
    j: Seq<(Date, Seq<(Wall, Seq<Cotation>)>)>,
    width: int,
    wall_top: int,
    kind_top: int,
    r1: Report,
    r2: Report,
)
    requires
        report_of(j, width, wall_top, kind_top, r1),
        report_of(j, width, wall_top, kind_top, r2),
    ensures
        report_view(r1) == report_view(r2),
{
    assert forall|i: int| 0 <= i < j.len() implies #[trigger] r1.days@[i] == r2.days@[i] by {
        let first = r1.days@[i];
        let second = r2.days@[i];
        assert(day_point_of(j[i], first) && day_point_of(j[i], second));
        if first.color.is_some() {
            let g1 = choose|g: Cotation| is_hardest(flatten(j[i].1), g) && g.color_spec() == first.color.unwrap();
            let g2 = choose|g: Cotation| is_hardest(flatten(j[i].1), g) && g.color_spec() == second.color.unwrap();
            lemma_hardest_unique(flatten(j[i].1), g1, g2);
        }
    }
    assert(r1.days@ =~= r2.days@);
    crate::aggregate::lemma_counts_unique(Whole, wall_entries(j), r1.grades@, r2.grades@);
    crate::aggregate::lemma_counts_unique(ByWall, wall_entries(j), r1.wall_counts@, r2.wall_counts@);
    crate::aggregate::lemma_counts_unique(ByKind, wall_entries(j), r1.kind_counts@, r2.kind_counts@);
    crate::bar::lemma_layout_unique(r1.wall_counts@, width, wall_top, r1.walls, r2.walls);
    crate::bar::lemma_layout_unique(r1.kind_counts@, width, kind_top, r1.kinds, r2.kinds);
}

} // verus!
