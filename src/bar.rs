//! Geometry of the stacked horizontal bar charts: one row of segments per key,
//! then a graduated axis.

use vstd::prelude::*;
use crate::aggregate::{aggregate_wf, Aggregate};
use crate::grade::{Cotation, NB_GRADES};

verus! {

/// Space left of the bars, where the labels stand.
pub const LEFT_MARGIN: i64 = 100;

/// Space right of the bars.
pub const RIGHT_MARGIN: i64 = 20;

/// Horizontal position of the row labels.
pub const LABEL_X: i64 = 10;

/// Height of a bar, the size of the label font.
pub const FONT_SIZE: i64 = 13;

/// Vertical distance between two rows: 1.4 times the font size, rounded down.
pub const LINE_HEIGHT: i64 = 18;

/// Length of the shortest tick; ticks at multiples of 5 and of 10 grow by as much.
pub const TICK: i64 = 5;

/// Most rows that a chart can lay out.
pub const MAX_ROWS: usize = 0xFFFF_FFFF;

/// Sum of the counts from grade index `g` on.
pub open spec fn sum_from(c: Seq<u32>, g: int) -> int
    decreases c.len() - g,
{
    if g < 0 || g >= c.len() {
        0
    } else {
        c[g] + sum_from(c, g + 1)
    }
}

/// Number of attempts of a row.
pub open spec fn row_total(c: Seq<u32>) -> int {
    sum_from(c, 0)
}

/// Largest row total of the first `n` rows; zero for none.
pub open spec fn max_total(a: Seq<(u64, Seq<u32>)>, n: int) -> int
    decreases n,
{
    if n <= 0 {
        0
    } else {
        let m = max_total(a, n - 1);
        let t = row_total(a[n - 1].1);
        if t > m { t } else { m }
    }
}

/// Width of one attempt: the room between the margins shared by the largest total.
pub open spec fn unit_width(width: int, max: int) -> int {
    if max == 0 { 0 } else { (width - LEFT_MARGIN - RIGHT_MARGIN) / max }
}

/// The segments of a row from grade index `g` on, starting at `x`: one per
/// grade with a non-zero count, as (grade index, left, right), laid left to right.
pub open spec fn segments_from(c: Seq<u32>, g: int, x: int, unit: int) -> Seq<(int, int, int)>
    decreases c.len() - g,
{
    if g < 0 || g >= c.len() {
        Seq::empty()
    } else if c[g] == 0 {
        segments_from(c, g + 1, x, unit)
    } else {
        seq![(g, x, x + unit * c[g])] + segments_from(c, g + 1, x + unit * c[g], unit)
    }
}

/// Length of the tick of graduation `k`.
pub open spec fn tick_len(k: int) -> int {
    TICK + (if k % 5 == 0 { TICK } else { 0 }) + (if k % 10 == 0 { TICK } else { 0 })
}

/// Sum of the widths of segments.
pub open spec fn widths(s: Seq<(int, int, int)>) -> int
    decreases s.len(),
{
    if s.len() == 0 {
        0
    } else {
        (s[0].2 - s[0].1) + widths(s.drop_first())
    }
}

/// One coloured piece of a bar, for one grade.
#[derive(Clone, Copy, Debug, PartialEq, Eq, Structural)]
pub struct Segment {
    pub grade: Cotation,
    pub x0: i64,
    pub x1: i64,
    pub y0: i64,
    pub y1: i64,
}

/// The bar of one key, with the position of its label.
#[derive(Clone, Debug, PartialEq, Eq)]
pub struct BarRow {
    pub key: u64,
    pub label_x: i64,
    pub y: i64,
    pub segments: Vec<Segment>,
}

/// One graduation of the axis, a vertical mark from `y0` down to `y1`.
#[derive(Clone, Copy, Debug, PartialEq, Eq, Structural)]
pub struct Tick {
    pub x: i64,
    pub y0: i64,
    pub y1: i64,
}

/// The horizontal axis under the bars, with one tick per attempt count.
#[derive(Clone, Debug, PartialEq, Eq)]
pub struct Axis {
    pub y: i64,
    pub x0: i64,
    pub x1: i64,
    pub ticks: Vec<Tick>,
}

/// All that a bar chart draws; nothing where no row has an attempt.
#[derive(Clone, Debug, PartialEq, Eq)]
pub struct BarLayout {
    pub max_total: u64,
    pub unit: i64,
    pub rows: Vec<BarRow>,
    pub axis: Option<Axis>,
}

/// Segments seen as (grade index, left, right).
pub open spec fn segments_view(s: Seq<Segment>) -> Seq<(int, int, int)> {
    s.map_values(|x: Segment| (x.grade.index_spec() as int, x.x0 as int, x.x1 as int))
}

/// Each segment of `s` is `FONT_SIZE` high from `y`.
pub open spec fn segments_at(s: Seq<Segment>, y: int) -> bool {
    forall|j: int| 0 <= j < s.len() ==> (#[trigger] s[j]).y0 == y && s[j].y1 == y + FONT_SIZE
}

/// `r` is the layout of the aggregate `a` on a chart `width` wide whose first
/// row stands at `top`.
pub open spec fn layout_of(a: Seq<(u64, Seq<u32>)>, width: int, top: int, r: BarLayout) -> bool {
    let max = max_total(a, a.len() as int);
    let unit = unit_width(width, max);
    &&& r.max_total == max
    &&& r.unit == unit
    &&& max == 0 ==> r.rows@.len() == 0 && r.axis.is_none()
    &&& max > 0 ==> {
        &&& r.rows@.len() == a.len()
        &&& forall|i: int| 0 <= i < a.len() ==> {
            &&& (#[trigger] r.rows@[i]).key == a[i].0
            &&& r.rows@[i].label_x == LABEL_X
            &&& r.rows@[i].y == top + LINE_HEIGHT * i
            &&& segments_view(r.rows@[i].segments@) == segments_from(a[i].1, 0, LEFT_MARGIN as int, unit)
            &&& segments_at(r.rows@[i].segments@, top + LINE_HEIGHT * i)
        }
        &&& r.axis.is_some()
        &&& r.axis.unwrap().y == top + LINE_HEIGHT * a.len()
        &&& r.axis.unwrap().x0 == LEFT_MARGIN
        &&& r.axis.unwrap().x1 == width - RIGHT_MARGIN
        &&& r.axis.unwrap().ticks@.len() == max + 1
        &&& forall|k: int| 0 <= k <= max ==> {
            &&& (#[trigger] r.axis.unwrap().ticks@[k]).x == LEFT_MARGIN + unit * k
            &&& r.axis.unwrap().ticks@[k].y0 == top + LINE_HEIGHT * a.len()
            &&& r.axis.unwrap().ticks@[k].y1 == top + LINE_HEIGHT * a.len() + tick_len(k)
        }
    }
}

proof fn lemma_sum_from_bound(c: Seq<u32>, g: int)
    requires
        0 <= g,
    ensures
        0 <= sum_from(c, g) <= 0xFFFF_FFFF * (if g < c.len() { c.len() - g } else { 0 }),
    decreases c.len() - g,
{
    if g < c.len() {
        lemma_sum_from_bound(c, g + 1);
    }
}

proof fn lemma_max_total(a: Seq<(u64, Seq<u32>)>, n: int)
    requires
        0 <= n <= a.len(),
        aggregate_wf(a),
    ensures
        0 <= max_total(a, n) <= 0xFFFF_FFFF * NB_GRADES,
        forall|i: int| 0 <= i < n ==> row_total(#[trigger] a[i].1) <= max_total(a, n),
    decreases n,
{
    if n > 0 {
        lemma_max_total(a, n - 1);
        lemma_sum_from_bound(a[n - 1].1, 0);
    }
}

/// Segments of a row, from grade index `g` on: contiguous, each of width
/// `unit` times its count, ending `unit` times the remaining total after `x`.
pub proof fn lemma_segments(c: Seq<u32>, g: int, x: int, unit: int)
    requires
        0 <= g,
        0 <= unit,
    ensures
        widths(segments_from(c, g, x, unit)) == unit * sum_from(c, g),
        forall|j: int| 0 <= j < segments_from(c, g, x, unit).len() - 1
            ==> (#[trigger] segments_from(c, g, x, unit)[j]).2 == segments_from(c, g, x, unit)[j + 1].1,
        forall|j: int| 0 <= j < segments_from(c, g, x, unit).len()
            ==> x <= (#[trigger] segments_from(c, g, x, unit)[j]).1 <= segments_from(c, g, x, unit)[j].2
                && segments_from(c, g, x, unit)[j].2 <= x + unit * sum_from(c, g)
                && g <= segments_from(c, g, x, unit)[j].0 < c.len()
                && segments_from(c, g, x, unit)[j].2 - segments_from(c, g, x, unit)[j].1
                    == unit * c[segments_from(c, g, x, unit)[j].0],
        segments_from(c, g, x, unit).len() > 0 ==> segments_from(c, g, x, unit)[0].1 == x,
        segments_from(c, g, x, unit).len() > 0 ==> segments_from(c, g, x, unit).last().2 == x + unit * sum_from(c, g),
    decreases c.len() - g,
{
    let s = segments_from(c, g, x, unit);
    if g < c.len() {
        let w = unit * c[g];
        assert(w >= 0) by (nonlinear_arith)
            requires unit >= 0, c[g] >= 0, w == unit * c[g];
        assert(unit * sum_from(c, g) == w + unit * sum_from(c, g + 1)) by (nonlinear_arith)
            requires sum_from(c, g) == c[g] + sum_from(c, g + 1), w == unit * c[g];
        lemma_sum_from_bound(c, g + 1);
        assert(unit * sum_from(c, g + 1) >= 0) by (nonlinear_arith)
            requires unit >= 0, sum_from(c, g + 1) >= 0;
        if c[g] == 0 {
            lemma_segments(c, g + 1, x, unit);
        } else {
            lemma_segments(c, g + 1, x + w, unit);
            let t = segments_from(c, g + 1, x + w, unit);
            assert(s == seq![(g, x, x + w)] + t);
            assert(s.drop_first() == t);
            assert forall|j: int| 0 <= j < s.len() - 1 implies (#[trigger] s[j]).2 == s[j + 1].1 by {
                if j > 0 {
                    assert(s[j] == t[j - 1]);
                    assert(s[j + 1] == t[j]);
                }
            }
            assert forall|j: int| 0 <= j < s.len() implies x <= (#[trigger] s[j]).1 <= s[j].2
                && s[j].2 <= x + unit * sum_from(c, g) && g <= s[j].0 < c.len()
                && s[j].2 - s[j].1 == unit * c[s[j].0] by {
                if j > 0 {
                    assert(s[j] == t[j - 1]);
                }
            }
            if t.len() > 0 {
                assert(s.last() == t.last());
            }
        }
    }
}

/// In a laid-out chart, the segments of each row add up to `unit` times the
/// row's total, and lie side by side from the left margin, without gap or
/// overlap.
pub proof fn lemma_row_geometry(a: Seq<(u64, Seq<u32>)>, width: int, top: int, r: BarLayout, i: int)
    requires
        layout_of(a, width, top, r),
        width >= LEFT_MARGIN + RIGHT_MARGIN,
        r.max_total > 0,
        0 <= i < a.len(),
    ensures
        widths(segments_view(r.rows@[i].segments@)) == r.unit * row_total(a[i].1),
        forall|j: int| 0 <= j < segments_view(r.rows@[i].segments@).len() - 1
            ==> (#[trigger] segments_view(r.rows@[i].segments@)[j]).2 == segments_view(r.rows@[i].segments@)[j + 1].1,
        forall|j: int| 0 <= j < segments_view(r.rows@[i].segments@).len()
            ==> (#[trigger] segments_view(r.rows@[i].segments@)[j]).1 <= segments_view(r.rows@[i].segments@)[j].2,
        segments_view(r.rows@[i].segments@).len() > 0 ==> segments_view(r.rows@[i].segments@)[0].1 == LEFT_MARGIN,
{
    let max = max_total(a, a.len() as int);
    let room = width - LEFT_MARGIN - RIGHT_MARGIN;
    assert(room / max >= 0) by (nonlinear_arith)
        requires room >= 0, max > 0;
    lemma_segments(a[i].1, 0, LEFT_MARGIN as int, r.unit as int);
}

/// A row as plain values: key, label position, height and segments.
pub open spec fn row_view(r: BarRow) -> (u64, i64, i64, Seq<Segment>) {
    (r.key, r.label_x, r.y, r.segments@)
}

/// An axis as plain values: height, ends and ticks.
pub open spec fn axis_view(a: Axis) -> (i64, i64, i64, Seq<Tick>) {
    (a.y, a.x0, a.x1, a.ticks@)
}

/// A bar chart as plain values.
pub open spec fn layout_view(l: BarLayout) -> (u64, i64, Seq<(u64, i64, i64, Seq<Segment>)>, Option<(i64, i64, i64, Seq<Tick>)>) {
    (
        l.max_total,
        l.unit,
        l.rows@.map_values(|r: BarRow| row_view(r)),
        match l.axis {
            Some(a) => Some(axis_view(a)),
            None => None,
        },
    )
}

proof fn lemma_segments_unique(s1: Seq<Segment>, s2: Seq<Segment>, y: int)
    requires
        segments_view(s1) == segments_view(s2),
        segments_at(s1, y),
        segments_at(s2, y),
    ensures
        s1 == s2,
{
    assert(segments_view(s1).len() == s1.len());
    assert forall|j: int| 0 <= j < s1.len() implies #[trigger] s1[j] == s2[j] by {
        assert(segments_view(s1)[j] == segments_view(s2)[j]);
        crate::grade::lemma_level_injective(s1[j].grade, s2[j].grade);
    }
    assert(s1 =~= s2);
}

/// A bar chart is determined by its aggregate, width and top: two layouts that
/// meet `layout_of` for the same ones are equal.
pub proof fn lemma_layout_unique(a: Seq<(u64, Seq<u32>)>, width: int, top: int, l1: BarLayout, l2: BarLayout)
    requires
        layout_of(a, width, top, l1),
        layout_of(a, width, top, l2),
    ensures
        layout_view(l1) == layout_view(l2),
{
    let v1 = l1.rows@.map_values(|r: BarRow| row_view(r));
    let v2 = l2.rows@.map_values(|r: BarRow| row_view(r));
    assert forall|i: int| 0 <= i < v1.len() implies #[trigger] v1[i] == v2[i] by {
        let y = top + LINE_HEIGHT * i;
        lemma_segments_unique(l1.rows@[i].segments@, l2.rows@[i].segments@, y);
    }
    assert(v1 =~= v2);
    if l1.axis.is_some() {
        let t1 = l1.axis.unwrap().ticks@;
        let t2 = l2.axis.unwrap().ticks@;
        assert forall|k: int| 0 <= k < t1.len() implies #[trigger] t1[k] == t2[k] by {
        }
        assert(t1 =~= t2);
    }
}

/// Number of attempts of a row.
fn total(c: &Vec<u32>) -> (r: u64)
    requires
        c@.len() == NB_GRADES,
    ensures
        r == row_total(c@),
{
    let mut r: u64 = 0;
    let mut g: usize = c.len();
    proof {
        lemma_sum_from_bound(c@, 0);
    }
    while g > 0
        invariant
            g <= c@.len() == NB_GRADES,
            r == sum_from(c@, g as int),
        decreases g,
    {
        g = g - 1;
        proof {
            lemma_sum_from_bound(c@, g as int);
        }
        r = r + c[g] as u64;
    }
    r
}

/// The segments of one row, `FONT_SIZE` high from `y`.
fn row_segments(c: &Vec<u32>, unit: i64, y: i64) -> (r: Vec<Segment>)
    requires
        c@.len() == NB_GRADES,
        0 <= unit,
        LEFT_MARGIN + unit * row_total(c@) <= 0x1_0000_0000,
        -0x100_0000_0000 <= y <= 0x100_0000_0000,
    ensures
        segments_view(r@) == segments_from(c@, 0, LEFT_MARGIN as int, unit as int),
        segments_at(r@, y as int),
{
    let ghost all = segments_from(c@, 0, LEFT_MARGIN as int, unit as int);
    let mut out: Vec<Segment> = Vec::new();
    let mut x: i64 = LEFT_MARGIN;
    let mut g: usize = 0;
    proof {
        lemma_sum_from_bound(c@, 0);
        assert(segments_view(out@) =~= Seq::<(int, int, int)>::empty());
        assert(Seq::<(int, int, int)>::empty() + all == all);
    }
    while g < c.len()
        invariant
            g <= c@.len() == NB_GRADES,
            0 <= unit,
            -0x100_0000_0000 <= y <= 0x100_0000_0000,
            segments_view(out@) + segments_from(c@, g as int, x as int, unit as int) == all,
            all == segments_from(c@, 0, LEFT_MARGIN as int, unit as int),
            segments_at(out@, y as int),
            LEFT_MARGIN <= x,
            x + unit * sum_from(c@, g as int) == LEFT_MARGIN + unit * row_total(c@),
            LEFT_MARGIN + unit * row_total(c@) <= 0x1_0000_0000,
        decreases c@.len() - g,
    {
        let n = c[g];
        let ghost rest = segments_from(c@, g + 1, x as int, unit as int);
        proof {
            lemma_sum_from_bound(c@, g + 1);
            assert(unit * sum_from(c@, g as int) == unit * n + unit * sum_from(c@, g + 1)) by (nonlinear_arith)
                requires sum_from(c@, g as int) == n + sum_from(c@, g + 1);
            assert(unit * n >= 0 && unit * sum_from(c@, g + 1) >= 0) by (nonlinear_arith)
                requires unit >= 0, n >= 0, sum_from(c@, g + 1) >= 0;
        }
        if n > 0 {
            let w = unit * (n as i64);
            let seg = Segment { grade: Cotation::from_index(g).unwrap(), x0: x, x1: x + w, y0: y, y1: y + FONT_SIZE };
            let ghost before = out@;
            out.push(seg);
            proof {
                let t = segments_from(c@, g + 1, (x + w) as int, unit as int);
                assert(segments_from(c@, g as int, x as int, unit as int) == seq![(g as int, x as int, x + w)] + t);
                assert(segments_view(out@) =~= segments_view(before).push((g as int, x as int, (x + w) as int)));
                assert(segments_view(out@) + t =~= segments_view(before) + (seq![(g as int, x as int, x + w)] + t));
                assert forall|j: int| 0 <= j < out@.len() implies (#[trigger] out@[j]).y0 == y && out@[j].y1 == y + FONT_SIZE by {
                    if j < before.len() {
                        assert(out@[j] == before[j]);
                    }
                }
            }
            x = x + w;
        }
        g = g + 1;
    }
    proof {
        assert(segments_from(c@, g as int, x as int, unit as int) == Seq::<(int, int, int)>::empty());
        assert(segments_view(out@) + Seq::<(int, int, int)>::empty() == segments_view(out@));
    }
    out
}

/// Lays out a bar chart of an aggregate on a chart `width` pixels wide whose
/// first row stands at `top`.
///
/// Each key gets a row of segments, one per grade with attempts, in increasing
/// order of grades, each `unit` wide per attempt, where `unit` is the room
/// between the margins divided by the largest row total, rounded down. Under
/// the rows stands an axis with one tick per count from 0 to that total. Where
/// no row has an attempt, nothing is laid out.
pub fn layout(data: &Aggregate, width: u32, top: i32) -> (r: BarLayout)
    requires
        aggregate_wf(data@),
        width >= LEFT_MARGIN + RIGHT_MARGIN,
        data@.len() <= MAX_ROWS,
    ensures
        layout_of(data@, width as int, top as int, r),
{
    let ghost a = data@;
    let mut max: u64 = 0;
    let mut i: usize = 0;
    while i < data.rows.len()
        invariant
            a == data@,
            aggregate_wf(a),
            i <= a.len(),
            max == max_total(a, i as int),
        decreases a.len() - i,
    {
        proof {
            lemma_max_total(a, i + 1);
            assert(data.rows@[i as int].counts@ == a[i as int].1);
        }
        let t = total(&data.rows[i].counts);
        if t > max {
            max = t;
        }
        i = i + 1;
    }
    if max == 0 {
        return BarLayout { max_total: 0, unit: 0, rows: Vec::new(), axis: None };
    }
    proof {
        lemma_max_total(a, a.len() as int);
    }
    let room: i64 = width as i64 - LEFT_MARGIN - RIGHT_MARGIN;
    let unit: i64 = room / (max as i64);
    proof {
        assert(unit * max <= room) by (nonlinear_arith)
            requires unit as int == (room as int) / (max as int), max > 0, room >= 0;
        assert(unit >= 0) by (nonlinear_arith)
            requires unit as int == (room as int) / (max as int), max > 0, room >= 0;
    }
    let mut rows: Vec<BarRow> = Vec::new();
    let mut i: usize = 0;
    while i < data.rows.len()
        invariant
            a == data@,
            aggregate_wf(a),
            a.len() <= MAX_ROWS,
            i <= a.len(),
            max == max_total(a, a.len() as int),
            max > 0,
            forall|m: int| 0 <= m < a.len() ==> row_total(#[trigger] a[m].1) <= max,
            0 <= unit,
            unit * max <= room,
            room == width - LEFT_MARGIN - RIGHT_MARGIN,
            room < 0x1_0000_0000,
            rows@.len() == i,
            forall|m: int| 0 <= m < i ==> {
                &&& (#[trigger] rows@[m]).key == a[m].0
                &&& rows@[m].label_x == LABEL_X
                &&& rows@[m].y == top + LINE_HEIGHT * m
                &&& segments_view(rows@[m].segments@) == segments_from(a[m].1, 0, LEFT_MARGIN as int, unit as int)
                &&& segments_at(rows@[m].segments@, top + LINE_HEIGHT * m)
            },
        decreases a.len() - i,
    {
        let y: i64 = top as i64 + LINE_HEIGHT * (i as i64);
        let row = &data.rows[i];
        proof {
            assert(row.counts@ == a[i as int].1);
            let t = row_total(a[i as int].1);
            lemma_sum_from_bound(a[i as int].1, 0);
            assert(unit * t <= unit * max) by (nonlinear_arith)
                requires 0 <= unit, t <= max;
        }
        let segments = row_segments(&row.counts, unit, y);
        rows.push(BarRow { key: row.key, label_x: LABEL_X, y, segments });
        i = i + 1;
    }
    let axis_y: i64 = top as i64 + LINE_HEIGHT * (data.rows.len() as i64);
    let mut ticks: Vec<Tick> = Vec::new();
    let mut k: u64 = 0;
    while k <= max
        invariant
            0 < max <= 0xFFFF_FFFF * NB_GRADES,
            0 <= unit,
            unit * max <= room,
            room < 0x1_0000_0000,
            k <= max + 1,
            ticks@.len() == k,
            forall|m: int| 0 <= m < k ==> {
                &&& (#[trigger] ticks@[m]).x == LEFT_MARGIN + unit * m
                &&& ticks@[m].y0 == axis_y
                &&& ticks@[m].y1 == axis_y + tick_len(m)
            },
            -0x100_0000_0000 <= axis_y <= 0x100_0000_0000,
        decreases max + 1 - k,
    {
        proof {
            assert(0 <= unit * k <= unit * max) by (nonlinear_arith)
                requires 0 <= unit, 0 <= k <= max;
        }
        let mut len: i64 = TICK;
        if k % 5 == 0 {
            len = len + TICK;
        }
        if k % 10 == 0 {
            len = len + TICK;
        }
        ticks.push(Tick { x: LEFT_MARGIN + unit * (k as i64), y0: axis_y, y1: axis_y + len });
        k = k + 1;
    }
    let axis = Axis { y: axis_y, x0: LEFT_MARGIN, x1: width as i64 - RIGHT_MARGIN, ticks };
    BarLayout { max_total: max, unit, rows, axis: Some(axis) }
}

} // verus!
