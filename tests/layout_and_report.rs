use climbing_stats::aggregate::{Aggregate, Row};
use climbing_stats::bar::{layout, LEFT_MARGIN, LINE_HEIGHT};
use climbing_stats::date::Date;
use climbing_stats::grade::{BlockOut, Cotation};
use climbing_stats::journal::{Entries, Entry, Journal};
use climbing_stats::report::report;
use climbing_stats::trend::FitError;
use climbing_stats::wall::Wall;

fn counts(pairs: &[(usize, u32)]) -> Vec<u32> {
    let mut c = vec![0; 14];
    for (g, n) in pairs {
        c[*g] = *n;
    }
    c
}

#[test]
fn bars_are_stacked_without_gaps() {
    let a = Aggregate {
        rows: vec![
            Row { key: 3, counts: counts(&[(0, 1), (4, 2)]) },
            Row { key: 7, counts: counts(&[(13, 1)]) },
        ],
    };
    let l = layout(&a, 740, 40);
    assert_eq!(l.max_total, 3);
    assert_eq!(l.unit, 620 / 3);
    assert_eq!(l.rows.len(), 2);
    let r = &l.rows[0];
    assert_eq!((r.key, r.label_x, r.y), (3, 10, 40));
    assert_eq!(r.segments.len(), 2);
    assert_eq!(r.segments[0].grade, Cotation::BlockOut(BlockOut::B1));
    assert_eq!((r.segments[0].x0, r.segments[0].x1), (100, 306));
    assert_eq!((r.segments[1].x0, r.segments[1].x1), (306, 718));
    assert_eq!((r.segments[1].y0, r.segments[1].y1), (40, 53));
    let width: i64 = r.segments.iter().map(|s| s.x1 - s.x0).sum();
    assert_eq!(width, l.unit * 3);
    assert_eq!(l.rows[1].y, 40 + LINE_HEIGHT);
    assert_eq!(l.rows[1].segments[0].grade, Cotation::BlockOut(BlockOut::B14));
    let axis = l.axis.unwrap();
    assert_eq!((axis.y, axis.x0, axis.x1), (40 + 2 * LINE_HEIGHT, 100, 720));
    assert_eq!(axis.ticks.len(), 4);
    assert_eq!(axis.ticks[2].x, LEFT_MARGIN + 2 * l.unit);
    assert_eq!(axis.ticks[0].y1 - axis.ticks[0].y0, 15);
    assert_eq!(axis.ticks[1].y1 - axis.ticks[1].y0, 5);
}

#[test]
fn tick_lengths_follow_multiples_of_five_and_ten() {
    let a = Aggregate { rows: vec![Row { key: 0, counts: counts(&[(2, 12)]) }] };
    let l = layout(&a, 740, 0);
    let ticks = l.axis.unwrap().ticks;
    assert_eq!(ticks.len(), 13);
    assert_eq!(ticks[5].y1 - ticks[5].y0, 10);
    assert_eq!(ticks[10].y1 - ticks[10].y0, 15);
    assert_eq!(ticks[7].y1 - ticks[7].y0, 5);
}

#[test]
fn nothing_to_draw_without_attempts() {
    let l = layout(&Aggregate { rows: vec![] }, 740, 0);
    assert_eq!(l.rows.len(), 0);
    assert!(l.axis.is_none());
    let l = layout(&Aggregate { rows: vec![Row { key: 1, counts: counts(&[]) }] }, 740, 0);
    assert_eq!(l.rows.len(), 0);
    assert!(l.axis.is_none());
}

fn sample() -> Journal {
    let mut j = Journal::new();
    let mut d1 = Entries::new();
    d1.push(Wall::AuCoin, Entry(vec![Cotation::BlockOut(BlockOut::B5), Cotation::BlockOut(BlockOut::B6)])).unwrap();
    let mut d2 = Entries::new();
    d2.push(Wall::LaTornade, Entry(vec![Cotation::BlockOut(BlockOut::B2)])).unwrap();
    d2.push(Wall::PlugPlay, Entry(vec![Cotation::BlockOut(BlockOut::B1)])).unwrap();
    j.push(Date::from_ymd(2024, 1, 1).unwrap(), d1).unwrap();
    j.push(Date::from_ymd(2024, 1, 2).unwrap(), d2).unwrap();
    j
}

#[test]
fn report_of_a_small_journal() {
    let j = sample();
    let r = report(&j, 740, 40, 40);
    assert_eq!(r.days.len(), 2);
    assert_eq!(r.days[0].score, 96);
    assert_eq!(r.days[1].score, 6);
    assert_eq!(r.days[1].walls, 2);
    let t = r.trend.unwrap();
    assert_eq!(t.slope_num, -90 * t.den);
    assert_eq!(r.grades.rows[0].counts, vec![1, 1, 0, 0, 1, 1, 0, 0, 0, 0, 0, 0, 0, 0]);
    assert_eq!(r.wall_counts.rows.len(), 3);
    assert_eq!(r.kind_counts.rows.len(), 3);
    assert_eq!(r.walls.rows.len(), 3);
    assert_eq!(r.walls.max_total, 2);
}

#[test]
fn report_is_the_same_twice() {
    let j = sample();
    assert_eq!(report(&j, 740, 40, 40), report(&j, 740, 40, 40));
}

#[test]
fn report_of_one_day_has_no_trend() {
    let mut j = Journal::new();
    j.push(Date::from_days(3), Entries::new()).unwrap();
    let r = report(&j, 740, 0, 0);
    assert_eq!(r.trend, Err(FitError::Degenerate));
    assert_eq!(r.days[0].color, None);
    assert!(r.walls.axis.is_none());
}
