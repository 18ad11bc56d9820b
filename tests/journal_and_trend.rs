use climbing_stats::aggregate::{group_by, ByKind, ByWall, Whole};
use climbing_stats::date::Date;
use climbing_stats::grade::{BlockOut, Color, Cotation};
use climbing_stats::journal::{Entries, Entry, Journal};
use climbing_stats::trend::{fit, FitError};
use climbing_stats::wall::{Kind, Wall};
use climbing_stats::LoadError;

fn b(level: u32) -> Cotation {
    Cotation::BlockOut(BlockOut::from_level(level).unwrap())
}

fn day(walls: Vec<(Wall, Vec<u32>)>) -> Entries {
    let mut e = Entries::new();
    for (w, grades) in walls {
        e.push(w, Entry(grades.into_iter().map(b).collect())).unwrap();
    }
    e
}

fn two_day_journal() -> Journal {
    let mut j = Journal::new();
    j.push(Date::from_ymd(2024, 1, 1).unwrap(), day(vec![(Wall::AuCoin, vec![5, 6])])).unwrap();
    j.push(Date::from_ymd(2024, 1, 2).unwrap(), day(vec![(Wall::PlugPlay, vec![1])])).unwrap();
    j
}

#[test]
fn dates_count_days_from_the_common_era() {
    assert_eq!(Date::from_ymd(2024, 1, 1).unwrap().days(), 738886);
    assert_eq!(Date::from_ymd(1, 1, 1).unwrap().days(), 1);
    assert_eq!(Date::from_ymd(0, 1, 1).unwrap().days(), -365);
    assert_eq!(Date::from_ymd(2024, 2, 29).unwrap().days(), 738886 + 59);
    assert_eq!(Date::from_ymd(2023, 2, 29), None);
    assert_eq!(Date::from_ymd(2024, 13, 1), None);
    assert_eq!(Date::from_ymd(2024, 4, 31), None);
    assert_eq!(Date::from_days(5).days(), 5);
}

#[test]
fn empty_day_scores_zero_and_has_no_color() {
    let e = Entries::new();
    assert_eq!(e.score(), 0);
    assert_eq!(e.count(), 0);
    assert_eq!(e.color(), None);
    assert_eq!(e.hardest(), None);
    let e = day(vec![(Wall::Arrow, vec![])]);
    assert_eq!(e.score(), 0);
    assert_eq!(e.color(), None);
}

#[test]
fn day_score_count_and_color() {
    let e = day(vec![(Wall::Arrow, vec![3, 7]), (Wall::Pixels, vec![2, 2, 5])]);
    assert_eq!(e.score(), 8 + 128 + 4 + 4 + 32);
    assert_eq!(e.count(), 5);
    assert_eq!(e.hardest(), Some(b(7)));
    assert_eq!(e.color(), Some(Color::Red));
    assert_eq!(e.len(), 2);
    assert_eq!(Entry(vec![b(5), b(6)]).score(), 96);
}

#[test]
fn walls_and_days_must_come_in_order() {
    let mut e = Entries::new();
    e.push(Wall::Pixels, Entry(vec![b(1)])).unwrap();
    assert_eq!(e.push(Wall::Arrow, Entry(vec![b(1)])), Err(LoadError::WallOrder));
    assert_eq!(e.push(Wall::Pixels, Entry(vec![b(1)])), Err(LoadError::WallOrder));
    assert_eq!(e.len(), 1);
    let mut j = Journal::new();
    j.push(Date::from_days(10), Entries::new()).unwrap();
    assert_eq!(j.push(Date::from_days(10), Entries::new()), Err(LoadError::DateOrder));
    assert_eq!(j.push(Date::from_days(9), Entries::new()), Err(LoadError::DateOrder));
    assert_eq!(j.len(), 1);
}

#[test]
fn two_day_scenario() {
    let j = two_day_journal();
    assert!(j.within_limits());
    let scores = j.scores();
    assert_eq!(scores.len(), 2);
    assert_eq!(scores[0].1, 96);
    assert_eq!(scores[1].1, 2);
    let a = group_by(&j, &ByWall);
    assert_eq!(a.rows.len(), 2);
    assert_eq!(a.rows[0].key, Wall::AuCoin.rank() as u64);
    assert_eq!(a.rows[1].key, Wall::PlugPlay.rank() as u64);
    let nonzero = |r: usize| a.rows[r].counts.iter().filter(|c| **c != 0).count();
    assert_eq!(nonzero(0), 2);
    assert_eq!(nonzero(1), 1);
    assert_eq!(a.rows[0].counts[4], 1);
    assert_eq!(a.rows[0].counts[5], 1);
    assert_eq!(a.rows[1].counts[0], 1);
}

#[test]
fn group_by_counts_every_attempt_of_a_key() {
    let mut j = Journal::new();
    j.push(Date::from_days(1), day(vec![(Wall::Arrow, vec![3, 3]), (Wall::Pixels, vec![4]), (Wall::Rhino, vec![])])).unwrap();
    j.push(Date::from_days(2), day(vec![(Wall::Arrow, vec![3]), (Wall::Sunny, vec![14])])).unwrap();
    let k = group_by(&j, &ByKind);
    let keys: Vec<u64> = k.rows.iter().map(|r| r.key).collect();
    assert_eq!(keys, vec![Kind::Dever.index() as u64, Kind::Dierdre.index() as u64, Kind::Haut.index() as u64]);
    assert_eq!(k.rows[0].counts[2], 3);
    assert_eq!(k.rows[0].counts[13], 1);
    assert_eq!(k.rows[0].counts.iter().sum::<u32>(), 4);
    assert_eq!(k.rows[1].counts.iter().sum::<u32>(), 1);
    assert_eq!(k.rows[2].counts.iter().sum::<u32>(), 0);
    let w = group_by(&j, &ByWall);
    assert_eq!(w.rows.len(), 4);
    let all = group_by(&j, &Whole);
    assert_eq!(all.rows.len(), 1);
    assert_eq!(all.rows[0].counts.iter().sum::<u32>(), 5);
    assert_eq!(group_by(&Journal::new(), &ByWall).rows.len(), 0);
}

#[test]
fn fit_on_a_noiseless_line() {
    let t = fit(&vec![(0, 1), (1, 3), (2, 5)]).unwrap();
    assert!(t.den > 0);
    assert_eq!(t.slope_num, 2 * t.den);
    assert_eq!(t.intercept_num, t.den);
}

#[test]
fn fit_exact_fractions() {
    let t = fit(&vec![(0, 0), (1, 1), (2, 3)]).unwrap();
    assert_eq!((t.slope_num, t.intercept_num, t.den), (9, -1, 6));
    let t = fit(&vec![(738886, 96), (738887, 2)]).unwrap();
    assert_eq!(t.slope_num, -94 * t.den);
}

#[test]
fn fit_on_a_single_x_is_degenerate() {
    assert_eq!(fit(&vec![(5, 1), (5, 3)]), Err(FitError::Degenerate));
    assert_eq!(fit(&vec![(5, 1)]), Err(FitError::Degenerate));
    assert_eq!(fit(&vec![]), Err(FitError::Degenerate));
}
