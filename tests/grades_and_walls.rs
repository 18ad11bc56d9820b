use climbing_stats::grade::{BlockOut, Color, Cotation, NB_GRADES};
use climbing_stats::wall::{Kind, Wall, NB_KINDS, NB_WALLS};

fn all_grades() -> Vec<Cotation> {
    (0..NB_GRADES).map(|i| Cotation::from_index(i).unwrap()).collect()
}

fn all_walls() -> Vec<Wall> {
    (0..NB_WALLS).map(|i| Wall::from_index(i).unwrap()).collect()
}

#[test]
fn score_is_two_to_the_level() {
    assert_eq!(Cotation::BlockOut(BlockOut::B1).score(), 2);
    assert_eq!(Cotation::BlockOut(BlockOut::B5).score(), 32);
    assert_eq!(Cotation::BlockOut(BlockOut::B6).score(), 64);
    assert_eq!(Cotation::BlockOut(BlockOut::B14).score(), 16384);
    assert_eq!(BlockOut::B10.score(), 1024);
}

#[test]
fn score_grows_with_grade() {
    let grades = all_grades();
    for i in 0..grades.len() {
        for j in i + 1..grades.len() {
            assert!(grades[i] < grades[j]);
            assert!(grades[i].score() < grades[j].score());
        }
    }
}

#[test]
fn grade_numbering() {
    assert_eq!(Cotation::BlockOut(BlockOut::B1).nb(), 14);
    assert_eq!(Cotation::BlockOut(BlockOut::B9).index(), 8);
    assert_eq!(Cotation::from_index(14), None);
    assert_eq!(BlockOut::from_level(0), None);
    assert_eq!(BlockOut::from_level(12), Some(BlockOut::B12));
}

#[test]
fn grade_colors_are_distinct() {
    let grades = all_grades();
    assert_eq!(grades[0].color(), Color::Yellow);
    assert_eq!(grades[6].color(), Color::Red);
    assert_eq!(grades[13].color(), Color::Green700);
    for i in 0..grades.len() {
        for j in i + 1..grades.len() {
            assert_ne!(grades[i].color(), grades[j].color());
        }
    }
}

#[test]
fn every_wall_has_one_kind_and_every_kind_a_wall() {
    assert_eq!(Wall::nb(), 30);
    let walls = all_walls();
    for k in 0..NB_KINDS {
        let kind = Kind::from_index(k).unwrap();
        assert!(walls.iter().any(|w| w.kind() == kind));
    }
    assert_eq!(Wall::AuCoin.kind(), Kind::Dierdre);
    assert_eq!(Wall::PlugPlay.kind(), Kind::Haut);
    assert_eq!(Wall::DaDaDa.kind(), Kind::Dalle);
    assert_eq!(Wall::Togepi.kind(), Kind::Enfant);
    assert_eq!(Wall::Sparrow.kind(), Kind::Reta);
    assert_eq!(Wall::LaMother.kind(), Kind::Dever);
}

#[test]
fn wall_index_round_trip() {
    for i in 0..NB_WALLS {
        assert_eq!(Wall::from_index(i).unwrap().index(), i);
        assert_eq!(Wall::from_rank(i).unwrap().rank(), i);
    }
    assert_eq!(Wall::from_index(30), None);
    assert_eq!(Wall::from_rank(30), None);
    assert_eq!(Wall::from_index(0), Some(Wall::AuCoin));
    assert_eq!(Wall::from_index(29), Some(Wall::Ocean));
}

#[test]
fn walls_are_ordered_by_name() {
    for i in 0..NB_WALLS - 1 {
        let a = Wall::from_rank(i).unwrap();
        let b = Wall::from_rank(i + 1).unwrap();
        assert!(a.name() < b.name());
        assert!(a < b);
    }
    assert_eq!(Wall::PlugPlay.name(), "Plug & Play");
    assert_eq!(Wall::ArrachToiDLa.name(), "Arrach'toi d'là");
    assert_eq!(Kind::Dierdre.name(), "Dierdre");
}
