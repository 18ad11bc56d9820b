//! Climbing walls and their categories.

use vstd::prelude::*;

verus! {

/// Number of walls.
pub const NB_WALLS: usize = 30;

/// Number of wall categories.
pub const NB_KINDS: usize = 6;

/// A climbing wall of the gym.
///
/// The variants are declared in the order of their display names, so that the
/// derived order sorts walls by name.
#[derive(Clone, Copy, Debug, PartialEq, Eq, Structural, PartialOrd, Ord, Hash)]
pub enum Wall {
    ArrachToiDLa,
    Arrow,
    AuCoin,
    Bigout,
    Bluetooth,
    DaDaDa,
    GaffeATesGenoux,
    Hexaordinaire,
    KleinKlein,
    LaMother,
    LaTornade,
    LeCulDuChien,
    LeDiamant,
    Ocean,
    Origami,
    Pecker,
    Pixels,
    PlugPlay,
    Poutre,
    Pythagore,
    R2D2,
    Rhino,
    Sparrow,
    Sunny,
    Sushi,
    Togepi,
    TouxPi,
    WarSpace,
    WhiteSide,
    WoodyWood,
}

/// The structural category of a wall.
#[derive(Clone, Copy, Debug, PartialEq, Eq, Structural, PartialOrd, Ord, Hash)]
pub enum Kind {
    Dalle,
    Dever,
    Dierdre,
    Enfant,
    Haut,
    Reta,
}

impl Wall {
    /// Position of the wall in the gym's own numbering, from 0.
    pub open spec fn index_spec(self) -> nat {
        match self {
            Wall::ArrachToiDLa => 24,
            Wall::Arrow => 1,
            Wall::AuCoin => 0,
            Wall::Bigout => 27,
            Wall::Bluetooth => 17,
            Wall::DaDaDa => 13,
            Wall::GaffeATesGenoux => 25,
            Wall::Hexaordinaire => 4,
            Wall::KleinKlein => 11,
            Wall::LaMother => 21,
            Wall::LaTornade => 5,
            Wall::LeCulDuChien => 26,
            Wall::LeDiamant => 2,
            Wall::Ocean => 29,
            Wall::Origami => 3,
            Wall::Pecker => 19,
            Wall::Pixels => 6,
            Wall::PlugPlay => 9,
            Wall::Poutre => 20,
            Wall::Pythagore => 23,
            Wall::R2D2 => 8,
            Wall::Rhino => 7,
            Wall::Sparrow => 14,
            Wall::Sunny => 28,
            Wall::Sushi => 10,
            Wall::Togepi => 22,
            Wall::TouxPi => 15,
            Wall::WarSpace => 12,
            Wall::WhiteSide => 16,
            Wall::WoodyWood => 18,
        }
    }

    /// Position of the wall in the order of display names, from 0.
    pub open spec fn rank_spec(self) -> nat {
        match self {
            Wall::ArrachToiDLa => 0,
            Wall::Arrow => 1,
            Wall::AuCoin => 2,
            Wall::Bigout => 3,
            Wall::Bluetooth => 4,
            Wall::DaDaDa => 5,
            Wall::GaffeATesGenoux => 6,
            Wall::Hexaordinaire => 7,
            Wall::KleinKlein => 8,
            Wall::LaMother => 9,
            Wall::LaTornade => 10,
            Wall::LeCulDuChien => 11,
            Wall::LeDiamant => 12,
            Wall::Ocean => 13,
            Wall::Origami => 14,
            Wall::Pecker => 15,
            Wall::Pixels => 16,
            Wall::PlugPlay => 17,
            Wall::Poutre => 18,
            Wall::Pythagore => 19,
            Wall::R2D2 => 20,
            Wall::Rhino => 21,
            Wall::Sparrow => 22,
            Wall::Sunny => 23,
            Wall::Sushi => 24,
            Wall::Togepi => 25,
            Wall::TouxPi => 26,
            Wall::WarSpace => 27,
            Wall::WhiteSide => 28,
            Wall::WoodyWood => 29,
        }
    }

    /// Category of the wall.
    pub open spec fn kind_spec(self) -> Kind {
        match self {
            Wall::ArrachToiDLa => Kind::Enfant,
            Wall::Arrow => Kind::Dever,
            Wall::AuCoin => Kind::Dierdre,
            Wall::Bigout => Kind::Dever,
            Wall::Bluetooth => Kind::Reta,
            Wall::DaDaDa => Kind::Dalle,
            Wall::GaffeATesGenoux => Kind::Dierdre,
            Wall::Hexaordinaire => Kind::Dever,
            Wall::KleinKlein => Kind::Haut,
            Wall::LaMother => Kind::Dever,
            Wall::LaTornade => Kind::Dever,
            Wall::LeCulDuChien => Kind::Dever,
            Wall::LeDiamant => Kind::Dever,
            Wall::Ocean => Kind::Dierdre,
            Wall::Origami => Kind::Dever,
            Wall::Pecker => Kind::Dalle,
            Wall::Pixels => Kind::Dierdre,
            Wall::PlugPlay => Kind::Haut,
            Wall::Poutre => Kind::Dalle,
            Wall::Pythagore => Kind::Enfant,
            Wall::R2D2 => Kind::Haut,
            Wall::Rhino => Kind::Haut,
            Wall::Sparrow => Kind::Reta,
            Wall::Sunny => Kind::Dever,
            Wall::Sushi => Kind::Haut,
            Wall::Togepi => Kind::Enfant,
            Wall::TouxPi => Kind::Dever,
            Wall::WarSpace => Kind::Haut,
            Wall::WhiteSide => Kind::Reta,
            Wall::WoodyWood => Kind::Dalle,
        }
    }

    /// Display name of the wall, as written in a journal.
    pub open spec fn name_spec(self) -> Seq<char> {
        match self {
            Wall::ArrachToiDLa => "Arrach'toi d'là"@,
            Wall::Arrow => "Arrow"@,
            Wall::AuCoin => "Au coin"@,
            Wall::Bigout => "Bigoût"@,
            Wall::Bluetooth => "Bluetooth"@,
            Wall::DaDaDa => "Da Da Da"@,
            Wall::GaffeATesGenoux => "Gaffe à tes genoux"@,
            Wall::Hexaordinaire => "Hexaordinaire"@,
            Wall::KleinKlein => "Klein Klein"@,
            Wall::LaMother => "La Mother"@,
            Wall::LaTornade => "La tornade"@,
            Wall::LeCulDuChien => "Le Cul du Chien"@,
            Wall::LeDiamant => "Le diamant"@,
            Wall::Ocean => "Océan"@,
            Wall::Origami => "Origami"@,
            Wall::Pecker => "Pecker"@,
            Wall::Pixels => "Pixels"@,
            Wall::PlugPlay => "Plug & Play"@,
            Wall::Poutre => "Poutre"@,
            Wall::Pythagore => "Pythagore"@,
            Wall::R2D2 => "R2D2"@,
            Wall::Rhino => "Rhino"@,
            Wall::Sparrow => "Sparrow"@,
            Wall::Sunny => "Sunny"@,
            Wall::Sushi => "Sushi"@,
            Wall::Togepi => "Togepi"@,
            Wall::TouxPi => "Toux PI"@,
            Wall::WarSpace => "War Space"@,
            Wall::WhiteSide => "White side"@,
            Wall::WoodyWood => "Woody Wood"@,
        }
    }

    /// Position of the wall in the gym's own numbering.
    pub fn index(&self) -> (r: usize)
        ensures
            r == self.index_spec(),
            r < NB_WALLS,
    {
        match self {
            Wall::ArrachToiDLa => 24,
            Wall::Arrow => 1,
            Wall::AuCoin => 0,
            Wall::Bigout => 27,
            Wall::Bluetooth => 17,
            Wall::DaDaDa => 13,
            Wall::GaffeATesGenoux => 25,
            Wall::Hexaordinaire => 4,
            Wall::KleinKlein => 11,
            Wall::LaMother => 21,
            Wall::LaTornade => 5,
            Wall::LeCulDuChien => 26,
            Wall::LeDiamant => 2,
            Wall::Ocean => 29,
            Wall::Origami => 3,
            Wall::Pecker => 19,
            Wall::Pixels => 6,
            Wall::PlugPlay => 9,
            Wall::Poutre => 20,
            Wall::Pythagore => 23,
            Wall::R2D2 => 8,
            Wall::Rhino => 7,
            Wall::Sparrow => 14,
            Wall::Sunny => 28,
            Wall::Sushi => 10,
            Wall::Togepi => 22,
            Wall::TouxPi => 15,
            Wall::WarSpace => 12,
            Wall::WhiteSide => 16,
            Wall::WoodyWood => 18,
        }
    }

    /// Position of the wall in the order of display names.
    pub fn rank(&self) -> (r: usize)
        ensures
            r == self.rank_spec(),
            r < NB_WALLS,
    {
        match self {
            Wall::ArrachToiDLa => 0,
            Wall::Arrow => 1,
            Wall::AuCoin => 2,
            Wall::Bigout => 3,
            Wall::Bluetooth => 4,
            Wall::DaDaDa => 5,
            Wall::GaffeATesGenoux => 6,
            Wall::Hexaordinaire => 7,
            Wall::KleinKlein => 8,
            Wall::LaMother => 9,
            Wall::LaTornade => 10,
            Wall::LeCulDuChien => 11,
            Wall::LeDiamant => 12,
            Wall::Ocean => 13,
            Wall::Origami => 14,
            Wall::Pecker => 15,
            Wall::Pixels => 16,
            Wall::PlugPlay => 17,
            Wall::Poutre => 18,
            Wall::Pythagore => 19,
            Wall::R2D2 => 20,
            Wall::Rhino => 21,
            Wall::Sparrow => 22,
            Wall::Sunny => 23,
            Wall::Sushi => 24,
            Wall::Togepi => 25,
            Wall::TouxPi => 26,
            Wall::WarSpace => 27,
            Wall::WhiteSide => 28,
            Wall::WoodyWood => 29,
        }
    }

    /// Category of the wall.
    pub fn kind(&self) -> (r: Kind)
        ensures
            r == self.kind_spec(),
    {
        match self {
            Wall::ArrachToiDLa => Kind::Enfant,
            Wall::Arrow => Kind::Dever,
            Wall::AuCoin => Kind::Dierdre,
            Wall::Bigout => Kind::Dever,
            Wall::Bluetooth => Kind::Reta,
            Wall::DaDaDa => Kind::Dalle,
            Wall::GaffeATesGenoux => Kind::Dierdre,
            Wall::Hexaordinaire => Kind::Dever,
            Wall::KleinKlein => Kind::Haut,
            Wall::LaMother => Kind::Dever,
            Wall::LaTornade => Kind::Dever,
            Wall::LeCulDuChien => Kind::Dever,
            Wall::LeDiamant => Kind::Dever,
            Wall::Ocean => Kind::Dierdre,
            Wall::Origami => Kind::Dever,
            Wall::Pecker => Kind::Dalle,
            Wall::Pixels => Kind::Dierdre,
            Wall::PlugPlay => Kind::Haut,
            Wall::Poutre => Kind::Dalle,
            Wall::Pythagore => Kind::Enfant,
            Wall::R2D2 => Kind::Haut,
            Wall::Rhino => Kind::Haut,
            Wall::Sparrow => Kind::Reta,
            Wall::Sunny => Kind::Dever,
            Wall::Sushi => Kind::Haut,
            Wall::Togepi => Kind::Enfant,
            Wall::TouxPi => Kind::Dever,
            Wall::WarSpace => Kind::Haut,
            Wall::WhiteSide => Kind::Reta,
            Wall::WoodyWood => Kind::Dalle,
        }
    }

    /// Display name of the wall.
    pub fn name(&self) -> (r: &'static str)
        ensures
            r@ == self.name_spec(),
    {
        match self {
            Wall::ArrachToiDLa => "Arrach'toi d'là",
            Wall::Arrow => "Arrow",
            Wall::AuCoin => "Au coin",
            Wall::Bigout => "Bigoût",
            Wall::Bluetooth => "Bluetooth",
            Wall::DaDaDa => "Da Da Da",
            Wall::GaffeATesGenoux => "Gaffe à tes genoux",
            Wall::Hexaordinaire => "Hexaordinaire",
            Wall::KleinKlein => "Klein Klein",
            Wall::LaMother => "La Mother",
            Wall::LaTornade => "La tornade",
            Wall::LeCulDuChien => "Le Cul du Chien",
            Wall::LeDiamant => "Le diamant",
            Wall::Ocean => "Océan",
            Wall::Origami => "Origami",
            Wall::Pecker => "Pecker",
            Wall::Pixels => "Pixels",
            Wall::PlugPlay => "Plug & Play",
            Wall::Poutre => "Poutre",
            Wall::Pythagore => "Pythagore",
            Wall::R2D2 => "R2D2",
            Wall::Rhino => "Rhino",
            Wall::Sparrow => "Sparrow",
            Wall::Sunny => "Sunny",
            Wall::Sushi => "Sushi",
            Wall::Togepi => "Togepi",
            Wall::TouxPi => "Toux PI",
            Wall::WarSpace => "War Space",
            Wall::WhiteSide => "White side",
            Wall::WoodyWood => "Woody Wood",
        }
    }

    /// Number of walls.
    pub fn nb() -> (r: usize)
        ensures
            r == NB_WALLS,
    {
        NB_WALLS
    }

    /// The wall at a position of the gym's own numbering; none past the last wall.
    pub fn from_index(i: usize) -> (r: Option<Wall>)
        ensures
            r.is_some() <==> i < NB_WALLS,
            r.is_some() ==> r.unwrap().index_spec() == i,
    {
        match i {
            0 => Some(Wall::AuCoin),
            1 => Some(Wall::Arrow),
            2 => Some(Wall::LeDiamant),
            3 => Some(Wall::Origami),
            4 => Some(Wall::Hexaordinaire),
            5 => Some(Wall::LaTornade),
            6 => Some(Wall::Pixels),
            7 => Some(Wall::Rhino),
            8 => Some(Wall::R2D2),
            9 => Some(Wall::PlugPlay),
            10 => Some(Wall::Sushi),
            11 => Some(Wall::KleinKlein),
            12 => Some(Wall::WarSpace),
            13 => Some(Wall::DaDaDa),
            14 => Some(Wall::Sparrow),
            15 => Some(Wall::TouxPi),
            16 => Some(Wall::WhiteSide),
            17 => Some(Wall::Bluetooth),
            18 => Some(Wall::WoodyWood),
            19 => Some(Wall::Pecker),
            20 => Some(Wall::Poutre),
            21 => Some(Wall::LaMother),
            22 => Some(Wall::Togepi),
            23 => Some(Wall::Pythagore),
            24 => Some(Wall::ArrachToiDLa),
            25 => Some(Wall::GaffeATesGenoux),
            26 => Some(Wall::LeCulDuChien),
            27 => Some(Wall::Bigout),
            28 => Some(Wall::Sunny),
            29 => Some(Wall::Ocean),
            _ => None,
        }
    }

    /// The wall at a position of the order of display names; none past the last wall.
    pub fn from_rank(i: usize) -> (r: Option<Wall>)
        ensures
            r.is_some() <==> i < NB_WALLS,
            r.is_some() ==> r.unwrap().rank_spec() == i,
    {
        match i {
            0 => Some(Wall::ArrachToiDLa),
            1 => Some(Wall::Arrow),
            2 => Some(Wall::AuCoin),
            3 => Some(Wall::Bigout),
            4 => Some(Wall::Bluetooth),
            5 => Some(Wall::DaDaDa),
            6 => Some(Wall::GaffeATesGenoux),
            7 => Some(Wall::Hexaordinaire),
            8 => Some(Wall::KleinKlein),
            9 => Some(Wall::LaMother),
            10 => Some(Wall::LaTornade),
            11 => Some(Wall::LeCulDuChien),
            12 => Some(Wall::LeDiamant),
            13 => Some(Wall::Ocean),
            14 => Some(Wall::Origami),
            15 => Some(Wall::Pecker),
            16 => Some(Wall::Pixels),
            17 => Some(Wall::PlugPlay),
            18 => Some(Wall::Poutre),
            19 => Some(Wall::Pythagore),
            20 => Some(Wall::R2D2),
            21 => Some(Wall::Rhino),
            22 => Some(Wall::Sparrow),
            23 => Some(Wall::Sunny),
            24 => Some(Wall::Sushi),
            25 => Some(Wall::Togepi),
            26 => Some(Wall::TouxPi),
            27 => Some(Wall::WarSpace),
            28 => Some(Wall::WhiteSide),
            29 => Some(Wall::WoodyWood),
            _ => None,
        }
    }
}

impl Kind {
    /// Position of the category in the order of names, from 0.
    pub open spec fn index_spec(self) -> nat {
        match self {
            Kind::Dalle => 0,
            Kind::Dever => 1,
            Kind::Dierdre => 2,
            Kind::Enfant => 3,
            Kind::Haut => 4,
            Kind::Reta => 5,
        }
    }

    /// Display name of the category.
    pub open spec fn name_spec(self) -> Seq<char> {
        match self {
            Kind::Dalle => "Dalle"@,
            Kind::Dever => "Dever"@,
            Kind::Dierdre => "Dierdre"@,
            Kind::Enfant => "Enfant"@,
            Kind::Haut => "Haut"@,
            Kind::Reta => "Reta"@,
        }
    }

    /// Position of the category in the order of names.
    pub fn index(&self) -> (r: usize)
        ensures
            r == self.index_spec(),
            r < NB_KINDS,
    {
        match self {
            Kind::Dalle => 0,
            Kind::Dever => 1,
            Kind::Dierdre => 2,
            Kind::Enfant => 3,
            Kind::Haut => 4,
            Kind::Reta => 5,
        }
    }

    /// The category at a position of the order of names.
    pub fn from_index(i: usize) -> (r: Option<Kind>)
        ensures
            r.is_some() <==> i < NB_KINDS,
            r.is_some() ==> r.unwrap().index_spec() == i,
    {
        match i {
            0 => Some(Kind::Dalle),
            1 => Some(Kind::Dever),
            2 => Some(Kind::Dierdre),
            3 => Some(Kind::Enfant),
            4 => Some(Kind::Haut),
            5 => Some(Kind::Reta),
            _ => None,
        }
    }

    /// Display name of the category.
    pub fn name(&self) -> (r: &'static str)
        ensures
            r@ == self.name_spec(),
    {
        match self {
            Kind::Dalle => "Dalle",
            Kind::Dever => "Dever",
            Kind::Dierdre => "Dierdre",
            Kind::Enfant => "Enfant",
            Kind::Haut => "Haut",
            Kind::Reta => "Reta",
        }
    }
}

/// Walls and their positions match one for one, in both numberings.
pub proof fn lemma_wall_numbering(w1: Wall, w2: Wall)
    ensures
        w1.index_spec() < NB_WALLS,
        w1.rank_spec() < NB_WALLS,
        w1.index_spec() == w2.index_spec() ==> w1 == w2,
        w1.rank_spec() == w2.rank_spec() ==> w1 == w2,
{
}

/// Every category holds at least one wall (that every wall has exactly one
/// category is the totality of `Wall::kind_spec`, a function on all walls).
pub proof fn lemma_kind_onto(k: Kind)
    ensures
        exists|v: Wall| #[trigger] v.kind_spec() == k,
{
    match k {
        Kind::Dalle => assert(Wall::DaDaDa.kind_spec() == k),
        Kind::Dever => assert(Wall::TouxPi.kind_spec() == k),
        Kind::Dierdre => assert(Wall::AuCoin.kind_spec() == k),
        Kind::Enfant => assert(Wall::Togepi.kind_spec() == k),
        Kind::Haut => assert(Wall::Rhino.kind_spec() == k),
        Kind::Reta => assert(Wall::Sparrow.kind_spec() == k),
    }
}

} // verus!
