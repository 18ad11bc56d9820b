//! Difficulty grades, their score weights and their display colours.

use vstd::prelude::*;

verus! {

/// The fourteen block grades, from the easiest to the hardest.
#[derive(Clone, Copy, Debug, PartialEq, Eq, Structural, PartialOrd, Ord, Hash)]
pub enum BlockOut {
    B1,
    B2,
    B3,
    B4,
    B5,
    B6,
    B7,
    B8,
    B9,
    B10,
    B11,
    B12,
    B13,
    B14,
}

/// Number of grade levels.
pub const NB_GRADES: usize = 14;

impl BlockOut {
    /// Level of the grade, 1 for the easiest and 14 for the hardest.
    pub open spec fn level_spec(self) -> nat {
        match self {
            BlockOut::B1 => 1,
            BlockOut::B2 => 2,
            BlockOut::B3 => 3,
            BlockOut::B4 => 4,
            BlockOut::B5 => 5,
            BlockOut::B6 => 6,
            BlockOut::B7 => 7,
            BlockOut::B8 => 8,
            BlockOut::B9 => 9,
            BlockOut::B10 => 10,
            BlockOut::B11 => 11,
            BlockOut::B12 => 12,
            BlockOut::B13 => 13,
            BlockOut::B14 => 14,
        }
    }

    pub fn level(&self) -> (r: u32)
        ensures
            r == self.level_spec(),
            1 <= r <= 14,
    {
        match self {
            BlockOut::B1 => 1,
            BlockOut::B2 => 2,
            BlockOut::B3 => 3,
            BlockOut::B4 => 4,
            BlockOut::B5 => 5,
            BlockOut::B6 => 6,
            BlockOut::B7 => 7,
            BlockOut::B8 => 8,
            BlockOut::B9 => 9,
            BlockOut::B10 => 10,
            BlockOut::B11 => 11,
            BlockOut::B12 => 12,
            BlockOut::B13 => 13,
            BlockOut::B14 => 14,
        }
    }

    /// The grade of a given level, if there is one.
    pub fn from_level(level: u32) -> (r: Option<BlockOut>)
        ensures
            r.is_some() <==> 1 <= level <= 14,
            r.is_some() ==> r.unwrap().level_spec() == level,
    {
        match level {
            1 => Some(BlockOut::B1),
            2 => Some(BlockOut::B2),
            3 => Some(BlockOut::B3),
            4 => Some(BlockOut::B4),
            5 => Some(BlockOut::B5),
            6 => Some(BlockOut::B6),
            7 => Some(BlockOut::B7),
            8 => Some(BlockOut::B8),
            9 => Some(BlockOut::B9),
            10 => Some(BlockOut::B10),
            11 => Some(BlockOut::B11),
            12 => Some(BlockOut::B12),
            13 => Some(BlockOut::B13),
            14 => Some(BlockOut::B14),
            _ => None,
        }
    }

    /// Score weight of the grade: two to the power of its level.
    pub fn score(&self) -> (r: u32)
        ensures
            r == pow2(self.level_spec()),
    {
        let level = self.level();
        let mut r: u32 = 1;
        let mut i: u32 = 0;
        while i < level
            invariant
                i <= level <= 14,
                level == self.level_spec(),
                r == pow2(i as nat),
            decreases level - i,
        {
            proof {
                lemma_pow2_le(i as nat, 13);
            }
            r = r * 2;
            i = i + 1;
        }
        r
    }
}

/// Two to the power `n`.
pub open spec fn pow2(n: nat) -> nat
    decreases n,
{
    if n == 0 {
        1
    } else {
        2 * pow2((n - 1) as nat)
    }
}

/// `pow2` grows with its exponent, and `2^13` is `8192`.
pub proof fn lemma_pow2_le(a: nat, b: nat)
    requires
        a <= b,
    ensures
        pow2(a) <= pow2(b),
        pow2(a) >= 1,
        b == 13 ==> pow2(b) == 8192,
    decreases b,
{
    reveal_with_fuel(pow2, 14);
    if a < b {
        lemma_pow2_le(a, (b - 1) as nat);
    } else if b > 0 {
        lemma_pow2_le((b - 1) as nat, (b - 1) as nat);
    }
}

/// `pow2` is strictly increasing.
pub proof fn lemma_pow2_lt(a: nat, b: nat)
    requires
        a < b,
    ensures
        pow2(a) < pow2(b),
    decreases b,
{
    lemma_pow2_le(a, (b - 1) as nat);
}

/// A difficulty grade of an attempt.
#[derive(Clone, Copy, Debug, PartialEq, Eq, Structural, PartialOrd, Ord, Hash)]
pub enum Cotation {
    BlockOut(BlockOut),
}

/// The colours of the palette that grades are drawn with.
#[derive(Clone, Copy, Debug, PartialEq, Eq, Structural, Hash)]
pub enum Color {
    Yellow,
    Yellow700,
    Orange,
    Orange700,
    Blue,
    Blue700,
    Red,
    Red700,
    Grey200,
    Grey500,
    Grey700,
    Black,
    Green,
    Green700,
}

impl Cotation {
    /// Level of the grade, from 1 to 14; grades are ordered by it.
    pub open spec fn level_spec(self) -> nat {
        match self {
            Cotation::BlockOut(bo) => bo.level_spec(),
        }
    }

    /// Score weight of the grade.
    pub open spec fn score_spec(self) -> nat {
        pow2(self.level_spec())
    }

    /// Colour of the grade.
    pub open spec fn color_spec(self) -> Color {
        let Cotation::BlockOut(bo) = self;
        match bo {
            BlockOut::B1 => Color::Yellow,
            BlockOut::B2 => Color::Yellow700,
            BlockOut::B3 => Color::Orange,
            BlockOut::B4 => Color::Orange700,
            BlockOut::B5 => Color::Blue,
            BlockOut::B6 => Color::Blue700,
            BlockOut::B7 => Color::Red,
            BlockOut::B8 => Color::Red700,
            BlockOut::B9 => Color::Grey200,
            BlockOut::B10 => Color::Grey500,
            BlockOut::B11 => Color::Grey700,
            BlockOut::B12 => Color::Black,
            BlockOut::B13 => Color::Green,
            BlockOut::B14 => Color::Green700,
        }
    }

    /// Position of the grade among all grades, from 0.
    pub open spec fn index_spec(self) -> nat {
        (self.level_spec() - 1) as nat
    }

    pub fn level(&self) -> (r: u32)
        ensures
            r == self.level_spec(),
            1 <= r <= 14,
    {
        match self {
            Cotation::BlockOut(bo) => bo.level(),
        }
    }

    /// Position of the grade among all grades, from 0 to 13.
    pub fn index(&self) -> (r: usize)
        ensures
            r == self.index_spec(),
            r < NB_GRADES,
    {
        (self.level() - 1) as usize
    }

    /// The grade at a given position among all grades.
    pub fn from_index(i: usize) -> (r: Option<Cotation>)
        ensures
            r.is_some() <==> i < NB_GRADES,
            r.is_some() ==> r.unwrap().index_spec() == i,
    {
        if i < NB_GRADES {
            match BlockOut::from_level((i + 1) as u32) {
                Some(bo) => Some(Cotation::BlockOut(bo)),
                None => None,
            }
        } else {
            None
        }
    }

    /// Score weight of the grade: two to the power of its level.
    pub fn score(&self) -> (r: u32)
        ensures
            r == self.score_spec(),
            2 <= r <= 16384,
    {
        proof {
            lemma_pow2_le(1, self.level_spec());
            lemma_pow2_le(self.level_spec(), 14);
            reveal_with_fuel(pow2, 15);
            assert(pow2(1) == 2 && pow2(14) == 16384);
        }
        match self {
            Cotation::BlockOut(bo) => bo.score(),
        }
    }

    /// Number of grade levels.
    pub fn nb(&self) -> (r: usize)
        ensures
            r == NB_GRADES,
    {
        NB_GRADES
    }

    /// Colour that the grade is drawn with.
    pub fn color(&self) -> (r: Color)
        ensures
            r == self.color_spec(),
    {
        match self.level() {
            1 => Color::Yellow,
            2 => Color::Yellow700,
            3 => Color::Orange,
            4 => Color::Orange700,
            5 => Color::Blue,
            6 => Color::Blue700,
            7 => Color::Red,
            8 => Color::Red700,
            9 => Color::Grey200,
            10 => Color::Grey500,
            11 => Color::Grey700,
            12 => Color::Black,
            13 => Color::Green,
            _ => Color::Green700,
        }
    }
}

/// A harder grade always weighs more: scores grow strictly with grades.
pub proof fn lemma_score_monotonic(g1: Cotation, g2: Cotation)
    requires
        g1.level_spec() < g2.level_spec(),
    ensures
        g1.score_spec() < g2.score_spec(),
{
    lemma_pow2_lt(g1.level_spec(), g2.level_spec());
}

/// Distinct grades are drawn with distinct colours.
pub proof fn lemma_color_injective(g1: Cotation, g2: Cotation)
    requires
        g1 != g2,
    ensures
        g1.color_spec() != g2.color_spec(),
{
    match (g1, g2) {
        (Cotation::BlockOut(a), Cotation::BlockOut(b)) => {
            assert(a != b);
        },
    }
}

/// Grades are ordered by level, and a grade is fixed by its level.
pub proof fn lemma_level_injective(g1: Cotation, g2: Cotation)
    requires
        g1.level_spec() == g2.level_spec(),
    ensures
        g1 == g2,
{
}

} // verus!
