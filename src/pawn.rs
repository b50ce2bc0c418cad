use vstd::prelude::*;

verus! {

/// Who a pawn belongs to; ordered neutral, enemy, player.
#[derive(Clone, Copy, Debug, PartialEq, Eq, Structural, PartialOrd, Ord)]
pub enum Alignment {
    Neutral,
    Enemy,
    Player,
}

impl Alignment {
    /// One-letter code of the alignment.
    pub fn identifier(&self) -> (r: &'static str)
        ensures
            r@ == match self {
                Alignment::Neutral => "N"@,
                Alignment::Player => "P"@,
                Alignment::Enemy => "E"@,
            },
    {
        proof {
            reveal_strlit("N");
            reveal_strlit("P");
            reveal_strlit("E");
        }
        match self {
            Alignment::Neutral => "N",
            Alignment::Player => "P",
            Alignment::Enemy => "E",
        }
    }

    /// Whether the player gives this pawn orders.
    pub fn obeys_player(&self) -> (r: bool)
        ensures
            r == (*self == Alignment::Player),
    {
        match self {
            Alignment::Player => true,
            _ => false,
        }
    }
}

} // verus!
