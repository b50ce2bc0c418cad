use vstd::prelude::*;
use rand::Rng;

verus! {

/// A die, by its number of sides, with the value it shows.
#[derive(Clone, Copy, Debug, PartialEq, Eq, Structural)]
pub enum Die {
    D4(u32),
    D6(u32),
    D8(u32),
    D10(u32),
    D12(u32),
    D20(u32),
    D100(u32),
}

/// The numbers of sides a die may have.
pub open spec fn valid_sides(side: u32) -> bool {
    side == 4 || side == 6 || side == 8 || side == 10 || side == 12 || side == 20 || side == 100
}

impl Die {
    pub open spec fn spec_sides(&self) -> u32 {
        match self {
            Die::D4(_) => 4,
            Die::D6(_) => 6,
            Die::D8(_) => 8,
            Die::D10(_) => 10,
            Die::D12(_) => 12,
            Die::D20(_) => 20,
            Die::D100(_) => 100,
        }
    }

    pub open spec fn spec_value(&self) -> u32 {
        match self {
            Die::D4(v) => *v,
            Die::D6(v) => *v,
            Die::D8(v) => *v,
            Die::D10(v) => *v,
            Die::D12(v) => *v,
            Die::D20(v) => *v,
            Die::D100(v) => *v,
        }
    }

    /// The die with `side` sides showing `value`.
    pub fn from_sides(side: u32, value: u32) -> (r: Self)
        requires
            valid_sides(side),
        ensures
            r.spec_sides() == side,
            r.spec_value() == value,
    {
        match side {
            4 => Die::D4(value),
            6 => Die::D6(value),
            8 => Die::D8(value),
            10 => Die::D10(value),
            12 => Die::D12(value),
            20 => Die::D20(value),
            _ => Die::D100(value),
        }
    }

    pub fn sides(&self) -> (r: u32)
        ensures
            r == self.spec_sides(),
            valid_sides(r),
    {
        match self {
            Die::D4(_) => 4,
            Die::D6(_) => 6,
            Die::D8(_) => 8,
            Die::D10(_) => 10,
            Die::D12(_) => 12,
            Die::D20(_) => 20,
            Die::D100(_) => 100,
        }
    }

    pub fn value(&self) -> (r: u32)
        ensures
            r == self.spec_value(),
    {
        match *self {
            Die::D4(v) => v,
            Die::D6(v) => v,
            Die::D8(v) => v,
            Die::D10(v) => v,
            Die::D12(v) => v,
            Die::D20(v) => v,
            Die::D100(v) => v,
        }
    }

    /// The usual name of the die, such as `d20`.
    pub fn label(&self) -> (r: &'static str)
        ensures
            r@ == match self {
                Die::D4(_) => "d4"@,
                Die::D6(_) => "d6"@,
                Die::D8(_) => "d8"@,
                Die::D10(_) => "d10"@,
                Die::D12(_) => "d12"@,
                Die::D20(_) => "d20"@,
                Die::D100(_) => "d100"@,
            },
    {
        proof {
            reveal_strlit("d4");
            reveal_strlit("d6");
            reveal_strlit("d8");
            reveal_strlit("d10");
            reveal_strlit("d12");
            reveal_strlit("d20");
            reveal_strlit("d100");
        }
        match self {
            Die::D4(_) => "d4",
            Die::D6(_) => "d6",
            Die::D8(_) => "d8",
            Die::D10(_) => "d10",
            Die::D12(_) => "d12",
            Die::D20(_) => "d20",
            Die::D100(_) => "d100",
        }
    }
}

#[derive(Clone, Copy, Debug, PartialEq, Eq, Structural)]
pub enum Advantage {
    Dissadvantage,
    Normal,
    Advantage,
}

/// The dice of a roll, and their total with the bonus.
#[derive(Debug)]
pub struct DiceRollResult(pub Vec<Die>, pub i32);

/// Sum of the values shown by `dice`.
pub open spec fn sum_values(dice: Seq<Die>) -> int
    decreases dice.len(),
{
    if dice.len() == 0 {
        0
    } else {
        sum_values(dice.drop_last()) + dice.last().spec_value()
    }
}

/// `r` is a roll of `count` dice of `sides` sides, each showing a value below
/// `sides`, with `bonus` added to their total.
pub open spec fn is_roll(r: DiceRollResult, count: u32, sides: u32, bonus: i32) -> bool {
    &&& r.0@.len() == count
    &&& forall|i: int|
        0 <= i < count ==> (#[trigger] r.0@[i]).spec_sides() == sides && r.0@[i].spec_value()
            < sides
    &&& r.1 == sum_values(r.0@) + bonus
}

impl DiceRollResult {
    /// The dice rolled.
    pub fn rolls(&self) -> (r: &Vec<Die>)
        ensures
            r == &self.0,
    {
        &self.0
    }

    /// The total of the dice and the bonus.
    pub fn total(&self) -> (r: i32)
        ensures
            r == self.1,
    {
        self.1
    }
}

/// Relies on `rand::thread_rng` and `Rng::gen_range`: a number drawn from
/// `0..n`.
#[verifier::external_body]
fn random_below(n: u32) -> (r: u32)
    requires
        n > 0,
    ensures
        r < n,
{
    rand::thread_rng().gen_range(0..n)
}

proof fn lemma_sum_values_bound(dice: Seq<Die>, sides: u32)
    requires
        forall|i: int| 0 <= i < dice.len() ==> (#[trigger] dice[i]).spec_value() < sides,
    ensures
        0 <= sum_values(dice) <= dice.len() * (sides - 1),
    decreases dice.len(),
{
    if dice.len() > 0 {
        lemma_sum_values_bound(dice.drop_last(), sides);
        assert(dice.drop_last().len() * (sides - 1) + (sides - 1) == dice.len() * (sides - 1))
            by (nonlinear_arith)
            requires
                dice.drop_last().len() + 1 == dice.len(),
        ;
    }
}

/// The roll made of the drawn values `draws` on dice like `die`: one die per
/// draw, showing it, and their total plus `bonus`.
pub fn dice_from_draws(draws: &Vec<u32>, die: Die, bonus: i32) -> (r: DiceRollResult)
    requires
        forall|i: int| 0 <= i < draws@.len() ==> #[trigger] draws@[i] < die.spec_sides(),
        draws@.len() * (die.spec_sides() - 1) + bonus <= i32::MAX,
    ensures
        r.0@.len() == draws@.len(),
        forall|i: int|
            0 <= i < draws@.len() ==> (#[trigger] r.0@[i]).spec_sides() == die.spec_sides()
                && r.0@[i].spec_value() == draws@[i],
        r.1 == sum_values(r.0@) + bonus,
{
    let sides: u32 = die.sides();
    let mut rolls: Vec<Die> = Vec::new();
    let mut total: i64 = 0;
    let mut k: usize = 0;
    while k < draws.len()
        invariant
            sides == die.spec_sides(),
            valid_sides(sides),
            k <= draws@.len(),
            forall|i: int| 0 <= i < draws@.len() ==> #[trigger] draws@[i] < sides,
            draws@.len() * (sides - 1) + bonus <= i32::MAX,
            rolls@.len() == k,
            forall|i: int|
                0 <= i < k ==> (#[trigger] rolls@[i]).spec_sides() == sides && rolls@[i].spec_value()
                    == draws@[i],
            total == sum_values(rolls@),
        decreases draws@.len() - k,
    {
        let value = draws[k];
        proof {
            lemma_sum_values_bound(rolls@, sides);
            assert(k * (sides - 1) + (sides - 1) <= draws@.len() * (sides - 1)) by (nonlinear_arith)
                requires
                    k < draws@.len(),
                    sides >= 1,
            ;
        }
        let ghost before = rolls@;
        rolls.push(Die::from_sides(sides, value));
        assert(rolls@.drop_last() == before);
        total = total + value as i64;
        k = k + 1;
    }
    proof {
        lemma_sum_values_bound(rolls@, sides);
    }
    DiceRollResult(rolls, (total + bonus as i64) as i32)
}

/// Rolls `count` dice like `die`, without advantage.
fn roll_dice(count: u32, die: Die, bonus: i32) -> (r: DiceRollResult)
    requires
        count * (die.spec_sides() - 1) + bonus <= i32::MAX,
    ensures
        is_roll(r, count, die.spec_sides(), bonus),
{
    let sides: u32 = die.sides();
    let mut draws: Vec<u32> = Vec::new();
    let mut k: u32 = 0;
    while k < count
        invariant
            sides == die.spec_sides(),
            k <= count,
            draws@.len() == k,
            forall|i: int| 0 <= i < k ==> #[trigger] draws@[i] < sides,
        decreases count - k,
    {
        draws.push(random_below(sides));
        k = k + 1;
    }
    dice_from_draws(&draws, die, bonus)
}

/// Of two rolls, the one that counts: with disadvantage the lower total (the
/// second on a tie), with advantage the higher (the second on a tie), and
/// otherwise the first.
pub fn pick_roll(first: DiceRollResult, second: DiceRollResult, advantage: Advantage) -> (r:
    DiceRollResult)
    ensures
        r == match advantage {
            Advantage::Dissadvantage => if first.1 < second.1 {
                first
            } else {
                second
            },
            Advantage::Normal => first,
            Advantage::Advantage => if first.1 > second.1 {
                first
            } else {
                second
            },
        },
{
    match advantage {
        Advantage::Dissadvantage => if first.1 < second.1 {
            first
        } else {
            second
        },
        Advantage::Normal => first,
        Advantage::Advantage => if first.1 > second.1 {
            first
        } else {
            second
        },
    }
}

/// Rolls `count` dice like `die` and adds `bonus`; with advantage or
/// disadvantage two rolls are made and `pick_roll` keeps one.
pub fn roll(count: u32, die: Die, bonus: i32, advantage: Advantage) -> (r: DiceRollResult)
    requires
        count * (die.spec_sides() - 1) + bonus <= i32::MAX,
    ensures
        is_roll(r, count, die.spec_sides(), bonus),
{
    match advantage {
        Advantage::Normal => roll_dice(count, die, bonus),
        _ => {
            let first = roll_dice(count, die, bonus);
            let second = roll_dice(count, die, bonus);
            pick_roll(first, second, advantage)
        },
    }
}

} // verus!
