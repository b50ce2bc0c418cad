use vstd::prelude::*;
use vstd::string::StringExecFns;

use crate::position::Position;

verus! {

/// Kind code of a mining job.
pub const MINE_WORK_IDENTIFIER: &'static str = "m";

/// The character of a decimal digit.
pub open spec fn digit_char(d: nat) -> char {
    if d == 0 { '0' }
    else if d == 1 { '1' }
    else if d == 2 { '2' }
    else if d == 3 { '3' }
    else if d == 4 { '4' }
    else if d == 5 { '5' }
    else if d == 6 { '6' }
    else if d == 7 { '7' }
    else if d == 8 { '8' }
    else { '9' }
}

/// Decimal digits of a natural number, most significant first.
pub open spec fn decimal_digits(n: nat) -> Seq<char>
    decreases n,
{
    if n < 10 {
        seq![digit_char(n)]
    } else {
        decimal_digits(n / 10).push(digit_char(n % 10))
    }
}

/// Decimal text of an integer, with a leading `-` when negative.
pub open spec fn decimal_text(n: int) -> Seq<char> {
    if n < 0 {
        seq!['-'] + decimal_digits((-n) as nat)
    } else {
        decimal_digits(n as nat)
    }
}

/// Text of the job of kind `kind` at `p`: the kind code, then the two
/// coordinates, separated by a comma.
pub open spec fn work_id_text(kind: Seq<char>, p: Position) -> Seq<char> {
    kind + decimal_text(p.x as int) + seq![','] + decimal_text(p.y as int)
}

/// Relies on `i32`'s `ToString` (its `Display`): decimal digits with a leading
/// `-` for negative numbers.
#[verifier::external_body]
fn int_to_text(n: i32) -> (r: String)
    ensures
        r@ == decimal_text(n as int),
{
    n.to_string()
}

/// Identifier of a job: its kind code and its target position, so that two
/// orders of one kind on one tile name the same job.
#[derive(Debug, Hash)]
pub struct GlobalWorkID {
    id: String,
}

impl GlobalWorkID {
    pub closed spec fn text(&self) -> Seq<char> {
        self.id@
    }

    pub fn new(work_identifier: &str, position: &Position) -> (r: Self)
        ensures
            r.text() == work_id_text(work_identifier@, *position),
    {
        let mut id = String::from_str(work_identifier);
        id.append(int_to_text(position.x).as_str());
        id.append(",");
        id.append(int_to_text(position.y).as_str());
        proof {
            reveal_strlit(",");
        }
        assert(id@ =~= work_id_text(work_identifier@, *position));
        GlobalWorkID { id }
    }

    /// The identifier as text.
    pub fn as_str(&self) -> (r: &str)
        ensures
            r@ == self.text(),
    {
        self.id.as_str()
    }
}

impl Clone for GlobalWorkID {
    fn clone(&self) -> (r: Self)
        ensures
            r == *self,
    {
        GlobalWorkID { id: self.id.clone() }
    }
}

impl PartialEq for GlobalWorkID {
    fn eq(&self, other: &GlobalWorkID) -> (r: bool)
        ensures
            r == (self.text() == other.text()),
    {
        self.id == other.id
    }
}

impl Eq for GlobalWorkID {}

impl vstd::std_specs::cmp::PartialEqSpecImpl for GlobalWorkID {
    open spec fn obeys_eq_spec() -> bool {
        true
    }

    open spec fn eq_spec(&self, other: &GlobalWorkID) -> bool {
        self.text() == other.text()
    }
}

} // verus!
