use vstd::prelude::*;

verus! {

/// Declares std::io::Error, which the `Io` variant carries through unopened.
#[verifier::external_type_specification]
#[verifier::external_body]
pub struct ExIoError(std::io::Error);

/// What can go wrong while building or advancing a board.
#[derive(Debug)]
pub enum GameError {
    /// The cell sequence does not match the board's dimensions.
    BoardInitializationError(String),
    /// A lookup reached an index past the end of the cell sequence.
    CellDoesNotExist(String),
    /// A failure of the surrounding input or output.
    Io(std::io::Error),
}

impl From<std::io::Error> for GameError {
    fn from(err: std::io::Error) -> (r: Self)
        ensures
            r == GameError::Io(err),
    {
        GameError::Io(err)
    }
}

impl vstd::std_specs::convert::FromSpecImpl<std::io::Error> for GameError {
    open spec fn obeys_from_spec() -> bool {
        true
    }

    open spec fn from_spec(err: std::io::Error) -> GameError {
        GameError::Io(err)
    }
}

/// The decimal digit `d`.
pub open spec fn digit(d: nat) -> char {
    if d == 0 {
        '0'
    } else if d == 1 {
        '1'
    } else if d == 2 {
        '2'
    } else if d == 3 {
        '3'
    } else if d == 4 {
        '4'
    } else if d == 5 {
        '5'
    } else if d == 6 {
        '6'
    } else if d == 7 {
        '7'
    } else if d == 8 {
        '8'
    } else {
        '9'
    }
}

/// The decimal notation of `n`, without leading zeros.
pub open spec fn decimal(n: nat) -> Seq<char>
    decreases n,
{
    if n < 10 {
        seq![digit(n)]
    } else {
        decimal(n / 10).push(digit(n % 10))
    }
}

fn digit_str(d: u64) -> (r: &'static str)
    requires
        d < 10,
    ensures
        r@ == seq![digit(d as nat)],
{
    if d == 0 {
        proof { reveal_strlit("0"); }
        "0"
    } else if d == 1 {
        proof { reveal_strlit("1"); }
        "1"
    } else if d == 2 {
        proof { reveal_strlit("2"); }
        "2"
    } else if d == 3 {
        proof { reveal_strlit("3"); }
        "3"
    } else if d == 4 {
        proof { reveal_strlit("4"); }
        "4"
    } else if d == 5 {
        proof { reveal_strlit("5"); }
        "5"
    } else if d == 6 {
        proof { reveal_strlit("6"); }
        "6"
    } else if d == 7 {
        proof { reveal_strlit("7"); }
        "7"
    } else if d == 8 {
        proof { reveal_strlit("8"); }
        "8"
    } else {
        proof { reveal_strlit("9"); }
        "9"
    }
}

/// Appends the decimal notation of `n` to `s`.
pub fn push_decimal(s: &mut String, n: u64)
    ensures
        final(s)@ == old(s)@ + decimal(n as nat),
    decreases n,
{
    if n < 10 {
        s.append(digit_str(n));
    } else {
        push_decimal(s, n / 10);
        s.append(digit_str(n % 10));
    }
}

/// The message of a board built with `actual` cells where `expected` were due.
pub open spec fn size_mismatch_message(expected: nat, actual: nat) -> Seq<char> {
    "Board was supposed to be of size "@ + decimal(expected) + ", but received one of size "@
        + decimal(actual)
}

/// The message of a lookup of the missing cell `index`.
pub open spec fn missing_cell_message(index: nat) -> Seq<char> {
    "Cell of index "@ + decimal(index) + " does not exist"@
}

/// `e` reports a board of `actual` cells where `expected` were due.
pub open spec fn is_size_mismatch(e: GameError, expected: nat, actual: nat) -> bool {
    e matches GameError::BoardInitializationError(m) && m@ == size_mismatch_message(
        expected,
        actual,
    )
}

/// `e` reports a lookup of the missing cell `index`.
pub open spec fn is_missing_cell(e: GameError, index: nat) -> bool {
    e matches GameError::CellDoesNotExist(m) && m@ == missing_cell_message(index)
}

pub(crate) fn size_mismatch_error(expected: u64, actual: u64) -> (r: GameError)
    ensures
        is_size_mismatch(r, expected as nat, actual as nat),
{
    let mut m = String::from_str("Board was supposed to be of size ");
    push_decimal(&mut m, expected);
    m.append(", but received one of size ");
    push_decimal(&mut m, actual);
    GameError::BoardInitializationError(m)
}

pub(crate) fn missing_cell_error(index: u64) -> (r: GameError)
    ensures
        is_missing_cell(r, index as nat),
{
    let mut m = String::from_str("Cell of index ");
    push_decimal(&mut m, index);
    m.append(" does not exist");
    GameError::CellDoesNotExist(m)
}

} // verus!
