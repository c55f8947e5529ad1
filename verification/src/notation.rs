use vstd::prelude::*;

use crate::disc::OthebotError;

verus! {

/// Whether `s` is a well-formed algebraic coordinate: exactly two
/// characters, the first a column letter `'a'..='h'`, the second a row
/// digit `'1'..='8'`.
pub open spec fn algebraic_ok(s: Seq<char>) -> bool {
    &&& s.len() == 2
    &&& 'a' <= s[0] <= 'h'
    &&& '1' <= s[1] <= '8'
}

/// The zero-based column a well-formed coordinate names.
pub open spec fn algebraic_col(s: Seq<char>) -> int {
    s[0] as int - 'a' as int
}

/// The zero-based row a well-formed coordinate names.
pub open spec fn algebraic_row(s: Seq<char>) -> int {
    s[1] as int - '1' as int
}

/// Converts an algebraic notation like `a1`, `g8`, `b7` to `(0, 0)`,
/// `(6, 7)`, `(1, 6)`: column first, row second, both zero-based. Any
/// other length or an out-of-range character fails with `IllegalMove`.
pub fn algebric2xy(pos: &str) -> (r: Result<(u8, u8), OthebotError>)
    ensures
        match r {
            Ok(xy) => {
                &&& algebraic_ok(pos@)
                &&& xy.0 == algebraic_col(pos@)
                &&& xy.1 == algebraic_row(pos@)
                &&& xy.0 < 8
                &&& xy.1 < 8
            },
            Err(e) => {
                &&& e == OthebotError::IllegalMove
                &&& !algebraic_ok(pos@)
            },
        },
{
    if pos.unicode_len() != 2 {
        return Err(OthebotError::IllegalMove);
    }

    let col = pos.get_char(0) as u32;
    let row = pos.get_char(1) as u32;

    if col < 'a' as u32 || col > 'h' as u32 {
        return Err(OthebotError::IllegalMove);
    }
    if row < '1' as u32 || row > '8' as u32 {
        return Err(OthebotError::IllegalMove);
    }

    Ok(((col - 'a' as u32) as u8, (row - '1' as u32) as u8))
}

} // verus!
