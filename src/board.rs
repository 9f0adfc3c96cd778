//! The board: one 32-bit mask whose bit `i` says whether square `i` is set.
use vstd::prelude::*;

verus! {

/// Number of squares on the board.
pub const SQUARES: u32 = 32;

/// The mask with square `i` flipped.
pub open spec fn toggled(m: u32, i: u32) -> u32 {
    m ^ (1u32 << i)
}

/// Whether square `i` is set in mask `m`.
pub open spec fn is_set(m: u32, i: u32) -> bool {
    (m >> i) & 1u32 == 1u32
}

/// A bitboard of 32 squares, indexed 0 to 31.
#[derive(Debug, Clone, Copy)]
pub struct Board(u32);

impl View for Board {
    type V = u32;

    closed spec fn view(&self) -> u32 {
        self.0
    }
}

impl Default for Board {
    fn default() -> (r: Self)
        ensures
            r@ == 0,
    {
        Board(0)
    }
}

impl From<u32> for Board {
    fn from(value: u32) -> (r: Self)
        ensures
            r@ == value,
    {
        Board(value)
    }
}

impl vstd::std_specs::convert::FromSpecImpl<u32> for Board {
    open spec fn obeys_from_spec() -> bool {
        true
    }

    closed spec fn from_spec(v: u32) -> Board {
        Board(v)
    }
}

impl Board {
    /// A fresh board, with every square clear.
    pub fn new() -> (r: Self)
        ensures
            r@ == 0,
    {
        Board(0)
    }

    /// The board with `square` flipped; squares past 31 are refused and
    /// the board is left as it was.
    pub fn toggle(&self, square: u8) -> (r: Result<Self, ()>)
        ensures
            square < SQUARES <==> r is Ok,
            r matches Ok(b) ==> b@ == toggled(self@, square as u32),
    {
        if square > 31 {
            return Err(());
        }
        Ok((self.0 ^ (1u32 << square as u32)).into())
    }

    /// The mask as an unsigned integer.
    pub fn to_uint(self) -> (r: u32)
        ensures
            r == self@,
    {
        self.0
    }
}

/// Toggling the same square twice gives back the mask one started from.
pub proof fn lemma_toggle_twice(m: u32, i: u32)
    requires
        i < SQUARES,
    ensures
        toggled(toggled(m, i), i) == m,
{
    assert((m ^ (1u32 << i)) ^ (1u32 << i) == m) by (bit_vector)
        requires
            i < 32,
    ;
}

proof fn lemma_toggle_bit(m: u32, i: u32, j: u32)
    requires
        i < 32,
        j < 32,
    ensures
        is_set(toggled(m, i), j) == if j == i {
            !is_set(m, j)
        } else {
            is_set(m, j)
        },
{
    assert(((m ^ (1u32 << i)) >> j) & 1u32 == 1u32 <==> if j == i {
        !((m >> j) & 1u32 == 1u32)
    } else {
        (m >> j) & 1u32 == 1u32
    }) by (bit_vector)
        requires
            i < 32,
            j < 32,
    ;
}

/// Toggling square `i` flips bit `i` of the mask and leaves every other bit
/// as it was.
pub proof fn lemma_toggle_flips_one(m: u32, i: u32)
    requires
        i < SQUARES,
    ensures
        forall|j: u32|
            j < SQUARES ==> #[trigger] is_set(toggled(m, i), j) == if j == i {
                !is_set(m, j)
            } else {
                is_set(m, j)
            },
{
    assert forall|j: u32| j < SQUARES implies #[trigger] is_set(toggled(m, i), j) == if j == i {
        !is_set(m, j)
    } else {
        is_set(m, j)
    } by {
        lemma_toggle_bit(m, i, j);
    }
}

} // verus!
