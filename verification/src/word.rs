//! Thirty-two bit words as four little-endian byte lanes.

use vstd::prelude::*;

verus! {

/// Number of byte lanes in a word.
pub const WORD_SIZE: usize = 4;

/// A word held as four byte lanes, least significant first. A lane is a field
/// value in a trace row, or a variable on the constraint side.
#[derive(Clone, Copy, Debug)]
pub struct Word<T>(pub [T; 4]);

/// Lane `i` of `x`, for `i` below four.
pub open spec fn lane(x: u32, i: int) -> int {
    if i == 0 {
        x as int % 256
    } else if i == 1 {
        (x as int / 256) % 256
    } else if i == 2 {
        (x as int / 65536) % 256
    } else {
        (x as int / 16777216) % 256
    }
}

/// The integer whose lanes are `b0` to `b3`.
pub open spec fn from_lanes(b0: int, b1: int, b2: int, b3: int) -> int {
    b0 + 256 * b1 + 65536 * b2 + 16777216 * b3
}

/// The four lanes of `x`.
pub open spec fn lanes(x: u32) -> Seq<int> {
    seq![lane(x, 0), lane(x, 1), lane(x, 2), lane(x, 3)]
}

/// The lanes of a word of trace cells, as integers.
pub open spec fn cells(w: Word<u32>) -> Seq<int> {
    seq![w.0[0] as int, w.0[1] as int, w.0[2] as int, w.0[3] as int]
}

/// The word of trace cells that holds the lanes of `x`.
pub open spec fn word_of(x: u32) -> Word<u32> {
    Word([lane(x, 0) as u32, lane(x, 1) as u32, lane(x, 2) as u32, lane(x, 3) as u32])
}

/// The cells of the word of `x` are the lanes of `x`.
pub proof fn lemma_word_of(x: u32)
    ensures
        cells(word_of(x)) == lanes(x),
{
    lemma_lanes(x);
    assert(cells(word_of(x)) =~= lanes(x));
}

/// Every word is the sum of its lanes, and each lane is a byte.
pub proof fn lemma_lanes(x: u32)
    ensures
        from_lanes(lane(x, 0), lane(x, 1), lane(x, 2), lane(x, 3)) == x,
        forall|i: int| 0 <= i < 4 ==> 0 <= #[trigger] lane(x, i) < 256,
{
}

/// Lanes determine the word.
pub proof fn lemma_from_lanes_unique(b0: int, b1: int, b2: int, b3: int, x: u32)
    requires
        0 <= b0 < 256,
        0 <= b1 < 256,
        0 <= b2 < 256,
        0 <= b3 < 256,
        from_lanes(b0, b1, b2, b3) == x,
    ensures
        lane(x, 0) == b0,
        lane(x, 1) == b1,
        lane(x, 2) == b2,
        lane(x, 3) == b3,
{
}

/// Four bytes are the lanes of the word they spell.
pub proof fn lemma_lanes_of_bytes(w: Seq<int>)
    requires
        w.len() == 4,
        forall|i: int| 0 <= i < 4 ==> 0 <= #[trigger] w[i] < 256,
    ensures
        0 <= from_lanes(w[0], w[1], w[2], w[3]) < 0x1_0000_0000,
        lanes(from_lanes(w[0], w[1], w[2], w[3]) as u32) == w,
{
    let x = from_lanes(w[0], w[1], w[2], w[3]);
    assert(0 <= w[0] < 256 && 0 <= w[1] < 256 && 0 <= w[2] < 256 && 0 <= w[3] < 256);
    lemma_from_lanes_unique(w[0], w[1], w[2], w[3], x as u32);
    assert(lanes(x as u32) =~= w);
}

/// Lane `i` of `x` as a byte.
pub fn byte(x: u32, i: usize) -> (b: u8)
    requires
        i < 4,
    ensures
        b as int == lane(x, i as int),
{
    let s: u32 = if i == 0 {
        x
    } else if i == 1 {
        x >> 8
    } else if i == 2 {
        x >> 16
    } else {
        x >> 24
    };
    let m: u32 = s & 0xff;
    assert(x & 0xff == x % 256) by (bit_vector);
    assert((x >> 8) & 0xff == (x / 256) % 256) by (bit_vector);
    assert((x >> 16) & 0xff == (x / 65536) % 256) by (bit_vector);
    assert((x >> 24) & 0xff == (x / 16777216) % 256) by (bit_vector);
    m as u8
}

/// The word with lanes `b0` to `b3`.
pub fn join(b0: u8, b1: u8, b2: u8, b3: u8) -> (x: u32)
    ensures
        x as int == from_lanes(b0 as int, b1 as int, b2 as int, b3 as int),
{
    let l0: u32 = b0 as u32;
    let l1: u32 = b1 as u32;
    let l2: u32 = b2 as u32;
    let l3: u32 = b3 as u32;
    l0 + 256 * l1 + 65536 * l2 + 16777216 * l3
}

impl Default for Word<u32> {
    /// The word of zero.
    fn default() -> (w: Self)
        ensures
            w == word_of(0),
    {
        let w = Word([0, 0, 0, 0]);
        assert(w.0 =~= word_of(0).0);
        w
    }
}

impl Word<u32> {
    /// The word of trace cells that holds the lanes of `x`.
    pub fn from_u32(x: u32) -> (w: Word<u32>)
        ensures
            w == word_of(x),
            cells(w) == lanes(x),
    {
        let w = Word(
            [byte(x, 0) as u32, byte(x, 1) as u32, byte(x, 2) as u32, byte(x, 3) as u32],
        );
        assert(cells(w) =~= lanes(x));
        assert(w.0 =~= word_of(x).0);
        w
    }
}

} // verus!
