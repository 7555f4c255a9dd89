//! Rotation of a word to the right by a fixed number of bits.

use vstd::prelude::*;
use crate::builder::{
    ConstraintBuilder, vanishes, word_values, canonical, all_bytes, lemma_lookup_sent,
    lemma_small_vanishes,
};
use crate::operations::add::word_from;
use crate::word::lemma_lanes_of_bytes;
use crate::record::ExecutionRecord;
use crate::bytes::{
    ByteLookupEvent, ByteOpcode, byte_lookup_holds, two_pow, two_to, shr_carry, lemma_two_pow,
    lemma_two_pow_adds, lemma_two_pow_values, lemma_two_pow_byte,
};
use vstd::arithmetic::div_mod::{
    lemma_fundamental_div_mod, lemma_fundamental_div_mod_converse, lemma_mod_bound,
    lemma_div_pos_is_pos,
};
use crate::word::{Word, lane, lanes, cells, from_lanes, lemma_lanes, lemma_from_lanes_unique};
use vstd::arithmetic::div_mod::{lemma_small_mod, lemma_basic_div};

verus! {

/// `x` rotated right by `n` bits, as an integer: the low `n` bits move to the
/// top.
pub open spec fn rotr_value(x: u32, n: int) -> int {
    x as int / two_pow(n % 32) + (x as int % two_pow(n % 32)) * two_pow(32 - n % 32)
}

/// `x` rotated right by `n` bits.
pub open spec fn rotr(x: u32, n: int) -> u32 {
    rotr_value(x, n) as u32
}

/// Lane `i` of `x` after the whole bytes of a rotation by `n` have moved.
pub open spec fn rot_byte(x: u32, n: int, i: int) -> int {
    lane(x, (i + (n % 32) / 8) % 4)
}

/// What stays in lane `i` when the rotated lanes shift by the remaining bits.
pub open spec fn rot_shift(x: u32, n: int, i: int) -> int {
    rot_byte(x, n, i) / two_pow(n % 8)
}

/// What leaves lane `i` when the rotated lanes shift by the remaining bits.
pub open spec fn rot_carry(x: u32, n: int, i: int) -> int {
    rot_byte(x, n, i) % two_pow(n % 8)
}

/// Lane `i` of the rotated word: what stays of the lane, under what the lane
/// above it lost.
pub open spec fn rot_value(x: u32, n: int, i: int) -> int {
    rot_shift(x, n, i) + rot_carry(x, n, if i == 3 {
        0
    } else {
        i + 1
    }) * two_pow(8 - n % 8)
}

/// Shifting four bytes right by `k` bits in their lanes, each taking what the
/// lane above it lost, rotates the word they form: `m` is two to the `k`,
/// `mm` two to the eight less `k`.
pub proof fn lemma_shift_lanes(b0: int, b1: int, b2: int, b3: int, m: int, mm: int)
    requires
        0 <= b0 < 256,
        0 <= b1 < 256,
        0 <= b2 < 256,
        0 <= b3 < 256,
        0 < m,
        m * mm == 256,
    ensures
        from_lanes(
            b0 / m + (b1 % m) * mm,
            b1 / m + (b2 % m) * mm,
            b2 / m + (b3 % m) * mm,
            b3 / m + (b0 % m) * mm,
        ) == from_lanes(b0, b1, b2, b3) / m + (from_lanes(b0, b1, b2, b3) % m) * (mm * 16777216),
        0 <= b0 / m + (b1 % m) * mm < 256,
        0 <= b1 / m + (b2 % m) * mm < 256,
        0 <= b2 / m + (b3 % m) * mm < 256,
        0 <= b3 / m + (b0 % m) * mm < 256,
{
    let s0 = b0 / m;
    let s1 = b1 / m;
    let s2 = b2 / m;
    let s3 = b3 / m;
    let c0 = b0 % m;
    let c1 = b1 % m;
    let c2 = b2 % m;
    let c3 = b3 % m;
    lemma_fundamental_div_mod(b0, m);
    lemma_fundamental_div_mod(b1, m);
    lemma_fundamental_div_mod(b2, m);
    lemma_fundamental_div_mod(b3, m);
    lemma_mod_bound(b0, m);
    lemma_mod_bound(b1, m);
    lemma_mod_bound(b2, m);
    lemma_mod_bound(b3, m);
    lemma_div_pos_is_pos(b0, m);
    lemma_div_pos_is_pos(b1, m);
    lemma_div_pos_is_pos(b2, m);
    lemma_div_pos_is_pos(b3, m);
    lemma_lane_bound(b0, m, mm, s0, c0, c1);
    lemma_lane_bound(b1, m, mm, s1, c1, c2);
    lemma_lane_bound(b2, m, mm, s2, c2, c3);
    lemma_lane_bound(b3, m, mm, s3, c3, c0);
    let x = from_lanes(b0, b1, b2, b3);
    let q = s0 + c1 * mm + 256 * (s1 + c2 * mm) + 65536 * (s2 + c3 * mm) + 16777216 * s3;
    assert(x == q * m + c0) by (nonlinear_arith)
        requires
            x == b0 + 256 * b1 + 65536 * b2 + 16777216 * b3,
            q == s0 + c1 * mm + 256 * (s1 + c2 * mm) + 65536 * (s2 + c3 * mm) + 16777216 * s3,
            b0 == m * s0 + c0,
            b1 == m * s1 + c1,
            b2 == m * s2 + c2,
            b3 == m * s3 + c3,
            m * mm == 256,
    ;
    lemma_fundamental_div_mod_converse(x, m, q, c0);
    assert(c0 * (mm * 16777216) == 16777216 * (c0 * mm)) by (nonlinear_arith);
}

/// A shifted lane with the carry of its neighbour is a byte.
proof fn lemma_lane_bound(b: int, m: int, mm: int, s: int, c: int, above: int)
    requires
        0 <= b < 256,
        0 < m,
        m * mm == 256,
        b == m * s + c,
        0 <= c < m,
        0 <= s,
        0 <= above < m,
    ensures
        0 <= s + above * mm < 256,
{
    assert(s < mm) by (nonlinear_arith)
        requires
            m * s <= 255,
            m * mm == 256,
            0 < m,
            0 <= s,
    ;
    assert(0 <= above * mm <= 256 - mm) by (nonlinear_arith)
        requires
            0 <= above < m,
            m * mm == 256,
            0 < m,
    ;
}

/// Rotating by whole bytes and then by bits is rotating by the sum: `pa` and
/// `pb` are the two powers that split the word at the bytes, `m` the power of
/// the bits, `g` what is left of `pb` above `m`.
proof fn lemma_rotr_compose(x: int, pa: int, pb: int, m: int, g: int)
    requires
        0 <= x,
        0 < pa,
        0 < m,
        0 < g,
        pb == m * g,
    ensures
        ({
            let y = x / pa + (x % pa) * pb;
            y / m + (y % m) * (pa * g)
        }) == x / (pa * m) + (x % (pa * m)) * g,
{
    let q = x / pa;
    let t = x % pa;
    let u = q / m;
    let w = q % m;
    lemma_fundamental_div_mod(x, pa);
    lemma_mod_bound(x, pa);
    lemma_div_pos_is_pos(x, pa);
    lemma_fundamental_div_mod(q, m);
    lemma_mod_bound(q, m);
    let y = q + t * pb;
    assert(y == (u + t * g) * m + w) by (nonlinear_arith)
        requires
            y == q + t * pb,
            q == m * u + w,
            pb == m * g,
    ;
    lemma_fundamental_div_mod_converse(y, m, u + t * g, w);
    assert(x == u * (pa * m) + (pa * w + t)) by (nonlinear_arith)
        requires
            x == pa * q + t,
            q == m * u + w,
    ;
    assert(0 <= pa * w + t < pa * m) by (nonlinear_arith)
        requires
            0 <= w < m,
            0 <= t < pa,
            0 < pa,
    ;
    lemma_fundamental_div_mod_converse(x, pa * m, u, pa * w + t);
    assert(u + t * g + w * (pa * g) == u + (pa * w + t) * g) by (nonlinear_arith);
}

/// Moving the lanes of a word down by `nb` places, the lowest to the top,
/// rotates it by `nb` bytes.
proof fn lemma_rotr_bytes(x: u32, nb: int)
    requires
        0 <= nb < 4,
    ensures
        from_lanes(
            lane(x, (0 + nb) % 4),
            lane(x, (1 + nb) % 4),
            lane(x, (2 + nb) % 4),
            lane(x, (3 + nb) % 4),
        ) == x as int / two_pow(8 * nb) + (x as int % two_pow(8 * nb)) * two_pow(32 - 8 * nb),
{
    reveal(two_pow);
    lemma_lanes(x);
}

/// The lanes that the rotation gadget computes are the lanes of the rotated
/// word.
pub proof fn lemma_rotr_lanes(x: u32, n: int)
    requires
        0 <= n,
    ensures
        from_lanes(rot_value(x, n, 0), rot_value(x, n, 1), rot_value(x, n, 2), rot_value(x, n, 3))
            == rotr_value(x, n),
        forall|i: int| 0 <= i < 4 ==> 0 <= #[trigger] rot_value(x, n, i) < 256,
        0 <= rotr_value(x, n) < 0x1_0000_0000,
{
    let r = n % 32;
    let nb = r / 8;
    let k = n % 8;
    let m = two_pow(k);
    let mm = two_pow(8 - k);
    let pa = two_pow(8 * nb);
    let pb = two_pow(32 - 8 * nb);
    let g = two_pow(32 - r);
    lemma_two_pow(k);
    lemma_two_pow(32 - r);
    lemma_two_pow(8 * nb);
    lemma_two_pow_values();
    assert(m * mm == 256) by {
        lemma_two_pow_adds(k, 8 - k);
    }
    assert(pb == m * g) by {
        lemma_two_pow_adds(k, 32 - r);
    }
    assert(pa * m == two_pow(r)) by {
        lemma_two_pow_adds(8 * nb, k);
    }
    assert(pa * g == mm * 16777216) by {
        lemma_two_pow_adds(8 * nb, 32 - r);
        lemma_two_pow_adds(8 - k, 24);
    }
    let b0 = rot_byte(x, n, 0);
    let b1 = rot_byte(x, n, 1);
    let b2 = rot_byte(x, n, 2);
    let b3 = rot_byte(x, n, 3);
    assert(0 <= b0 < 256 && 0 <= b1 < 256 && 0 <= b2 < 256 && 0 <= b3 < 256) by {
        lemma_lanes(x);
    }
    let y = from_lanes(b0, b1, b2, b3);
    assert(y == x as int / pa + (x as int % pa) * pb) by {
        lemma_rotr_bytes(x, nb);
    }
    let v = from_lanes(
        rot_value(x, n, 0),
        rot_value(x, n, 1),
        rot_value(x, n, 2),
        rot_value(x, n, 3),
    );
    assert(v == y / m + (y % m) * (mm * 16777216) && v < 0x1_0000_0000 && (forall|i: int|
        0 <= i < 4 ==> 0 <= #[trigger] rot_value(x, n, i) < 256)) by {
        lemma_shift_lanes(b0, b1, b2, b3, m, mm);
    }
    assert(y / m + (y % m) * (pa * g) == x as int / (pa * m) + (x as int % (pa * m)) * g) by {
        lemma_rotr_compose(x as int, pa, pb, m, g);
    }
}

/// Lane `i` of a rotated word is the lane that the gadget computes.
pub proof fn lemma_rotr_lane_values(x: u32, n: int)
    requires
        0 <= n,
    ensures
        forall|i: int| 0 <= i < 4 ==> lane(rotr(x, n), i) == #[trigger] rot_value(x, n, i),
        forall|i: int| 0 <= i < 4 ==> 0 <= #[trigger] rot_value(x, n, i) < 256,
        rotr(x, n) as int == rotr_value(x, n),
{
    lemma_rotr_lanes(x, n);
    lemma_from_lanes_unique(
        rot_value(x, n, 0),
        rot_value(x, n, 1),
        rot_value(x, n, 2),
        rot_value(x, n, 3),
        rotr(x, n),
    );
}

/// A rotation by whole bytes moves lanes and changes none.
pub proof fn lemma_rotr_whole_bytes(x: u32, nb: int)
    requires
        0 <= nb < 4,
    ensures
        forall|i: int| 0 <= i < 4 ==> #[trigger] lane(rotr(x, 8 * nb), i) == lane(x, (i + nb) % 4),
{
    lemma_rotr_lane_values(x, 8 * nb);
    lemma_lanes(x);
    reveal(two_pow);
    assert forall|i: int| 0 <= i < 4 implies #[trigger] lane(rotr(x, 8 * nb), i) == lane(
        x,
        (i + nb) % 4,
    ) by {
        assert(rot_value(x, 8 * nb, i) == lane(x, (i + nb) % 4));
    }
}

/// Zero rotated is zero.
pub proof fn lemma_rotr_zero(n: int)
    requires
        0 <= n,
    ensures
        rotr(0, n) == 0,
{
    lemma_two_pow(n % 32);
    lemma_small_mod(0, two_pow(n % 32) as nat);
    lemma_basic_div(0, two_pow(n % 32));
    assert(0 * two_pow(32 - n % 32) == 0);
}

/// `x` rotated right by `n` bits.
pub fn rotate_right(x: u32, n: u32) -> (r: u32)
    ensures
        r == rotr(x, n as int),
{
    let k: u32 = n % 32;
    let m: u64 = two_to(k);
    let g: u64 = two_to(32 - k);
    proof {
        lemma_two_pow(k as int);
    }
    let low: u64 = x as u64 % m;
    proof {
        lemma_rotr_lanes(x, n as int);
        lemma_two_pow_values();
        lemma_two_pow_adds(k as int, 32 - k);
        assert(low * g <= 0x1_0000_0000 - g) by (nonlinear_arith)
            requires
                0 <= low < m,
                m * g == 0x1_0000_0000,
        ;
    }
    let r: u64 = x as u64 / m + low * g;
    r as u32
}

/// The lookup that shifts lane `i` of the byte-rotated word.
pub open spec fn rotate_event(x: u32, n: int, i: int) -> ByteLookupEvent {
    ByteLookupEvent {
        opcode: ByteOpcode::ShrCarry,
        a1: rot_shift(x, n, i) as u32,
        a2: rot_carry(x, n, i) as u32,
        b: rot_byte(x, n, i) as u32,
        c: (n % 8) as u32,
    }
}

/// The lookup events that one rotation leaves, highest lane first.
#[verifier::opaque]
pub open spec fn rotate_events(x: u32, n: int) -> Seq<ByteLookupEvent> {
    seq![rotate_event(x, n, 3), rotate_event(x, n, 2), rotate_event(x, n, 1), rotate_event(x, n, 0)]
}

/// The identities of lane `i` of a rotation: the table shifts the lane, and
/// the lane of the result is the shifted lane under the carry of the lane
/// above.
pub open spec fn rotate_lane_relation(
    rotated: int,
    bits: int,
    shift: int,
    carry: int,
    above: int,
    value: int,
    is_real: int,
    p: int,
) -> bool {
    &&& byte_lookup_holds(ByteOpcode::ShrCarry, shift, carry, rotated, bits, is_real, p)
    &&& vanishes(value - (shift + above * two_pow(8 - bits)), p)
}

/// The identities of a rotation by `n` bits over the lanes of the input and
/// the three words of columns.
#[verifier::opaque]
pub open spec fn rotate_relation(
    input: Seq<int>,
    n: int,
    shift: Seq<int>,
    carry: Seq<int>,
    value: Seq<int>,
    is_real: int,
    p: int,
) -> bool {
    let nb = (n % 32) / 8;
    let k = n % 8;
    &&& rotate_lane_relation(
        input[(3 + nb) % 4],
        k,
        shift[3],
        carry[3],
        carry[0],
        value[3],
        is_real,
        p,
    )
    &&& rotate_lane_relation(
        input[(2 + nb) % 4],
        k,
        shift[2],
        carry[2],
        carry[3],
        value[2],
        is_real,
        p,
    )
    &&& rotate_lane_relation(
        input[(1 + nb) % 4],
        k,
        shift[1],
        carry[1],
        carry[2],
        value[1],
        is_real,
        p,
    )
    &&& rotate_lane_relation(
        input[(0 + nb) % 4],
        k,
        shift[0],
        carry[0],
        carry[1],
        value[0],
        is_real,
        p,
    )
}

/// Columns of one rotation: the lanes of the result, and for each lane of the
/// byte-rotated input what a shift by the remaining bits keeps and drops.
#[derive(Clone, Copy, Debug)]
pub struct FixedRotateRightOperation<T> {
    pub value: Word<T>,
    pub shift: Word<T>,
    pub carry: Word<T>,
}

impl<T: Copy> FixedRotateRightOperation<T> {
    /// The cells of the columns in the order of a row.
    pub open spec fn flat(self) -> Seq<T> {
        self.value.0@ + self.shift.0@ + self.carry.0@
    }

    /// The columns whose cells are the twelve cells of `row` from `start`
    /// on.
    pub fn from_row(row: &[T], start: usize) -> (cols: Self)
        requires
            start + 12 <= row.len(),
        ensures
            cols.flat() == row@.subrange(start as int, start + 12),
    {
        let cols = FixedRotateRightOperation {
            value: Word(crate::trace::read_array(row, start)),
            shift: Word(crate::trace::read_array(row, start + 4)),
            carry: Word(crate::trace::read_array(row, start + 8)),
        };
        assert(cols.flat() =~= row@.subrange(start as int, start + 12));
        cols
    }

    /// Appends the cells of the columns to `row`.
    pub fn append_to(&self, row: &mut Vec<T>)
        ensures
            final(row)@ == old(row)@ + self.flat(),
            self.flat().len() == 12,
    {
        crate::trace::append_array(&self.value.0, row);
        crate::trace::append_array(&self.shift.0, row);
        crate::trace::append_array(&self.carry.0, row);
        assert(row@ =~= old(row)@ + self.flat());
    }
}

impl Default for FixedRotateRightOperation<u32> {
    /// The columns of any rotation of zero.
    fn default() -> (cols: Self)
        ensures
            forall|n: int| 0 <= n ==> cols == #[trigger] Self::witness(0, n),
    {
        let cols = FixedRotateRightOperation {
            value: Word([0, 0, 0, 0]),
            shift: Word([0, 0, 0, 0]),
            carry: Word([0, 0, 0, 0]),
        };
        assert forall|n: int| 0 <= n implies cols == #[trigger] Self::witness(0, n) by {
            reveal(FixedRotateRightOperation::witness);
            lemma_two_pow(n % 8);
            lemma_two_pow(8 - n % 8);
            assert forall|i: int| 0 <= i < 4 implies rot_shift(0, n, i) == 0 && rot_carry(0, n, i)
                == 0 && #[trigger] rot_value(0, n, i) == 0 by {
                lemma_small_mod(0, two_pow(n % 8) as nat);
                lemma_basic_div(0, two_pow(n % 8));
                assert(0 * two_pow(8 - n % 8) == 0);
            }
            assert(rot_value(0, n, 0) == 0);
            assert(rot_value(0, n, 1) == 0);
            assert(rot_value(0, n, 2) == 0);
            assert(rot_value(0, n, 3) == 0);
            assert(cols.value.0 =~= Self::witness(0, n).value.0);
            assert(cols.shift.0 =~= Self::witness(0, n).shift.0);
            assert(cols.carry.0 =~= Self::witness(0, n).carry.0);
        }
        cols
    }
}

impl FixedRotateRightOperation<u32> {
    /// The columns of the rotation of `x` by `n` bits.
    #[verifier::opaque]
    pub open spec fn witness(x: u32, n: int) -> FixedRotateRightOperation<u32> {
        FixedRotateRightOperation {
            value: Word(
                [
                    rot_value(x, n, 0) as u32,
                    rot_value(x, n, 1) as u32,
                    rot_value(x, n, 2) as u32,
                    rot_value(x, n, 3) as u32,
                ],
            ),
            shift: Word(
                [
                    rot_shift(x, n, 0) as u32,
                    rot_shift(x, n, 1) as u32,
                    rot_shift(x, n, 2) as u32,
                    rot_shift(x, n, 3) as u32,
                ],
            ),
            carry: Word(
                [
                    rot_carry(x, n, 0) as u32,
                    rot_carry(x, n, 1) as u32,
                    rot_carry(x, n, 2) as u32,
                    rot_carry(x, n, 3) as u32,
                ],
            ),
        }
    }

    /// Fills the columns for `input` rotated right by `rotation` bits, leaves
    /// one lookup for each lane in `record`, and returns the rotated word.
    pub fn populate(&mut self, record: &mut ExecutionRecord, input: u32, rotation: usize) -> (r:
        u32)
        ensures
            r == rotr(input, rotation as int),
            *final(self) == Self::witness(input, rotation as int),
            final(record).byte_lookup_events@ == old(record).byte_lookup_events@ + rotate_events(
                input,
                rotation as int,
            ),
            final(record).same_but_lookups(*old(record)),
    {
        let ghost n = rotation as int;
        let k: u32 = (rotation % 8) as u32;
        let (s3, c3, b3) = Self::shift_lane(input, rotation, 3);
        let (s2, c2, b2) = Self::shift_lane(input, rotation, 2);
        let (s1, c1, b1) = Self::shift_lane(input, rotation, 1);
        let (s0, c0, b0) = Self::shift_lane(input, rotation, 0);
        record.add_byte_lookup_event(
            ByteLookupEvent { opcode: ByteOpcode::ShrCarry, a1: s3, a2: c3, b: b3, c: k },
        );
        record.add_byte_lookup_event(
            ByteLookupEvent { opcode: ByteOpcode::ShrCarry, a1: s2, a2: c2, b: b2, c: k },
        );
        record.add_byte_lookup_event(
            ByteLookupEvent { opcode: ByteOpcode::ShrCarry, a1: s1, a2: c1, b: b1, c: k },
        );
        record.add_byte_lookup_event(
            ByteLookupEvent { opcode: ByteOpcode::ShrCarry, a1: s0, a2: c0, b: b0, c: k },
        );
        let v0: u32 = Self::join_lane(input, rotation, 0, s0, c1);
        let v1: u32 = Self::join_lane(input, rotation, 1, s1, c2);
        let v2: u32 = Self::join_lane(input, rotation, 2, s2, c3);
        let v3: u32 = Self::join_lane(input, rotation, 3, s3, c0);
        self.shift = Word([s0, s1, s2, s3]);
        self.carry = Word([c0, c1, c2, c3]);
        self.value = Word([v0, v1, v2, v3]);
        let expected: u32 = rotate_right(input, (rotation % 32) as u32);
        proof {
            reveal(rotate_events);
            reveal(FixedRotateRightOperation::witness);
            assert(rotr(input, (rotation % 32) as int) == rotr(input, n));
            assert(self.shift.0 =~= Self::witness(input, n).shift.0);
            assert(self.carry.0 =~= Self::witness(input, n).carry.0);
            assert(self.value.0 =~= Self::witness(input, n).value.0);
            assert(record.byte_lookup_events@ =~= old(record).byte_lookup_events@ + rotate_events(
                input,
                n,
            ));
        }
        expected
    }

    /// What a shift by the bits of `rotation` keeps and drops of lane `i` of
    /// the byte-rotated input, and that lane.
    fn shift_lane(input: u32, rotation: usize, i: usize) -> (r: (u32, u32, u32))
        requires
            i < 4,
        ensures
            r.0 as int == rot_shift(input, rotation as int, i as int),
            r.1 as int == rot_carry(input, rotation as int, i as int),
            r.2 as int == rot_byte(input, rotation as int, i as int),
    {
        let nb: usize = (rotation % 32) / 8;
        let k: u8 = (rotation % 8) as u8;
        let b: u8 = crate::word::byte(input, (i + nb) % 4);
        let (s, c) = shr_carry(b, k);
        (s as u32, c as u32, b as u32)
    }

    /// Lane `i` of the result, from what the lane keeps and what the lane
    /// above it drops.
    fn join_lane(input: u32, rotation: usize, i: usize, shift: u32, above: u32) -> (v: u32)
        requires
            i < 4,
            shift as int == rot_shift(input, rotation as int, i as int),
            above as int == rot_carry(
                input,
                rotation as int,
                if i == 3 {
                    0
                } else {
                    i as int + 1
                },
            ),
        ensures
            v as int == rot_value(input, rotation as int, i as int),
    {
        let k: u32 = (rotation % 8) as u32;
        proof {
            lemma_two_pow_byte(8 - k);
        }
        let multiplier: u32 = two_to(8 - k) as u32;
        proof {
            lemma_rotr_lanes(input, rotation as int);
            assert(rot_value(input, rotation as int, i as int) == shift + above * multiplier);
        }
        shift + above * multiplier
    }

    /// States the identities of a rotation by `rotation` bits on the rows
    /// where `is_real` is one.
    pub fn eval<B: ConstraintBuilder>(
        builder: &mut B,
        input: Word<B::Var>,
        rotation: usize,
        cols: FixedRotateRightOperation<B::Var>,
        is_real: B::Var,
    )
        ensures
            final(builder).state() == old(builder).state().and(rotate_relation(
                word_values::<B>(input),
                rotation as int,
                word_values::<B>(cols.shift),
                word_values::<B>(cols.carry),
                word_values::<B>(cols.value),
                B::var_value(is_real),
                B::modulus(),
            )),
    {
        let nb: usize = (rotation % 32) / 8;
        let k: u32 = (rotation % 8) as u32;
        proof {
            reveal(rotate_relation);
            lemma_two_pow_byte(8 - k);
        }
        let multiplier: u32 = two_to(8 - k) as u32;
        Self::eval_lane(
            builder,
            input.0[(3 + nb) % 4],
            k,
            multiplier,
            cols.shift.0[3],
            cols.carry.0[3],
            cols.carry.0[0],
            cols.value.0[3],
            is_real,
        );
        Self::eval_lane(
            builder,
            input.0[(2 + nb) % 4],
            k,
            multiplier,
            cols.shift.0[2],
            cols.carry.0[2],
            cols.carry.0[3],
            cols.value.0[2],
            is_real,
        );
        Self::eval_lane(
            builder,
            input.0[(1 + nb) % 4],
            k,
            multiplier,
            cols.shift.0[1],
            cols.carry.0[1],
            cols.carry.0[2],
            cols.value.0[1],
            is_real,
        );
        Self::eval_lane(
            builder,
            input.0[nb % 4],
            k,
            multiplier,
            cols.shift.0[0],
            cols.carry.0[0],
            cols.carry.0[1],
            cols.value.0[0],
            is_real,
        );
    }

    /// States the identities of one lane.
    fn eval_lane<B: ConstraintBuilder>(
        builder: &mut B,
        rotated: B::Var,
        bits: u32,
        multiplier: u32,
        shift: B::Var,
        carry: B::Var,
        above: B::Var,
        value: B::Var,
        is_real: B::Var,
    )
        requires
            bits < 8,
            multiplier as int == two_pow(8 - bits),
        ensures
            final(builder).state() == old(builder).state().and(rotate_lane_relation(
                B::var_value(rotated),
                bits as int,
                B::var_value(shift),
                B::var_value(carry),
                B::var_value(above),
                B::var_value(value),
                B::var_value(is_real),
                B::modulus(),
            )),
    {
        let s = B::lift(shift);
        builder.send_byte(
            ByteOpcode::ShrCarry,
            &s,
            &B::lift(carry),
            &B::lift(rotated),
            &B::constant(bits),
            &B::lift(is_real),
        );
        let scaled = B::times(&B::lift(above), &B::constant(multiplier));
        let expected = B::plus(&s, &scaled);
        let difference = B::minus(&B::lift(value), &expected);
        builder.assert_zero(&difference);
    }
}

/// The columns that `populate` fills satisfy the identities that `eval`
/// states, in every field that holds a byte.
pub proof fn lemma_rotate_witness_satisfies(x: u32, n: int, is_real: int, p: int)
    requires
        p > 256,
        0 <= n,
    ensures
        rotate_relation(
            lanes(x),
            n,
            cells(FixedRotateRightOperation::witness(x, n).shift),
            cells(FixedRotateRightOperation::witness(x, n).carry),
            cells(FixedRotateRightOperation::witness(x, n).value),
            is_real,
            p,
        ),
        cells(FixedRotateRightOperation::witness(x, n).value) == lanes(rotr(x, n)),
{
    reveal(rotate_relation);
    reveal(FixedRotateRightOperation::witness);
    lemma_lanes(x);
    lemma_rotr_lane_values(x, n);
    let k = n % 8;
    let nb = (n % 32) / 8;
    lemma_two_pow(k);
    lemma_small_mod(k as nat, p as nat);
    lemma_small_mod(0, p as nat);
    assert forall|i: int| 0 <= i < 4 implies byte_lookup_holds(
        ByteOpcode::ShrCarry,
        #[trigger] rot_shift(x, n, i),
        rot_carry(x, n, i),
        rot_byte(x, n, i),
        k,
        is_real,
        p,
    ) && rot_shift(x, n, i) >= 0 && 0 <= rot_carry(x, n, i) < 256 by {
        let b = rot_byte(x, n, i);
        lemma_fundamental_div_mod(b, two_pow(k));
        lemma_mod_bound(b, two_pow(k));
        lemma_div_pos_is_pos(b, two_pow(k));
        assert(rot_shift(x, n, i) <= b && rot_carry(x, n, i) <= b) by (nonlinear_arith)
            requires
                b == two_pow(k) * rot_shift(x, n, i) + rot_carry(x, n, i),
                0 <= rot_carry(x, n, i),
                0 <= rot_shift(x, n, i),
                two_pow(k) >= 1,
        ;
        lemma_small_mod(b as nat, p as nat);
        lemma_small_mod(rot_shift(x, n, i) as nat, p as nat);
        lemma_small_mod(rot_carry(x, n, i) as nat, p as nat);
    }
    let w = FixedRotateRightOperation::witness(x, n);
    assert(rot_shift(x, n, 0) >= 0 && rot_shift(x, n, 1) >= 0 && rot_shift(x, n, 2) >= 0
        && rot_shift(x, n, 3) >= 0);
    assert(lanes(x)[(3 + nb) % 4] == rot_byte(x, n, 3));
    assert(lanes(x)[(2 + nb) % 4] == rot_byte(x, n, 2));
    assert(lanes(x)[(1 + nb) % 4] == rot_byte(x, n, 1));
    assert(lanes(x)[(0 + nb) % 4] == rot_byte(x, n, 0));
    assert(cells(w.value)[3] == cells(w.shift)[3] + cells(w.carry)[0] * two_pow(8 - k));
    assert(cells(w.value)[2] == cells(w.shift)[2] + cells(w.carry)[3] * two_pow(8 - k));
    assert(cells(w.value)[1] == cells(w.shift)[1] + cells(w.carry)[2] * two_pow(8 - k));
    assert(cells(w.value)[0] == cells(w.shift)[0] + cells(w.carry)[1] * two_pow(8 - k));
    assert(cells(w.value) =~= lanes(rotr(x, n)));
}

/// The identities of a lane of a rotation are sound: the table says what
/// the lane keeps and drops, and the lane of the result is what it keeps
/// under what the lane above drops.
proof fn lemma_rotate_lane_sound(
    rotated: int,
    bits: int,
    shift: int,
    carry: int,
    above: int,
    value: int,
    p: int,
)
    requires
        p > 512,
        0 <= bits < 8,
        0 <= rotated < p,
        0 <= shift < p,
        0 <= carry < p,
        0 <= above < 256,
        0 <= value < p,
        0 <= above * two_pow(8 - bits) <= 256,
        rotate_lane_relation(rotated, bits, shift, carry, above, value, 1, p),
    ensures
        0 <= rotated < 256,
        shift == rotated / two_pow(bits),
        carry == rotated % two_pow(bits),
        0 <= shift < 256,
        0 <= carry < 256,
        value == shift + above * two_pow(8 - bits),
{
    lemma_lookup_sent(ByteOpcode::ShrCarry, shift, carry, rotated, bits, p);
    lemma_two_pow(bits);
    lemma_fundamental_div_mod(rotated, two_pow(bits));
    lemma_mod_bound(rotated, two_pow(bits));
    lemma_div_pos_is_pos(rotated, two_pow(bits));
    assert(shift <= rotated && carry <= rotated) by (nonlinear_arith)
        requires
            rotated == two_pow(bits) * shift + carry,
            0 <= carry,
            0 <= shift,
            two_pow(bits) >= 1,
    ;
    lemma_small_vanishes(value - (shift + above * two_pow(8 - bits)), p);
}

/// The identities of a rotation are sound: in a field of more than five
/// hundred and twelve elements, columns that satisfy them on a real row hold
/// bytes, and the lanes of the result spell the word that the lanes of the
/// input spell, rotated.
pub proof fn lemma_rotate_sound(
    input: Seq<int>,
    n: int,
    shift: Seq<int>,
    carry: Seq<int>,
    value: Seq<int>,
    p: int,
)
    requires
        p > 512,
        0 <= n,
        input.len() == 4,
        shift.len() == 4,
        carry.len() == 4,
        value.len() == 4,
        canonical(input, p),
        canonical(shift, p),
        canonical(carry, p),
        canonical(value, p),
        rotate_relation(input, n, shift, carry, value, 1, p),
    ensures
        all_bytes(input),
        all_bytes(value),
        word_from(value) == rotr(word_from(input) as u32, n),
{
    reveal(rotate_relation);
    reveal(canonical);
    reveal(all_bytes);
    let nb = (n % 32) / 8;
    let k = n % 8;
    let mm = two_pow(8 - k);
    lemma_two_pow(k);
    lemma_two_pow(8 - k);
    lemma_two_pow_values();
    lemma_two_pow_adds(k, 8 - k);
    let r0 = input[(0 + nb) % 4];
    let r1 = input[(1 + nb) % 4];
    let r2 = input[(2 + nb) % 4];
    let r3 = input[(3 + nb) % 4];
    assert(0 <= r0 < p && 0 <= r1 < p && 0 <= r2 < p && 0 <= r3 < p);
    assert(0 <= shift[0] < p && 0 <= shift[1] < p && 0 <= shift[2] < p && 0 <= shift[3] < p);
    assert(0 <= carry[0] < p && 0 <= carry[1] < p && 0 <= carry[2] < p && 0 <= carry[3] < p);
    assert(0 <= value[0] < p && 0 <= value[1] < p && 0 <= value[2] < p && 0 <= value[3] < p);
    // What the table says of every lane.
    lemma_lookup_sent(ByteOpcode::ShrCarry, shift[0], carry[0], r0, k, p);
    lemma_lookup_sent(ByteOpcode::ShrCarry, shift[1], carry[1], r1, k, p);
    lemma_lookup_sent(ByteOpcode::ShrCarry, shift[2], carry[2], r2, k, p);
    lemma_lookup_sent(ByteOpcode::ShrCarry, shift[3], carry[3], r3, k, p);
    lemma_dropped_bound(r0, k);
    lemma_dropped_bound(r1, k);
    lemma_dropped_bound(r2, k);
    lemma_dropped_bound(r3, k);
    lemma_rotate_lane_sound(r3, k, shift[3], carry[3], carry[0], value[3], p);
    lemma_rotate_lane_sound(r2, k, shift[2], carry[2], carry[3], value[2], p);
    lemma_rotate_lane_sound(r1, k, shift[1], carry[1], carry[2], value[1], p);
    lemma_rotate_lane_sound(r0, k, shift[0], carry[0], carry[1], value[0], p);
    assert(all_bytes(input)) by {
        assert forall|i: int| 0 <= i < 4 implies 0 <= #[trigger] input[i] < 256 by {
            if i == (0 + nb) % 4 {
            } else if i == (1 + nb) % 4 {
            } else if i == (2 + nb) % 4 {
            } else {
                assert(i == (3 + nb) % 4);
            }
        }
    }
    lemma_lanes_of_bytes(input);
    let x = word_from(input) as u32;
    lemma_rotr_lane_values(x, n);
    lemma_lanes(rotr(x, n));
    assert forall|i: int| 0 <= i < 4 implies value[i] == #[trigger] rot_value(x, n, i) by {
        assert(lanes(x)[(i + nb) % 4] == input[(i + nb) % 4]);
        assert(rot_byte(x, n, i) == input[(i + nb) % 4]);
        if i == 0 {
            assert(lanes(x)[(1 + nb) % 4] == input[(1 + nb) % 4]);
        } else if i == 1 {
            assert(lanes(x)[(2 + nb) % 4] == input[(2 + nb) % 4]);
        } else if i == 2 {
            assert(lanes(x)[(3 + nb) % 4] == input[(3 + nb) % 4]);
        } else {
            assert(lanes(x)[(0 + nb) % 4] == input[(0 + nb) % 4]);
        }
    }
    assert(value[0] == lane(rotr(x, n), 0) && value[1] == lane(rotr(x, n), 1) && value[2]
        == lane(rotr(x, n), 2) && value[3] == lane(rotr(x, n), 3)) by {
        assert(value[0] == rot_value(x, n, 0));
        assert(value[1] == rot_value(x, n, 1));
        assert(value[2] == rot_value(x, n, 2));
        assert(value[3] == rot_value(x, n, 3));
    }
    assert forall|i: int| 0 <= i < 4 implies 0 <= #[trigger] value[i] < 256 by {
        assert(lane(rotr(x, n), i) == lane(rotr(x, n), i));
    }
}

/// What a byte drops in a shift by `k` bits, moved up to the top of the
/// lane below, is at most a byte.
proof fn lemma_dropped_bound(b: int, k: int)
    requires
        0 <= k < 8,
    ensures
        0 <= b % two_pow(k) < 256,
        0 <= (b % two_pow(k)) * two_pow(8 - k) <= 256,
{
    lemma_two_pow(k);
    lemma_two_pow(8 - k);
    lemma_two_pow_values();
    lemma_two_pow_adds(k, 8 - k);
    lemma_two_pow_byte(k);
    lemma_mod_bound(b, two_pow(k));
    let m = two_pow(k);
    let mm = two_pow(8 - k);
    let c = b % m;
    assert(0 <= c * mm <= 256) by (nonlinear_arith)
        requires
            0 <= c < m,
            m * mm == 256,
            0 < mm,
    ;
}

} // verus!
