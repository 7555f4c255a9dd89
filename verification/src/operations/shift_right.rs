//! Shift of a word to the right by a fixed number of bits.

use vstd::prelude::*;
use crate::record::ExecutionRecord;
use crate::bytes::{
    ByteLookupEvent, ByteOpcode, two_pow, two_to, shr_carry, lemma_two_pow, lemma_two_pow_adds,
    lemma_two_pow_values, lemma_two_pow_byte,
};
use crate::builder::{
    ConstraintBuilder, vanishes, word_values, canonical, all_bytes, lemma_lookup_sent,
    lemma_small_vanishes,
};
use crate::operations::add::word_from;
use crate::word::lemma_lanes_of_bytes;
use crate::bytes::byte_lookup_holds;
use crate::operations::rotate_right::lemma_shift_lanes;
use crate::word::{Word, lane, lanes, cells, from_lanes, lemma_lanes, lemma_from_lanes_unique};
use vstd::arithmetic::div_mod::{
    lemma_fundamental_div_mod, lemma_mod_bound, lemma_div_pos_is_pos, lemma_div_denominator,
    lemma_mod_multiples_vanish, lemma_small_mod, lemma_basic_div,
};

verus! {

/// `x` shifted right by `n` modulo thirty-two bits.
pub open spec fn shr(x: u32, n: int) -> u32 {
    (x as int / two_pow(n % 32)) as u32
}

/// Lane `i` of `x` after the whole bytes of a shift by `n` have moved; zeros
/// come in at the top.
pub open spec fn shr_lane(x: u32, n: int, i: int) -> int {
    if i + (n % 32) / 8 < 4 {
        lane(x, i + (n % 32) / 8)
    } else {
        0
    }
}

/// What stays in lane `i` when the moved lanes shift by the remaining bits.
pub open spec fn shr_kept(x: u32, n: int, i: int) -> int {
    shr_lane(x, n, i) / two_pow(n % 8)
}

/// What leaves lane `i` when the moved lanes shift by the remaining bits.
pub open spec fn shr_dropped(x: u32, n: int, i: int) -> int {
    shr_lane(x, n, i) % two_pow(n % 8)
}

/// Lane `i` of the shifted word: what stays of the lane, under what the lane
/// above it lost; nothing comes into the top lane.
pub open spec fn shr_value(x: u32, n: int, i: int) -> int {
    if i == 3 {
        shr_kept(x, n, 3)
    } else {
        shr_kept(x, n, i) + shr_dropped(x, n, i + 1) * two_pow(8 - n % 8)
    }
}

/// Moving the lanes of a word down by `nb` places shifts it by `nb` bytes.
proof fn lemma_shr_bytes(x: u32, nb: int)
    requires
        0 <= nb < 4,
    ensures
        from_lanes(
            shr_lane(x, 8 * nb, 0),
            shr_lane(x, 8 * nb, 1),
            shr_lane(x, 8 * nb, 2),
            shr_lane(x, 8 * nb, 3),
        ) == x as int / two_pow(8 * nb),
{
    reveal(two_pow);
    lemma_lanes(x);
}

/// The lanes that the shift gadget computes are the lanes of the shifted
/// word.
pub proof fn lemma_shr_lanes(x: u32, n: int)
    requires
        0 <= n,
    ensures
        from_lanes(shr_value(x, n, 0), shr_value(x, n, 1), shr_value(x, n, 2), shr_value(x, n, 3))
            == shr(x, n),
        forall|i: int| 0 <= i < 4 ==> 0 <= #[trigger] shr_value(x, n, i) < 256,
        forall|i: int| 0 <= i < 4 ==> lane(shr(x, n), i) == #[trigger] shr_value(x, n, i),
{
    let r = n % 32;
    let nb = r / 8;
    let k = n % 8;
    let m = two_pow(k);
    let mm = two_pow(8 - k);
    let pa = two_pow(8 * nb);
    lemma_two_pow(k);
    lemma_two_pow(8 * nb);
    lemma_two_pow(r);
    lemma_two_pow_values();
    assert(m * mm == 256) by {
        lemma_two_pow_adds(k, 8 - k);
    }
    assert(pa * m == two_pow(r)) by {
        lemma_two_pow_adds(8 * nb, k);
    }
    let b0 = shr_lane(x, n, 0);
    let b1 = shr_lane(x, n, 1);
    let b2 = shr_lane(x, n, 2);
    let b3 = shr_lane(x, n, 3);
    assert(0 <= b0 < 256 && 0 <= b1 < 256 && 0 <= b2 < 256 && 0 <= b3 < 256) by {
        lemma_lanes(x);
    }
    let y = from_lanes(b0, b1, b2, b3);
    assert(y == x as int / pa) by {
        lemma_shr_bytes(x, nb);
        assert(forall|i: int| 0 <= i < 4 ==> shr_lane(x, n, i) == shr_lane(x, 8 * nb, i));
    }
    lemma_shift_lanes(b0, b1, b2, b3, m, mm);
    assert(y % m == b0 % m) by {
        let rest = mm * (b1 + 256 * b2 + 65536 * b3);
        assert(y == m * rest + b0) by (nonlinear_arith)
            requires
                y == b0 + 256 * b1 + 65536 * b2 + 16777216 * b3,
                rest == mm * (b1 + 256 * b2 + 65536 * b3),
                m * mm == 256,
        ;
        lemma_mod_multiples_vanish(rest, b0, m);
    }
    let v = from_lanes(
        shr_value(x, n, 0),
        shr_value(x, n, 1),
        shr_value(x, n, 2),
        shr_value(x, n, 3),
    );
    assert(v == y / m) by {
        assert((b0 % m) * (mm * 16777216) == 16777216 * ((b0 % m) * mm)) by (nonlinear_arith);
    }
    assert(y / m == x as int / two_pow(r)) by {
        lemma_div_denominator(x as int, pa, m);
    }
    assert(0 <= shr_value(x, n, 3) < 256) by {
        lemma_two_pow(8 - k);
        lemma_mod_bound(b0, m);
        assert(0 <= (b0 % m) * mm) by (nonlinear_arith)
            requires
                0 <= b0 % m,
                0 < mm,
        ;
        lemma_div_pos_is_pos(b3, m);
    }
    assert(0 <= v < 0x1_0000_0000);
    lemma_from_lanes_unique(
        shr_value(x, n, 0),
        shr_value(x, n, 1),
        shr_value(x, n, 2),
        shr_value(x, n, 3),
        shr(x, n),
    );
}

/// Zero shifted is zero.
pub proof fn lemma_shr_zero(n: int)
    requires
        0 <= n,
    ensures
        shr(0, n) == 0,
{
    lemma_two_pow(n % 32);
    lemma_basic_div(0, two_pow(n % 32));
}

/// `x` shifted right by `n` modulo thirty-two bits.
pub fn shift_right(x: u32, n: u32) -> (r: u32)
    ensures
        r == shr(x, n as int),
{
    let k: u32 = n % 32;
    let m: u64 = two_to(k);
    proof {
        lemma_two_pow(k as int);
        lemma_div_pos_is_pos(x as int, m as int);
        lemma_fundamental_div_mod(x as int, m as int);
        lemma_mod_bound(x as int, m as int);
        assert(x as int / m as int <= x) by (nonlinear_arith)
            requires
                x == m * (x as int / m as int) + x as int % m as int,
                0 <= x as int % m as int,
                0 <= x as int / m as int,
                m >= 1,
        ;
    }
    (x as u64 / m) as u32
}

/// The lookup that shifts lane `i` of the byte-shifted word.
pub open spec fn shift_event(x: u32, n: int, i: int) -> ByteLookupEvent {
    ByteLookupEvent {
        opcode: ByteOpcode::ShrCarry,
        a1: shr_kept(x, n, i) as u32,
        a2: shr_dropped(x, n, i) as u32,
        b: shr_lane(x, n, i) as u32,
        c: (n % 8) as u32,
    }
}

/// The lookup events that one shift leaves, highest lane first.
#[verifier::opaque]
pub open spec fn shift_events(x: u32, n: int) -> Seq<ByteLookupEvent> {
    seq![shift_event(x, n, 3), shift_event(x, n, 2), shift_event(x, n, 1), shift_event(x, n, 0)]
}

/// The lane of `input` that a shift by `nb` bytes moves to lane `i`, and
/// zero where it moves none.
pub open spec fn moved_lane(input: Seq<int>, nb: int, i: int) -> int {
    if i + nb < 4 {
        input[i + nb]
    } else {
        0
    }
}

/// The identities of a shift by `n` bits over the lanes of the input and the
/// three words of columns: the table shifts each moved lane, and each lane
/// of the result is the shifted lane under the carry of the lane above it,
/// the top lane under none.
#[verifier::opaque]
pub open spec fn shift_relation(
    input: Seq<int>,
    n: int,
    shift: Seq<int>,
    carry: Seq<int>,
    value: Seq<int>,
    is_real: int,
    p: int,
) -> bool {
    let nb = (n % 32) / 8;
    let k = n % 8;
    &&& byte_lookup_holds(
        ByteOpcode::ShrCarry,
        shift[3],
        carry[3],
        moved_lane(input, nb, 3),
        k,
        is_real,
        p,
    )
    &&& byte_lookup_holds(
        ByteOpcode::ShrCarry,
        shift[2],
        carry[2],
        moved_lane(input, nb, 2),
        k,
        is_real,
        p,
    )
    &&& vanishes(value[2] - (shift[2] + carry[3] * two_pow(8 - k)), p)
    &&& byte_lookup_holds(
        ByteOpcode::ShrCarry,
        shift[1],
        carry[1],
        moved_lane(input, nb, 1),
        k,
        is_real,
        p,
    )
    &&& vanishes(value[1] - (shift[1] + carry[2] * two_pow(8 - k)), p)
    &&& byte_lookup_holds(
        ByteOpcode::ShrCarry,
        shift[0],
        carry[0],
        moved_lane(input, nb, 0),
        k,
        is_real,
        p,
    )
    &&& vanishes(value[0] - (shift[0] + carry[1] * two_pow(8 - k)), p)
    &&& vanishes(value[3] - shift[3], p)
}

/// Columns of one shift: the lanes of the result, and for each lane of the
/// byte-shifted input what a shift by the remaining bits keeps and drops.
#[derive(Clone, Copy, Debug)]
pub struct FixedShiftRightOperation<T> {
    pub value: Word<T>,
    pub shift: Word<T>,
    pub carry: Word<T>,
}

impl<T: Copy> FixedShiftRightOperation<T> {
    /// The cells of the columns in the order of a row.
    pub open spec fn flat(self) -> Seq<T> {
        self.value.0@ + self.shift.0@ + self.carry.0@
    }

    /// The columns whose cells are the twelve cells of `row` from `start`
    /// on.
    pub fn from_row(row: &[T], start: usize) -> (cols: Self)
        requires
            start + 12 <= row.len(),
        ensures
            cols.flat() == row@.subrange(start as int, start + 12),
    {
        let cols = FixedShiftRightOperation {
            value: Word(crate::trace::read_array(row, start)),
            shift: Word(crate::trace::read_array(row, start + 4)),
            carry: Word(crate::trace::read_array(row, start + 8)),
        };
        assert(cols.flat() =~= row@.subrange(start as int, start + 12));
        cols
    }

    /// Appends the cells of the columns to `row`.
    pub fn append_to(&self, row: &mut Vec<T>)
        ensures
            final(row)@ == old(row)@ + self.flat(),
            self.flat().len() == 12,
    {
        crate::trace::append_array(&self.value.0, row);
        crate::trace::append_array(&self.shift.0, row);
        crate::trace::append_array(&self.carry.0, row);
        assert(row@ =~= old(row)@ + self.flat());
    }
}

impl Default for FixedShiftRightOperation<u32> {
    /// The columns of any shift of zero.
    fn default() -> (cols: Self)
        ensures
            forall|n: int| 0 <= n ==> cols == #[trigger] Self::witness(0, n),
    {
        let cols = FixedShiftRightOperation {
            value: Word([0, 0, 0, 0]),
            shift: Word([0, 0, 0, 0]),
            carry: Word([0, 0, 0, 0]),
        };
        assert forall|n: int| 0 <= n implies cols == #[trigger] Self::witness(0, n) by {
            reveal(FixedShiftRightOperation::witness);
            lemma_two_pow(n % 8);
            lemma_two_pow(8 - n % 8);
            assert forall|i: int| 0 <= i < 4 implies shr_kept(0, n, i) == 0 && shr_dropped(0, n, i)
                == 0 && #[trigger] shr_value(0, n, i) == 0 by {
                lemma_small_mod(0, two_pow(n % 8) as nat);
                lemma_basic_div(0, two_pow(n % 8));
                assert(0 * two_pow(8 - n % 8) == 0);
            }
            assert(shr_value(0, n, 0) == 0);
            assert(shr_value(0, n, 1) == 0);
            assert(shr_value(0, n, 2) == 0);
            assert(shr_value(0, n, 3) == 0);
            assert(cols.value.0 =~= Self::witness(0, n).value.0);
            assert(cols.shift.0 =~= Self::witness(0, n).shift.0);
            assert(cols.carry.0 =~= Self::witness(0, n).carry.0);
        }
        cols
    }
}

impl FixedShiftRightOperation<u32> {
    /// The columns of the shift of `x` by `n` bits.
    #[verifier::opaque]
    pub open spec fn witness(x: u32, n: int) -> FixedShiftRightOperation<u32> {
        FixedShiftRightOperation {
            value: Word(
                [
                    shr_value(x, n, 0) as u32,
                    shr_value(x, n, 1) as u32,
                    shr_value(x, n, 2) as u32,
                    shr_value(x, n, 3) as u32,
                ],
            ),
            shift: Word(
                [
                    shr_kept(x, n, 0) as u32,
                    shr_kept(x, n, 1) as u32,
                    shr_kept(x, n, 2) as u32,
                    shr_kept(x, n, 3) as u32,
                ],
            ),
            carry: Word(
                [
                    shr_dropped(x, n, 0) as u32,
                    shr_dropped(x, n, 1) as u32,
                    shr_dropped(x, n, 2) as u32,
                    shr_dropped(x, n, 3) as u32,
                ],
            ),
        }
    }

    /// Fills the columns for `input` shifted right by `rotation` bits, leaves
    /// one lookup for each lane in `record`, and returns the shifted word.
    pub fn populate(&mut self, record: &mut ExecutionRecord, input: u32, rotation: usize) -> (r:
        u32)
        ensures
            r == shr(input, rotation as int),
            *final(self) == Self::witness(input, rotation as int),
            final(record).byte_lookup_events@ == old(record).byte_lookup_events@ + shift_events(
                input,
                rotation as int,
            ),
            final(record).same_but_lookups(*old(record)),
    {
        let ghost n = rotation as int;
        let k: u32 = (rotation % 8) as u32;
        let (s3, c3, b3) = Self::shift_lane(input, rotation, 3);
        let (s2, c2, b2) = Self::shift_lane(input, rotation, 2);
        let (s1, c1, b1) = Self::shift_lane(input, rotation, 1);
        let (s0, c0, b0) = Self::shift_lane(input, rotation, 0);
        record.add_byte_lookup_event(
            ByteLookupEvent { opcode: ByteOpcode::ShrCarry, a1: s3, a2: c3, b: b3, c: k },
        );
        record.add_byte_lookup_event(
            ByteLookupEvent { opcode: ByteOpcode::ShrCarry, a1: s2, a2: c2, b: b2, c: k },
        );
        record.add_byte_lookup_event(
            ByteLookupEvent { opcode: ByteOpcode::ShrCarry, a1: s1, a2: c1, b: b1, c: k },
        );
        record.add_byte_lookup_event(
            ByteLookupEvent { opcode: ByteOpcode::ShrCarry, a1: s0, a2: c0, b: b0, c: k },
        );
        let v0: u32 = Self::join_lane(input, rotation, 0, s0, c1);
        let v1: u32 = Self::join_lane(input, rotation, 1, s1, c2);
        let v2: u32 = Self::join_lane(input, rotation, 2, s2, c3);
        let v3: u32 = s3;
        self.shift = Word([s0, s1, s2, s3]);
        self.carry = Word([c0, c1, c2, c3]);
        self.value = Word([v0, v1, v2, v3]);
        let expected: u32 = shift_right(input, (rotation % 32) as u32);
        proof {
            reveal(shift_events);
            reveal(FixedShiftRightOperation::witness);
            assert(shr(input, (rotation % 32) as int) == shr(input, n));
            assert(self.shift.0 =~= Self::witness(input, n).shift.0);
            assert(self.carry.0 =~= Self::witness(input, n).carry.0);
            assert(self.value.0 =~= Self::witness(input, n).value.0);
            assert(record.byte_lookup_events@ =~= old(record).byte_lookup_events@ + shift_events(
                input,
                n,
            ));
        }
        expected
    }

    /// States the identities of a shift by `rotation` bits on the rows where
    /// `is_real` is one.
    pub fn eval<B: ConstraintBuilder>(
        builder: &mut B,
        input: Word<B::Var>,
        rotation: usize,
        cols: FixedShiftRightOperation<B::Var>,
        is_real: B::Var,
    )
        ensures
            final(builder).state() == old(builder).state().and(
                shift_relation(
                    word_values::<B>(input),
                    rotation as int,
                    word_values::<B>(cols.shift),
                    word_values::<B>(cols.carry),
                    word_values::<B>(cols.value),
                    B::var_value(is_real),
                    B::modulus(),
                ),
            ),
    {
        let nb: usize = (rotation % 32) / 8;
        let k: u32 = (rotation % 8) as u32;
        proof {
            reveal(shift_relation);
            lemma_two_pow_byte(8 - k);
        }
        let multiplier = B::constant(two_to(8 - k) as u32);
        let bits = B::constant(k);
        let m = B::lift(is_real);
        // From the top lane down: each lane needs the carry of the lane above.
        let s3 = B::lift(cols.shift.0[3]);
        builder.send_byte(
            ByteOpcode::ShrCarry,
            &s3,
            &B::lift(cols.carry.0[3]),
            &Self::moved::<B>(input, nb, 3),
            &bits,
            &m,
        );
        let s2 = B::lift(cols.shift.0[2]);
        builder.send_byte(
            ByteOpcode::ShrCarry,
            &s2,
            &B::lift(cols.carry.0[2]),
            &Self::moved::<B>(input, nb, 2),
            &bits,
            &m,
        );
        let v2 = B::plus(&s2, &B::times(&B::lift(cols.carry.0[3]), &multiplier));
        builder.assert_zero(&B::minus(&B::lift(cols.value.0[2]), &v2));
        let s1 = B::lift(cols.shift.0[1]);
        builder.send_byte(
            ByteOpcode::ShrCarry,
            &s1,
            &B::lift(cols.carry.0[1]),
            &Self::moved::<B>(input, nb, 1),
            &bits,
            &m,
        );
        let v1 = B::plus(&s1, &B::times(&B::lift(cols.carry.0[2]), &multiplier));
        builder.assert_zero(&B::minus(&B::lift(cols.value.0[1]), &v1));
        let s0 = B::lift(cols.shift.0[0]);
        builder.send_byte(
            ByteOpcode::ShrCarry,
            &s0,
            &B::lift(cols.carry.0[0]),
            &Self::moved::<B>(input, nb, 0),
            &bits,
            &m,
        );
        let v0 = B::plus(&s0, &B::times(&B::lift(cols.carry.0[1]), &multiplier));
        builder.assert_zero(&B::minus(&B::lift(cols.value.0[0]), &v0));
        // Nothing comes into the top lane: this is a shift, not a rotation.
        builder.assert_zero(&B::minus(&B::lift(cols.value.0[3]), &s3));
    }

    /// The lane of `input` that a shift by `nb` bytes moves to lane `i`, or
    /// zero.
    fn moved<B: ConstraintBuilder>(input: Word<B::Var>, nb: usize, i: usize) -> (e: B::Expr)
        requires
            i < 4,
            nb < 4,
        ensures
            B::expr_value(e) == moved_lane(word_values::<B>(input), nb as int, i as int),
    {
        if i + nb < 4 {
            B::lift(input.0[i + nb])
        } else {
            B::constant(0)
        }
    }

    /// What a shift by the bits of `rotation` keeps and drops of lane `i` of
    /// the byte-shifted input, and that lane.
    fn shift_lane(input: u32, rotation: usize, i: usize) -> (r: (u32, u32, u32))
        requires
            i < 4,
        ensures
            r.0 as int == shr_kept(input, rotation as int, i as int),
            r.1 as int == shr_dropped(input, rotation as int, i as int),
            r.2 as int == shr_lane(input, rotation as int, i as int),
    {
        let nb: usize = (rotation % 32) / 8;
        let k: u8 = (rotation % 8) as u8;
        let b: u8 = if i + nb < 4 {
            crate::word::byte(input, i + nb)
        } else {
            0
        };
        let (s, c) = shr_carry(b, k);
        (s as u32, c as u32, b as u32)
    }

    /// Lane `i` of the result below the top, from what the lane keeps and
    /// what the lane above it drops.
    fn join_lane(input: u32, rotation: usize, i: usize, kept: u32, above: u32) -> (v: u32)
        requires
            i < 3,
            kept as int == shr_kept(input, rotation as int, i as int),
            above as int == shr_dropped(input, rotation as int, i as int + 1),
        ensures
            v as int == shr_value(input, rotation as int, i as int),
    {
        let k: u32 = (rotation % 8) as u32;
        proof {
            lemma_two_pow_byte(8 - k);
        }
        let multiplier: u32 = two_to(8 - k) as u32;
        proof {
            lemma_shr_lanes(input, rotation as int);
            assert(shr_value(input, rotation as int, i as int) == kept + above * multiplier);
        }
        kept + above * multiplier
    }
}

/// The columns that `populate` fills satisfy the identities that `eval`
/// states, whether the row is real or not, in every field that holds a byte.
pub proof fn lemma_shift_witness_satisfies(x: u32, n: int, is_real: int, p: int)
    requires
        p > 256,
        0 <= n,
    ensures
        shift_relation(
            lanes(x),
            n,
            cells(FixedShiftRightOperation::witness(x, n).shift),
            cells(FixedShiftRightOperation::witness(x, n).carry),
            cells(FixedShiftRightOperation::witness(x, n).value),
            is_real,
            p,
        ),
        cells(FixedShiftRightOperation::witness(x, n).value) == lanes(shr(x, n)),
{
    reveal(shift_relation);
    reveal(FixedShiftRightOperation::witness);
    lemma_lanes(x);
    lemma_shr_lanes(x, n);
    let k = n % 8;
    let nb = (n % 32) / 8;
    lemma_two_pow(k);
    lemma_two_pow(8 - k);
    lemma_small_mod(k as nat, p as nat);
    lemma_small_mod(0, p as nat);
    assert forall|i: int| 0 <= i < 4 implies byte_lookup_holds(
        ByteOpcode::ShrCarry,
        #[trigger] shr_kept(x, n, i),
        shr_dropped(x, n, i),
        shr_lane(x, n, i),
        k,
        is_real,
        p,
    ) && shr_kept(x, n, i) >= 0 && 0 <= shr_dropped(x, n, i) < 256 by {
        let b = shr_lane(x, n, i);
        lemma_fundamental_div_mod(b, two_pow(k));
        lemma_mod_bound(b, two_pow(k));
        lemma_div_pos_is_pos(b, two_pow(k));
        assert(shr_kept(x, n, i) <= b && shr_dropped(x, n, i) <= b) by (nonlinear_arith)
            requires
                b == two_pow(k) * shr_kept(x, n, i) + shr_dropped(x, n, i),
                0 <= shr_dropped(x, n, i),
                0 <= shr_kept(x, n, i),
                two_pow(k) >= 1,
        ;
        lemma_small_mod(b as nat, p as nat);
        lemma_small_mod(shr_kept(x, n, i) as nat, p as nat);
        lemma_small_mod(shr_dropped(x, n, i) as nat, p as nat);
    }
    let w = FixedShiftRightOperation::witness(x, n);
    assert(shr_kept(x, n, 0) >= 0 && shr_kept(x, n, 1) >= 0 && shr_kept(x, n, 2) >= 0
        && shr_kept(x, n, 3) >= 0);
    assert(moved_lane(lanes(x), nb, 3) == shr_lane(x, n, 3));
    assert(moved_lane(lanes(x), nb, 2) == shr_lane(x, n, 2));
    assert(moved_lane(lanes(x), nb, 1) == shr_lane(x, n, 1));
    assert(moved_lane(lanes(x), nb, 0) == shr_lane(x, n, 0));
    assert(cells(w.value)[3] == cells(w.shift)[3]);
    assert(cells(w.value)[2] == cells(w.shift)[2] + cells(w.carry)[3] * two_pow(8 - k));
    assert(cells(w.value)[1] == cells(w.shift)[1] + cells(w.carry)[2] * two_pow(8 - k));
    assert(cells(w.value)[0] == cells(w.shift)[0] + cells(w.carry)[1] * two_pow(8 - k));
    assert(cells(w.value) =~= lanes(shr(x, n)));
}

/// The identities of a shift are sound: in a field of more than five
/// hundred and twelve elements, columns that satisfy them on a real row,
/// for an input of bytes, hold in the lanes of the result the word that the
/// lanes of the input spell, shifted.
pub proof fn lemma_shift_sound(
    input: Seq<int>,
    n: int,
    shift: Seq<int>,
    carry: Seq<int>,
    value: Seq<int>,
    p: int,
)
    requires
        p > 512,
        0 <= n,
        input.len() == 4,
        shift.len() == 4,
        carry.len() == 4,
        value.len() == 4,
        all_bytes(input),
        canonical(shift, p),
        canonical(carry, p),
        canonical(value, p),
        shift_relation(input, n, shift, carry, value, 1, p),
    ensures
        all_bytes(value),
        word_from(value) == shr(word_from(input) as u32, n),
{
    reveal(shift_relation);
    reveal(canonical);
    reveal(all_bytes);
    let nb = (n % 32) / 8;
    let k = n % 8;
    lemma_two_pow(k);
    lemma_two_pow(8 - k);
    lemma_lanes_of_bytes(input);
    let x = word_from(input) as u32;
    lemma_shr_lanes(x, n);
    lemma_lanes(shr(x, n));
    assert(0 <= shift[0] < p && 0 <= shift[1] < p && 0 <= shift[2] < p && 0 <= shift[3] < p);
    assert(0 <= carry[0] < p && 0 <= carry[1] < p && 0 <= carry[2] < p && 0 <= carry[3] < p);
    assert(0 <= value[0] < p && 0 <= value[1] < p && 0 <= value[2] < p && 0 <= value[3] < p);
    assert forall|i: int| 0 <= i < 4 implies moved_lane(input, nb, i) == #[trigger] shr_lane(
        x,
        n,
        i,
    ) && 0 <= shr_lane(x, n, i) < 256 by {
        if i + nb < 4 {
            assert(lanes(x)[i + nb] == input[i + nb]);
            assert(0 <= input[i + nb] < 256);
        }
    }
    assert(moved_lane(input, nb, 0) == shr_lane(x, n, 0) && moved_lane(input, nb, 1) == shr_lane(
        x,
        n,
        1,
    ) && moved_lane(input, nb, 2) == shr_lane(x, n, 2) && moved_lane(input, nb, 3) == shr_lane(
        x,
        n,
        3,
    ));
    lemma_lookup_sent(ByteOpcode::ShrCarry, shift[0], carry[0], shr_lane(x, n, 0), k, p);
    lemma_lookup_sent(ByteOpcode::ShrCarry, shift[1], carry[1], shr_lane(x, n, 1), k, p);
    lemma_lookup_sent(ByteOpcode::ShrCarry, shift[2], carry[2], shr_lane(x, n, 2), k, p);
    lemma_lookup_sent(ByteOpcode::ShrCarry, shift[3], carry[3], shr_lane(x, n, 3), k, p);
    assert(shift[0] == shr_kept(x, n, 0) && shift[1] == shr_kept(x, n, 1) && shift[2]
        == shr_kept(x, n, 2) && shift[3] == shr_kept(x, n, 3));
    assert(carry[1] == shr_dropped(x, n, 1) && carry[2] == shr_dropped(x, n, 2) && carry[3]
        == shr_dropped(x, n, 3));
    assert(0 <= shr_value(x, n, 0) < 256 && 0 <= shr_value(x, n, 1) < 256 && 0 <= shr_value(
        x,
        n,
        2,
    ) < 256 && 0 <= shr_value(x, n, 3) < 256);
    lemma_small_vanishes(value[3] - shift[3], p);
    lemma_small_vanishes(value[2] - (shift[2] + carry[3] * two_pow(8 - k)), p);
    lemma_small_vanishes(value[1] - (shift[1] + carry[2] * two_pow(8 - k)), p);
    lemma_small_vanishes(value[0] - (shift[0] + carry[1] * two_pow(8 - k)), p);
    assert(value[0] == lane(shr(x, n), 0) && value[1] == lane(shr(x, n), 1) && value[2] == lane(
        shr(x, n),
        2,
    ) && value[3] == lane(shr(x, n), 3)) by {
        assert(value[0] == shr_value(x, n, 0));
        assert(value[1] == shr_value(x, n, 1));
        assert(value[2] == shr_value(x, n, 2));
        assert(value[3] == shr_value(x, n, 3));
    }
    assert forall|i: int| 0 <= i < 4 implies 0 <= #[trigger] value[i] < 256 by {
        assert(lane(shr(x, n), i) == lane(shr(x, n), i));
    }
}

} // verus!
