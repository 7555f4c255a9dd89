//! Bitwise exclusive or of two words, looked up lane by lane.

use vstd::prelude::*;
use crate::builder::{ConstraintBuilder, word_values, canonical, all_bytes, lemma_lookup_sent};
use crate::operations::add::word_from;
use crate::word::lemma_lanes_of_bytes;
use crate::record::ExecutionRecord;
use crate::bytes::{ByteLookupEvent, ByteOpcode, byte_lookup_holds, xor_byte};
use crate::word::{Word, word_of, lane, lanes, cells, lemma_lanes};
use vstd::arithmetic::div_mod::lemma_small_mod;

verus! {

/// Columns of one exclusive or: the lanes of the result.
#[derive(Clone, Copy, Debug)]
pub struct XorOperation<T> {
    pub value: Word<T>,
}

/// The lookup for lane `i` of `x ^ y`.
pub open spec fn xor_event(x: u32, y: u32, i: int) -> ByteLookupEvent {
    ByteLookupEvent {
        opcode: ByteOpcode::Xor,
        a1: lane(x ^ y, i) as u32,
        a2: 0,
        b: lane(x, i) as u32,
        c: lane(y, i) as u32,
    }
}

/// The lookup events that one exclusive or leaves, lowest lane first.
#[verifier::opaque]
pub open spec fn xor_events(x: u32, y: u32) -> Seq<ByteLookupEvent> {
    seq![xor_event(x, y, 0), xor_event(x, y, 1), xor_event(x, y, 2), xor_event(x, y, 3)]
}

/// The identities of one exclusive or: each lane of `value` is the table's
/// answer for the lanes of `a` and `b`.
#[verifier::opaque]
pub open spec fn xor_relation(
    a: Seq<int>,
    b: Seq<int>,
    value: Seq<int>,
    is_real: int,
    p: int,
) -> bool {
    &&& byte_lookup_holds(ByteOpcode::Xor, value[0], 0, a[0], b[0], is_real, p)
    &&& byte_lookup_holds(ByteOpcode::Xor, value[1], 0, a[1], b[1], is_real, p)
    &&& byte_lookup_holds(ByteOpcode::Xor, value[2], 0, a[2], b[2], is_real, p)
    &&& byte_lookup_holds(ByteOpcode::Xor, value[3], 0, a[3], b[3], is_real, p)
}

/// Exclusive or acts lane by lane.
pub proof fn lemma_xor_lanes(x: u32, y: u32)
    ensures
        forall|i: int| 0 <= i < 4 ==> #[trigger] lane(x ^ y, i) == xor_byte(lane(x, i), lane(y, i)),
{
    assert((x ^ y) % 256 == (x % 256) ^ (y % 256) && ((x ^ y) / 256) % 256 == ((x / 256) % 256) ^ ((
    y / 256) % 256) && ((x ^ y) / 65536) % 256 == ((x / 65536) % 256) ^ ((y / 65536) % 256) && ((x
        ^ y) / 16777216) % 256 == ((x / 16777216) % 256) ^ ((y / 16777216) % 256))
        by (bit_vector);
}

impl<T: Copy> XorOperation<T> {
    /// The cells of the columns in the order of a row.
    pub open spec fn flat(self) -> Seq<T> {
        self.value.0@
    }

    /// The columns whose cells are the four cells of `row` from `start` on.
    pub fn from_row(row: &[T], start: usize) -> (cols: Self)
        requires
            start + 4 <= row.len(),
        ensures
            cols.flat() == row@.subrange(start as int, start + 4),
    {
        XorOperation { value: Word(crate::trace::read_array(row, start)) }
    }

    /// Appends the cells of the columns to `row`.
    pub fn append_to(&self, row: &mut Vec<T>)
        ensures
            final(row)@ == old(row)@ + self.flat(),
            self.flat().len() == 4,
    {
        crate::trace::append_array(&self.value.0, row);
    }
}

impl Default for XorOperation<u32> {
    /// The columns of zero xor zero.
    fn default() -> (cols: Self)
        ensures
            cols == Self::witness(0, 0),
    {
        assert(0u32 ^ 0u32 == 0u32) by (bit_vector);
        reveal(XorOperation::witness);
        XorOperation { value: Word::default() }
    }
}

impl XorOperation<u32> {
    /// The columns of the exclusive or of `x` and `y`.
    #[verifier::opaque]
    pub open spec fn witness(x: u32, y: u32) -> XorOperation<u32> {
        XorOperation {
            value: word_of(x ^ y),
        }
    }

    /// Fills the columns for `x ^ y`, leaves one lookup for each lane in
    /// `record`, and returns the result.
    pub fn populate(&mut self, record: &mut ExecutionRecord, x: u32, y: u32) -> (r: u32)
        ensures
            r == x ^ y,
            *final(self) == Self::witness(x, y),
            final(record).byte_lookup_events@ == old(record).byte_lookup_events@ + xor_events(
                x,
                y,
            ),
            final(record).same_but_lookups(*old(record)),
    {
        let expected: u32 = x ^ y;
        self.value = Word::from_u32(expected);
        proof {
            reveal(xor_events);
            reveal(XorOperation::witness);
        }
        let mut i: usize = 0;
        while i < 4
            invariant
                i <= 4,
                expected == x ^ y,
                record.byte_lookup_events@ == old(record).byte_lookup_events@ + xor_events(
                    x,
                    y,
                ).take(i as int),
                record.same_but_lookups(*old(record)),
            decreases 4 - i,
        {
            let event = ByteLookupEvent {
                opcode: ByteOpcode::Xor,
                a1: crate::word::byte(expected, i) as u32,
                a2: 0,
                b: crate::word::byte(x, i) as u32,
                c: crate::word::byte(y, i) as u32,
            };
            record.add_byte_lookup_event(event);
            reveal(xor_events);
            assert(xor_events(x, y).take(i as int + 1) =~= xor_events(x, y).take(i as int).push(
                xor_events(x, y)[i as int],
            ));
            i += 1;
        }
        expected
    }

    /// States the identities of one exclusive or on the rows where `is_real`
    /// is one.
    pub fn eval<B: ConstraintBuilder>(
        builder: &mut B,
        a: Word<B::Var>,
        b: Word<B::Var>,
        cols: XorOperation<B::Var>,
        is_real: B::Var,
    )
        ensures
            final(builder).state() == old(builder).state().and(xor_relation(
                word_values::<B>(a),
                word_values::<B>(b),
                word_values::<B>(cols.value),
                B::var_value(is_real),
                B::modulus(),
            )),
    {
        proof {
            reveal(xor_relation);
        }
        let zero = B::constant(0);
        let m = B::lift(is_real);
        builder.send_byte(
            ByteOpcode::Xor,
            &B::lift(cols.value.0[0]),
            &zero,
            &B::lift(a.0[0]),
            &B::lift(b.0[0]),
            &m,
        );
        builder.send_byte(
            ByteOpcode::Xor,
            &B::lift(cols.value.0[1]),
            &zero,
            &B::lift(a.0[1]),
            &B::lift(b.0[1]),
            &m,
        );
        builder.send_byte(
            ByteOpcode::Xor,
            &B::lift(cols.value.0[2]),
            &zero,
            &B::lift(a.0[2]),
            &B::lift(b.0[2]),
            &m,
        );
        builder.send_byte(
            ByteOpcode::Xor,
            &B::lift(cols.value.0[3]),
            &zero,
            &B::lift(a.0[3]),
            &B::lift(b.0[3]),
            &m,
        );
    }
}

/// The columns that `populate` fills satisfy the identities that `eval`
/// states, whether the row is real or not, in every field that holds a byte.
pub proof fn lemma_xor_witness_satisfies(x: u32, y: u32, is_real: int, p: int)
    requires
        p > 256,
    ensures
        xor_relation(lanes(x), lanes(y), cells(XorOperation::witness(x, y).value), is_real, p),
        XorOperation::witness(x, y).value == word_of(x ^ y),
{
    reveal(xor_relation);
    reveal(XorOperation::witness);
    lemma_lanes(x);
    lemma_lanes(y);
    lemma_lanes(x ^ y);
    lemma_xor_lanes(x, y);
    lemma_small_mod(0, p as nat);
    assert forall|i: int| 0 <= i < 4 implies lane(x, i) % p == lane(x, i) && lane(y, i) % p
        == lane(y, i) && #[trigger] lane(x ^ y, i) % p == lane(x ^ y, i) by {
        lemma_small_mod(lane(x, i) as nat, p as nat);
        lemma_small_mod(lane(y, i) as nat, p as nat);
        lemma_small_mod(lane(x ^ y, i) as nat, p as nat);
    }
    assert(lane(x ^ y, 0) % p == lane(x ^ y, 0));
    assert(lane(x ^ y, 1) % p == lane(x ^ y, 1));
    assert(lane(x ^ y, 2) % p == lane(x ^ y, 2));
    assert(lane(x ^ y, 3) % p == lane(x ^ y, 3));
}

/// The identities of an exclusive or are sound: columns that satisfy them
/// on a real row hold bytes, and the lanes of the result spell the exclusive
/// or of the words that the lanes of the operands spell.
pub proof fn lemma_xor_sound(a: Seq<int>, b: Seq<int>, value: Seq<int>, p: int)
    requires
        p > 256,
        a.len() == 4,
        b.len() == 4,
        value.len() == 4,
        canonical(a, p),
        canonical(b, p),
        canonical(value, p),
        xor_relation(a, b, value, 1, p),
    ensures
        all_bytes(a),
        all_bytes(b),
        all_bytes(value),
        word_from(value) == ((word_from(a) as u32) ^ (word_from(b) as u32)),
{
    reveal(xor_relation);
    reveal(canonical);
    reveal(all_bytes);
    assert forall|i: int| 0 <= i < 4 implies 0 <= #[trigger] a[i] < 256 && 0 <= b[i] < 256
        && value[i] == xor_byte(a[i], b[i]) by {
        assert(0 <= a[i] < p && 0 <= b[i] < p && 0 <= value[i] < p);
        lemma_lookup_sent(ByteOpcode::Xor, value[i], 0, a[i], b[i], p);
    }
    lemma_lanes_of_bytes(a);
    lemma_lanes_of_bytes(b);
    let x = word_from(a) as u32;
    let y = word_from(b) as u32;
    lemma_xor_lanes(x, y);
    lemma_lanes(x ^ y);
    assert forall|i: int| 0 <= i < 4 implies value[i] == #[trigger] lane(x ^ y, i) by {
        assert(lanes(x)[i] == a[i]);
        assert(lanes(y)[i] == b[i]);
    }
    assert(all_bytes(value));
}

} // verus!
