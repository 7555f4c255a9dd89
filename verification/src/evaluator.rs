//! A builder that evaluates constraints on the cells of a concrete row.

use vstd::prelude::*;
use vstd::arithmetic::div_mod::{lemma_add_mod_noop, lemma_sub_mod_noop, lemma_mul_mod_noop};
use crate::builder::{ConstraintBuilder, BuilderState, MemoryObligation, word_values};
use crate::word::{Word, cells};
use crate::bytes::{ByteOpcode, is_byte_row};

verus! {

/// A polynomial evaluated at a concrete row: its residue in the field of
/// characteristic `P`, with the integer it denotes kept as ghost state.
pub struct Evaluated<const P: u32> {
    residue: u32,
    exact: Ghost<int>,
}

impl<const P: u32> Evaluated<P> {
    #[verifier::type_invariant]
    spec fn wf(self) -> bool {
        P > 0 ==> self.residue as int == self.exact@ % (P as int)
    }

    pub closed spec fn value(self) -> int {
        self.exact@
    }

    /// The residue of the polynomial's value, below `P`.
    pub fn residue(&self) -> (r: u32)
        ensures
            P > 0 ==> r as int == self.value() % (P as int),
    {
        proof {
            use_type_invariant(self);
        }
        self.residue
    }
}

/// An obligation toward the memory argument as an evaluator saw it: every
/// value reduced to its residue.
#[derive(Clone, Copy, Debug, PartialEq, Eq)]
pub struct MemoryInteraction {
    pub consumed: bool,
    pub shard: u32,
    pub clk: u32,
    pub addr: u32,
    pub value: [u32; 4],
    pub multiplicity: u32,
}

/// Whether `seen` holds the residues of `stated` in the field of
/// characteristic `p`.
pub open spec fn residues_of(seen: MemoryInteraction, stated: MemoryObligation, p: int) -> bool {
    &&& seen.consumed == stated.consumed
    &&& seen.shard == stated.shard % p
    &&& seen.clk == stated.clk % p
    &&& seen.addr == stated.addr % p
    &&& stated.value.len() == 4
    &&& forall|i: int| 0 <= i < 4 ==> seen.value[i] == #[trigger] stated.value[i] % p
    &&& seen.multiplicity == stated.multiplicity % p
}

/// Evaluates the identities of a chip on one row of values in the field of
/// characteristic `P`, and keeps the obligations toward the memory argument.
pub struct RowEvaluator<const P: u32> {
    ok: bool,
    interactions: Vec<MemoryInteraction>,
    stated: Ghost<Seq<MemoryObligation>>,
}

impl<const P: u32> RowEvaluator<P> {
    #[verifier::type_invariant]
    spec fn wf(self) -> bool {
        &&& self.interactions.len() == self.stated@.len()
        &&& P > 0 ==> forall|i: int|
            0 <= i < self.interactions.len() ==> residues_of(
                #[trigger] self.interactions[i],
                self.stated@[i],
                P as int,
            )
    }

    /// An evaluator to which nothing has been stated.
    pub fn new() -> (c: Self)
        ensures
            c.state() == (BuilderState { satisfied: true, memory: Seq::empty() }),
    {
        RowEvaluator { ok: true, interactions: Vec::new(), stated: Ghost(Seq::empty()) }
    }

    /// Whether every identity and lookup stated so far holds.
    pub fn is_satisfied(&self) -> (b: bool)
        ensures
            b == self.state().satisfied,
    {
        self.ok
    }

    /// The obligations toward the memory argument stated so far, reduced to
    /// residues.
    pub fn memory_interactions(&self) -> (seen: &Vec<MemoryInteraction>)
        ensures
            seen.len() == self.state().memory.len(),
            P > 0 ==> forall|i: int|
                0 <= i < seen.len() ==> residues_of(
                    #[trigger] seen[i],
                    self.state().memory[i],
                    P as int,
                ),
    {
        proof {
            use_type_invariant(self);
        }
        &self.interactions
    }
}

impl<const P: u32> ConstraintBuilder for RowEvaluator<P> {
    type Var = u32;

    type Expr = Evaluated<P>;

    open spec fn modulus() -> int {
        P as int
    }

    open spec fn var_value(v: u32) -> int {
        v as int
    }

    open spec fn expr_value(e: Evaluated<P>) -> int {
        e.value()
    }

    closed spec fn state(&self) -> BuilderState {
        BuilderState { satisfied: self.ok, memory: self.stated@ }
    }

    fn constant(c: u32) -> (e: Evaluated<P>) {
        if P == 0 {
            Evaluated { residue: 0, exact: Ghost(c as int) }
        } else {
            Evaluated { residue: c % P, exact: Ghost(c as int) }
        }
    }

    fn lift(v: u32) -> (e: Evaluated<P>) {
        if P == 0 {
            Evaluated { residue: 0, exact: Ghost(v as int) }
        } else {
            Evaluated { residue: v % P, exact: Ghost(v as int) }
        }
    }

    fn plus(a: &Evaluated<P>, b: &Evaluated<P>) -> (e: Evaluated<P>) {
        proof {
            use_type_invariant(a);
            use_type_invariant(b);
        }
        let ghost exact = a.exact@ + b.exact@;
        if P == 0 {
            Evaluated { residue: 0, exact: Ghost(exact) }
        } else {
            let s: u64 = (a.residue as u64 + b.residue as u64) % (P as u64);
            proof {
                lemma_add_mod_noop(a.exact@, b.exact@, P as int);
            }
            Evaluated { residue: s as u32, exact: Ghost(exact) }
        }
    }

    fn minus(a: &Evaluated<P>, b: &Evaluated<P>) -> (e: Evaluated<P>) {
        proof {
            use_type_invariant(a);
            use_type_invariant(b);
        }
        let ghost exact = a.exact@ - b.exact@;
        if P == 0 {
            Evaluated { residue: 0, exact: Ghost(exact) }
        } else {
            let s: u64 = (a.residue as u64 + (P as u64 - b.residue as u64)) % (P as u64);
            proof {
                let p = P as int;
                lemma_sub_mod_noop(a.exact@, b.exact@, p);
                assert((a.residue + (p - b.residue)) % p == (a.residue - b.residue) % p) by {
                    vstd::arithmetic::div_mod::lemma_mod_add_multiples_vanish(
                        a.residue - b.residue,
                        p,
                    );
                }
            }
            Evaluated { residue: s as u32, exact: Ghost(exact) }
        }
    }

    fn times(a: &Evaluated<P>, b: &Evaluated<P>) -> (e: Evaluated<P>) {
        proof {
            use_type_invariant(a);
            use_type_invariant(b);
        }
        let ghost exact = a.exact@ * b.exact@;
        if P == 0 {
            Evaluated { residue: 0, exact: Ghost(exact) }
        } else {
            assert(a.residue as u64 * b.residue as u64 <= 0xffff_ffff * 0xffff_ffff)
                by (nonlinear_arith)
                requires
                    a.residue <= 0xffff_ffff,
                    b.residue <= 0xffff_ffff,
            ;
            let s: u64 = (a.residue as u64 * b.residue as u64) % (P as u64);
            proof {
                lemma_mul_mod_noop(a.exact@, b.exact@, P as int);
            }
            Evaluated { residue: s as u32, exact: Ghost(exact) }
        }
    }

    fn assert_zero(&mut self, e: &Evaluated<P>) {
        proof {
            use_type_invariant(e);
            use_type_invariant(&*self);
        }
        if P == 0 || e.residue != 0 {
            self.ok = false;
        }
    }

    fn send_field_lt(&mut self, b: &Evaluated<P>, c: &Evaluated<P>, multiplicity: &Evaluated<P>) {
        proof {
            use_type_invariant(b);
            use_type_invariant(c);
            use_type_invariant(multiplicity);
            use_type_invariant(&*self);
        }
        if P == 0 {
            self.ok = false;
        } else if multiplicity.residue != 0 {
            if !(b.residue < c.residue) {
                self.ok = false;
            }
        }
    }

    fn memory(
        &mut self,
        consumed: bool,
        shard: &Evaluated<P>,
        clk: &Evaluated<P>,
        addr: &Evaluated<P>,
        value: &Word<u32>,
        multiplicity: &Evaluated<P>,
    ) {
        proof {
            use_type_invariant(shard);
            use_type_invariant(clk);
            use_type_invariant(addr);
            use_type_invariant(multiplicity);
            use_type_invariant(&*self);
        }
        let ghost stated = MemoryObligation {
            consumed,
            shard: shard.exact@,
            clk: clk.exact@,
            addr: addr.exact@,
            value: seq![
                value.0[0] as int,
                value.0[1] as int,
                value.0[2] as int,
                value.0[3] as int,
            ],
            multiplicity: multiplicity.exact@,
        };
        let seen = if P == 0 {
            MemoryInteraction {
                consumed,
                shard: 0,
                clk: 0,
                addr: 0,
                value: [0, 0, 0, 0],
                multiplicity: 0,
            }
        } else {
            MemoryInteraction {
                consumed,
                shard: shard.residue,
                clk: clk.residue,
                addr: addr.residue,
                value: [value.0[0] % P, value.0[1] % P, value.0[2] % P, value.0[3] % P],
                multiplicity: multiplicity.residue,
            }
        };
        let mut taken = RowEvaluator {
            ok: true,
            interactions: Vec::new(),
            stated: Ghost(Seq::empty()),
        };
        core::mem::swap(self, &mut taken);
        let RowEvaluator { ok, interactions, stated: before } = taken;
        let mut interactions = interactions;
        let ghost seen_before = interactions@;
        interactions.push(seen);
        proof {
            assert forall|i: int| P > 0 && 0 <= i < interactions.len() implies residues_of(
                #[trigger] interactions[i],
                before@.push(stated)[i],
                P as int,
            ) by {
                if i < seen_before.len() {
                    assert(interactions[i] == seen_before[i]);
                    assert(before@.push(stated)[i] == before@[i]);
                }
            }
        }
        *self = RowEvaluator { ok, interactions, stated: Ghost(before@.push(stated)) };
    }

    fn send_byte(
        &mut self,
        opcode: ByteOpcode,
        a1: &Evaluated<P>,
        a2: &Evaluated<P>,
        b: &Evaluated<P>,
        c: &Evaluated<P>,
        multiplicity: &Evaluated<P>,
    ) {
        proof {
            use_type_invariant(a1);
            use_type_invariant(a2);
            use_type_invariant(b);
            use_type_invariant(c);
            use_type_invariant(multiplicity);
        }
        proof {
            use_type_invariant(&*self);
        }
        if P == 0 {
            self.ok = false;
        } else if multiplicity.residue != 0 {
            if !is_byte_row(opcode, a1.residue, a2.residue, b.residue, c.residue) {
                self.ok = false;
            }
        }
    }
}

/// The evaluator reads a cell as the integer it holds.
pub proof fn lemma_evaluator_reads_cells<const P: u32>(w: Word<u32>)
    ensures
        word_values::<RowEvaluator<P>>(w) == cells(w),
{
    assert(word_values::<RowEvaluator<P>>(w) =~= cells(w));
}

} // verus!
