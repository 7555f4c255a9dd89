//! The execution record: the events a chip reads and the lookup events it
//! leaves for other chips.

use vstd::prelude::*;
use crate::bytes::{ByteLookupEvent, ByteOpcode};
use crate::sha256::extend::ShaExtendEvent;
use crate::weierstrass::weierstrass_add::ECAddEvent;

verus! {

/// A comparison between two field values, left for the chip that proves
/// order between timestamps.
#[derive(Clone, Copy, Debug, PartialEq, Eq, Structural)]
pub struct FieldEvent {
    /// Whether `b` is below `c`.
    pub ltu: bool,
    pub b: u32,
    pub c: u32,
}

/// The range-check events for the four lanes of `x`.
pub open spec fn word_range_events(x: u32) -> Seq<ByteLookupEvent> {
    seq![
        ByteLookupEvent {
            opcode: ByteOpcode::Range,
            a1: 0,
            a2: 0,
            b: crate::word::lane(x, 0) as u32,
            c: crate::word::lane(x, 1) as u32,
        },
        ByteLookupEvent {
            opcode: ByteOpcode::Range,
            a1: 0,
            a2: 0,
            b: crate::word::lane(x, 2) as u32,
            c: crate::word::lane(x, 3) as u32,
        },
    ]
}

/// What the machine executed, as far as the chips of this library read it,
/// and the lookup events that populating rows appends, in the order of
/// insertion.
pub struct ExecutionRecord {
    pub sha_extend_events: Vec<ShaExtendEvent>,
    pub weierstrass_add_events: Vec<ECAddEvent>,
    pub byte_lookup_events: Vec<ByteLookupEvent>,
    pub field_events: Vec<FieldEvent>,
}

impl ExecutionRecord {
    /// Whether the record holds what `other` holds, but for the byte lookups.
    pub open spec fn same_but_lookups(self, other: Self) -> bool {
        &&& self.sha_extend_events@ == other.sha_extend_events@
        &&& self.weierstrass_add_events@ == other.weierstrass_add_events@
        &&& self.field_events@ == other.field_events@
    }

    /// Whether the record holds what `other` holds, but for the comparisons.
    pub open spec fn same_but_comparisons(self, other: Self) -> bool {
        &&& self.sha_extend_events@ == other.sha_extend_events@
        &&& self.weierstrass_add_events@ == other.weierstrass_add_events@
        &&& self.byte_lookup_events@ == other.byte_lookup_events@
    }

    /// A record without events.
    pub fn new() -> (r: Self)
        ensures
            r.sha_extend_events@ == Seq::<ShaExtendEvent>::empty(),
            r.weierstrass_add_events@ == Seq::<ECAddEvent>::empty(),
            r.byte_lookup_events@ == Seq::<ByteLookupEvent>::empty(),
            r.field_events@ == Seq::<FieldEvent>::empty(),
    {
        ExecutionRecord {
            sha_extend_events: Vec::new(),
            weierstrass_add_events: Vec::new(),
            byte_lookup_events: Vec::new(),
            field_events: Vec::new(),
        }
    }

    /// Appends one byte lookup.
    pub fn add_byte_lookup_event(&mut self, event: ByteLookupEvent)
        ensures
            final(self).byte_lookup_events@ == old(self).byte_lookup_events@.push(event),
            final(self).same_but_lookups(*old(self)),
    {
        self.byte_lookup_events.push(event);
    }

    /// Appends the range checks of the four lanes of `x`.
    pub fn add_word_range_checks(&mut self, x: u32)
        ensures
            final(self).byte_lookup_events@ == old(self).byte_lookup_events@ + word_range_events(x),
            final(self).same_but_lookups(*old(self)),
    {
        self.byte_lookup_events.push(
            ByteLookupEvent {
                opcode: ByteOpcode::Range,
                a1: 0,
                a2: 0,
                b: crate::word::byte(x, 0) as u32,
                c: crate::word::byte(x, 1) as u32,
            },
        );
        self.byte_lookup_events.push(
            ByteLookupEvent {
                opcode: ByteOpcode::Range,
                a1: 0,
                a2: 0,
                b: crate::word::byte(x, 2) as u32,
                c: crate::word::byte(x, 3) as u32,
            },
        );
    }

    /// Appends the comparisons in `events`.
    pub fn add_field_events(&mut self, events: &Vec<FieldEvent>)
        ensures
            final(self).field_events@ == old(self).field_events@ + events@,
            final(self).same_but_comparisons(*old(self)),
    {
        let mut i: usize = 0;
        while i < events.len()
            invariant
                i <= events.len(),
                self.field_events@ == old(self).field_events@ + events@.take(i as int),
                self.same_but_comparisons(*old(self)),
            decreases events.len() - i,
        {
            self.field_events.push(events[i]);
            i += 1;
        }
    }
}

} // verus!
