//! The stable field layout used to save and restore state: combatants as
//! structured records, field for field, with the default combatant filling
//! whatever a record written under an older layout is missing.

use vstd::prelude::*;

use crate::entity::Entity;
use crate::roster::Roster;

verus! {

/// One combatant as a structured record. Every field is optional so that a
/// record missing some of them can still be read.
pub struct EntityRecord {
    pub name: Option<String>,
    pub base_init: Option<u32>,
    pub d6_init: Option<u32>,
    pub cur_init: Option<u32>,
    pub turn_taken: Option<bool>,
}

/// The record holding every field of the combatant.
pub open spec fn spec_to_record(e: Entity) -> EntityRecord {
    EntityRecord {
        name: Some(e.name),
        base_init: Some(e.base_init),
        d6_init: Some(e.d6_init),
        cur_init: Some(e.cur_init),
        turn_taken: Some(e.turn_taken),
    }
}

/// Relates a record to the combatant read back from it: each present field
/// is taken as it stands, each missing field comes from the default
/// combatant ("Lattice", base 10, one bonus die, nothing rolled).
pub open spec fn restores(r: EntityRecord, e: Entity) -> bool {
    &&& (r.name is Some ==> e.name == r.name->0)
    &&& (r.name is None ==> e.name@ == "Lattice"@)
    &&& e.base_init == (if r.base_init is Some {
        r.base_init->0
    } else {
        10u32
    })
    &&& e.d6_init == (if r.d6_init is Some {
        r.d6_init->0
    } else {
        1u32
    })
    &&& e.cur_init == (if r.cur_init is Some {
        r.cur_init->0
    } else {
        0u32
    })
    &&& e.turn_taken == (if r.turn_taken is Some {
        r.turn_taken->0
    } else {
        false
    })
}

impl Entity {
    /// Writes every field of the combatant into a record.
    pub fn to_record(&self) -> (r: EntityRecord)
        ensures
            r == spec_to_record(*self),
    {
        EntityRecord {
            name: Some(self.name.clone()),
            base_init: Some(self.base_init),
            d6_init: Some(self.d6_init),
            cur_init: Some(self.cur_init),
            turn_taken: Some(self.turn_taken),
        }
    }

    /// Reads a combatant back from a record, filling missing fields from
    /// the default combatant.
    pub fn from_record(r: EntityRecord) -> (e: Entity)
        ensures
            restores(r, e),
    {
        let fallback = Entity::default();
        Entity {
            name: match r.name {
                Some(n) => n,
                None => fallback.name,
            },
            base_init: match r.base_init {
                Some(b) => b,
                None => fallback.base_init,
            },
            d6_init: match r.d6_init {
                Some(d) => d,
                None => fallback.d6_init,
            },
            cur_init: match r.cur_init {
                Some(c) => c,
                None => fallback.cur_init,
            },
            turn_taken: match r.turn_taken {
                Some(t) => t,
                None => fallback.turn_taken,
            },
        }
    }
}

/// Round trip: a combatant read back from the record of a combatant is that
/// combatant, every field reproduced exactly.
pub proof fn lemma_record_round_trip(e: Entity, back: Entity)
    requires
        restores(spec_to_record(e), back),
    ensures
        back == e,
{
}

impl Roster {
    /// Writes the roster as a sequence of records, in roster order.
    pub fn to_records(&self) -> (rs: Vec<EntityRecord>)
        ensures
            rs@.len() == self@.len(),
            forall|i: int| 0 <= i < self@.len() ==> #[trigger] rs@[i] == spec_to_record(self@[i]),
    {
        let mut rs: Vec<EntityRecord> = Vec::new();
        let mut i: usize = 0;
        while i < self.len()
            invariant
                i <= self@.len(),
                rs@.len() == i,
                forall|j: int| 0 <= j < i ==> #[trigger] rs@[j] == spec_to_record(self@[j]),
            decreases self@.len() - i,
        {
            rs.push(self.get(i).to_record());
            i = i + 1;
        }
        rs
    }

    /// Reads a roster back from a sequence of records, in order, filling
    /// missing fields of each record from the default combatant.
    pub fn from_records(mut rs: Vec<EntityRecord>) -> (r: Roster)
        ensures
            r@.len() == rs@.len(),
            forall|i: int| 0 <= i < rs@.len() ==> restores(rs@[i], #[trigger] r@[i]),
    {
        let ghost orig = rs@;
        let mut r = Roster::new();
        while rs.len() > 0
            invariant
                rs@.len() <= orig.len(),
                rs@ == orig.skip(orig.len() - rs@.len()),
                r@.len() == orig.len() - rs@.len(),
                forall|i: int| 0 <= i < r@.len() ==> restores(orig[i], #[trigger] r@[i]),
            decreases rs@.len(),
        {
            let ghost j = orig.len() - rs@.len();
            let rec = rs.remove(0);
            proof {
                assert(rec == orig[j]);
                assert(rs@ =~= orig.skip(j + 1));
            }
            r.add(Entity::from_record(rec));
        }
        r
    }
}

} // verus!
