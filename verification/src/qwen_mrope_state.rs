//! Rotary position state of one sequence of the dense text model.

use vstd::prelude::*;

verus! {

/// Rotary positions of a single sequence. Positions are explicit only during a prefill with
/// images; `rope_deltas` is what decoding adds to the cache offset, and is absent for text.
#[derive(Debug, Clone, Copy, PartialEq, Eq, Structural)]
pub struct MRopeEntry {
    /// What the caller knows the positions by.
    pub position_ids: Option<u64>,
    pub rope_deltas: Option<i32>,
}

impl MRopeEntry {
    pub fn empty() -> (entry: Self)
        ensures
            entry == (MRopeEntry { position_ids: None, rope_deltas: None }),
    {
        MRopeEntry { position_ids: None, rope_deltas: None }
    }
}

/// Position state of the active sequence. Text generation leaves the entry empty.
#[derive(Debug, Clone, Copy, PartialEq, Eq, Structural)]
pub struct MRopeState {
    pub active: MRopeEntry,
    pub position: i32,
}

impl MRopeState {
    /// The state before any sequence.
    pub open spec fn initial() -> MRopeState {
        MRopeState {
            active: MRopeEntry { position_ids: None, rope_deltas: None },
            position: 0,
        }
    }

    pub fn new() -> (state: Self)
        ensures
            state == MRopeState::initial(),
    {
        MRopeState { active: MRopeEntry::empty(), position: 0 }
    }

    /// Forgets the active sequence.
    pub fn clear(&mut self)
        ensures
            *final(self) == MRopeState::initial(),
    {
        self.active = MRopeEntry::empty();
        self.position = 0;
    }

    pub fn set_position(&mut self, position: i32)
        ensures
            *final(self) == (MRopeState { position, ..*old(self) }),
    {
        self.position = position;
    }

    pub fn position(&self) -> (position: i32)
        ensures
            position == self.position,
    {
        self.position
    }

    pub fn rope_delta(&self) -> (rope_delta: Option<i32>)
        ensures
            rope_delta == self.active.rope_deltas,
    {
        self.active.rope_deltas
    }

    pub fn position_ids(&self) -> (position_ids: Option<u64>)
        ensures
            position_ids == self.active.position_ids,
    {
        self.active.position_ids
    }

    /// Puts a saved state back.
    pub fn restore(&mut self, position: i32, position_ids: Option<u64>, rope_delta: Option<i32>)
        ensures
            *final(self) == (MRopeState {
                active: MRopeEntry { position_ids, rope_deltas: rope_delta },
                position,
            }),
    {
        self.active = MRopeEntry { position_ids, rope_deltas: rope_delta };
        self.position = position;
    }
}

impl Default for MRopeState {
    fn default() -> (state: Self)
        ensures
            state == MRopeState::initial(),
    {
        MRopeState::new()
    }
}

} // verus!
