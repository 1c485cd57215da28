//! Rotary position state of one sequence, with positions prepared ahead of an embedding prefill.

use vstd::prelude::*;

verus! {

/// Positions of a prefill, if they are explicit, and what decoding adds to the cache offset.
#[derive(Debug, Clone, Copy, PartialEq, Eq, Structural)]
pub struct RopeEntry {
    /// What the caller knows the positions by.
    pub position_ids: Option<u64>,
    pub rope_deltas: Option<i32>,
}

impl RopeEntry {
    pub fn empty() -> (entry: Self)
        ensures
            entry == (RopeEntry { position_ids: None, rope_deltas: None }),
    {
        RopeEntry { position_ids: None, rope_deltas: None }
    }
}

/// No positions were prepared for an embedding prefill.
#[derive(Debug, Clone, Copy, PartialEq, Eq, Structural)]
pub struct NothingPrepared;

/// Position state of the active sequence.
#[derive(Debug, Clone, Copy, PartialEq, Eq, Structural)]
pub struct RopeState {
    pub active: RopeEntry,
    pub pending: Option<RopeEntry>,
    pub position: i32,
}

impl RopeState {
    /// The state before any sequence.
    pub open spec fn initial() -> RopeState {
        RopeState {
            active: RopeEntry { position_ids: None, rope_deltas: None },
            pending: None,
            position: 0,
        }
    }

    pub fn new() -> (state: Self)
        ensures
            state == RopeState::initial(),
    {
        RopeState { active: RopeEntry::empty(), pending: None, position: 0 }
    }

    /// Forgets the active sequence. What is prepared stays.
    pub fn clear(&mut self)
        ensures
            *final(self) == (RopeState { pending: old(self).pending, ..RopeState::initial() }),
    {
        self.active = RopeEntry::empty();
        self.position = 0;
    }

    /// Prepares positions for the next embedding prefill.
    pub fn prepare(&mut self, position_ids: u64, rope_delta: i32)
        ensures
            *final(self) == (RopeState {
                pending: Some(
                    RopeEntry { position_ids: Some(position_ids), rope_deltas: Some(rope_delta) },
                ),
                ..*old(self)
            }),
    {
        self.pending =
        Some(RopeEntry { position_ids: Some(position_ids), rope_deltas: Some(rope_delta) });
    }

    /// Drops what is prepared.
    pub fn clear_prepared(&mut self)
        ensures
            *final(self) == (RopeState { pending: None, ..*old(self) }),
    {
        self.pending = None;
    }

    /// Makes the prepared positions active, at the start of a sequence.
    pub fn activate_prepared(&mut self) -> (result: Result<(), NothingPrepared>)
        ensures
            match old(self).pending {
                Some(entry) => {
                    &&& result is Ok
                    &&& *final(self) == (RopeState { active: entry, pending: None, position: 0 })
                },
                None => result is Err && *final(self) == *old(self),
            },
    {
        match self.pending {
            Some(entry) => {
                self.pending = None;
                self.active = entry;
                self.position = 0;
                Ok(())
            },
            None => Err(NothingPrepared),
        }
    }

    /// Drops the explicit positions once the prefill is through. What decoding adds stays.
    pub fn finish_prefill(&mut self)
        ensures
            *final(self) == (RopeState {
                active: RopeEntry {
                    position_ids: None,
                    rope_deltas: old(self).active.rope_deltas,
                },
                ..*old(self)
            }),
    {
        self.active.position_ids = None;
    }

    pub fn set_position(&mut self, position: i32)
        ensures
            *final(self) == (RopeState { position, ..*old(self) }),
    {
        self.position = position;
    }

    pub fn position(&self) -> (position: i32)
        ensures
            position == self.position,
    {
        self.position
    }

    pub fn rope_delta(&self) -> (rope_delta: Option<i32>)
        ensures
            rope_delta == self.active.rope_deltas,
    {
        self.active.rope_deltas
    }

    pub fn position_ids(&self) -> (position_ids: Option<u64>)
        ensures
            position_ids == self.active.position_ids,
    {
        self.active.position_ids
    }

    /// Puts a saved state back. What is prepared is dropped.
    pub fn restore(&mut self, position: i32, position_ids: Option<u64>, rope_delta: Option<i32>)
        ensures
            *final(self) == (RopeState {
                active: RopeEntry { position_ids, rope_deltas: rope_delta },
                pending: None,
                position,
            }),
    {
        self.pending = None;
        self.active = RopeEntry { position_ids, rope_deltas: rope_delta };
        self.position = position;
    }
}

impl Default for RopeState {
    fn default() -> (state: Self)
        ensures
            state == RopeState::initial(),
    {
        RopeState::new()
    }
}

} // verus!
