//! The particle store: owns every particle position, grows append-only, and
//! gives index-stable O(1) access and mutation.  A particle is identified by
//! its store index for the life of the run; indices are never reused,
//! removed, or reordered.

use vstd::prelude::*;
use vstd::pervasive::VecAdditionalExecFns;
use crate::params::{Pos, pos_ok};

verus! {

/// Append-only store of particle positions, viewed as a `Seq<Pos>`.
pub struct ParticleStore {
    positions: Vec<Pos>,
}

impl View for ParticleStore {
    type V = Seq<Pos>;

    closed spec fn view(&self) -> Seq<Pos> {
        self.positions@
    }
}

impl ParticleStore {
    /// An empty store.
    pub fn new() -> (s: ParticleStore)
        ensures
            s@ == Seq::<Pos>::empty(),
    {
        ParticleStore { positions: Vec::new() }
    }

    /// Number of particles ever added.
    pub fn len(&self) -> (n: usize)
        ensures
            n == self@.len(),
    {
        self.positions.len()
    }

    /// Appends a position; the new particle's index equals the pre-append
    /// length and is returned.
    pub fn add(&mut self, p: Pos) -> (index: usize)
        requires
            pos_ok(p),
        ensures
            final(self)@ == old(self)@.push(p),
            index == old(self)@.len(),
    {
        let index = self.positions.len();
        self.positions.push(p);
        index
    }

    /// Position of the particle at `index`; the index must be in range.
    pub fn get(&self, index: usize) -> (p: Pos)
        requires
            index < self@.len(),
        ensures
            p == self@[index as int],
    {
        self.positions[index]
    }

    /// Overwrites the position of the particle at `index` in place.
    pub fn set(&mut self, index: usize, p: Pos)
        requires
            index < old(self)@.len(),
            pos_ok(p),
        ensures
            final(self)@ == old(self)@.update(index as int, p),
    {
        self.positions.set(index, p);
    }
}

} // verus!
