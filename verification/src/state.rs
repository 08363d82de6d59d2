//! The state of a simulation: one set of particles for each species, the
//! rules between the species, and the parameters. A frame is computed
//! beside the state and committed to it whole.

use vstd::prelude::*;
use crate::config::{ConfigurationError, SimulationConfig};
use crate::motion::{Bounds, lemma_reflection_keeps_magnitude};
use crate::rules::{RuleMatrix, square};
use crate::scalar::{Scalar, Value};
use crate::vector::{Particle, Vector2};

verus! {

/// Why a frame was refused.
#[derive(Clone, Copy, Debug, PartialEq, Eq, Structural)]
pub enum StepError {
    /// The frame does not hold one particle for each particle of the state.
    ShapeMismatch,
    /// A position or a velocity of the frame is infinite or not a number.
    NumericInvariantViolation,
}

/// The rows of a vector of vectors.
pub open spec fn grid<T>(v: Seq<Vec<T>>) -> Seq<Seq<T>> {
    Seq::new(v.len(), |s: int| v[s]@)
}

/// As many rows, and each row as long.
pub open spec fn same_shape<A, B>(a: Seq<Seq<A>>, b: Seq<Seq<B>>) -> bool {
    a.len() == b.len() && forall|s: int| 0 <= s < a.len() ==> (#[trigger] a[s]).len() == b[s].len()
}

/// Every position and velocity is finite.
pub open spec fn all_finite(sets: Seq<Seq<Particle>>) -> bool {
    forall|s: int, i: int|
        0 <= s < sets.len() && 0 <= i < sets[s].len() ==> (#[trigger] sets[s][i]).finite()
}

/// Particles at rest at the given places.
pub open spec fn resting(places: Seq<Seq<Vector2>>) -> Seq<Seq<Particle>> {
    Seq::new(
        places.len(),
        |s: int|
            Seq::new(
                places[s].len(),
                |i: int|
                    Particle {
                        pos: places[s][i],
                        vel: Vector2 { x: Scalar { bits: 0 }, y: Scalar { bits: 0 } },
                    },
            ),
    )
}

/// Where the particles are.
pub open spec fn positions_of(sets: Seq<Seq<Particle>>) -> Seq<Seq<Vector2>> {
    Seq::new(sets.len(), |s: int| Seq::new(sets[s].len(), |i: int| sets[s][i].pos))
}

/// The particles of a frame with their velocities reflected.
pub open spec fn settled_all(bounds: Bounds, moved: Seq<Seq<Particle>>) -> Seq<Seq<Particle>> {
    Seq::new(
        moved.len(),
        |s: int| Seq::new(moved[s].len(), |i: int| bounds.settled(moved[s][i])),
    )
}

/// The places are as many as the counts ask for, species by species.
pub open spec fn placed_as_counted(places: Seq<Seq<Vector2>>, counts: Seq<i64>) -> bool {
    places.len() == counts.len() && forall|s: int|
        0 <= s < places.len() ==> (#[trigger] places[s]).len() == counts[s]
}

/// What is wrong with a setup, if anything. The parameters are looked at
/// first, then the counts, then the places.
pub open spec fn initial_fault(
    config: SimulationConfig,
    counts: Seq<i64>,
    species: nat,
    places: Seq<Seq<Vector2>>,
) -> Option<ConfigurationError> {
    if config.fault() is Some {
        config.fault()
    } else if exists|s: int| 0 <= s < counts.len() && #[trigger] counts[s] < 0 {
        Some(ConfigurationError::NegativeCount)
    } else if counts.len() != species {
        Some(ConfigurationError::SpeciesMismatch)
    } else if !placed_as_counted(places, counts) {
        Some(ConfigurationError::PlacementMismatch)
    } else if exists|s: int, i: int|
        0 <= s < places.len() && 0 <= i < places[s].len() && !config.bounds.holds(
            #[trigger] places[s][i],
        ) {
        Some(ConfigurationError::OutOfBounds)
    } else {
        None
    }
}

/// What is wrong with a frame, if anything.
pub open spec fn step_fault(now: Seq<Seq<Particle>>, moved: Seq<Seq<Particle>>) -> Option<
    StepError,
> {
    if !same_shape(now, moved) {
        Some(StepError::ShapeMismatch)
    } else if !all_finite(moved) {
        Some(StepError::NumericInvariantViolation)
    } else {
        None
    }
}

/// Reflection never moves a particle: the positions of a frame are
/// committed as they are, past an edge too, and no particle is added or
/// lost.
pub proof fn lemma_settling_keeps_positions(bounds: Bounds, moved: Seq<Seq<Particle>>)
    ensures
        same_shape(settled_all(bounds, moved), moved),
        positions_of(settled_all(bounds, moved)) == positions_of(moved),
{
    assert(positions_of(settled_all(bounds, moved)) =~~= positions_of(moved));
}

/// A frame that is taken leaves every position and velocity finite, and
/// as many particles of each species as there were.
pub proof fn lemma_taken_frame_is_finite(
    bounds: Bounds,
    now: Seq<Seq<Particle>>,
    moved: Seq<Seq<Particle>>,
)
    requires
        step_fault(now, moved) is None,
    ensures
        all_finite(settled_all(bounds, moved)),
        same_shape(now, settled_all(bounds, moved)),
{
    let after = settled_all(bounds, moved);
    assert forall|s: int, i: int| 0 <= s < after.len() && 0 <= i < after[s].len() implies (
    #[trigger] after[s][i]).finite() by {
        let p = moved[s][i];
        assert(p.finite());
        lemma_reflection_keeps_magnitude(p.pos.x, p.vel.x, bounds.width);
        lemma_reflection_keeps_magnitude(p.pos.y, p.vel.y, bounds.height);
    }
}

/// Particles at rest that are committed where they are stay where they
/// are, and at rest: each velocity component is still zero.
pub proof fn lemma_rest_is_kept(bounds: Bounds, places: Seq<Seq<Vector2>>)
    ensures
        positions_of(settled_all(bounds, resting(places))) == places,
        forall|s: int, i: int|
            0 <= s < places.len() && 0 <= i < places[s].len() ==> {
                let p = #[trigger] settled_all(bounds, resting(places))[s][i];
                p.vel.x@ == Value::Finite(0) && p.vel.y@ == Value::Finite(0)
            },
{
    assert(positions_of(settled_all(bounds, resting(places))) =~~= places);
}

/// A species without particles is no fault: a setup that is accepted is
/// accepted as well with any one species left empty.
pub proof fn lemma_empty_species_accepted(
    config: SimulationConfig,
    counts: Seq<i64>,
    species: nat,
    places: Seq<Seq<Vector2>>,
    s: int,
)
    requires
        initial_fault(config, counts, species, places) is None,
        0 <= s < counts.len(),
    ensures
        initial_fault(config, counts.update(s, 0), species, places.update(s, Seq::empty()))
            is None,
{
    let fewer = counts.update(s, 0);
    let emptied = places.update(s, Seq::<Vector2>::empty());
    assert forall|a: int| 0 <= a < fewer.len() implies !(#[trigger] fewer[a] < 0) by {
        if a != s {
            assert(!(counts[a] < 0));
        }
    }
    assert(placed_as_counted(emptied, fewer)) by {
        assert forall|a: int| 0 <= a < emptied.len() implies (#[trigger] emptied[a]).len()
            == fewer[a] by {
            if a != s {
                assert(places[a].len() == counts[a]);
            }
        }
    }
    assert forall|a: int, i: int|
        0 <= a < emptied.len() && 0 <= i < emptied[a].len() implies config.bounds.holds(
        #[trigger] emptied[a][i],
    ) by {
        assert(a != s);
        assert(config.bounds.holds(places[a][i]));
    }
}

/// A running simulation. The number of particles of each species never
/// changes, and every position and velocity is finite at all times.
#[derive(Debug)]
pub struct SimulationState {
    config: SimulationConfig,
    rules: RuleMatrix,
    sets: Vec<Vec<Particle>>,
}

impl SimulationState {
    #[verifier::type_invariant]
    spec fn well_formed(self) -> bool {
        &&& self.config.valid()
        &&& square(self.rules@)
        &&& self.sets@.len() == self.rules@.len()
        &&& forall|s: int, i: int|
            0 <= s < self.sets@.len() && 0 <= i < self.sets@[s]@.len() ==> (
            #[trigger] self.sets@[s]@[i]).finite()
    }

    /// The particles, one sequence for each species.
    pub closed spec fn view(&self) -> Seq<Seq<Particle>> {
        grid(self.sets@)
    }

    /// The parameters that the simulation was set up with.
    pub closed spec fn settings(&self) -> SimulationConfig {
        self.config
    }

    /// The coefficients that the simulation was set up with.
    pub closed spec fn coefficients(&self) -> Seq<Seq<Scalar>> {
        self.rules@
    }

    /// What always holds of a simulation.
    pub open spec fn sound(&self) -> bool {
        &&& self.settings().valid()
        &&& self@.len() == self.coefficients().len()
        &&& square(self.coefficients())
        &&& all_finite(self@)
    }

    /// Sets up a simulation: `counts[s]` particles of species `s`, at rest
    /// at `places[s]`. The places are the caller's to draw; each must lie
    /// inside the world.
    pub fn initialize(
        config: SimulationConfig,
        counts: &Vec<i64>,
        rules: RuleMatrix,
        places: &Vec<Vec<Vector2>>,
    ) -> (r: Result<SimulationState, ConfigurationError>)
        ensures
            match initial_fault(config, counts@, rules.size(), grid(places@)) {
                Some(e) => r == Err::<SimulationState, ConfigurationError>(e),
                None => r is Ok && r.unwrap().settings() == config && r.unwrap().coefficients()
                    == rules@ && r.unwrap()@ == resting(grid(places@)) && r.unwrap().sound(),
            },
    {
        match config.validate() {
            Err(e) => {
                return Err(e);
            },
            Ok(()) => {},
        }
        let n = counts.len();
        let mut s: usize = 0;
        while s < n
            invariant
                s <= n,
                n == counts@.len(),
                config.fault() is None,
                forall|a: int| 0 <= a < s ==> counts@[a] >= 0,
            decreases n - s,
        {
            if counts[s] < 0 {
                return Err(ConfigurationError::NegativeCount);
            }
            s += 1;
        }
        if n != rules.species() {
            return Err(ConfigurationError::SpeciesMismatch);
        }
        if places.len() != n {
            return Err(ConfigurationError::PlacementMismatch);
        }
        s = 0;
        while s < n
            invariant
                s <= n,
                n == counts@.len(),
                n == places@.len(),
                n == rules.size(),
                config.fault() is None,
                forall|a: int| 0 <= a < n ==> counts@[a] >= 0,
                forall|a: int| 0 <= a < s ==> (#[trigger] grid(places@)[a]).len() == counts@[a],
            decreases n - s,
        {
            let have = places[s].len();
            let want = counts[s];
            if have as u64 != want as u64 {
                assert(grid(places@)[s as int].len() != counts@[s as int]);
                return Err(ConfigurationError::PlacementMismatch);
            }
            assert(grid(places@)[s as int].len() == counts@[s as int]);
            s += 1;
        }
        let mut sets: Vec<Vec<Particle>> = Vec::new();
        s = 0;
        while s < n
            invariant
                s <= n,
                n == places@.len(),
                n == counts@.len(),
                n == rules.size(),
                config.fault() is None,
                forall|a: int| 0 <= a < n ==> counts@[a] >= 0,
                placed_as_counted(grid(places@), counts@),
                sets@.len() == s,
                forall|a: int| 0 <= a < s ==> (#[trigger] sets@[a])@ == resting(grid(places@))[a],
                forall|a: int, i: int|
                    0 <= a < s && 0 <= i < places@[a]@.len() ==> config.bounds.holds(
                        #[trigger] grid(places@)[a][i],
                    ),
            decreases n - s,
        {
            let row_len = places[s].len();
            let mut row: Vec<Particle> = Vec::new();
            let mut i: usize = 0;
            while i < row_len
                invariant
                    i <= row_len,
                    s < n,
                    n == places@.len(),
                    n == counts@.len(),
                    n == rules.size(),
                    config.fault() is None,
                    forall|a: int| 0 <= a < n ==> counts@[a] >= 0,
                    placed_as_counted(grid(places@), counts@),
                    row_len == places@[s as int]@.len(),
                    row@.len() == i,
                    forall|k: int|
                        0 <= k < i ==> (#[trigger] row@[k]) == resting(grid(places@))[s as int][k],
                    forall|k: int|
                        0 <= k < i ==> config.bounds.holds(#[trigger] grid(places@)[s as int][k]),
                decreases row_len - i,
            {
                let place = places[s][i];
                if !config.bounds.contains(place) {
                    assert(!config.bounds.holds(grid(places@)[s as int][i as int]));
                    return Err(ConfigurationError::OutOfBounds);
                }
                assert(config.bounds.holds(grid(places@)[s as int][i as int]));
                row.push(Particle::at_rest(place));
                i += 1;
            }
            assert(row@ =~= resting(grid(places@))[s as int]);
            sets.push(row);
            s += 1;
        }
        let state = SimulationState { config, rules, sets };
        proof {
            assert(state@ =~= resting(grid(places@)));
            assert forall|a: int, i: int|
                0 <= a < state.sets@.len() && 0 <= i < state.sets@[a]@.len() implies (
            #[trigger] state.sets@[a]@[i]).finite() by {
                assert(config.bounds.holds(grid(places@)[a][i]));
                assert(state.sets@[a]@[i] == resting(grid(places@))[a][i]);
            }
            assert(all_finite(state@)) by {
                assert forall|a: int, i: int|
                    0 <= a < state@.len() && 0 <= i < state@[a].len() implies (
                #[trigger] state@[a][i]).finite() by {
                    assert(state.sets@[a]@[i].finite());
                }
            }
        }
        Ok(state)
    }

    /// The parameters of the simulation.
    pub fn config(&self) -> (r: SimulationConfig)
        ensures
            r == self.settings(),
            self.sound(),
    {
        proof {
            use_type_invariant(self);
            self.lemma_sound();
        }
        self.config
    }

    /// The rules between the species.
    pub fn rules(&self) -> (r: &RuleMatrix)
        ensures
            r@ == self.coefficients(),
            self.sound(),
    {
        proof {
            use_type_invariant(self);
            self.lemma_sound();
        }
        &self.rules
    }

    /// The number of species.
    pub fn species(&self) -> (r: usize)
        ensures
            r == self@.len(),
            self.sound(),
    {
        proof {
            use_type_invariant(self);
            self.lemma_sound();
        }
        self.sets.len()
    }

    /// The number of particles of a species; none for a species that the
    /// simulation does not have.
    pub fn population(&self, species: usize) -> (r: usize)
        ensures
            r == (if species < self@.len() {
                self@[species as int].len()
            } else {
                0
            }),
    {
        if species < self.sets.len() {
            self.sets[species].len()
        } else {
            0
        }
    }

    /// The particles of a species, for the next frame to be computed from.
    /// Empty for a species that the simulation does not have.
    pub fn particle_set(&self, species: usize) -> (r: Vec<Particle>)
        ensures
            r@ == (if species < self@.len() {
                self@[species as int]
            } else {
                Seq::<Particle>::empty()
            }),
            forall|i: int| 0 <= i < r@.len() ==> (#[trigger] r@[i]).finite(),
    {
        proof {
            use_type_invariant(self);
        }
        let mut out: Vec<Particle> = Vec::new();
        if species < self.sets.len() {
            let row = &self.sets[species];
            let mut i: usize = 0;
            while i < row.len()
                invariant
                    i <= row@.len(),
                    out@ == row@.subrange(0, i as int),
                decreases row@.len() - i,
            {
                out.push(row[i]);
                assert(out@ == row@.subrange(0, i + 1));
                i += 1;
            }
            assert(row@.subrange(0, row@.len() as int) == row@);
        }
        out
    }

    /// What there is to draw of a species: the position of each particle,
    /// with the species that it belongs to. Empty for a species that the
    /// simulation does not have.
    pub fn particles(&self, species: usize) -> (r: Vec<(Vector2, usize)>)
        ensures
            r@.len() == (if species < self@.len() {
                self@[species as int].len()
            } else {
                0
            }),
            forall|i: int|
                0 <= i < r@.len() ==> #[trigger] r@[i] == (self@[species as int][i].pos, species),
            forall|i: int| 0 <= i < r@.len() ==> (#[trigger] r@[i]).0.finite(),
    {
        proof {
            use_type_invariant(self);
        }
        let mut out: Vec<(Vector2, usize)> = Vec::new();
        if species < self.sets.len() {
            let row = &self.sets[species];
            let mut i: usize = 0;
            while i < row.len()
                invariant
                    i <= row@.len(),
                    out@.len() == i,
                    forall|k: int| 0 <= k < i ==> #[trigger] out@[k] == (row@[k].pos, species),
                decreases row@.len() - i,
            {
                out.push((row[i].pos, species));
                i += 1;
            }
        }
        out
    }

    /// A copy of every position, species by species: what the forces of a
    /// frame are computed from, whatever is committed meanwhile.
    pub fn snapshot(&self) -> (r: Vec<Vec<Vector2>>)
        ensures
            grid(r@) == positions_of(self@),
    {
        let n = self.sets.len();
        let mut out: Vec<Vec<Vector2>> = Vec::new();
        let mut s: usize = 0;
        while s < n
            invariant
                s <= n,
                n == self.sets@.len(),
                out@.len() == s,
                forall|a: int| 0 <= a < s ==> (#[trigger] out@[a])@ == positions_of(self@)[a],
            decreases n - s,
        {
            let row = &self.sets[s];
            let mut places: Vec<Vector2> = Vec::new();
            let mut i: usize = 0;
            while i < row.len()
                invariant
                    i <= row@.len(),
                    places@.len() == i,
                    forall|k: int| 0 <= k < i ==> (#[trigger] places@[k]) == row@[k].pos,
                decreases row@.len() - i,
            {
                places.push(row[i].pos);
                i += 1;
            }
            assert(places@ =~= positions_of(self@)[s as int]);
            out.push(places);
            s += 1;
        }
        assert(grid(out@) =~= positions_of(self@));
        out
    }

    /// Ends a frame. `moved` holds every particle as the frame's arithmetic
    /// left it: its new position, and its new velocity before reflection.
    /// The frame is taken whole or not at all: where it has another shape
    /// than the state, or holds a component that is not finite, the state
    /// stays as it was. Else every velocity is reflected at the edges of the
    /// world and the particles replace those of the state.
    pub fn commit(&mut self, moved: &Vec<Vec<Particle>>) -> (r: Result<(), StepError>)
        ensures
            final(self).settings() == old(self).settings(),
            final(self).coefficients() == old(self).coefficients(),
            same_shape(final(self)@, old(self)@),
            final(self).sound(),
            match step_fault(old(self)@, grid(moved@)) {
                Some(e) => r == Err::<(), StepError>(e) && final(self)@ == old(self)@,
                None => r == Ok::<(), StepError>(()) && final(self)@ == settled_all(
                    old(self).settings().bounds,
                    grid(moved@),
                ),
            },
    {
        proof {
            use_type_invariant(&*self);
            self.lemma_sound();
        }
        let n = self.sets.len();
        if moved.len() != n {
            return Err(StepError::ShapeMismatch);
        }
        let mut s: usize = 0;
        while s < n
            invariant
                s <= n,
                n == self.sets@.len(),
                n == moved@.len(),
                *self == *old(self),
                self.sound(),
                forall|a: int| 0 <= a < s ==> (#[trigger] moved@[a])@.len() == self.sets@[a]@.len(),
            decreases n - s,
        {
            if moved[s].len() != self.sets[s].len() {
                assert(self@[s as int].len() != grid(moved@)[s as int].len());
                return Err(StepError::ShapeMismatch);
            }
            s += 1;
        }
        assert(same_shape(self@, grid(moved@)));
        let bounds = self.config.bounds;
        let mut fresh: Vec<Vec<Particle>> = Vec::new();
        s = 0;
        while s < n
            invariant
                s <= n,
                n == self.sets@.len(),
                n == moved@.len(),
                *self == *old(self),
                self.sound(),
                bounds == self.config.bounds,
                same_shape(self@, grid(moved@)),
                fresh@.len() == s,
                forall|a: int|
                    0 <= a < s ==> (#[trigger] fresh@[a])@ == settled_all(bounds, grid(moved@))[a],
                forall|a: int, i: int|
                    0 <= a < s && 0 <= i < moved@[a]@.len() ==> (#[trigger] grid(
                        moved@,
                    )[a][i]).finite(),
            decreases n - s,
        {
            let row = &moved[s];
            let mut settled: Vec<Particle> = Vec::new();
            let mut i: usize = 0;
            while i < row.len()
                invariant
                    i <= row@.len(),
                    s < n,
                    n == moved@.len(),
                    row@ == moved@[s as int]@,
                    *self == *old(self),
                    self.sound(),
                    same_shape(self@, grid(moved@)),
                    settled@.len() == i,
                    forall|k: int|
                        0 <= k < i ==> (#[trigger] settled@[k]) == bounds.settled(row@[k]),
                    forall|k: int| 0 <= k < i ==> (#[trigger] row@[k]).finite(),
                decreases row@.len() - i,
            {
                let p = row[i];
                if !p.is_finite() {
                    assert(!grid(moved@)[s as int][i as int].finite());
                    return Err(StepError::NumericInvariantViolation);
                }
                settled.push(bounds.settle(p));
                i += 1;
            }
            assert(settled@ =~= settled_all(bounds, grid(moved@))[s as int]);
            fresh.push(settled);
            s += 1;
        }
        proof {
            assert(grid(fresh@) =~= settled_all(bounds, grid(moved@)));
            assert(all_finite(grid(moved@)));
            assert forall|a: int, i: int|
                0 <= a < fresh@.len() && 0 <= i < fresh@[a]@.len() implies (
            #[trigger] fresh@[a]@[i]).finite() by {
                let p = grid(moved@)[a][i];
                assert(p.finite());
                assert(fresh@[a]@[i] == bounds.settled(p));
                lemma_reflection_keeps_magnitude(p.pos.x, p.vel.x, bounds.width);
                lemma_reflection_keeps_magnitude(p.pos.y, p.vel.y, bounds.height);
            }
        }
        self.sets = fresh;
        proof {
            assert(all_finite(self@)) by {
                assert forall|a: int, i: int|
                    0 <= a < self@.len() && 0 <= i < self@[a].len() implies (
                #[trigger] self@[a][i]).finite() by {
                    assert(self.sets@[a]@[i].finite());
                }
            }
        }
        Ok(())
    }

    proof fn lemma_sound(&self)
        requires
            self.well_formed(),
        ensures
            self.sound(),
    {
        assert(all_finite(self@)) by {
            assert forall|a: int, i: int|
                0 <= a < self@.len() && 0 <= i < self@[a].len() implies (
            #[trigger] self@[a][i]).finite() by {
                assert(self.sets@[a]@[i].finite());
            }
        }
    }
}

} // verus!
