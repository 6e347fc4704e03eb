//! The per-tick simulation engine.
//!
//! Each tick rebuilds the spatial partition from the current particle list,
//! then updates the particles one by one: query a lookahead window around
//! the projected next position, accumulate the pair forces, integrate the
//! velocity with damping, reflect off the arena walls using the pre-move
//! position, move, and immediately re-insert the updated particle so that
//! later particles of the same tick can see it.

use vstd::prelude::*;
use crate::fixed::{
    SCALE, MAX_COORD, MAX_VEL, MAX_DT, MAX_THRESHOLD, MAX_RADIUS, MAX_PARTICLES, abs_i, mul_div,
    mul_div_spec, lemma_abs_mul_le, lemma_mul_div_le, lemma_mul_div_nonneg,
};
use crate::geometry::{Region, Vec2};
use crate::particle::{Particle, AffinityMatrix};
use crate::partition::QuadTree;
use crate::force::{pos_bounded, total_force, total_force_spec};

verus! {

/// The tunable constants of a run, injected at construction and fixed from
/// then on.  All values are fixed point.
pub struct Config {
    /// The arena rectangle; the partition root covers exactly this region.
    pub arena: Region,
    /// The particle radius used for the query window and wall reflection.
    pub radius: i64,
    /// The interaction threshold: pairs at or beyond this distance exert no
    /// force.
    pub threshold: i64,
    /// The core repulsion radius, normalized to `(0, 1)`.
    pub beta: i64,
    /// The velocity damping factor in `[0, 1]`.
    pub damping: i64,
    /// The partition node capacity.
    pub capacity: u32,
    /// The kind-pair force coefficients.
    pub affinity: AffinityMatrix,
}

impl Config {
    /// A sound configuration: a well-formed arena, constants within their
    /// documented ranges, and a well-formed affinity matrix.
    pub open spec fn wf(self) -> bool {
        &&& self.arena.wf()
        &&& 0 <= self.radius <= MAX_RADIUS
        &&& 1 <= self.threshold <= MAX_THRESHOLD
        &&& 0 < self.beta < SCALE
        &&& 0 <= self.damping <= SCALE
        &&& self.capacity >= 1
        &&& self.affinity.wf()
    }

    /// Runtime validity test, so a host can surface a configuration error
    /// at construction instead of trusting its inputs.
    pub fn validate(&self) -> (r: bool)
        ensures
            r == self.wf(),
    {
        self.arena.check_wf() && 0 <= self.radius && self.radius <= MAX_RADIUS && 1
            <= self.threshold && self.threshold <= MAX_THRESHOLD && 0 < self.beta && self.beta
            < SCALE && 0 <= self.damping && self.damping <= SCALE && self.capacity >= 1
            && self.affinity.check()
    }
}

/// A particle whose position and velocity are small enough for one tick's
/// arithmetic to stay in range.
pub open spec fn particle_in_bounds(p: Particle) -> bool {
    &&& -MAX_COORD <= p.position.x <= MAX_COORD
    &&& -MAX_COORD <= p.position.y <= MAX_COORD
    &&& -MAX_VEL <= p.velocity.x <= MAX_VEL
    &&& -MAX_VEL <= p.velocity.y <= MAX_VEL
}

/// The neighbor-query window of a particle: a square centered on the
/// particle's projected next position (current position plus one tick of
/// current velocity), with half-side one and a half radii of lookahead
/// margin.
pub open spec fn window_spec(p: Particle, dt: int, radius: int) -> Region {
    let margin = mul_div_spec(3, radius, 2);
    let cx = p.position.x + mul_div_spec(p.velocity.x as int, dt, SCALE as int);
    let cy = p.position.y + mul_div_spec(p.velocity.y as int, dt, SCALE as int);
    Region {
        origin: Vec2 { x: (cx - margin) as i64, y: (cy - margin) as i64 },
        width: (2 * margin) as i64,
        height: (2 * margin) as i64,
    }
}

/// Builds the neighbor-query window of a particle.
pub fn make_window(p: &Particle, dt: i64, radius: i64) -> (w: Region)
    requires
        particle_in_bounds(*p),
        1 <= dt <= MAX_DT,
        0 <= radius <= MAX_RADIUS,
    ensures
        w == window_spec(*p, dt as int, radius as int),
        w.wf(),
{
    proof {
        lemma_abs_mul_le(3, radius as int, 3, MAX_RADIUS as int);
        lemma_mul_div_le(3, radius as int, 2, 1_500_000_000_000);
        lemma_mul_div_nonneg(3, radius as int, 2);
        lemma_abs_mul_le(p.velocity.x as int, dt as int, MAX_VEL as int, MAX_DT as int);
        lemma_mul_div_le(p.velocity.x as int, dt as int, SCALE as int, 10_000_000_000_000);
        lemma_abs_mul_le(p.velocity.y as int, dt as int, MAX_VEL as int, MAX_DT as int);
        lemma_mul_div_le(p.velocity.y as int, dt as int, SCALE as int, 10_000_000_000_000);
    }
    let margin = mul_div(3, radius, 2);
    let cx = p.position.x + mul_div(p.velocity.x, dt, SCALE);
    let cy = p.position.y + mul_div(p.velocity.y, dt, SCALE);
    Region {
        origin: Vec2 { x: cx - margin, y: cy - margin },
        width: 2 * margin,
        height: 2 * margin,
    }
}

/// Whether the particle's current position is within one radius of the left
/// or right arena wall.
pub open spec fn reflect_x_spec(p: Particle, cfg: Config) -> bool {
    p.position.x < cfg.arena.origin.x + cfg.radius || p.position.x > cfg.arena.origin.x
        + cfg.arena.width - cfg.radius
}

/// Whether the particle's current position is within one radius of the top
/// or bottom arena wall.
pub open spec fn reflect_y_spec(p: Particle, cfg: Config) -> bool {
    p.position.y < cfg.arena.origin.y + cfg.radius || p.position.y > cfg.arena.origin.y
        + cfg.arena.height - cfg.radius
}

/// One particle's update for one tick, given the neighbors its window query
/// returned: accumulate forces, scale by the threshold into an
/// acceleration, integrate the velocity with damping, reflect off walls by
/// the pre-move position, then move.
pub open spec fn step_particle_spec(p: Particle, ns: Seq<Particle>, cfg: Config, dt: int) -> Particle {
    let f = total_force_spec(p, ns, cfg.threshold as int, cfg.beta as int, cfg.affinity);
    let ax = mul_div_spec(f.0, cfg.threshold as int, SCALE as int);
    let ay = mul_div_spec(f.1, cfg.threshold as int, SCALE as int);
    let vx0 = mul_div_spec(cfg.damping as int, p.velocity.x as int, SCALE as int) + mul_div_spec(
        ax,
        dt,
        SCALE as int,
    );
    let vy0 = mul_div_spec(cfg.damping as int, p.velocity.y as int, SCALE as int) + mul_div_spec(
        ay,
        dt,
        SCALE as int,
    );
    let vx1: int = if reflect_x_spec(p, cfg) {
        -vx0
    } else {
        vx0
    };
    let vy1: int = if reflect_y_spec(p, cfg) {
        -vy0
    } else {
        vy0
    };
    let px = p.position.x + mul_div_spec(vx1, dt, SCALE as int);
    let py = p.position.y + mul_div_spec(vy1, dt, SCALE as int);
    Particle {
        position: Vec2 { x: px as i64, y: py as i64 },
        velocity: Vec2 { x: vx1 as i64, y: vy1 as i64 },
        kind: p.kind,
    }
}

/// Updates one particle for one tick against the given neighbor list.
pub fn step_particle(p: &Particle, neighbors: &Vec<Particle>, cfg: &Config, dt: i64) -> (p2:
    Particle)
    requires
        cfg.wf(),
        1 <= dt <= MAX_DT,
        particle_in_bounds(*p),
        neighbors@.len() <= 2 * MAX_PARTICLES,
        forall|k: int|
            0 <= k < neighbors@.len() ==> pos_bounded((#[trigger] neighbors@[k]).position),
    ensures
        p2 == step_particle_spec(*p, neighbors@, *cfg, dt as int),
        p2.kind == p.kind,
{
    let f = total_force(p, neighbors, &cfg.affinity, cfg.threshold, cfg.beta);
    proof {
        assert(abs_i(f.0 as int) <= 20_000_000_000);
        assert(abs_i(f.1 as int) <= 20_000_000_000);
        lemma_abs_mul_le(f.0 as int, cfg.threshold as int, 20_000_000_000, MAX_THRESHOLD as int);
        lemma_mul_div_le(f.0 as int, cfg.threshold as int, SCALE as int, 20_000_000_000_000_000);
        lemma_abs_mul_le(f.1 as int, cfg.threshold as int, 20_000_000_000, MAX_THRESHOLD as int);
        lemma_mul_div_le(f.1 as int, cfg.threshold as int, SCALE as int, 20_000_000_000_000_000);
    }
    let ax = mul_div(f.0, cfg.threshold, SCALE);
    let ay = mul_div(f.1, cfg.threshold, SCALE);
    proof {
        lemma_abs_mul_le(cfg.damping as int, p.velocity.x as int, SCALE as int, MAX_VEL as int);
        lemma_mul_div_le(cfg.damping as int, p.velocity.x as int, SCALE as int, MAX_VEL as int);
        lemma_abs_mul_le(cfg.damping as int, p.velocity.y as int, SCALE as int, MAX_VEL as int);
        lemma_mul_div_le(cfg.damping as int, p.velocity.y as int, SCALE as int, MAX_VEL as int);
        lemma_abs_mul_le(ax as int, dt as int, 20_000_000_000_000_000, MAX_DT as int);
        lemma_mul_div_le(ax as int, dt as int, SCALE as int, 200_000_000_000_000_000);
        lemma_abs_mul_le(ay as int, dt as int, 20_000_000_000_000_000, MAX_DT as int);
        lemma_mul_div_le(ay as int, dt as int, SCALE as int, 200_000_000_000_000_000);
    }
    let vx0 = mul_div(cfg.damping, p.velocity.x, SCALE) + mul_div(ax, dt, SCALE);
    let vy0 = mul_div(cfg.damping, p.velocity.y, SCALE) + mul_div(ay, dt, SCALE);
    let reflect_x = p.position.x < cfg.arena.origin.x + cfg.radius || p.position.x
        > cfg.arena.origin.x + cfg.arena.width - cfg.radius;
    let reflect_y = p.position.y < cfg.arena.origin.y + cfg.radius || p.position.y
        > cfg.arena.origin.y + cfg.arena.height - cfg.radius;
    let vx1 = if reflect_x {
        -vx0
    } else {
        vx0
    };
    let vy1 = if reflect_y {
        -vy0
    } else {
        vy0
    };
    proof {
        lemma_abs_mul_le(vx1 as int, dt as int, 300_000_000_000_000_000, MAX_DT as int);
        lemma_mul_div_le(vx1 as int, dt as int, SCALE as int, 3_000_000_000_000_000_000);
        lemma_abs_mul_le(vy1 as int, dt as int, 300_000_000_000_000_000, MAX_DT as int);
        lemma_mul_div_le(vy1 as int, dt as int, SCALE as int, 3_000_000_000_000_000_000);
    }
    let px = p.position.x + mul_div(vx1, dt, SCALE);
    let py = p.position.y + mul_div(vy1, dt, SCALE);
    Particle { position: Vec2 { x: px, y: py }, velocity: Vec2 { x: vx1, y: vy1 }, kind: p.kind }
}

/// Holds when `p1` is `p0` stepped for one tick against some neighbor list
/// that is sound and complete for `p0`'s query window: every member lies
/// inside the window, and every particle of the tick-start snapshot that
/// lies in the arena and in the window is among the members.
pub open spec fn stepped_against(
    p0: Particle,
    p1: Particle,
    snapshot: Seq<Particle>,
    cfg: Config,
    dt: int,
) -> bool {
    exists|ns: Seq<Particle>|
        {
            &&& (forall|k: int|
                0 <= k < ns.len() ==> window_spec(p0, dt, cfg.radius as int).contains(
                    (#[trigger] ns[k]).position,
                ))
            &&& (forall|j: int|
                0 <= j < snapshot.len() && cfg.arena.contains(
                    (#[trigger] snapshot[j]).position,
                ) && window_spec(p0, dt, cfg.radius as int).contains(snapshot[j].position)
                    ==> ns.contains(snapshot[j]))
            &&& p1 == #[trigger] step_particle_spec(p0, ns, cfg, dt)
        }
}

/// The simulation engine: the authoritative particle list, the spatial
/// partition it rebuilds every tick, and the run configuration.
pub struct Engine {
    pub particles: Vec<Particle>,
    pub tree: QuadTree,
    pub config: Config,
}

impl Engine {
    /// The engine is sound when its configuration is and its partition
    /// root sits exactly on the arena.
    pub open spec fn wf(self) -> bool {
        &&& self.config.wf()
        &&& self.tree.wf()
        &&& self.tree.boundary == self.config.arena
        &&& self.tree.capacity == self.config.capacity
    }

    /// An engine over the given configuration, seeded with the given
    /// particles.
    pub fn new(config: Config, particles: Vec<Particle>) -> (e: Engine)
        requires
            config.wf(),
        ensures
            e.wf(),
            e.particles == particles,
            e.config == config,
    {
        let tree = QuadTree::new(config.arena, config.capacity);
        Engine { particles, tree, config }
    }

    /// Advances the simulation by one tick of length `dt`.
    ///
    /// The tick runs exactly when `dt` and every particle are within the
    /// engine's numeric bounds; otherwise nothing changes and `false` comes
    /// back.  When it runs, the partition is rebuilt from the tick-start
    /// snapshot and each particle `i` is replaced by its stepped value
    /// against the neighbor list its window query returned at its turn —
    /// a list whose members all lie inside particle `i`'s window, drawn
    /// from the snapshot plus the already-updated earlier particles.
    pub fn tick(&mut self, dt: i64) -> (ok: bool)
        requires
            old(self).wf(),
        ensures
            final(self).wf(),
            final(self).config == old(self).config,
            ok == (1 <= dt <= MAX_DT && old(self).particles@.len() <= MAX_PARTICLES && (forall|
                j: int,
            |
                0 <= j < old(self).particles@.len() ==> particle_in_bounds(
                    #[trigger] old(self).particles@[j],
                ))),
            !ok ==> final(self).particles == old(self).particles,
            ok ==> final(self).particles@.len() == old(self).particles@.len(),
            ok ==> (forall|i: int|
                0 <= i < old(self).particles@.len() ==> stepped_against(
                    old(self).particles@[i],
                    #[trigger] final(self).particles@[i],
                    old(self).particles@,
                    old(self).config,
                    dt as int,
                )),
    {
        broadcast use vstd::seq_lib::group_to_multiset_ensures;
        broadcast use vstd::multiset::group_multiset_axioms;

        let n = self.particles.len();
        if !(1 <= dt && dt <= MAX_DT) {
            return false;
        }
        if n > MAX_PARTICLES {
            return false;
        }
        let mut i: usize = 0;
        while i < n
            invariant
                *self == *old(self),
                self.wf(),
                n == self.particles@.len(),
                i <= n,
                forall|j: int| 0 <= j < i ==> particle_in_bounds(#[trigger] self.particles@[j]),
            decreases n - i,
        {
            let p = self.particles[i];
            if !(p.position.x >= -MAX_COORD && p.position.x <= MAX_COORD && p.position.y
                >= -MAX_COORD && p.position.y <= MAX_COORD && p.velocity.x >= -MAX_VEL
                && p.velocity.x <= MAX_VEL && p.velocity.y >= -MAX_VEL && p.velocity.y
                <= MAX_VEL) {
                return false;
            }
            i += 1;
        }
        self.tree.clear();
        let mut i: usize = 0;
        while i < n
            invariant
                self.wf(),
                n == self.particles@.len(),
                i <= n,
                self.particles == old(self).particles,
                self.config == old(self).config,
                self.tree.particles().len() <= i,
                forall|j: int|
                    0 <= j < i && old(self).config.arena.contains(
                        (#[trigger] old(self).particles@[j]).position,
                    ) ==> self.tree.particles().contains(old(self).particles@[j]),
            decreases n - i,
        {
            let p = self.particles[i];
            let ghost pre = self.tree.particles();
            let _rejected = self.tree.insert(p);
            proof {
                broadcast use vstd::seq_lib::group_to_multiset_ensures;
                broadcast use vstd::multiset::group_multiset_axioms;

                if old(self).config.arena.contains(p.position) {
                    assert(self.tree.particles().to_multiset() == pre.to_multiset().insert(p));
                    assert(self.tree.particles().to_multiset().len() == pre.to_multiset().len()
                        + 1);
                    vstd::seq_lib::to_multiset_len(self.tree.particles());
                    vstd::seq_lib::to_multiset_len(pre);
                    assert(self.tree.particles().len() <= pre.len() + 1);
                } else {
                    assert(self.tree.particles().len() == pre.len());
                }
                assert forall|j: int|
                    0 <= j < i + 1 && old(self).config.arena.contains(
                        (#[trigger] old(self).particles@[j]).position,
                    ) implies self.tree.particles().contains(old(self).particles@[j]) by {
                    let x = old(self).particles@[j];
                    if old(self).config.arena.contains(p.position) {
                        if j == i as int {
                            assert(self.tree.particles().to_multiset().count(p) > 0);
                        } else {
                            assert(pre.contains(x));
                            assert(pre.to_multiset().count(x) > 0);
                            assert(self.tree.particles().to_multiset().count(x) >= pre.to_multiset().count(x));
                        }
                    } else {
                        assert(j != i as int);
                        assert(pre.contains(x));
                        assert(pre.to_multiset().count(x) > 0);
                    }
                    assert(self.tree.particles().to_multiset().count(x) > 0);
                }
            }
            i += 1;
        }
        let mut updated: Vec<Particle> = Vec::new();
        let mut i: usize = 0;
        while i < n
            invariant
                self.wf(),
                n == self.particles@.len(),
                n <= MAX_PARTICLES,
                1 <= dt <= MAX_DT,
                i <= n,
                self.particles == old(self).particles,
                self.config == old(self).config,
                forall|j: int| 0 <= j < n ==> particle_in_bounds(#[trigger] self.particles@[j]),
                updated@.len() == i,
                self.tree.particles().len() <= n + i,
                forall|j: int|
                    0 <= j < n && old(self).config.arena.contains(
                        (#[trigger] old(self).particles@[j]).position,
                    ) ==> self.tree.particles().contains(old(self).particles@[j]),
                forall|j: int|
                    0 <= j < i ==> stepped_against(
                        old(self).particles@[j],
                        #[trigger] updated@[j],
                        old(self).particles@,
                        old(self).config,
                        dt as int,
                    ),
            decreases n - i,
        {
            let p = self.particles[i];
            let window = make_window(&p, dt, self.config.radius);
            let found = self.tree.query(&window);
            proof {
                let ghost pred = |q: Particle| window.contains(q.position);
                self.tree.particles().lemma_filter_len(pred);
                assert forall|k: int| 0 <= k < found@.len() implies window.contains(
                    (#[trigger] found@[k]).position,
                ) && pos_bounded(found@[k].position) by {
                    self.tree.particles().lemma_filter_pred(pred, k);
                }
                assert forall|j: int|
                    0 <= j < old(self).particles@.len() && old(self).config.arena.contains(
                        (#[trigger] old(self).particles@[j]).position,
                    ) && window_spec(
                        old(self).particles@[i as int],
                        dt as int,
                        old(self).config.radius as int,
                    ).contains(old(self).particles@[j].position) implies found@.contains(
                    old(self).particles@[j],
                ) by {
                    let x = old(self).particles@[j];
                    assert(self.tree.particles().contains(x));
                    let idx = choose|idx: int|
                        0 <= idx < self.tree.particles().len() && self.tree.particles()[idx] == x;
                    assert(pred(x));
                    self.tree.particles().lemma_filter_contains(pred, idx);
                }
            }
            let p2 = step_particle(&p, &found, &self.config, dt);
            let ghost pre_updated = updated@;
            updated.push(p2);
            let ghost pre = self.tree.particles();
            let _rejected = self.tree.insert(p2);
            proof {
                broadcast use vstd::seq_lib::group_to_multiset_ensures;
                broadcast use vstd::multiset::group_multiset_axioms;

                if old(self).config.arena.contains(p2.position) {
                    assert(self.tree.particles().to_multiset() == pre.to_multiset().insert(p2));
                    assert(self.tree.particles().to_multiset().len() == pre.to_multiset().len()
                        + 1);
                    vstd::seq_lib::to_multiset_len(self.tree.particles());
                    vstd::seq_lib::to_multiset_len(pre);
                    assert(self.tree.particles().len() <= pre.len() + 1);
                } else {
                    assert(self.tree.particles().len() == pre.len());
                }
                assert forall|j: int|
                    0 <= j < n && old(self).config.arena.contains(
                        (#[trigger] old(self).particles@[j]).position,
                    ) implies self.tree.particles().contains(old(self).particles@[j]) by {
                    let x = old(self).particles@[j];
                    assert(pre.contains(x));
                    assert(pre.to_multiset().count(x) > 0);
                    if old(self).config.arena.contains(p2.position) {
                        assert(self.tree.particles().to_multiset().count(x)
                            >= pre.to_multiset().count(x));
                    }
                    assert(self.tree.particles().to_multiset().count(x) > 0);
                }
                assert forall|j: int| 0 <= j < i + 1 implies stepped_against(
                    old(self).particles@[j],
                    #[trigger] updated@[j],
                    old(self).particles@,
                    old(self).config,
                    dt as int,
                ) by {
                    if j == i as int {
                        assert(updated@[j] == p2);
                        assert(p2 == step_particle_spec(
                            old(self).particles@[j],
                            found@,
                            old(self).config,
                            dt as int,
                        ));
                        assert(forall|k: int|
                            0 <= k < found@.len() ==> window_spec(
                                old(self).particles@[j],
                                dt as int,
                                old(self).config.radius as int,
                            ).contains((#[trigger] found@[k]).position));
                    } else {
                        assert(updated@[j] == pre_updated[j]);
                        assert(stepped_against(
                            old(self).particles@[j],
                            pre_updated[j],
                            old(self).particles@,
                            old(self).config,
                            dt as int,
                        ));
                    }
                }
            }
            i += 1;
        }
        self.particles = updated;
        proof {
            assert forall|idx: int| 0 <= idx < old(self).particles@.len() implies stepped_against(
                old(self).particles@[idx],
                #[trigger] self.particles@[idx],
                old(self).particles@,
                old(self).config,
                dt as int,
            ) by {
                assert(self.particles@[idx] == updated@[idx]);
                assert(stepped_against(
                    old(self).particles@[idx],
                    updated@[idx],
                    old(self).particles@,
                    old(self).config,
                    dt as int,
                ));
            }
        }
        true
    }
}

} // verus!
