//! The force law: a type-independent core repulsion below the normalized
//! radius `beta`, a tent-shaped attraction/repulsion scaled by the affinity
//! up to the interaction threshold, and nothing beyond it.

use vstd::prelude::*;
use crate::fixed::{
    SCALE, MAX_THRESHOLD, REGION_BOUND, MAX_PARTICLES, abs_i, mul_div, mul_div_spec, isqrt,
    sqrt_spec, lemma_abs_mul_le, lemma_mul_div_le, lemma_mul_div_nonneg,
};
use crate::geometry::Vec2;
use crate::particle::{Particle, AffinityMatrix};

verus! {

/// A position whose coordinates stay within the region bound, so that
/// displacements and squared distances stay in range.
pub open spec fn pos_bounded(v: Vec2) -> bool {
    &&& -REGION_BOUND <= v.x <= REGION_BOUND
    &&& -REGION_BOUND <= v.y <= REGION_BOUND
}

/// The force magnitude at normalized distance `r` (fixed point: `SCALE` is
/// the interaction threshold) between kinds whose coefficient is `affinity`.
/// Below `beta` it is the affinity-independent repulsion `r/beta - 1`; from
/// `beta` up to `1` it is the tent `(1 - |2r - beta| - beta) * affinity`;
/// from `1` on it is zero.
pub open spec fn force_spec(r: int, affinity: int, beta: int) -> int {
    if r < beta {
        mul_div_spec(r, SCALE as int, beta) - SCALE
    } else if r < SCALE {
        mul_div_spec(SCALE - abs_i(2 * r - beta) - beta, affinity, SCALE as int)
    } else {
        0
    }
}

/// Evaluates the force law.  The result is exactly zero at and beyond the
/// threshold, and strictly repulsive (negative) below `beta` whatever the
/// affinity.
pub fn get_force(r: i64, affinity: i64, beta: i64) -> (f: i64)
    requires
        0 <= r,
        0 < beta < SCALE,
        -SCALE <= affinity <= SCALE,
    ensures
        f as int == force_spec(r as int, affinity as int, beta as int),
        -SCALE <= f <= SCALE,
        r >= SCALE ==> f == 0,
        r < beta ==> f < 0,
{
    if r >= SCALE {
        return 0;
    }
    if r < beta {
        proof {
            lemma_abs_mul_le(r as int, SCALE as int, beta as int - 1, SCALE as int);
            assert((beta as int - 1) * (SCALE as int) <= (SCALE as int - 1) * (beta as int))
                by (nonlinear_arith)
                requires
                    0 < beta as int <= SCALE as int,
            ;
            lemma_mul_div_le(r as int, SCALE as int, beta as int, SCALE as int - 1);
            lemma_mul_div_nonneg(r as int, SCALE as int, beta as int);
        }
        let q = mul_div(r, SCALE, beta);
        q - SCALE
    } else {
        let t = SCALE - (2 * r - beta) - beta;
        proof {
            lemma_abs_mul_le(t as int, affinity as int, SCALE as int, SCALE as int);
            lemma_mul_div_le(t as int, affinity as int, SCALE as int, SCALE as int);
        }
        mul_div(t, affinity, SCALE)
    }
}

/// The force vector that neighbor `q` contributes on `p`, given the
/// interaction threshold, the core radius `beta` and the kind-pair
/// coefficient.  A coincident pair (squared distance zero) and a pair at or
/// beyond the threshold contribute nothing; otherwise the magnitude follows
/// the force law at the normalized distance and points along the unit
/// direction from `p` to `q`.
pub open spec fn pair_force_spec(
    p: Particle,
    q: Particle,
    threshold: int,
    beta: int,
    affinity: int,
) -> (int, int) {
    let dx = q.position.x - p.position.x;
    let dy = q.position.y - p.position.y;
    let d2 = dx * dx + dy * dy;
    if d2 == 0 {
        (0, 0)
    } else {
        let dist = sqrt_spec(d2);
        if dist >= threshold {
            (0, 0)
        } else {
            let r = mul_div_spec(dist, SCALE as int, threshold);
            let f = force_spec(r, affinity, beta);
            let dir_x = mul_div_spec(dx, SCALE as int, dist);
            let dir_y = mul_div_spec(dy, SCALE as int, dist);
            (mul_div_spec(f, dir_x, SCALE as int), mul_div_spec(f, dir_y, SCALE as int))
        }
    }
}

/// Evaluates one pair's force contribution.  Each component is at most one
/// unit in magnitude.
pub fn pair_force(
    p: &Particle,
    q: &Particle,
    matrix: &AffinityMatrix,
    threshold: i64,
    beta: i64,
) -> (f: (i64, i64))
    requires
        matrix.wf(),
        1 <= threshold <= MAX_THRESHOLD,
        0 < beta < SCALE,
        pos_bounded(p.position),
        pos_bounded(q.position),
    ensures
        (f.0 as int, f.1 as int) == pair_force_spec(
            *p,
            *q,
            threshold as int,
            beta as int,
            matrix.affinity_spec(p.kind, q.kind),
        ),
        abs_i(f.0 as int) <= SCALE,
        abs_i(f.1 as int) <= SCALE,
{
    let dx = q.position.x - p.position.x;
    let dy = q.position.y - p.position.y;
    proof {
        lemma_abs_mul_le(dx as int, dx as int, 2 * REGION_BOUND as int, 2 * REGION_BOUND as int);
        lemma_abs_mul_le(dy as int, dy as int, 2 * REGION_BOUND as int, 2 * REGION_BOUND as int);
    }
    let d2: i128 = (dx as i128) * (dx as i128) + (dy as i128) * (dy as i128);
    proof {
        assert((dx as int) * (dx as int) >= 0) by (nonlinear_arith);
        assert((dy as int) * (dy as int) >= 0) by (nonlinear_arith);
    }
    if d2 == 0 {
        return (0, 0);
    }
    let dist64 = isqrt(d2 as u128);
    proof {
        assert(dist64 as int <= 300_000_000_000_000) by (nonlinear_arith)
            requires
                (dist64 as int) * (dist64 as int) <= d2 as int,
                d2 as int <= 80_000_000_000_000_000_000_000_000_000,
                0 <= dist64 as int,
        ;
    }
    let dist = dist64 as i64;
    if dist >= threshold {
        return (0, 0);
    }
    proof {
        lemma_abs_mul_le(dist as int, SCALE as int, threshold as int - 1, SCALE as int);
        assert((threshold as int - 1) * (SCALE as int) <= (SCALE as int) * (threshold as int))
            by (nonlinear_arith)
            requires
                1 <= threshold as int,
        ;
        lemma_mul_div_le(dist as int, SCALE as int, threshold as int, SCALE as int);
        lemma_mul_div_nonneg(dist as int, SCALE as int, threshold as int);
    }
    let r = mul_div(dist, SCALE, threshold);
    let a = matrix.affinity(p.kind, q.kind);
    let f = get_force(r, a, beta);
    proof {
        assert(1 <= dist as int) by (nonlinear_arith)
            requires
                ((dist as int + 1) * (dist as int + 1)) > d2 as int,
                d2 as int >= 1,
                0 <= dist as int,
        ;
        assert(abs_i(dx as int) <= dist as int) by (nonlinear_arith)
            requires
                (dx as int) * (dx as int) <= d2 as int,
                (d2 as int) < ((dist as int + 1) * (dist as int + 1)),
                0 <= dist as int,
        ;
        assert(abs_i(dy as int) <= dist as int) by (nonlinear_arith)
            requires
                (dy as int) * (dy as int) <= d2 as int,
                (d2 as int) < ((dist as int + 1) * (dist as int + 1)),
                0 <= dist as int,
        ;
        lemma_abs_mul_le(dx as int, SCALE as int, dist as int, SCALE as int);
        lemma_abs_mul_le(dy as int, SCALE as int, dist as int, SCALE as int);
        assert((dist as int) * (SCALE as int) == (SCALE as int) * (dist as int))
            by (nonlinear_arith);
        lemma_mul_div_le(dx as int, SCALE as int, dist as int, SCALE as int);
        lemma_mul_div_le(dy as int, SCALE as int, dist as int, SCALE as int);
    }
    let dir_x = mul_div(dx, SCALE, dist);
    let dir_y = mul_div(dy, SCALE, dist);
    proof {
        lemma_abs_mul_le(f as int, dir_x as int, SCALE as int, SCALE as int);
        lemma_abs_mul_le(f as int, dir_y as int, SCALE as int, SCALE as int);
        lemma_mul_div_le(f as int, dir_x as int, SCALE as int, SCALE as int);
        lemma_mul_div_le(f as int, dir_y as int, SCALE as int, SCALE as int);
    }
    let fx = mul_div(f, dir_x, SCALE);
    let fy = mul_div(f, dir_y, SCALE);
    (fx, fy)
}

/// The accumulated force on `p` from a sequence of neighbors, summed in
/// order.
pub open spec fn total_force_spec(
    p: Particle,
    ns: Seq<Particle>,
    threshold: int,
    beta: int,
    matrix: AffinityMatrix,
) -> (int, int)
    decreases ns.len(),
{
    if ns.len() == 0 {
        (0, 0)
    } else {
        let rest = total_force_spec(p, ns.drop_last(), threshold, beta, matrix);
        let c = pair_force_spec(
            p,
            ns.last(),
            threshold,
            beta,
            matrix.affinity_spec(p.kind, ns.last().kind),
        );
        (rest.0 + c.0, rest.1 + c.1)
    }
}

/// Accumulates the force on `p` from every neighbor in the list, in order.
pub fn total_force(
    p: &Particle,
    neighbors: &Vec<Particle>,
    matrix: &AffinityMatrix,
    threshold: i64,
    beta: i64,
) -> (f: (i64, i64))
    requires
        matrix.wf(),
        1 <= threshold <= MAX_THRESHOLD,
        0 < beta < SCALE,
        pos_bounded(p.position),
        forall|k: int|
            0 <= k < neighbors@.len() ==> pos_bounded((#[trigger] neighbors@[k]).position),
        neighbors@.len() <= 2 * MAX_PARTICLES,
    ensures
        (f.0 as int, f.1 as int) == total_force_spec(
            *p,
            neighbors@,
            threshold as int,
            beta as int,
            *matrix,
        ),
        abs_i(f.0 as int) <= neighbors@.len() * SCALE,
        abs_i(f.1 as int) <= neighbors@.len() * SCALE,
{
    let mut fx: i64 = 0;
    let mut fy: i64 = 0;
    let mut i: usize = 0;
    while i < neighbors.len()
        invariant
            matrix.wf(),
            1 <= threshold <= MAX_THRESHOLD,
            0 < beta < SCALE,
            pos_bounded(p.position),
            forall|k: int|
                0 <= k < neighbors@.len() ==> pos_bounded((#[trigger] neighbors@[k]).position),
            neighbors@.len() <= 2 * MAX_PARTICLES,
            i <= neighbors@.len(),
            (fx as int, fy as int) == total_force_spec(
                *p,
                neighbors@.take(i as int),
                threshold as int,
                beta as int,
                *matrix,
            ),
            abs_i(fx as int) <= i * SCALE,
            abs_i(fy as int) <= i * SCALE,
        decreases neighbors@.len() - i,
    {
        let q = neighbors[i];
        let c = pair_force(p, &q, matrix, threshold, beta);
        proof {
            let taken = neighbors@.take(i + 1);
            assert(taken.drop_last() =~= neighbors@.take(i as int));
            assert(taken.last() == q);
        }
        fx = fx + c.0;
        fy = fy + c.1;
        i += 1;
    }
    proof {
        assert(neighbors@.take(neighbors@.len() as int) =~= neighbors@);
    }
    (fx, fy)
}

} // verus!
