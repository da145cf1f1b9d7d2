//! One tick of the simulation: every body moves, then every pair attracts.
use crate::celestial_bodies::body_config::CelestialBody;
use crate::celestial_bodies::planet::{same_body, BodyState, Planet};
use crate::utils::array_logic::{DegenerateVector, Vec2};
use crate::utils::fixed::Fixed;
use crate::utils::physics::{apart, attraction, grav_force};
use rand::rngs::StdRng;
use vstd::prelude::*;

verus! {

/// The states of a collection of bodies, in its order.
pub open spec fn states(bodies: Seq<Planet>) -> Seq<BodyState> {
    bodies.map_values(|planet: Planet| planet@)
}

/// `after` is what one body in state `before` may become in the first half
/// of a tick: it is moved over `dt` and turned around at the walls; if that
/// leaves it too far from `centre`, it is at some place and with some
/// velocity of its configuration's ranges, and else it is left as it is.
pub open spec fn step_outcome(
    before: BodyState,
    after: BodyState,
    dt: Fixed,
    bounds: Fixed,
    centre: Vec2,
) -> bool {
    let moved = before.integrated(dt).reflected(bounds);
    if moved.too_far(centre) {
        &&& after == moved.placed(after.position, after.velocity)
        &&& moved.config.in_position_range(after.position)
        &&& moved.config.in_velocity_range(after.velocity)
    } else {
        after == moved
    }
}

/// The first half of a tick generates the body anew.
pub open spec fn leaves_the_arena(
    before: BodyState,
    dt: Fixed,
    bounds: Fixed,
    centre: Vec2,
) -> bool {
    before.integrated(dt).reflected(bounds).too_far(centre)
}

/// The pairs of body `i` with each later body of `n`, in rising order.
pub open spec fn row(i: int, n: int) -> Seq<(int, int)> {
    Seq::new(
        if n - 1 - i > 0 {
            (n - 1 - i) as nat
        } else {
            0
        },
        |k: int| (i, i + 1 + k),
    )
}

/// The rows of the bodies before `m`, one after the other.
pub open spec fn pairs_below(m: int, n: int) -> Seq<(int, int)>
    decreases m,
{
    if m <= 0 {
        Seq::empty()
    } else {
        pairs_below(m - 1, n) + row(m - 1, n)
    }
}

/// The pairs `(i, j)` with `i < j < n` in the order in which a tick visits them.
pub open spec fn unique_pairs(n: int) -> Seq<(int, int)> {
    pairs_below(n, n)
}

/// The first pair precedes the second in the order of a tick.
pub open spec fn precedes(first: (int, int), second: (int, int)) -> bool {
    first.0 < second.0 || (first.0 == second.0 && first.1 < second.1)
}

proof fn lemma_pairs_below(m: int, n: int)
    requires
        0 <= m <= n,
    ensures
        2 * pairs_below(m, n).len() == 2 * m * n - m * (m + 1),
        forall|k: int|
            0 <= k < pairs_below(m, n).len() ==> {
                &&& 0 <= (#[trigger] pairs_below(m, n)[k]).0 < m
                &&& pairs_below(m, n)[k].0 < pairs_below(m, n)[k].1 < n
            },
        forall|k1: int, k2: int|
            0 <= k1 < k2 < pairs_below(m, n).len() ==> precedes(
                #[trigger] pairs_below(m, n)[k1],
                #[trigger] pairs_below(m, n)[k2],
            ),
    decreases m,
{
    if m > 0 {
        lemma_pairs_below(m - 1, n);
        assert(2 * (m - 1) * n - (m - 1) * m + 2 * (n - m) == 2 * m * n - m * (m + 1))
            by (nonlinear_arith);
    } else {
        assert(2 * m * n - m * (m + 1) == 0) by (nonlinear_arith)
            requires
                m == 0,
        ;
    }
}

proof fn lemma_pair_position(i: int, j: int, m: int, n: int)
    requires
        0 <= i < j < n,
        i < m <= n,
    ensures
        0 <= pairs_below(i, n).len() + j - i - 1 < pairs_below(m, n).len(),
        pairs_below(m, n)[pairs_below(i, n).len() + j - i - 1] == (i, j),
    decreases m,
{
    if m > i + 1 {
        lemma_pair_position(i, j, m - 1, n);
    }
}

/// A tick visits `n * (n - 1) / 2` pairs of `n` bodies.
pub proof fn lemma_pair_count(n: nat)
    ensures
        unique_pairs(n as int).len() == n * (n - 1) / 2,
{
    lemma_pairs_below(n as int, n as int);
    assert(2 * n * n - n * (n + 1) == n * (n - 1)) by (nonlinear_arith);
}

/// A tick visits only pairs of two different bodies, the earlier one first.
pub proof fn lemma_pairs_are_distinct_bodies(n: nat, k: int)
    requires
        0 <= k < unique_pairs(n as int).len(),
    ensures
        0 <= unique_pairs(n as int)[k].0 < unique_pairs(n as int)[k].1 < n,
{
    lemma_pairs_below(n as int, n as int);
}

/// A tick visits every pair of two different bodies, and none twice.
pub proof fn lemma_each_pair_once(n: nat, i: int, j: int)
    requires
        0 <= i < j < n,
    ensures
        exists|k: int| 0 <= k < unique_pairs(n as int).len() && unique_pairs(n as int)[k] == (i, j),
        forall|k1: int, k2: int|
            0 <= k1 < unique_pairs(n as int).len() && 0 <= k2 < unique_pairs(n as int).len()
                && unique_pairs(n as int)[k1] == (i, j) && unique_pairs(n as int)[k2] == (i, j)
                ==> k1 == k2,
{
    let pairs = unique_pairs(n as int);
    lemma_pair_position(i, j, n as int, n as int);
    let at = pairs_below(i, n as int).len() + j - i - 1;
    assert(pairs[at] == (i, j));
    lemma_pairs_below(n as int, n as int);
    assert forall|k1: int, k2: int|
        0 <= k1 < pairs.len() && 0 <= k2 < pairs.len() && pairs[k1] == (i, j) && pairs[k2] == (
            i,
            j,
        ) implies k1 == k2 by {
        if k1 < k2 {
            assert(precedes(pairs[k1], pairs[k2]));
        } else if k2 < k1 {
            assert(precedes(pairs[k2], pairs[k1]));
        }
    }
}

/// The states after the two bodies of `pair` have attracted each other.
/// A pair that is not apart exerts no force.
pub open spec fn apply_pair(bodies: Seq<BodyState>, pair: (int, int), g: Fixed) -> Seq<BodyState> {
    let first = bodies[pair.0];
    let second = bodies[pair.1];
    match attraction(first.position, first.mass, second.position, second.mass, g) {
        Some(forces) => bodies.update(pair.0, first.pushed(forces.0)).update(
            pair.1,
            second.pushed(forces.1),
        ),
        None => bodies,
    }
}

/// The states after the pairs have attracted each other, one pair after the other.
pub open spec fn apply_pairs(bodies: Seq<BodyState>, pairs: Seq<(int, int)>, g: Fixed) -> Seq<
    BodyState,
>
    decreases pairs.len(),
{
    if pairs.len() == 0 {
        bodies
    } else {
        apply_pair(apply_pairs(bodies, pairs.drop_last(), g), pairs.last(), g)
    }
}

/// Bodies `a` and `b` of the collection are apart.
pub open spec fn apart_at(bodies: Seq<BodyState>, a: int, b: int) -> bool {
    apart(bodies[a].position, bodies[b].position)
}

/// Every two bodies of the collection are apart.
pub open spec fn all_apart(bodies: Seq<BodyState>) -> bool {
    forall|a: int, b: int| 0 <= a < b < bodies.len() ==> apart_at(bodies, a, b)
}

/// The two states differ in nothing but the velocity.
pub open spec fn same_but_velocity(one: BodyState, other: BodyState) -> bool {
    one == (BodyState { velocity: one.velocity, ..other })
}

/// Attraction changes the velocities of the bodies and nothing else: not
/// their number, and of no body the place, the mass or the size.
pub proof fn lemma_gravity_changes_only_velocities(
    bodies: Seq<BodyState>,
    pairs: Seq<(int, int)>,
    g: Fixed,
)
    requires
        forall|k: int|
            0 <= k < pairs.len() ==> 0 <= (#[trigger] pairs[k]).0 < bodies.len() && 0 <= pairs[k].1
                < bodies.len(),
    ensures
        apply_pairs(bodies, pairs, g).len() == bodies.len(),
        forall|i: int|
            0 <= i < bodies.len() ==> same_but_velocity(
                #[trigger] apply_pairs(bodies, pairs, g)[i],
                bodies[i],
            ),
    decreases pairs.len(),
{
    if pairs.len() > 0 {
        let earlier = pairs.drop_last();
        assert forall|k: int| 0 <= k < earlier.len() implies 0 <= (#[trigger] earlier[k]).0
            < bodies.len() && 0 <= earlier[k].1 < bodies.len() by {
            assert(earlier[k] == pairs[k]);
        }
        lemma_gravity_changes_only_velocities(bodies, earlier, g);
        let last = pairs.last();
        assert(last == pairs[pairs.len() - 1]);
    }
}

/// Moves every body over `dt`, turns it around at the walls, and generates
/// it anew where that has left it too far from `centre`.
pub fn advance_bodies(
    bodies: &mut Vec<Planet>,
    dt: Fixed,
    bounds: Fixed,
    centre: Vec2,
    rng: &mut StdRng,
)
    ensures
        final(bodies).len() == old(bodies).len(),
        forall|k: int|
            0 <= k < old(bodies).len() ==> step_outcome(
                #[trigger] old(bodies)[k]@,
                final(bodies)[k]@,
                dt,
                bounds,
                centre,
            ),
        forall|k: int|
            0 <= k < old(bodies).len() ==> same_body(#[trigger] final(bodies)[k]@, old(bodies)[k]@),
        (forall|k: int|
            0 <= k < old(bodies).len() ==> !leaves_the_arena(
                #[trigger] old(bodies)[k]@,
                dt,
                bounds,
                centre,
            )) ==> *final(rng) == *old(rng),
{
    let ghost before = bodies@;
    let n: usize = bodies.len();
    let mut i: usize = 0;
    while i < n
        invariant
            i <= n,
            bodies.len() == n,
            before.len() == n,
            forall|k: int|
                0 <= k < i ==> step_outcome(#[trigger] before[k]@, bodies[k]@, dt, bounds, centre),
            forall|k: int| i <= k < n ==> bodies[k] == before[k],
            (forall|k: int|
                0 <= k < i ==> !leaves_the_arena(#[trigger] before[k]@, dt, bounds, centre))
                ==> *rng == *old(rng),
        decreases n - i,
    {
        let mut planet = bodies[i];
        assert(planet@ == before[i as int]@);
        planet.update(dt);
        planet.check_collision(bounds);
        planet.check_dist_from_centre(centre, rng);
        bodies.set(i, planet);
        i += 1;
    }
}

/// Lets every pair of two different bodies attract each other once: the
/// pairs in the order of `unique_pairs`, each force acting on a body's
/// velocity as soon as its pair was visited. Reports whether some pair was
/// not apart; such a pair exerts no force.
pub fn apply_gravity(bodies: &mut Vec<Planet>, g: Fixed) -> (r: Result<(), DegenerateVector>)
    ensures
        states(final(bodies)@) == apply_pairs(
            states(old(bodies)@),
            unique_pairs(old(bodies).len() as int),
            g,
        ),
        r is Ok <==> all_apart(states(old(bodies)@)),
        final(bodies).len() == old(bodies).len(),
        forall|k: int|
            0 <= k < old(bodies).len() ==> same_but_velocity(
                #[trigger] final(bodies)[k]@,
                old(bodies)[k]@,
            ),
{
    let ghost start = states(bodies@);
    let n: usize = bodies.len();
    let mut all_were_apart = true;
    let mut i: usize = 0;
    while i < n
        invariant
            i <= n,
            bodies.len() == n,
            start.len() == n,
            states(bodies@) == apply_pairs(start, pairs_below(i as int, n as int), g),
            forall|k: int| 0 <= k < n ==> same_but_velocity(#[trigger] bodies[k]@, start[k]),
            all_were_apart <==> (forall|a: int, b: int|
                0 <= a < b < n && a < i ==> apart_at(start, a, b)),
        decreases n - i,
    {
        let ghost mut done = pairs_below(i as int, n as int);
        let mut j: usize = i + 1;
        while j < n
            invariant
                i < n,
                i < j <= n,
                bodies.len() == n,
                start.len() == n,
                done == pairs_below(i as int, n as int) + row(i as int, n as int).take(
                    j - i - 1,
                ),
                states(bodies@) == apply_pairs(start, done, g),
                forall|k: int| 0 <= k < n ==> same_but_velocity(#[trigger] bodies[k]@, start[k]),
                all_were_apart <==> (forall|a: int, b: int|
                    0 <= a < b < n && (a < i || (a == i && b < j)) ==> apart_at(start, a, b)),
            decreases n - j,
        {
            let ghost current = states(bodies@);
            let mut first = bodies[i];
            let mut second = bodies[j];
            assert(first@ == current[i as int] && second@ == current[j as int]);
            assert(same_but_velocity(bodies[i as int]@, start[i as int]));
            assert(same_but_velocity(bodies[j as int]@, start[j as int]));
            match grav_force(&first, &second, g) {
                Ok(forces) => {
                    first.add_force(forces.0);
                    second.add_force(forces.1);
                    bodies.set(i, first);
                    bodies.set(j, second);
                    assert(apart_at(start, i as int, j as int));
                },
                Err(_) => {
                    all_were_apart = false;
                    assert(!apart_at(start, i as int, j as int));
                },
            }
            proof {
                let pair = (i as int, j as int);
                let next = done.push(pair);
                assert(next.drop_last() =~= done);
                assert(states(bodies@) =~= apply_pair(current, pair, g));
                assert(row(i as int, n as int).take(j - i) =~= row(i as int, n as int).take(
                    j - i - 1,
                ).push(pair));
                assert(next =~= pairs_below(i as int, n as int) + row(i as int, n as int).take(
                    j - i,
                ));
                done = next;
            }
            j += 1;
        }
        proof {
            assert(row(i as int, n as int).take(n - i - 1) =~= row(i as int, n as int));
        }
        i += 1;
    }
    if all_were_apart {
        Ok(())
    } else {
        Err(DegenerateVector)
    }
}

/// Runs one tick. First every body is moved over `dt`, turned around at the
/// walls and, where it is then too far from `centre`, generated anew. Only
/// then every pair of bodies attracts each other, on the places that the
/// first half has left. Reports whether some pair was not apart.
pub fn tick(
    bodies: &mut Vec<Planet>,
    dt: Fixed,
    bounds: Fixed,
    centre: Vec2,
    g: Fixed,
    rng: &mut StdRng,
) -> (r: Result<(), DegenerateVector>)
    ensures
        (exists|moved: Seq<BodyState>|
            {
                &&& moved.len() == old(bodies).len()
                &&& forall|k: int|
                    0 <= k < moved.len() ==> step_outcome(
                        #[trigger] old(bodies)[k]@,
                        moved[k],
                        dt,
                        bounds,
                        centre,
                    )
                &&& states(final(bodies)@) == apply_pairs(
                    moved,
                    unique_pairs(moved.len() as int),
                    g,
                )
                &&& r is Ok <==> all_apart(moved)
            }),
        final(bodies).len() == old(bodies).len(),
        forall|k: int|
            0 <= k < old(bodies).len() ==> same_body(#[trigger] final(bodies)[k]@, old(bodies)[k]@),
        (forall|k: int|
            0 <= k < old(bodies).len() ==> !leaves_the_arena(
                #[trigger] old(bodies)[k]@,
                dt,
                bounds,
                centre,
            )) ==> *final(rng) == *old(rng),
{
    advance_bodies(bodies, dt, bounds, centre, rng);
    let ghost moved = states(bodies@);
    let r = apply_gravity(bodies, g);
    proof {
        assert(moved.len() == old(bodies).len());
        assert forall|k: int| 0 <= k < moved.len() implies step_outcome(
            #[trigger] old(bodies)[k]@,
            moved[k],
            dt,
            bounds,
            centre,
        ) by {}
    }
    r
}

} // verus!
