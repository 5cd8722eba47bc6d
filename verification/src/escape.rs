//! The bounded iteration that classifies a point of the plane.
//!
//! The iteration is generic in the type of a point. The caller supplies the
//! map that is iterated and the test that tells whether a point still lies
//! inside the escape radius.

use vstd::prelude::*;

verus! {

/// How the iteration from one point ended.
#[derive(Debug)]
pub enum Escape<Z> {
    /// The iteration cap was reached without escape: the origin and the
    /// point after each step, the last one too, lay inside.
    Capped,
    /// The orbit left after `iterations` steps, at most the cap, at `point`.
    Escaped { iterations: u64, point: Z },
}

/// Whether `orbit` starts at `origin` and each of its points is one that
/// `step` may return for the point before it.
pub open spec fn is_orbit<Z, S: Fn(Z) -> Z>(orbit: Seq<Z>, origin: Z, step: S) -> bool {
    &&& orbit.len() > 0
    &&& orbit[0] == origin
    &&& forall|k: int|
        #![trigger orbit[k]]
        0 <= k < orbit.len() - 1 ==> call_ensures(step, (orbit[k],), orbit[k + 1])
}

/// Whether `inside` may report each of the first `n` points of `orbit` as inside.
pub open spec fn stays_inside<Z, B: Fn(&Z) -> bool>(orbit: Seq<Z>, inside: B, n: int) -> bool {
    forall|k: int| 0 <= k < n ==> call_ensures(inside, (&#[trigger] orbit[k],), true)
}

/// Whether `out` is a correct classification: some orbit from `origin` stays
/// inside for as many steps as `out` counts, and the point reached then is
/// reported as outside for an escape, as inside at the cap.
pub open spec fn escapes<Z, S: Fn(Z) -> Z, B: Fn(&Z) -> bool>(
    origin: Z,
    step: S,
    inside: B,
    max_iter: u64,
    out: Escape<Z>,
) -> bool {
    exists|orbit: Seq<Z>| witnesses(orbit, origin, step, inside, max_iter, out)
}

/// The number of steps that a classification counts.
pub open spec fn steps_of<Z>(out: Escape<Z>, max_iter: u64) -> int {
    match out {
        Escape::Capped => max_iter as int,
        Escape::Escaped { iterations, .. } => iterations as int,
    }
}

/// Whether `orbit` shows `out` to be correct: it runs from `origin` for the
/// steps that `out` counts and every point before its last is reported as
/// inside. An escape takes no more steps than the cap and ends at a point
/// reported as outside; at the cap the last point is reported as inside too.
pub open spec fn witnesses<Z, S: Fn(Z) -> Z, B: Fn(&Z) -> bool>(
    orbit: Seq<Z>,
    origin: Z,
    step: S,
    inside: B,
    max_iter: u64,
    out: Escape<Z>,
) -> bool {
    &&& is_orbit(orbit, origin, step)
    &&& orbit.len() == steps_of(out, max_iter) + 1
    &&& stays_inside(orbit, inside, steps_of(out, max_iter))
    &&& match out {
        Escape::Capped => call_ensures(inside, (&orbit[max_iter as int],), true),
        Escape::Escaped { iterations, point } => {
            &&& iterations <= max_iter
            &&& orbit[iterations as int] == point
            &&& call_ensures(inside, (&point,), false)
        },
    }
}

/// Iterates `step` from `origin` until `inside` reports a point as outside
/// or `max_iter` steps have been taken. The point reached with the last
/// step is tested like the others, so an orbit that leaves on exactly the
/// last step has escaped; only an orbit that is still inside then is capped.
pub fn mandlebrot<Z, S: Fn(Z) -> Z, B: Fn(&Z) -> bool>(
    origin: Z,
    step: S,
    inside: B,
    max_iter: u64,
) -> (out: Escape<Z>)
    requires
        forall|z: Z| call_requires(step, (z,)),
        forall|z: Z| call_requires(inside, (&z,)),
    ensures
        escapes(origin, step, inside, max_iter, out),
{
    let mut z = origin;
    let mut n: u64 = 0;
    let ghost mut orbit: Seq<Z> = seq![origin];
    while n < max_iter
        invariant
            forall|z: Z| call_requires(step, (z,)),
            forall|z: Z| call_requires(inside, (&z,)),
            n <= max_iter,
            is_orbit(orbit, origin, step),
            orbit.len() == n + 1,
            orbit[n as int] == z,
            stays_inside(orbit, inside, n as int),
        decreases max_iter - n,
    {
        if !inside(&z) {
            let out = Escape::Escaped { iterations: n, point: z };
            assert(witnesses(orbit, origin, step, inside, max_iter, out));
            return out;
        }
        let ghost before = orbit;
        z = step(z);
        n = n + 1;
        proof {
            orbit = before.push(z);
            assert forall|k: int| 0 <= k < orbit.len() - 1 implies call_ensures(
                step,
                (#[trigger] orbit[k],),
                orbit[k + 1],
            ) by {
                if k < before.len() - 1 {
                    assert(orbit[k] == before[k]);
                    assert(orbit[k + 1] == before[k + 1]);
                }
            }
            assert forall|k: int| 0 <= k < n implies call_ensures(
                inside,
                (&#[trigger] orbit[k],),
                true,
            ) by {
                if k < n - 1 {
                    assert(orbit[k] == before[k]);
                }
            }
        }
    }
    if !inside(&z) {
        let out = Escape::Escaped { iterations: n, point: z };
        assert(witnesses(orbit, origin, step, inside, max_iter, out));
        return out;
    }
    assert(witnesses(orbit, origin, step, inside, max_iter, Escape::<Z>::Capped));
    Escape::Capped
}

/// Whether `step` returns at most one point for each point.
pub open spec fn is_function<Z, S: Fn(Z) -> Z>(step: S) -> bool {
    forall|z: Z, a: Z, b: Z|
        #![trigger call_ensures(step, (z,), a), call_ensures(step, (z,), b)]
        call_ensures(step, (z,), a) && call_ensures(step, (z,), b) ==> a == b
}

/// Whether `inside` gives at most one answer for each point.
pub open spec fn is_predicate<Z, B: Fn(&Z) -> bool>(inside: B) -> bool {
    forall|z: Z|
        !(#[trigger] call_ensures(inside, (&z,), true) && call_ensures(inside, (&z,), false))
}

/// Two orbits of one deterministic map from one origin agree as far as both reach.
proof fn lemma_orbits_agree<Z, S: Fn(Z) -> Z>(a: Seq<Z>, b: Seq<Z>, origin: Z, step: S, k: int)
    requires
        is_orbit(a, origin, step),
        is_orbit(b, origin, step),
        is_function(step),
        0 <= k < a.len(),
        k < b.len(),
    ensures
        a[k] == b[k],
    decreases k,
{
    if k > 0 {
        lemma_orbits_agree(a, b, origin, step, k - 1);
        assert(call_ensures(step, (a[k - 1],), a[k - 1 + 1]));
        assert(call_ensures(step, (b[k - 1],), b[k - 1 + 1]));
    }
}

/// The classification is deterministic: where the map and the test each
/// give one result for one argument, one origin and one cap have exactly one
/// correct classification.
pub proof fn lemma_escape_is_unique<Z, S: Fn(Z) -> Z, B: Fn(&Z) -> bool>(
    origin: Z,
    step: S,
    inside: B,
    max_iter: u64,
    first: Escape<Z>,
    second: Escape<Z>,
)
    requires
        is_function(step),
        is_predicate(inside),
        escapes(origin, step, inside, max_iter, first),
        escapes(origin, step, inside, max_iter, second),
    ensures
        first == second,
{
    let a = choose|orbit: Seq<Z>| witnesses(orbit, origin, step, inside, max_iter, first);
    let b = choose|orbit: Seq<Z>| witnesses(orbit, origin, step, inside, max_iter, second);
    let n = steps_of(first, max_iter);
    let m = steps_of(second, max_iter);
    if n < m {
        lemma_orbits_agree(a, b, origin, step, n);
        assert(call_ensures(inside, (&b[n],), true));
        assert(call_ensures(inside, (&a[n],), false));
    } else if m < n {
        lemma_orbits_agree(a, b, origin, step, m);
        assert(call_ensures(inside, (&a[m],), true));
        assert(call_ensures(inside, (&b[m],), false));
    } else {
        lemma_orbits_agree(a, b, origin, step, n);
        if first is Capped && second is Escaped {
            assert(call_ensures(inside, (&a[n],), true));
            assert(call_ensures(inside, (&b[n],), false));
        }
        if first is Escaped && second is Capped {
            assert(call_ensures(inside, (&a[n],), false));
            assert(call_ensures(inside, (&b[n],), true));
        }
    }
}

/// An orbit that cannot leave is reported as capped: if some set of points
/// holds the origin, is closed under `step`, and `inside` reports none of
/// its points as outside, then the only correct classification is `Capped`.
pub proof fn lemma_confined_orbit_is_capped<Z, S: Fn(Z) -> Z, B: Fn(&Z) -> bool>(
    origin: Z,
    step: S,
    inside: B,
    max_iter: u64,
    out: Escape<Z>,
    confined: spec_fn(Z) -> bool,
)
    requires
        confined(origin),
        forall|z: Z, next: Z| confined(z) && #[trigger] call_ensures(step, (z,), next) ==> confined(next),
        forall|z: Z| confined(z) ==> !#[trigger] call_ensures(inside, (&z,), false),
        escapes(origin, step, inside, max_iter, out),
    ensures
        out is Capped,
{
    let orbit = choose|orbit: Seq<Z>| witnesses(orbit, origin, step, inside, max_iter, out);
    let n = steps_of(out, max_iter);
    lemma_orbit_stays_confined(orbit, origin, step, confined, n);
}

/// Every point of an orbit from a confined origin is confined.
proof fn lemma_orbit_stays_confined<Z, S: Fn(Z) -> Z>(
    orbit: Seq<Z>,
    origin: Z,
    step: S,
    confined: spec_fn(Z) -> bool,
    k: int,
)
    requires
        is_orbit(orbit, origin, step),
        confined(origin),
        forall|z: Z, next: Z| confined(z) && #[trigger] call_ensures(step, (z,), next) ==> confined(next),
        0 <= k < orbit.len(),
    ensures
        confined(orbit[k]),
    decreases k,
{
    if k > 0 {
        lemma_orbit_stays_confined(orbit, origin, step, confined, k - 1);
        assert(call_ensures(step, (orbit[k - 1],), orbit[k - 1 + 1]));
    }
}

} // verus!
