//! The decisions of the light-transport integrator.
//!
//! A path is followed from the camera by one bounce after another. At each
//! bounce the integrator either stops with black, because the path has used
//! up its depth or the ray meets nothing, or it scatters off the nearest
//! object with one bounce less to go. The distances at which the ray meets
//! the objects are handed over as patterns; those of hits lie beyond the
//! threshold, and such patterns order as the distances do.
//!
//! How the ray leaves a translucent surface is decided by chance. The
//! numbers drawn, from zero up to one, are handed over as patterns too.

use vstd::prelude::*;
use crate::pattern::{less, less_than, ONE, SIGN, ZERO};
use crate::shapes::is_beyond;

verus! {

/// Whether the object with index `i` is the one that a ray meets first: it is
/// met, no object is met nearer, and every object before it in the scene is
/// met farther away.
pub open spec fn is_nearest(hits: Seq<Option<u64>>, i: int) -> bool {
    &&& 0 <= i < hits.len()
    &&& hits[i] is Some
    &&& forall|j: int| 0 <= j < hits.len() && hits[j] is Some ==> hits[i]->0 <= (#[trigger] hits[j])->0
    &&& forall|j: int| 0 <= j < i && hits[j] is Some ==> hits[i]->0 < (#[trigger] hits[j])->0
}

/// Whether the ray meets no object.
pub open spec fn all_missed(hits: Seq<Option<u64>>) -> bool {
    forall|j: int| 0 <= j < hits.len() ==> (#[trigger] hits[j]) is None
}

/// At most one object is the nearest.
pub proof fn lemma_nearest_is_unique(hits: Seq<Option<u64>>, i: int, j: int)
    requires
        is_nearest(hits, i),
        is_nearest(hits, j),
    ensures
        i == j,
{
    if i < j {
        assert(hits[j]->0 < hits[i]->0);
        assert(hits[i]->0 <= hits[j]->0);
    } else if j < i {
        assert(hits[i]->0 < hits[j]->0);
        assert(hits[j]->0 <= hits[i]->0);
    }
}

/// Where every hit lies beyond the threshold, the nearest object is met at
/// the least distance, and every object before it at a greater one.
pub proof fn lemma_nearest_is_least(hits: Seq<Option<u64>>, i: int)
    requires
        is_nearest(hits, i),
        forall|j: int| 0 <= j < hits.len() && hits[j] is Some ==> is_beyond((#[trigger] hits[j])->0),
    ensures
        forall|j: int|
            0 <= j < hits.len() && hits[j] is Some ==> !less((#[trigger] hits[j])->0, hits[i]->0),
        forall|j: int| 0 <= j < i && hits[j] is Some ==> less(hits[i]->0, (#[trigger] hits[j])->0),
{
    assert(is_beyond(hits[i]->0));
}

/// The object that a ray meets first, by a scan of the whole scene. Of two
/// objects at the same distance the earlier stays.
pub fn nearest_hit(hits: &Vec<Option<u64>>) -> (r: Option<usize>)
    ensures
        match r {
            Some(i) => is_nearest(hits@, i as int),
            None => all_missed(hits@),
        },
{
    let mut best: Option<usize> = None;
    let mut k: usize = 0;
    while k < hits.len()
        invariant
            k <= hits.len(),
            match best {
                Some(i) => i < k && is_nearest(hits@.take(k as int), i as int),
                None => all_missed(hits@.take(k as int)),
            },
        decreases hits.len() - k,
    {
        let ghost seen = hits@.take(k as int);
        let ghost next = hits@.take(k + 1);
        proof {
            assert(forall|j: int| 0 <= j < k ==> seen[j] == next[j]);
            assert(next[k as int] == hits@[k as int]);
        }
        match hits[k] {
            Some(t) => {
                let nearer = match best {
                    Some(i) => match hits[i] {
                        Some(b) => t < b,
                        None => true,
                    },
                    None => true,
                };
                if nearer {
                    best = Some(k);
                }
            },
            None => {},
        }
        k += 1;
        proof {
            match best {
                Some(i) => {
                    assert forall|j: int| 0 <= j < next.len() && next[j] is Some implies next[i as int]->0
                        <= (#[trigger] next[j])->0 by {
                        if j < k - 1 {
                            assert(seen[j] is Some);
                        }
                    }
                    assert forall|j: int| 0 <= j < i && next[j] is Some implies next[i as int]->0 < (
                    #[trigger] next[j])->0 by {
                        assert(seen[j] is Some);
                    }
                },
                None => {
                    assert forall|j: int| 0 <= j < next.len() implies (#[trigger] next[j]) is None by {
                        if j < k - 1 {
                            assert(seen[j] is None);
                        }
                    }
                },
            }
        }
    }
    assert(hits@.take(hits.len() as int) =~= hits@);
    best
}

/// What the integrator does with a ray.
#[derive(Debug, Clone, Copy, PartialEq, Eq, Structural)]
pub enum Step {
    /// The ray brings no light.
    Black,
    /// The ray scatters off the object with this index, and the ray that
    /// leaves it is followed with this depth.
    Scatter { object: usize, depth: u16 },
}

/// The step for a ray that has `depth` bounces to go and meets the objects
/// of the scene at the given distances. A ray without depth is black whatever
/// it meets, and so is one that meets nothing; any other scatters off the
/// nearest object and goes on with one bounce less.
pub open spec fn step_of(hits: Seq<Option<u64>>, depth: u16, step: Step) -> bool {
    if depth == 0 || all_missed(hits) {
        step == Step::Black
    } else {
        &&& step is Scatter
        &&& is_nearest(hits, step->object as int)
        &&& step->depth == depth - 1
    }
}

/// Decides one bounce.
pub fn trace_step(hits: &Vec<Option<u64>>, depth: u16) -> (step: Step)
    ensures
        step_of(hits@, depth, step),
        depth == 0 ==> step == Step::Black,
{
    if depth == 0 {
        return Step::Black;
    }
    match nearest_hit(hits) {
        Some(object) => {
            assert(hits@[object as int] is Some);
            Step::Scatter { object, depth: depth - 1 }
        },
        None => Step::Black,
    }
}

/// Whether a ray runs inside the medium of a surface. `cosine` is the
/// product of the surface's normal and the ray's direction: positive where
/// the ray leaves through the surface from within.
pub fn is_inside(cosine: u64) -> (r: bool)
    ensures
        r == less(ZERO, cosine),
{
    less_than(ZERO, cosine)
}

/// Whether the normal of a surface faces the ray that comes in. `cosine` is
/// the product of the normal and the ray's direction: negative where the two
/// point against each other. A normal that does not face the ray is turned
/// round before the ray is scattered.
pub fn faces_ray(cosine: u64) -> (r: bool)
    ensures
        r == less(cosine, ZERO),
{
    less_than(cosine, ZERO)
}

/// How a translucent surface treats one ray.
#[derive(Debug, Clone, Copy, PartialEq, Eq, Structural)]
pub enum Surface {
    /// As glass: the ray is refracted or reflected.
    Glass,
    /// As an opaque surface: the ray is scattered into the half space.
    Diffuse,
}

/// A number from zero up to one, one excluded.
pub open spec fn is_draw(d: u64) -> bool {
    !less(d, ZERO) && less(d, ONE)
}

/// The surface that a ray finds: glass where the number drawn is less than
/// the clearness, diffuse where it is not.
pub open spec fn surface_of(clearness: u64, draw: u64) -> Surface {
    if less(draw, clearness) {
        Surface::Glass
    } else {
        Surface::Diffuse
    }
}

/// Decides how a translucent surface treats a ray, by a number drawn for it.
pub fn translucent_surface(clearness: u64, draw: u64) -> (r: Surface)
    ensures
        r == surface_of(clearness, draw),
{
    if less_than(draw, clearness) {
        Surface::Glass
    } else {
        Surface::Diffuse
    }
}

/// A surface of clearness one is glass to every ray.
pub proof fn lemma_clear_is_glass(draw: u64)
    requires
        is_draw(draw),
    ensures
        surface_of(ONE, draw) == Surface::Glass,
{
}

/// A surface of clearness zero is diffuse to every ray.
pub proof fn lemma_opaque_is_diffuse(draw: u64)
    requires
        is_draw(draw),
    ensures
        surface_of(ZERO, draw) == Surface::Diffuse,
        surface_of(SIGN, draw) == Surface::Diffuse,
{
}

/// The way of a ray at a surface of glass.
#[derive(Debug, Clone, Copy, PartialEq, Eq, Structural)]
pub enum GlassPath {
    Refraction,
    Reflection,
}

/// The way of a ray at glass. `cos2` is the square of the cosine of the
/// angle of refraction by Snell's law; where it is not positive, no light
/// passes and the ray is reflected. Elsewhere the ray is refracted where the
/// number drawn is greater than the reflectance, and reflected where it is
/// not.
pub open spec fn glass_path_of(cos2: u64, reflectance: u64, draw: u64) -> GlassPath {
    if less(ZERO, cos2) && less(reflectance, draw) {
        GlassPath::Refraction
    } else {
        GlassPath::Reflection
    }
}

/// Decides the way of a ray at glass, by a number drawn for it.
pub fn glass_path(cos2: u64, reflectance: u64, draw: u64) -> (r: GlassPath)
    ensures
        r == glass_path_of(cos2, reflectance, draw),
{
    if less_than(ZERO, cos2) && less_than(reflectance, draw) {
        GlassPath::Refraction
    } else {
        GlassPath::Reflection
    }
}

/// Glass that reflects all light reflects every ray, and glass that reflects
/// none refracts every ray that can pass.
pub proof fn lemma_glass_at_the_limits(cos2: u64, draw: u64)
    requires
        is_draw(draw),
    ensures
        glass_path_of(cos2, ONE, draw) == GlassPath::Reflection,
        less(ZERO, cos2) && less(ZERO, draw) ==> glass_path_of(cos2, ZERO, draw)
            == GlassPath::Refraction,
{
}

} // verus!
