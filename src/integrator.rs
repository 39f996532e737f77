use vstd::prelude::*;

verus! {

/// What the nearest surface along a ray did with it.
#[derive(Clone, Copy, Debug, PartialEq, Eq, Structural)]
pub enum Surface {
    /// Nothing was hit.
    Miss,
    /// The surface only emits; the path ends there.
    Absorb,
    /// The surface sends the ray on in one deterministic direction.
    ScatterRay,
    /// The surface scatters according to a direction density.
    ScatterPdf,
}

/// Which density the next direction is drawn from.
#[derive(Clone, Copy, Debug, PartialEq, Eq, Structural)]
pub enum Strategy {
    Material,
    Light,
}

/// One step of a path.
#[derive(Clone, Copy, Debug, PartialEq, Eq, Structural)]
pub enum Bounce {
    /// No depth left: the path contributes black.
    Cutoff,
    /// The ray escaped: the path contributes the background.
    Background,
    /// The path ends on the surface's emission.
    Emit,
    /// Emission plus attenuation times the radiance along the scattered ray,
    /// traced with `depth_left`.
    FollowRay { depth_left: u32 },
    /// Emission plus attenuation times the radiance along a direction drawn
    /// from `strategy`, traced with `depth_left` and weighted by
    /// material density over sampling density. With `mixed` the sampling
    /// density is the half-and-half mixture of material and light densities;
    /// without it, the material density alone.
    SampleDirection { strategy: Strategy, mixed: bool, depth_left: u32 },
}

/// The step a path takes with `depth_left` bounces left, after the nearest
/// surface answered `surface`. `below_half` is a uniform draw compared with 0.5;
/// it only matters when some light can be sampled.
pub fn next_bounce(depth_left: u32, surface: Surface, lights_empty: bool, below_half: bool) -> (r: Bounce)
    ensures
        r == next_bounce_spec(depth_left, surface, lights_empty, below_half),
        depth_left == 0 ==> r == Bounce::Cutoff,
        depth_left > 0 && surface == Surface::Miss ==> r == Bounce::Background,
        depth_left > 0 && surface == Surface::Absorb ==> r == Bounce::Emit,
        depth_left > 0 && surface == Surface::ScatterRay ==> r == (Bounce::FollowRay {
            depth_left: (depth_left - 1) as u32,
        }),
        depth_left > 0 && surface == Surface::ScatterPdf ==> r == (Bounce::SampleDirection {
            strategy: if lights_empty || below_half { Strategy::Material } else { Strategy::Light },
            mixed: !lights_empty,
            depth_left: (depth_left - 1) as u32,
        }),
{
    if depth_left == 0 {
        return Bounce::Cutoff;
    }
    match surface {
        Surface::Miss => Bounce::Background,
        Surface::Absorb => Bounce::Emit,
        Surface::ScatterRay => Bounce::FollowRay { depth_left: depth_left - 1 },
        Surface::ScatterPdf => {
            let strategy = if lights_empty || below_half {
                Strategy::Material
            } else {
                Strategy::Light
            };
            Bounce::SampleDirection { strategy, mixed: !lights_empty, depth_left: depth_left - 1 }
        },
    }
}

/// The depth a step hands to the next bounce, if the path goes on.
pub open spec fn continues_with(b: Bounce) -> Option<u32> {
    match b {
        Bounce::FollowRay { depth_left } => Some(depth_left),
        Bounce::SampleDirection { depth_left, .. } => Some(depth_left),
        _ => None,
    }
}

/// Every step that goes on hands over strictly less depth, so a path started
/// with `max_depth` takes at most `max_depth` bounces.
pub proof fn lemma_depth_decreases(depth_left: u32, surface: Surface, lights_empty: bool, below_half: bool, r: Bounce)
    requires
        r == next_bounce_spec(depth_left, surface, lights_empty, below_half),
    ensures
        continues_with(r) is Some ==> continues_with(r)->0 < depth_left,
{
}

/// The step `next_bounce` returns, as a function.
pub open spec fn next_bounce_spec(depth_left: u32, surface: Surface, lights_empty: bool, below_half: bool) -> Bounce {
    if depth_left == 0 {
        Bounce::Cutoff
    } else {
        match surface {
            Surface::Miss => Bounce::Background,
            Surface::Absorb => Bounce::Emit,
            Surface::ScatterRay => Bounce::FollowRay { depth_left: (depth_left - 1) as u32 },
            Surface::ScatterPdf => Bounce::SampleDirection {
                strategy: if lights_empty || below_half { Strategy::Material } else { Strategy::Light },
                mixed: !lights_empty,
                depth_left: (depth_left - 1) as u32,
            },
        }
    }
}

} // verus!
