use vstd::prelude::*;
use crate::material::Material;

verus! {

/// How the integrator ends or continues a path once the scene has answered
/// the query of a ray within the bounce budget. (A ray past the budget is
/// never traced: `next_depth` returns `None` and the path contributes black.)
#[derive(Clone, Copy, Debug, PartialEq, Eq)]
pub enum Bounce {
    /// The ray left the scene: the path contributes the background color.
    Background,
    /// The ray reached a light: the path contributes its emission.
    Emitted,
    /// The ray scatters: the path contributes the material's attenuation times
    /// the color of the scattered ray, traced at bounce count `next`.
    Scattered { next: u32 },
}

/// The bounce count of a ray traced after `bounce_time` earlier bounces, or
/// `None` when that exceeds `max_bounces` and the path is absorbed.
pub open spec fn next_depth_spec(bounce_time: u32, max_bounces: u32) -> Option<u32> {
    if bounce_time < max_bounces {
        Some((bounce_time + 1) as u32)
    } else {
        None
    }
}

/// What a ray traced at bounce count `next` does once the scene has answered:
/// `hit` is the material at the nearest hit, if any.
pub open spec fn resolve_spec<C, S>(next: u32, hit: Option<Material<C, S>>) -> Bounce {
    match hit {
        None => Bounce::Background,
        Some(m) => if m.is_light_spec() {
            Bounce::Emitted
        } else {
            Bounce::Scattered { next }
        },
    }
}

/// Counts one more bounce for a ray that has already bounced `bounce_time`
/// times. `None` means the budget is spent and the ray must not be traced.
pub fn next_depth(bounce_time: u32, max_bounces: u32) -> (r: Option<u32>)
    ensures
        r == next_depth_spec(bounce_time, max_bounces),
{
    if bounce_time < max_bounces {
        Some(bounce_time + 1)
    } else {
        None
    }
}

/// Decides what a ray traced at bounce count `next` does, given the material
/// at its nearest hit (`None` for a miss).
pub fn resolve_hit<C, S>(next: u32, hit: Option<&Material<C, S>>) -> (r: Bounce)
    ensures
        r == resolve_spec(next, match hit {
            Some(m) => Some(*m),
            None => None,
        }),
{
    match hit {
        None => Bounce::Background,
        Some(m) => if m.is_light() {
            Bounce::Emitted
        } else {
            Bounce::Scattered { next }
        },
    }
}

/// With a bounce budget of zero every path is absorbed at once, whatever the
/// scene: no ray is traced.
pub proof fn lemma_zero_budget_absorbs(bounce_time: u32)
    ensures
        next_depth_spec(bounce_time, 0) is None,
{
}

/// A ray that reaches a light while the budget is not spent ends there, and
/// the color it contributes is the light's emission, at any bounce count.
pub proof fn lemma_light_ends_path<C, S>(bounce_time: u32, max_bounces: u32, light_color: C)
    requires
        bounce_time < max_bounces,
    ensures
        next_depth_spec(bounce_time, max_bounces) == Some((bounce_time + 1) as u32),
        resolve_spec(
            (bounce_time + 1) as u32,
            Some(Material::<C, S>::Light(crate::material::Light { light_color })),
        ) == Bounce::Emitted,
        Material::<C, S>::Light(crate::material::Light { light_color }).color() == light_color,
{
}

} // verus!
