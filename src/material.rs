use vstd::prelude::*;

verus! {

/// A diffuse surface that reflects its albedo color.
#[derive(Clone, Copy, Debug)]
pub struct Diffusive<C> {
    pub albedo: C,
}

impl<C> Diffusive<C> {
    pub fn new(albedo: C) -> (r: Self)
        ensures
            r.albedo == albedo,
    {
        Diffusive { albedo }
    }
}

/// A mirror-like surface; `fuzz` scales the random perturbation of the
/// reflected direction.
#[derive(Clone, Copy, Debug)]
pub struct Metal<C, S> {
    pub albedo: C,
    pub fuzz: S,
}

impl<C, S> Metal<C, S> {
    pub fn new(albedo: C, fuzz: S) -> (r: Self)
        ensures
            r.albedo == albedo,
            r.fuzz == fuzz,
    {
        Metal { albedo, fuzz }
    }
}

/// A transparent medium with refractive index `ita`.
#[derive(Clone, Copy, Debug)]
pub struct Dieletric<C, S> {
    pub albedo: C,
    pub ita: S,
}

impl<C, S> Dieletric<C, S> {
    pub fn new(albedo: C, ita: S) -> (r: Self)
        ensures
            r.albedo == albedo,
            r.ita == ita,
    {
        Dieletric { albedo, ita }
    }
}

/// A light source: it emits `light_color` and ends the path that reaches it.
#[derive(Clone, Copy, Debug)]
pub struct Light<C> {
    pub light_color: C,
}

impl<C> Light<C> {
    pub fn new(light_color: C) -> (r: Self)
        ensures
            r.light_color == light_color,
    {
        Light { light_color }
    }
}

/// The closed set of materials a surface can carry.
#[derive(Clone, Copy, Debug)]
pub enum Material<C, S> {
    Diffusive(Diffusive<C>),
    Metal(Metal<C, S>),
    Dieletric(Dieletric<C, S>),
    Light(Light<C>),
}

impl<C, S> Material<C, S> {
    /// The color a material contributes: the albedo that multiplies the light
    /// of a scattered ray, or the emission of a light source.
    pub open spec fn color(&self) -> C {
        match self {
            Material::Diffusive(m) => m.albedo,
            Material::Metal(m) => m.albedo,
            Material::Dieletric(m) => m.albedo,
            Material::Light(m) => m.light_color,
        }
    }

    pub open spec fn is_light_spec(&self) -> bool {
        self is Light
    }

    /// The attenuation of a scattering material, or the emission of a light.
    pub fn attenuation(&self) -> (r: &C)
        ensures
            *r == self.color(),
    {
        match self {
            Material::Diffusive(m) => &m.albedo,
            Material::Metal(m) => &m.albedo,
            Material::Dieletric(m) => &m.albedo,
            Material::Light(m) => &m.light_color,
        }
    }

    /// Whether this material ends a path with its own emission.
    pub fn is_light(&self) -> (r: bool)
        ensures
            r == self.is_light_spec(),
    {
        match self {
            Material::Light(_) => true,
            _ => false,
        }
    }
}

} // verus!
