use raytracer::integrator::{next_depth, resolve_hit, Bounce};
use raytracer::material::{Dieletric, Diffusive, Light, Material, Metal};
use raytracer::ray::Ray;

type Vec3 = (f64, f64, f64);

#[test]
fn ray_new_keeps_origin_and_direction() {
    let r: Ray<Vec3> = Ray::new((1.0, -2.0, 0.5), (0.0, 0.0, 2.0));
    assert_eq!(r.ori, (1.0, -2.0, 0.5));
    assert_eq!(r.dir, (0.0, 0.0, 2.0));
}

#[test]
fn constructors_keep_parameters() {
    let d = Diffusive::new((0.7, 0.3, 0.3));
    assert_eq!(d.albedo, (0.7, 0.3, 0.3));
    let m = Metal::new((0.8, 0.6, 0.2), 0.1);
    assert_eq!(m.albedo, (0.8, 0.6, 0.2));
    assert_eq!(m.fuzz, 0.1);
    let g = Dieletric::new((1.0, 1.0, 1.0), 1.5);
    assert_eq!(g.ita, 1.5);
    let l = Light::new((3.0, 3.0, 3.0));
    assert_eq!(l.light_color, (3.0, 3.0, 3.0));
}

#[test]
fn attenuation_is_albedo_or_emission() {
    let ms: Vec<Material<Vec3, f64>> = vec![
        Material::Diffusive(Diffusive::new((0.5, 0.5, 0.5))),
        Material::Metal(Metal::new((0.8, 0.8, 0.8), 0.0)),
        Material::Dieletric(Dieletric::new((1.0, 0.9, 0.8), 1.5)),
        Material::Light(Light::new((3.0, 3.0, 3.0))),
    ];
    assert_eq!(*ms[0].attenuation(), (0.5, 0.5, 0.5));
    assert_eq!(*ms[1].attenuation(), (0.8, 0.8, 0.8));
    assert_eq!(*ms[2].attenuation(), (1.0, 0.9, 0.8));
    assert_eq!(*ms[3].attenuation(), (3.0, 3.0, 3.0));
    assert!(!ms[0].is_light());
    assert!(!ms[1].is_light());
    assert!(!ms[2].is_light());
    assert!(ms[3].is_light());
}

#[test]
fn zero_budget_absorbs_every_ray() {
    for depth in [0u32, 1, 7, u32::MAX] {
        assert_eq!(next_depth(depth, 0), None);
    }
}

#[test]
fn budget_counts_bounces() {
    assert_eq!(next_depth(0, 50), Some(1));
    assert_eq!(next_depth(49, 50), Some(50));
    assert_eq!(next_depth(50, 50), None);
    assert_eq!(next_depth(u32::MAX - 1, u32::MAX), Some(u32::MAX));
}

#[test]
fn light_returns_its_emission_at_any_depth_left() {
    let light: Material<Vec3, f64> = Material::Light(Light::new((3.0, 3.0, 3.0)));
    for depth in 0u32..10 {
        let next = next_depth(depth, 10).expect("budget left");
        assert_eq!(resolve_hit(next, Some(&light)), Bounce::Emitted);
        assert_eq!(*light.attenuation(), (3.0, 3.0, 3.0));
    }
}

#[test]
fn miss_gives_background_and_surface_scatters() {
    let white: Material<Vec3, f64> = Material::Diffusive(Diffusive::new((1.0, 1.0, 1.0)));
    assert_eq!(resolve_hit::<Vec3, f64>(3, None), Bounce::Background);
    assert_eq!(resolve_hit(3, Some(&white)), Bounce::Scattered { next: 3 });
}
