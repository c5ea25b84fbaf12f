use raytracer::cameras::Camera;
use raytracer::fixed::{fp_div, fp_mul, fp_powi, fp_sqrt, isqrt_u128};
use raytracer::geometry::aa_box::AABoxGeometry;
use raytracer::geometry::parallelogram::ParallelogramGeometry;
use raytracer::geometry::plane::PlaneGeometry;
use raytracer::geometry::sphere::SphereGeometry;
use raytracer::geometry::triangle::TriangleGeometry;
use raytracer::geometry::Geometry;
use raytracer::lighting::{Color, Light};
use raytracer::materials::Material;
use raytracer::objects::{Object, ObjectIterator};
use raytracer::ray::Ray;
use raytracer::rendering::{downsample, image_buffer, render, ShadingMode};
use raytracer::vector::Vector3;

const S: i64 = 65536;

fn white() -> Color {
    Color::new(S, S, S)
}

fn plain_material() -> Material {
    Material { color: white(), diffusion: S, specularity: S, shininess: 2, reflectance: 0 }
}

fn sphere_at(x: i64, y: i64, z: i64, radius: i64) -> Geometry {
    Geometry::Sphere(SphereGeometry { center: Vector3::new(x, y, z), radius })
}

#[test]
fn color_clamps_out_of_range_inputs() {
    let c = Color::new(-5, 70000, 30000);
    assert_eq!(c.red(), 0);
    assert_eq!(c.green(), S);
    assert_eq!(c.blue(), 30000);
}

#[test]
fn color_add_clamps_intermediate_sums() {
    let c = white().add(&white());
    assert_eq!(c, white());
    let d = Color::new(40000, 40000, 0).add(&Color::new(40000, 30000, 7));
    assert_eq!(d, Color::new(S, 65536, 7));
}

#[test]
fn color_scale_clamps_negative_results() {
    let c = white().scale(-S);
    assert_eq!(c, Color::new_black());
}

#[test]
fn color_mul_is_channelwise() {
    let c = Color::new(S, S / 2, 0).mul(&Color::new(S / 2, S / 2, S));
    assert_eq!(c, Color::new(S / 2, S / 4, 0));
}

#[test]
fn color_sum_of_empty_is_black() {
    let empty: Vec<Color> = Vec::new();
    assert_eq!(Color::sum(&empty), Color::new_black());
}

#[test]
fn color_sum_reduces_by_clamped_add() {
    let parts = vec![Color::new(100, 0, 0), Color::new(200, 5, 0), Color::new(65500, 0, 9)];
    assert_eq!(Color::sum(&parts), Color::new(S, 5, 9));
}

#[test]
fn eight_bit_channels_truncate() {
    let c = Color::new(S, S / 2, 0);
    assert_eq!(c.as_8_bit_array(), [255, 127, 0]);
}

#[test]
fn fixed_point_operations_exact_values() {
    assert_eq!(fp_mul(98304, 32768), 49152);
    assert_eq!(fp_mul(-98304, 32768), -49152);
    assert_eq!(fp_div(S, 2 * S), 32768);
    assert_eq!(fp_div(-3 * S, 2 * S), -98304);
    assert_eq!(fp_sqrt(4 * S), 2 * S);
    assert_eq!(fp_sqrt(2 * S), 92681);
    assert_eq!(isqrt_u128(10), 3);
    assert_eq!(isqrt_u128(0), 0);
    assert_eq!(fp_powi(-S, 3), -S);
    assert_eq!(fp_powi(32768, 2), 16384);
    assert_eq!(fp_powi(12345, 0), S);
}

#[test]
fn ray_direction_is_normalized() {
    let r = Ray::new(Vector3::new(0, 0, 0), Vector3::new(3 * S, 4 * S, 0));
    let d = r.direction();
    assert!((d.dot(&d) - S).abs() <= 8);
    let r2 = Ray::new(Vector3::new(0, 0, 0), Vector3::new(-7 * S, 2 * S, 11 * S));
    let d2 = r2.direction();
    assert!((d2.dot(&d2) - S).abs() <= 8);
}

#[test]
fn ray_point_at_is_exact() {
    let r = Ray::new(Vector3::new(S, 2 * S, 3 * S), Vector3::new(0, 0, -S));
    assert_eq!(r.point_at(5 * S), Vector3::new(S, 2 * S, -2 * S));
}

#[test]
fn sphere_miss_reports_none_and_black_pixel() {
    let geo = sphere_at(0, 0, -5 * S, S);
    let r = Ray::new(Vector3::new(0, 0, 0), Vector3::new(10 * S, 10 * S, -5 * S));
    assert_eq!(r.hits_at(&geo), None);
    let entries = vec![(geo, plain_material())];
    let lights = vec![Light { position: Vector3::new(0, 3 * S, 0), color: white() }];
    assert_eq!(r.color(&entries, &lights, ShadingMode::Literal), Color::new_black());
}

#[test]
fn sphere_direct_hit_t_point_and_normal() {
    let geo = sphere_at(0, 0, -5 * S, S);
    let r = Ray::new(Vector3::new(0, 0, 0), Vector3::new(0, 0, -S));
    let t = r.hits_at(&geo).unwrap();
    assert_eq!(t, 4 * S);
    let p = r.point_at(t);
    assert_eq!(p, Vector3::new(0, 0, -4 * S));
    assert_eq!(geo.normal_at(&p), Vector3::new(0, 0, S));
}

#[test]
fn sphere_round_trip_distance_is_radius() {
    let center = Vector3::new(0, 0, -5 * S);
    let geo = sphere_at(0, 0, -5 * S, S);
    let r = Ray::new(Vector3::new(0, 0, 0), Vector3::new(0, 0, -S));
    let t = r.hits_at(&geo).unwrap();
    let w = r.point_at(t).sub(&center);
    assert_eq!(w.dot(&w), fp_mul(S, S));

    let center2 = Vector3::new(S, 0, -5 * S);
    let geo2 = sphere_at(S, 0, -5 * S, S);
    let r2 = Ray::new(Vector3::new(0, 0, 0), Vector3::new(S, 0, -5 * S));
    let t2 = r2.hits_at(&geo2).unwrap();
    let w2 = r2.point_at(t2).sub(&center2);
    assert!((w2.dot(&w2) - fp_mul(S, S)).abs() <= 2048);
}

#[test]
fn sphere_tangent_ray_grazes() {
    let geo = sphere_at(S, 0, -5 * S, S);
    let r = Ray::new(Vector3::new(0, 0, 0), Vector3::new(0, 0, -S));
    assert_eq!(r.hits_at(&geo), Some(5 * S));
}

#[test]
fn sphere_behind_origin_is_no_hit() {
    let geo = sphere_at(0, 0, 5 * S, S);
    let r = Ray::new(Vector3::new(0, 0, 0), Vector3::new(0, 0, -S));
    assert_eq!(r.hits_at(&geo), None);
}

#[test]
fn sphere_from_inside_reports_far_root() {
    let geo = sphere_at(0, 0, 0, 2 * S);
    let r = Ray::new(Vector3::new(0, 0, 0), Vector3::new(0, 0, -S));
    assert_eq!(r.hits_at(&geo), Some(2 * S));
}

#[test]
fn zero_direction_ray_misses_everything() {
    let r = Ray::new(Vector3::new(0, 0, 0), Vector3::new(0, 0, 0));
    assert_eq!(r.hits_at(&sphere_at(0, 0, -5 * S, S)), None);
    let boxed = Geometry::AABox(AABoxGeometry {
        min: Vector3::new(-S, -S, -5 * S),
        max: Vector3::new(S, S, -3 * S),
    });
    assert_eq!(r.hits_at(&boxed), None);
}

#[test]
fn triangle_vertex_hit_is_inclusive() {
    let geo = Geometry::Triangle(TriangleGeometry {
        a: Vector3::new(0, 0, 0),
        b: Vector3::new(S, 0, 0),
        c: Vector3::new(0, S, 0),
    });
    let r = Ray::new(Vector3::new(S, 0, S), Vector3::new(0, 0, -S));
    assert_eq!(r.hits_at(&geo), Some(S));
}

#[test]
fn triangle_outside_misses() {
    let geo = Geometry::Triangle(TriangleGeometry {
        a: Vector3::new(0, 0, 0),
        b: Vector3::new(S, 0, 0),
        c: Vector3::new(0, S, 0),
    });
    let outside = Ray::new(Vector3::new(S, S, S), Vector3::new(0, 0, -S));
    assert_eq!(outside.hits_at(&geo), None);
    let parallel = Ray::new(Vector3::new(0, 0, S), Vector3::new(S, 0, 0));
    assert_eq!(parallel.hits_at(&geo), None);
}

#[test]
fn triangle_center_and_aabb() {
    let tri = TriangleGeometry {
        a: Vector3::new(0, 0, 0),
        b: Vector3::new(3 * S, 0, -S),
        c: Vector3::new(0, 3 * S, S),
    };
    assert_eq!(tri.center(), Vector3::new(S, S, 0));
    let bb = tri.aabb();
    assert_eq!(bb.min, Vector3::new(0, 0, -S));
    assert_eq!(bb.max, Vector3::new(3 * S, 3 * S, S));
}

#[test]
fn plane_front_face_hits_back_face_misses() {
    let plane = PlaneGeometry { normal: Vector3::new(0, 0, S), offset: -2 * S };
    let toward = Ray::new(Vector3::new(0, 0, 0), Vector3::new(0, 0, -S));
    assert_eq!(plane.intersection(&toward), Some(2 * S));
    let away = Ray::new(Vector3::new(0, 0, 0), Vector3::new(0, 0, S));
    assert_eq!(away.hits_at(&Geometry::Plane(plane)), None);
    let plane2 = PlaneGeometry { normal: Vector3::new(0, 0, S), offset: -2 * S };
    let parallel = Ray::new(Vector3::new(0, 0, 0), Vector3::new(S, 0, 0));
    assert_eq!(plane2.intersection(&parallel), None);
}

#[test]
fn parallelogram_hits_inside_and_misses_outside() {
    let geo = Geometry::Parallelogram(ParallelogramGeometry {
        origin: Vector3::new(-S, -S, -3 * S),
        a: Vector3::new(2 * S, 0, 0),
        b: Vector3::new(0, 2 * S, 0),
    });
    let inside = Ray::new(Vector3::new(0, 0, 0), Vector3::new(0, 0, -S));
    assert_eq!(inside.hits_at(&geo), Some(3 * S));
    let corner = Ray::new(Vector3::new(S, S, 0), Vector3::new(0, 0, -S));
    assert_eq!(corner.hits_at(&geo), Some(3 * S));
    let outside = Ray::new(Vector3::new(2 * S, 0, 0), Vector3::new(0, 0, -S));
    assert_eq!(outside.hits_at(&geo), None);
}

#[test]
fn aabox_axis_parallel_rays() {
    let boxed = AABoxGeometry {
        min: Vector3::new(-S, -S, -5 * S),
        max: Vector3::new(S, S, -3 * S),
    };
    let through = Ray::new(Vector3::new(0, 0, 0), Vector3::new(0, 0, -S));
    assert_eq!(boxed.intersection(&through), Some(3 * S));
    let beside = Ray::new(Vector3::new(2 * S, 0, 0), Vector3::new(0, 0, -S));
    assert_eq!(boxed.intersection(&beside), None);
    let from_inside = Ray::new(Vector3::new(0, 0, -4 * S), Vector3::new(0, 0, -S));
    assert_eq!(boxed.intersection(&from_inside), Some(S));
}


#[test]
fn aabox_center_and_normals() {
    let boxed = AABoxGeometry {
        min: Vector3::new(-S, -S, -5 * S),
        max: Vector3::new(S, S, -3 * S),
    };
    assert_eq!(boxed.center(), Vector3::new(0, 0, -4 * S));
    assert_eq!(boxed.normal_at(&Vector3::new(60000, 0, -3 * S)), Vector3::new(0, 0, S));
    assert_eq!(boxed.normal_at(&Vector3::new(60000, 0, -5 * S)), Vector3::new(0, 0, -S));
    assert_eq!(boxed.normal_at(&Vector3::new(-S, 60000, -4 * S)), Vector3::new(-S, 0, 0));
    assert_eq!(boxed.normal_at(&Vector3::new(60000, S, -4 * S)), Vector3::new(0, S, 0));
    // the middle of a face answers with that face's outward unit normal
    assert_eq!(boxed.normal_at(&Vector3::new(0, 0, -3 * S)), Vector3::new(0, 0, S));
    // a corner tie goes to the first face in back/front, below/above,
    // left/right order
    assert_eq!(boxed.normal_at(&Vector3::new(-S, -S, -5 * S)), Vector3::new(0, 0, -S));
    // a point a step off the surface still answers with the nearest face
    assert_eq!(boxed.normal_at(&Vector3::new(0, 0, -3 * S - 1)), Vector3::new(0, 0, S));
}

#[test]
fn sphere_aabb_encloses() {
    let sphere = SphereGeometry { center: Vector3::new(S, 2 * S, -5 * S), radius: S };
    let bb = sphere.aabb();
    assert_eq!(bb.min, Vector3::new(0, S, -6 * S));
    assert_eq!(bb.max, Vector3::new(2 * S, 3 * S, -4 * S));
}

#[test]
fn nearest_hit_takes_minimum_t() {
    let near = sphere_at(0, 0, -5 * S, S);
    let far = sphere_at(0, 0, -10 * S, S);
    let entries = vec![(far, plain_material()), (near, plain_material())];
    let r = Ray::new(Vector3::new(0, 0, 0), Vector3::new(0, 0, -S));
    assert_eq!(r.nearest_hit(&entries), Some((1, 4 * S)));
}

#[test]
fn nearest_hit_breaks_ties_by_first_entry() {
    let a = sphere_at(0, 0, -5 * S, S);
    let b = sphere_at(0, 0, -5 * S, S);
    let entries = vec![(a, plain_material()), (b, plain_material())];
    let r = Ray::new(Vector3::new(0, 0, 0), Vector3::new(0, 0, -S));
    assert_eq!(r.nearest_hit(&entries), Some((0, 4 * S)));
}

#[test]
fn nearest_hit_none_when_all_miss() {
    let entries = vec![(sphere_at(0, 0, 5 * S, S), plain_material())];
    let r = Ray::new(Vector3::new(0, 0, 0), Vector3::new(0, 0, -S));
    assert_eq!(r.nearest_hit(&entries), None);
}

#[test]
fn object_iter_pairs_mesh_with_material() {
    let object = Object {
        mesh: vec![sphere_at(0, 0, -5 * S, S), sphere_at(0, 0, -9 * S, S)],
        material: plain_material(),
    };
    let entries = object.iter();
    assert_eq!(entries.len(), 2);
    let mut it = ObjectIterator::new(&object);
    assert!(it.next().is_some());
    assert!(it.next().is_some());
    assert!(it.next().is_none());
}

#[test]
fn camera_focal_plane_height_formula() {
    let camera = Camera { tan_half_fov: S, focal_length: 2 * S, origin: Vector3::new(0, 0, 0) };
    assert_eq!(camera.focal_plane_height(), 4 * S);
}

#[test]
fn downsample_identity_at_factor_one() {
    let samples = vec![Color::new(3, 7, 11), Color::new(S, 0, 5)];
    let pixels = downsample(&samples, 1, 2, 1);
    assert_eq!(pixels, samples);
}

#[test]
fn downsample_averages_blocks_exactly() {
    let samples = vec![
        Color::new(100, 0, 4),
        Color::new(200, 0, 4),
        Color::new(300, S, 4),
        Color::new(401, 0, 4),
    ];
    let pixels = downsample(&samples, 2, 1, 1);
    assert_eq!(pixels.len(), 1);
    assert_eq!(pixels[0], Color::new(250, S / 4, 4));
}

#[test]
fn downsample_keeps_blocks_apart() {
    let samples = vec![
        Color::new(100, 0, 0),
        Color::new(100, 0, 0),
        Color::new(40, 0, 0),
        Color::new(40, 0, 0),
        Color::new(100, 0, 0),
        Color::new(100, 0, 0),
        Color::new(40, 0, 0),
        Color::new(40, 0, 0),
    ];
    let pixels = downsample(&samples, 2, 2, 1);
    assert_eq!(pixels, vec![Color::new(100, 0, 0), Color::new(40, 0, 0)]);
}

#[test]
fn image_buffer_is_row_major_rgb() {
    let pixels = vec![Color::new(S, 0, S / 2), Color::new(0, S, 0)];
    let buffer = image_buffer(&pixels);
    assert_eq!(buffer, vec![255, 0, 127, 0, 255, 0]);
}

#[test]
fn full_pipeline_is_deterministic() {
    let objects = vec![Object { mesh: vec![sphere_at(0, 0, -5 * S, S)], material: plain_material() }];
    let lights = vec![Light { position: Vector3::new(0, 3 * S, -4 * S), color: white() }];
    let camera = Camera { tan_half_fov: S, focal_length: S, origin: Vector3::new(0, 0, 0) };
    let first = render(&objects, &lights, &camera, 1, 1, 1, ShadingMode::Literal);
    let second = render(&objects, &lights, &camera, 1, 1, 1, ShadingMode::Literal);
    assert_eq!(first.len(), 1);
    assert_eq!(first, second);
    let corrected = render(&objects, &lights, &camera, 1, 1, 1, ShadingMode::Corrected);
    assert_eq!(corrected, render(&objects, &lights, &camera, 1, 1, 1, ShadingMode::Corrected));
}

#[test]
fn shading_modes_differ_on_back_facing_light() {
    let entries = vec![(sphere_at(0, 0, -5 * S, S), Material {
        color: white(),
        diffusion: S,
        specularity: S,
        shininess: 1,
        reflectance: 0,
    })];
    let lights = vec![Light { position: Vector3::new(0, -3 * S, -9 * S), color: white() }];
    let r = Ray::new(Vector3::new(0, 0, 0), Vector3::new(0, 0, -S));
    let literal = r.color(&entries, &lights, ShadingMode::Literal);
    let corrected = r.color(&entries, &lights, ShadingMode::Corrected);
    assert_eq!(literal, Color::new_black());
    assert!(corrected.red() > 0);
    assert!(corrected.red() >= literal.red());
}

#[test]
fn render_with_supersampling_runs_whole_grid() {
    let objects = vec![Object { mesh: vec![sphere_at(0, 0, -5 * S, S)], material: plain_material() }];
    let lights = vec![Light { position: Vector3::new(0, 3 * S, -4 * S), color: white() }];
    let camera = Camera { tan_half_fov: S, focal_length: S, origin: Vector3::new(0, 0, 0) };
    let pixels = render(&objects, &lights, &camera, 2, 2, 2, ShadingMode::Corrected);
    assert_eq!(pixels.len(), 4);
}

#[test]
fn render_to_bytes_end_to_end() {
    let objects = vec![Object { mesh: vec![sphere_at(0, 0, -5 * S, S)], material: plain_material() }];
    let lights = vec![Light { position: Vector3::new(0, 3 * S, -4 * S), color: white() }];
    let camera = Camera::new(S, S);
    let pixels = render(&objects, &lights, &camera, 2, 1, 1, ShadingMode::Corrected);
    let buffer = image_buffer(&pixels);
    assert_eq!(buffer.len(), 6);
}

#[test]
fn shading_with_no_lights_is_black() {
    let entries = vec![(sphere_at(0, 0, -5 * S, S), plain_material())];
    let lights: Vec<Light> = Vec::new();
    let r = Ray::new(Vector3::new(0, 0, 0), Vector3::new(0, 0, -S));
    assert_eq!(r.color(&entries, &lights, ShadingMode::Literal), Color::new_black());
}
