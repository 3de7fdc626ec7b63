use raytrace::image::{average, encode, push_decimal, push_pixel};
use raytrace::raster::{pixel_center, sample_points};
use raytrace::sphere::Side;
use raytrace::{Pixel, Scene, Vec3};

fn px(r: u32, g: u32, b: u32) -> Pixel {
    Pixel { r, g, b }
}

#[test]
fn pixel_centers_scan_top_row_first() {
    assert_eq!(pixel_center(0, 0), (-20000, 20000));
    assert_eq!(pixel_center(0, 400), (20000, 20000));
    assert_eq!(pixel_center(400, 0), (-20000, -20000));
    assert_eq!(pixel_center(200, 200), (0, 0));
}

#[test]
fn sample_points_form_three_by_three_grid() {
    let pts = sample_points(0, 0);
    assert_eq!(pts.len(), 9);
    assert_eq!(pts[0], Vec3::from(-20033, 8000, 19967));
    assert_eq!(pts[1], Vec3::from(-20033, 8000, 20000));
    assert_eq!(pts[4], Vec3::from(-20000, 8000, 20000));
    assert_eq!(pts[8], Vec3::from(-19967, 8000, 20033));
}

#[test]
fn average_truncates_each_channel() {
    let s = vec![px(255, 0, 10), px(0, 0, 10), px(1, 3, 11)];
    assert_eq!(average(&s), px(85, 1, 10));
}

#[test]
fn average_of_uniform_samples_is_that_sample() {
    let s = vec![px(200, 120, 7); 9];
    assert_eq!(average(&s), px(200, 120, 7));
    let single = vec![px(200, 120, 7)];
    assert_eq!(average(&s), average(&single));
}

#[test]
fn average_of_black_samples_is_black() {
    let s = vec![px(0, 0, 0); 9];
    assert_eq!(average(&s), px(0, 0, 0));
}

#[test]
fn decimal_digits() {
    let mut out = Vec::new();
    push_decimal(&mut out, 0);
    push_decimal(&mut out, 1234);
    push_decimal(&mut out, 4294967295);
    assert_eq!(out, b"012344294967295".to_vec());
}

#[test]
fn pixel_as_text() {
    let mut out = Vec::new();
    push_pixel(&mut out, px(255, 0, 17));
    assert_eq!(out, b"255 0 17\t".to_vec());
}

#[test]
fn encode_small_image() {
    let pixels = vec![px(1, 2, 3), px(45, 6, 255), px(0, 0, 0), px(9, 10, 11)];
    let out = encode(2, 2, &pixels);
    assert_eq!(out, b"P3\n2 2\n255\n1 2 3\t45 6 255\t\n0 0 0\t9 10 11\t\n".to_vec());
}

#[test]
fn encode_empty_image_is_header_only() {
    let out = encode(3, 0, &Vec::new());
    assert_eq!(out, b"P3\n3 0\n255\n".to_vec());
}

#[test]
fn encode_twice_is_identical() {
    let pixels = vec![px(7, 8, 9); 6];
    assert_eq!(encode(3, 2, &pixels), encode(3, 2, &pixels));
}

#[test]
fn reference_scene_constants() {
    let s = Scene::reference();
    assert_eq!(s.spheres.len(), 2);
    assert_eq!(s.spheres[0].center, Vec3::from(0, 10000, 0));
    assert_eq!(s.spheres[0].radius, 5000);
    assert_eq!(s.spheres[1].radius, 15000);
    assert_eq!(s.light, Vec3::from(-20000, 10000, 32000));
    assert_eq!(s.camera, Vec3::from(0, -25000, 1000));
    assert_eq!((s.ambient, s.diffuse), (200, 800));
}

#[test]
fn central_pixel_hits_both_spheres_from_outside() {
    let s = Scene::reference();
    let hits = s.pixel_hits(200, 200);
    assert_eq!(hits.len(), 9);
    for h in &hits {
        assert_eq!(h.len(), 2);
        assert_eq!(h[0].expect("first sphere").side, Side::Near);
        assert_eq!(h[1].expect("second sphere").side, Side::Near);
    }
}

#[test]
fn corner_pixels_miss_every_sphere() {
    let s = Scene::reference();
    for (row, col) in [(0, 0), (0, 400), (400, 0), (400, 400)] {
        let hits = s.pixel_hits(row, col);
        for h in &hits {
            assert!(h.iter().all(|c| c.is_none()));
        }
    }
}

#[test]
fn single_sphere_scenario_ray_at_nearest_point_hits() {
    let mut s = Scene::reference();
    s.spheres.truncate(1);
    let hits = s.pixel_hits(200, 200);
    assert_eq!(hits[4][0].expect("hit").side, Side::Near);
    let miss = s.pixel_hits(0, 0);
    assert!(miss.iter().all(|h| h[0].is_none()));
}
