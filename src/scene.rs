use vstd::prelude::*;

use crate::raster::{sample_point, sample_points, IMAGE_SIZE, VIEW_DEPTH};
use crate::ray::Ray;
use crate::sphere::{hit, Crossing, Sphere, SCENE_LIMIT};
use crate::vec::Vec3;

verus! {

/// Spheres in registration order, one point light and a camera, with the
/// ambient and diffuse lighting coefficients in thousandths.
pub struct Scene {
    pub spheres: Vec<Sphere>,
    pub light: Vec3,
    pub camera: Vec3,
    pub ambient: u32,
    pub diffuse: u32,
}

/// A sphere whose geometry lies within the exactly handled range.
pub open spec fn sphere_in_range(s: Sphere) -> bool {
    s.center.bounded(SCENE_LIMIT as int) && -SCENE_LIMIT < s.radius < SCENE_LIMIT
}

/// The ray from the camera through lattice point `p`.
pub open spec fn camera_ray(camera: Vec3, p: crate::vec::V3) -> Ray {
    Ray {
        origin: camera,
        direction: Vec3 {
            x: (p.x - camera.x) as i64,
            y: (p.y - camera.y) as i64,
            z: (p.z - camera.z) as i64,
        },
    }
}

impl Scene {
    /// The camera lies off the view plane and every position is in range.
    pub open spec fn wf(&self) -> bool {
        &&& self.camera.bounded(SCENE_LIMIT as int)
        &&& self.camera.y != VIEW_DEPTH
        &&& forall|k: int| 0 <= k < self.spheres.len() ==> sphere_in_range(#[trigger] self.spheres[k])
    }

    /// Two spheres, one light and a camera looking through the view plane `y = 8`;
    /// lattice units are thousandths of a world unit.
    pub fn reference() -> (r: Scene)
        ensures
            r.wf(),
            r.spheres.len() == 2,
            r.spheres[0].center@ == crate::vec::v3(0, 10000, 0),
            r.spheres[0].radius == 5000,
            r.spheres[0].colour@ == crate::vec::v3(1000, 1000, 700),
            r.spheres[1].center@ == crate::vec::v3(-13000, 20000, 0),
            r.spheres[1].radius == 15000,
            r.spheres[1].colour@ == crate::vec::v3(1000, 300, 400),
            r.light@ == crate::vec::v3(-20000, 10000, 32000),
            r.camera@ == crate::vec::v3(0, -25000, 1000),
            r.ambient == 200,
            r.diffuse == 800,
    {
        let s1 = Sphere::from(Vec3::from(0, 10000, 0), 5000, Vec3::from(1000, 1000, 700));
        let s2 = Sphere::from(Vec3::from(-13000, 20000, 0), 15000, Vec3::from(1000, 300, 400));
        let mut spheres: Vec<Sphere> = Vec::new();
        spheres.push(s1);
        spheres.push(s2);
        Scene {
            spheres,
            light: Vec3::from(-20000, 10000, 32000),
            camera: Vec3::from(0, -25000, 1000),
            ambient: 200,
            diffuse: 800,
        }
    }

    /// For each sample point of pixel `(row, col)` (as `sample_points` orders
    /// them), the hit of the camera ray through it with each sphere, in
    /// registration order.
    pub fn pixel_hits(&self, row: u32, col: u32) -> (r: Vec<Vec<Option<Crossing>>>)
        requires
            self.wf(),
            row < IMAGE_SIZE,
            col < IMAGE_SIZE,
        ensures
            r.len() == 9,
            forall|i: int| 0 <= i < 9 ==> (#[trigger] r[i]).len() == self.spheres.len(),
            forall|i: int, k: int|
                0 <= i < 9 && 0 <= k < self.spheres.len() ==> (#[trigger] r[i][k]) == hit(
                    camera_ray(self.camera, sample_point(row as int, col as int, i)),
                    self.spheres[k],
                ),
    {
        let points = sample_points(row, col);
        let mut out: Vec<Vec<Option<Crossing>>> = Vec::new();
        let mut i: usize = 0;
        while i < points.len()
            invariant
                self.wf(),
                row < IMAGE_SIZE,
                col < IMAGE_SIZE,
                points.len() == 9,
                forall|j: int| 0 <= j < points.len() ==> (#[trigger] points[j])@ == sample_point(row as int, col as int, j),
                i <= points.len(),
                out.len() == i,
                forall|j: int| 0 <= j < i ==> (#[trigger] out[j]).len() == self.spheres.len(),
                forall|j: int, k: int|
                    0 <= j < i && 0 <= k < self.spheres.len() ==> (#[trigger] out[j][k]) == hit(
                        camera_ray(self.camera, sample_point(row as int, col as int, j)),
                        self.spheres[k],
                    ),
            decreases points.len() - i,
        {
            let p = points[i];
            let ghost sp = sample_point(row as int, col as int, i as int);
            assert(p@ == sp);
            assert(-20100 <= p.x <= 20100 && -20100 <= p.z <= 20100) by {
                assert(0 <= i as int / 3 <= 2 && 0 <= i as int % 3 <= 2);
            }
            let d = Vec3::minus(&p, &self.camera);
            assert(d.y != 0);
            let ray = Ray::from(self.camera, d);
            assert(ray == camera_ray(self.camera, sp));
            let mut row_hits: Vec<Option<Crossing>> = Vec::new();
            let mut k: usize = 0;
            while k < self.spheres.len()
                invariant
                    self.wf(),
                    ray == camera_ray(self.camera, sp),
                    ray.wf(),
                    ray.origin.bounded(SCENE_LIMIT as int),
                    ray.direction.bounded(2 * SCENE_LIMIT),
                    k <= self.spheres.len(),
                    row_hits.len() == k,
                    forall|m: int| 0 <= m < k ==> (#[trigger] row_hits[m]) == hit(ray, self.spheres[m]),
                decreases self.spheres.len() - k,
            {
                let s = &self.spheres[k];
                assert(sphere_in_range(self.spheres[k as int]));
                let h = s.intersect(&ray);
                row_hits.push(h);
                k = k + 1;
            }
            out.push(row_hits);
            i = i + 1;
        }
        out
    }
}

} // verus!
