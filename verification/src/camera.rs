//! The pinhole camera: where each pixel of the image lies in space.
//!
//! The camera looks down the negative `z` axis at a rectangular viewport
//! one focal length away. The image's rows run from the top of the viewport
//! to its bottom, so the vector from one row to the next points down.

use vstd::prelude::*;
use crate::arith::{div_toward_zero, lemma_trunc_div, lemma_trunc_div_bound, magnitude, trunc_div};
use crate::ray::Ray;
use crate::scalar::{lemma_mul_raw_bound, representable, Scalar, SCALE};
use crate::vec3::{Point3, Vec3};

verus! {

/// The geometry of the pixel grid, derived once and then only read.
#[derive(Clone, Copy, Debug, PartialEq, Eq, Structural)]
pub struct Camera {
    /// The number of pixels in a row.
    pub image_width: u32,
    /// The number of rows.
    pub image_height: u32,
    /// The point every ray starts from.
    pub center: Point3,
    /// The center of the top-left pixel.
    pub pixel00_loc: Point3,
    /// The step from a pixel to its right neighbour.
    pub pixel_delta_u: Vec3,
    /// The step from a pixel to the one below it.
    pub pixel_delta_v: Vec3,
}

/// The number of rows of an image `image_width` pixels wide with the given
/// ratio of width to height: the width divided by the ratio, its fraction
/// dropped, but at least one.
pub open spec fn spec_image_height(image_width: u32, aspect_ratio: Scalar) -> int
    recommends
        aspect_ratio.raw != 0,
{
    let rows = trunc_div(image_width * SCALE, aspect_ratio.raw as int);
    if rows < 1 {
        1
    } else {
        rows
    }
}

/// Derives the number of rows from the width and the aspect ratio. There is
/// none where the ratio is zero or the number does not fit a `u32`.
pub fn image_height(image_width: u32, aspect_ratio: Scalar) -> (rows: Option<u32>)
    ensures
        rows == (if aspect_ratio.raw != 0 && spec_image_height(image_width, aspect_ratio)
            <= u32::MAX {
            Some(spec_image_height(image_width, aspect_ratio) as u32)
        } else {
            None
        }),
{
    if aspect_ratio.raw == 0 {
        return None;
    }
    let wide: i128 = image_width as i128;
    assert(0 <= wide * SCALE <= 0x1_0000_0000 * SCALE) by (nonlinear_arith)
        requires
            0 <= wide <= 0x1_0000_0000,
    ;
    let q: i128 = div_toward_zero(wide * (SCALE as i128), aspect_ratio.raw as i128);
    if q < 1 {
        Some(1)
    } else if q > u32::MAX as i128 {
        None
    } else {
        Some(q as u32)
    }
}

impl Camera {
    /// The center of the pixel in column `col` of row `row`:
    /// `pixel00_loc + col * pixel_delta_u + row * pixel_delta_v`.
    pub open spec fn spec_pixel_center(&self, col: u32, row: u32) -> Point3 {
        self.pixel00_loc.spec_add(self.pixel_delta_u.spec_mul_int(col)).spec_add(
            self.pixel_delta_v.spec_mul_int(row),
        )
    }

    /// The direction from the camera center through the center of a pixel.
    pub open spec fn spec_ray_direction(&self, col: u32, row: u32) -> Vec3 {
        self.spec_pixel_center(col, row).spec_sub(self.center)
    }

    /// Whether the ray through a pixel can be computed: every intermediate
    /// value is representable.
    pub open spec fn can_reach(&self, col: u32, row: u32) -> bool {
        let right = self.pixel_delta_u.spec_mul_int(col);
        let down = self.pixel_delta_v.spec_mul_int(row);
        &&& self.pixel_delta_u.can_mul_int(col)
        &&& self.pixel00_loc.can_add(right)
        &&& self.pixel_delta_v.can_mul_int(row)
        &&& self.pixel00_loc.spec_add(right).can_add(down)
        &&& self.spec_pixel_center(col, row).can_sub(self.center)
    }

    /// Whether the ray through a pixel can be computed and has a direction:
    /// the pixel's center is not the camera center.
    pub open spec fn can_cast(&self, col: u32, row: u32) -> bool {
        self.can_reach(col, row) && !self.spec_ray_direction(col, row).is_zero()
    }

    /// Whether the ray through every pixel of row `row` can be computed.
    pub open spec fn can_cast_row(&self, row: u32) -> bool {
        forall|col: u32| col < self.image_width ==> #[trigger] self.can_cast(col, row)
    }

    /// Whether the ray through every pixel of the image can be computed.
    pub open spec fn is_renderable(&self) -> bool {
        forall|row: u32| row < self.image_height ==> #[trigger] self.can_cast_row(row)
    }

    /// Whether the rows run straight down: the step from one row to the next
    /// moves neither sideways nor in depth, and does not point up.
    pub open spec fn rows_run_down(&self) -> bool {
        &&& self.pixel_delta_v.x.raw == 0
        &&& self.pixel_delta_v.y.raw <= 0
        &&& self.pixel_delta_v.z.raw == 0
    }

    /// Whether the image has a pixel and the rays through its four corner
    /// pixels can be computed. The rays through all the others then can be
    /// too, for their pixels lie between the corners.
    pub open spec fn reaches_corners(&self) -> bool {
        &&& self.image_width >= 1
        &&& self.image_height >= 1
        &&& self.can_reach(0, 0)
        &&& self.can_reach((self.image_width - 1) as u32, 0)
        &&& self.can_reach(0, (self.image_height - 1) as u32)
        &&& self.can_reach((self.image_width - 1) as u32, (self.image_height - 1) as u32)
    }

    /// Whether the viewport is a plane that does not hold the camera center:
    /// the steps between pixels have no depth, and the first pixel is not
    /// at the depth of the center. Every ray then has a direction.
    pub open spec fn has_depth(&self) -> bool {
        &&& self.pixel_delta_u.z.raw == 0
        &&& self.pixel_delta_v.z.raw == 0
        &&& self.pixel00_loc.z.raw != self.center.z.raw
    }

    /// The width of the viewport: its height times the ratio of the image's
    /// width to its height.
    pub open spec fn spec_viewport_width(
        image_width: u32,
        image_height: u32,
        viewport_height: Scalar,
    ) -> Scalar {
        viewport_height.spec_mul(Scalar::spec_ratio(image_width, image_height))
    }

    /// The horizontal edge of the viewport: `(width, 0, 0)`.
    pub open spec fn spec_viewport_u(
        image_width: u32,
        image_height: u32,
        viewport_height: Scalar,
    ) -> Vec3 {
        Vec3 {
            x: Camera::spec_viewport_width(image_width, image_height, viewport_height),
            y: Scalar { raw: 0 },
            z: Scalar { raw: 0 },
        }
    }

    /// The vertical edge of the viewport: `(0, -height, 0)`. It is negated
    /// so that the rows of the image run down as they are counted up.
    pub open spec fn spec_viewport_v(viewport_height: Scalar) -> Vec3 {
        Vec3 { x: Scalar { raw: 0 }, y: viewport_height.spec_neg(), z: Scalar { raw: 0 } }
    }

    /// The upper left corner of the viewport: the center, moved one focal
    /// length along negative `z` and back by half of each edge.
    pub open spec fn spec_upper_left(
        image_width: u32,
        image_height: u32,
        focal_length: Scalar,
        viewport_height: Scalar,
        center: Point3,
    ) -> Point3 {
        let zero = Scalar { raw: 0 };
        center.spec_sub(Vec3 { x: zero, y: zero, z: focal_length }).spec_sub(
            Camera::spec_viewport_u(image_width, image_height, viewport_height).spec_div_int(2),
        ).spec_sub(Camera::spec_viewport_v(viewport_height).spec_div_int(2))
    }

    /// The camera for the given image size, focal length, viewport height
    /// and center. The pixel steps are the edges of the viewport divided by
    /// the number of pixels along them; the first pixel's center lies half
    /// a step along each edge from the upper left corner.
    pub open spec fn geometry(
        image_width: u32,
        image_height: u32,
        focal_length: Scalar,
        viewport_height: Scalar,
        center: Point3,
    ) -> Camera {
        let pixel_delta_u = Camera::spec_viewport_u(
            image_width,
            image_height,
            viewport_height,
        ).spec_div_int(image_width);
        let pixel_delta_v = Camera::spec_viewport_v(viewport_height).spec_div_int(image_height);
        let pixel00_loc = Camera::spec_upper_left(
            image_width,
            image_height,
            focal_length,
            viewport_height,
            center,
        ).spec_add(pixel_delta_u.spec_add(pixel_delta_v).spec_div_int(2));
        Camera { image_width, image_height, center, pixel00_loc, pixel_delta_u, pixel_delta_v }
    }

    /// Whether every step of the geometry is representable.
    pub open spec fn derivable(
        image_width: u32,
        image_height: u32,
        focal_length: Scalar,
        viewport_height: Scalar,
        center: Point3,
    ) -> bool {
        let zero = Scalar { raw: 0 };
        let depth = Vec3 { x: zero, y: zero, z: focal_length };
        let viewport_u = Camera::spec_viewport_u(image_width, image_height, viewport_height);
        let viewport_v = Camera::spec_viewport_v(viewport_height);
        let camera = Camera::geometry(
            image_width,
            image_height,
            focal_length,
            viewport_height,
            center,
        );
        &&& image_width != 0
        &&& image_height != 0
        &&& representable(Scalar::ratio_raw(image_width, image_height))
        &&& viewport_height.can_mul(Scalar::spec_ratio(image_width, image_height))
        &&& viewport_height.can_neg()
        &&& center.can_sub(depth)
        &&& center.spec_sub(depth).can_sub(viewport_u.spec_div_int(2))
        &&& center.spec_sub(depth).spec_sub(viewport_u.spec_div_int(2)).can_sub(
            viewport_v.spec_div_int(2),
        )
        &&& camera.pixel_delta_u.can_add(camera.pixel_delta_v)
        &&& Camera::spec_upper_left(
            image_width,
            image_height,
            focal_length,
            viewport_height,
            center,
        ).can_add(camera.pixel_delta_u.spec_add(camera.pixel_delta_v).spec_div_int(2))
    }

    /// The inputs that `new` makes a camera for: an image of at least one
    /// pixel, a focal length other than zero, and sizes for which the
    /// geometry and the rays through the four corner pixels are
    /// representable.
    pub open spec fn supported(
        image_width: u32,
        image_height: u32,
        focal_length: Scalar,
        viewport_height: Scalar,
        center: Point3,
    ) -> bool {
        &&& focal_length.raw != 0
        &&& Camera::derivable(image_width, image_height, focal_length, viewport_height, center)
        &&& Camera::geometry(
            image_width,
            image_height,
            focal_length,
            viewport_height,
            center,
        ).reaches_corners()
    }

    /// Derives the camera, where the inputs are supported.
    pub fn new(
        image_width: u32,
        image_height: u32,
        focal_length: Scalar,
        viewport_height: Scalar,
        center: Point3,
    ) -> (camera: Option<Camera>)
        ensures
            camera == (if Camera::supported(
                image_width,
                image_height,
                focal_length,
                viewport_height,
                center,
            ) {
                Some(
                    Camera::geometry(
                        image_width,
                        image_height,
                        focal_length,
                        viewport_height,
                        center,
                    ),
                )
            } else {
                None
            }),
            camera matches Some(c) ==> c.is_renderable() && c.has_depth(),
    {
        if image_width == 0 || image_height == 0 || focal_length.raw == 0 || viewport_height.raw
            == i64::MIN {
            return None;
        }
        let zero = Scalar::from_raw(0);
        let ratio = match Scalar::checked_ratio(image_width, image_height) {
            Some(ratio) => ratio,
            None => {
                return None;
            },
        };
        let viewport_width = match viewport_height.checked_mul(ratio) {
            Some(width) => width,
            None => {
                return None;
            },
        };
        let viewport_u = Vec3::new(viewport_width, zero, zero);
        let viewport_v = Vec3::new(zero, viewport_height.neg(), zero);

        let pixel_delta_u = viewport_u.div_int(image_width);
        let pixel_delta_v = viewport_v.div_int(image_height);

        let behind = match center.checked_sub(Vec3::new(zero, zero, focal_length)) {
            Some(point) => point,
            None => {
                return None;
            },
        };
        let left = match behind.checked_sub(viewport_u.div_int(2)) {
            Some(point) => point,
            None => {
                return None;
            },
        };
        let viewport_upper_left = match left.checked_sub(viewport_v.div_int(2)) {
            Some(point) => point,
            None => {
                return None;
            },
        };
        let step = match pixel_delta_u.checked_add(pixel_delta_v) {
            Some(step) => step,
            None => {
                return None;
            },
        };
        let pixel00_loc = match viewport_upper_left.checked_add(step.div_int(2)) {
            Some(point) => point,
            None => {
                return None;
            },
        };
        let camera = Camera {
            image_width,
            image_height,
            center,
            pixel00_loc,
            pixel_delta_u,
            pixel_delta_v,
        };
        assert(camera == Camera::geometry(
            image_width,
            image_height,
            focal_length,
            viewport_height,
            center,
        ));
        if !(camera.reaches(0, 0) && camera.reaches(image_width - 1, 0) && camera.reaches(
            0,
            image_height - 1,
        ) && camera.reaches(image_width - 1, image_height - 1)) {
            return None;
        }
        proof {
            lemma_trunc_div(0, image_width as int);
            lemma_trunc_div(0, image_height as int);
            lemma_trunc_div(0, 2);
            assert(camera.has_depth());
            lemma_renderable(camera);
        }
        Some(camera)
    }

    /// Whether the ray through a pixel can be computed.
    pub fn reaches(&self, col: u32, row: u32) -> (ok: bool)
        ensures
            ok == self.can_reach(col, row),
    {
        let right = match self.pixel_delta_u.checked_mul_int(col) {
            Some(right) => right,
            None => {
                return false;
            },
        };
        let along = match self.pixel00_loc.checked_add(right) {
            Some(along) => along,
            None => {
                return false;
            },
        };
        let down = match self.pixel_delta_v.checked_mul_int(row) {
            Some(down) => down,
            None => {
                return false;
            },
        };
        let pixel_center = match along.checked_add(down) {
            Some(point) => point,
            None => {
                return false;
            },
        };
        pixel_center.checked_sub(self.center).is_some()
    }

    /// The ray from the camera center through the center of a pixel.
    pub fn ray_through(&self, col: u32, row: u32) -> (r: Ray)
        requires
            self.can_reach(col, row),
        ensures
            r.origin() == self.center,
            r.direction() == self.spec_ray_direction(col, row),
    {
        let pixel_center = self.pixel00_loc.add(self.pixel_delta_u.mul_int(col)).add(
            self.pixel_delta_v.mul_int(row),
        );
        let ray_direction = pixel_center.sub(self.center);
        Ray::new(self.center, ray_direction)
    }
}

/// A whole number of steps, no more than `n`, ends between no step and `n`
/// steps.
proof fn lemma_steps_between(d: int, i: int, n: int)
    requires
        0 <= i <= n,
    ensures
        d >= 0 ==> 0 <= d * i <= d * n,
        d <= 0 ==> d * n <= d * i <= 0,
{
    assert(d >= 0 ==> 0 <= d * i <= d * n) by (nonlinear_arith)
        requires
            0 <= i <= n,
    ;
    assert(d <= 0 ==> d * n <= d * i <= 0) by (nonlinear_arith)
        requires
            0 <= i <= n,
    ;
}

/// One coordinate of the ray through a pixel is representable at every step
/// where it is so for the four corner pixels: with `a` the coordinate of the
/// first pixel, `d` and `e` the steps along a row and down a column, `c` the
/// coordinate of the center, and `n` and `m` the last column and row.
proof fn lemma_coordinate_between(a: int, d: int, e: int, c: int, i: int, n: int, j: int, m: int)
    requires
        0 <= i <= n,
        0 <= j <= m,
        representable(d * n),
        representable(e * m),
        representable(a),
        representable(a + d * n),
        representable(a + e * m),
        representable(a + d * n + e * m),
        representable(a - c),
        representable(a + d * n - c),
        representable(a + e * m - c),
        representable(a + d * n + e * m - c),
    ensures
        representable(d * i),
        representable(a + d * i),
        representable(e * j),
        representable(a + d * i + e * j),
        representable(a + d * i + e * j - c),
{
    lemma_steps_between(d, i, n);
    lemma_steps_between(e, j, m);
}

/// The rays through all pixels of a camera can be computed where those
/// through its four corner pixels can.
pub proof fn lemma_corners_reach(camera: Camera, col: u32, row: u32)
    requires
        camera.reaches_corners(),
        col < camera.image_width,
        row < camera.image_height,
    ensures
        camera.can_reach(col, row),
{
    let n = camera.image_width - 1;
    let m = camera.image_height - 1;
    let i = col as int;
    let j = row as int;
    let first = camera.pixel00_loc;
    let right = camera.pixel_delta_u;
    let down = camera.pixel_delta_v;
    let center = camera.center;
    assert(right.x.raw * 0 == 0 && right.y.raw * 0 == 0 && right.z.raw * 0 == 0);
    assert(down.x.raw * 0 == 0 && down.y.raw * 0 == 0 && down.z.raw * 0 == 0);
    lemma_coordinate_between(
        first.x.raw as int,
        right.x.raw as int,
        down.x.raw as int,
        center.x.raw as int,
        i,
        n,
        j,
        m,
    );
    lemma_coordinate_between(
        first.y.raw as int,
        right.y.raw as int,
        down.y.raw as int,
        center.y.raw as int,
        i,
        n,
        j,
        m,
    );
    lemma_coordinate_between(
        first.z.raw as int,
        right.z.raw as int,
        down.z.raw as int,
        center.z.raw as int,
        i,
        n,
        j,
        m,
    );
}

/// Every ray of a camera whose viewport has depth, where it can be
/// computed, has a direction.
pub proof fn lemma_depth_gives_direction(camera: Camera, col: u32, row: u32)
    requires
        camera.has_depth(),
        camera.can_reach(col, row),
    ensures
        camera.can_cast(col, row),
{
    assert(0 * col == 0 && 0 * row == 0);
}

/// A camera whose corner pixels can be reached and whose viewport has depth
/// can take its whole image.
pub proof fn lemma_renderable(camera: Camera)
    requires
        camera.reaches_corners(),
        camera.has_depth(),
    ensures
        camera.is_renderable(),
{
    assert forall|row: u32| row < camera.image_height implies #[trigger] camera.can_cast_row(
        row,
    ) by {
        assert forall|col: u32| col < camera.image_width implies #[trigger] camera.can_cast(
            col,
            row,
        ) by {
            lemma_corners_reach(camera, col, row);
            lemma_depth_gives_direction(camera, col, row);
        }
    }
}

/// Whether `s` has magnitude at most `bound` whole units.
pub open spec fn within(s: Scalar, bound: int) -> bool {
    magnitude(s.raw as int) <= bound * SCALE
}

/// Scenes of ordinary size are supported: an image at most sixteen times as
/// wide as it is high, a viewport at most 32 high, and a focal length other
/// than zero and a center with no coordinate beyond 1000. This is a condition
/// that is enough, not one that is needed.
pub proof fn lemma_ordinary_scene_supported(
    image_width: u32,
    image_height: u32,
    focal_length: Scalar,
    viewport_height: Scalar,
    center: Point3,
)
    requires
        1 <= image_width <= 16 * image_height,
        focal_length.raw != 0,
        within(focal_length, 1000),
        within(viewport_height, 32),
        within(center.x, 1000),
        within(center.y, 1000),
        within(center.z, 1000),
    ensures
        Camera::supported(image_width, image_height, focal_length, viewport_height, center),
{
    let w = image_width as int;
    let h = image_height as int;
    let one = SCALE as int;
    let ratio = Scalar::spec_ratio(image_width, image_height);
    // The ratio is at most sixteen.
    assert(magnitude(w * SCALE) <= (16 * one) * magnitude(h)) by (nonlinear_arith)
        requires
            1 <= w <= 16 * h,
            one == SCALE,
            0 < one,
    ;
    lemma_trunc_div_bound(w * SCALE, h, 16 * one);
    lemma_trunc_div(w * SCALE, h);
    assert(ratio.raw == Scalar::ratio_raw(image_width, image_height));
    // The viewport is at most 512 wide.
    lemma_mul_raw_bound(viewport_height, ratio, 32 * one, 16 * one);
    assert((32 * one) * (16 * one) == (512 * one) * one) by (nonlinear_arith);
    let width_raw = viewport_height.mul_raw(ratio);
    assert(magnitude(width_raw) <= 512 * one) by (nonlinear_arith)
        requires
            magnitude(width_raw) * one <= (512 * one) * one,
            0 < one,
    ;
    let viewport_u = Camera::spec_viewport_u(image_width, image_height, viewport_height);
    let viewport_v = Camera::spec_viewport_v(viewport_height);
    assert(viewport_u.x.raw == width_raw);
    // Halves and steps are no larger than what they divide.
    lemma_trunc_div(0, 2);
    lemma_trunc_div(0, w);
    lemma_trunc_div(0, h);
    lemma_trunc_div(viewport_u.x.raw as int, 2);
    lemma_trunc_div(viewport_v.y.raw as int, 2);
    lemma_trunc_div(viewport_u.x.raw as int, w);
    lemma_trunc_div(viewport_v.y.raw as int, h);
    let camera = Camera::geometry(
        image_width,
        image_height,
        focal_length,
        viewport_height,
        center,
    );
    let dx = camera.pixel_delta_u.x.raw as int;
    let dy = camera.pixel_delta_v.y.raw as int;
    lemma_trunc_div((dx + 0) as int, 2);
    lemma_trunc_div((0 + dy) as int, 2);

    assert(Camera::derivable(image_width, image_height, focal_length, viewport_height, center));
    // A whole row of steps is no longer than the edge it divides.
    let n = w - 1;
    let m = h - 1;
    assert(magnitude(dx * n) <= magnitude(dx) * w && magnitude(dx * 0) == 0) by (nonlinear_arith)
        requires
            0 <= n < w,
    ;
    assert(magnitude(dy * m) <= magnitude(dy) * h && magnitude(dy * 0) == 0) by (nonlinear_arith)
        requires
            0 <= m < h,
    ;
    assert(0 * n == 0 && 0 * m == 0 && 0 * 0 == 0);
    assert(camera.reaches_corners());
}

/// The rows of a camera with a viewport of positive height run straight
/// down: the vertical edge of the viewport is negated, so the first row is
/// the top one.
pub proof fn lemma_new_rows_run_down(
    image_width: u32,
    image_height: u32,
    focal_length: Scalar,
    viewport_height: Scalar,
    center: Point3,
)
    requires
        Camera::supported(image_width, image_height, focal_length, viewport_height, center),
        viewport_height.raw >= 0,
    ensures
        Camera::geometry(
            image_width,
            image_height,
            focal_length,
            viewport_height,
            center,
        ).rows_run_down(),
{
    lemma_trunc_div(0, image_height as int);
    lemma_trunc_div(viewport_height.spec_neg().raw as int, image_height as int);
}

} // verus!
