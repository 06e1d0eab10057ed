//! The parameters of a render, gathered in one value that is made at the
//! start and only read from then on.

use vstd::prelude::*;
use crate::arith::{lemma_div_from_brackets, trunc_div};
use crate::camera::{image_height, lemma_ordinary_scene_supported, spec_image_height, Camera};
use crate::scalar::{lemma_div_by_int, Scalar, SCALE};
use crate::vec3::{Point3, Vec3};

verus! {

/// What a render is made from.
#[derive(Clone, Copy, Debug, PartialEq, Eq, Structural)]
pub struct RenderConfig {
    /// The number of pixels in a row.
    pub image_width: u32,
    /// The ratio of the image's width to its height.
    pub aspect_ratio: Scalar,
    /// The height of the viewport.
    pub viewport_height: Scalar,
    /// The distance from the camera center to the viewport.
    pub focal_length: Scalar,
    /// The point every ray starts from.
    pub camera_center: Point3,
}

impl RenderConfig {
    /// The standard scene: an image 400 pixels wide at 16:9, seen through a
    /// viewport of height two at focal length one from the origin.
    pub open spec fn spec_default() -> RenderConfig {
        RenderConfig {
            image_width: 400,
            aspect_ratio: Scalar::spec_from_int(16).spec_div(Scalar::spec_from_int(9)),
            viewport_height: Scalar::spec_from_int(2),
            focal_length: Scalar::spec_from_int(1),
            camera_center: Vec3 {
                x: Scalar { raw: 0 },
                y: Scalar { raw: 0 },
                z: Scalar { raw: 0 },
            },
        }
    }

    /// The number of rows of the image, where it can be derived and fits.
    pub open spec fn spec_image_height(&self) -> Option<u32> {
        if self.aspect_ratio.raw != 0 && spec_image_height(self.image_width, self.aspect_ratio)
            <= u32::MAX {
            Some(spec_image_height(self.image_width, self.aspect_ratio) as u32)
        } else {
            None
        }
    }

    /// The camera that these parameters describe, where there is one: the
    /// number of rows can be derived, and the camera's inputs are supported.
    pub open spec fn spec_camera(&self) -> Option<Camera> {
        match self.spec_image_height() {
            Some(rows) => if Camera::supported(
                self.image_width,
                rows,
                self.focal_length,
                self.viewport_height,
                self.camera_center,
            ) {
                Some(
                    Camera::geometry(
                        self.image_width,
                        rows,
                        self.focal_length,
                        self.viewport_height,
                        self.camera_center,
                    ),
                )
            } else {
                None
            },
            None => None,
        }
    }

    /// Derives the camera: first the number of rows, then the geometry.
    pub fn camera(&self) -> (camera: Option<Camera>)
        ensures
            camera == self.spec_camera(),
            camera matches Some(c) ==> c.is_renderable(),
    {
        match image_height(self.image_width, self.aspect_ratio) {
            Some(rows) => Camera::new(
                self.image_width,
                rows,
                self.focal_length,
                self.viewport_height,
                self.camera_center,
            ),
            None => None,
        }
    }
}

impl Default for RenderConfig {
    fn default() -> (config: RenderConfig)
        ensures
            config == RenderConfig::spec_default(),
    {
        proof {
            lemma_div_by_int(Scalar::spec_from_int(16), 9);
        }
        let zero = Scalar::from_raw(0);
        RenderConfig {
            image_width: 400,
            aspect_ratio: Scalar::from_int(16).div(Scalar::from_int(9)),
            viewport_height: Scalar::from_int(2),
            focal_length: Scalar::from_int(1),
            camera_center: Vec3::new(zero, zero, zero),
        }
    }
}

/// The standard scene is an image of 400 by 225 pixels, and has a camera.
pub proof fn lemma_default_image_size()
    ensures
        RenderConfig::spec_default().aspect_ratio.raw == 1_777_777_777_777_777,
        RenderConfig::spec_default().spec_image_height() == Some(225u32),
        RenderConfig::spec_default().spec_camera() matches Some(c) && c.image_width == 400
            && c.image_height == 225,
{
    let config = RenderConfig::spec_default();
    assert(Scalar::spec_from_int(16).raw * SCALE == 16_000_000_000_000_000_000_000_000_000_000);
    lemma_div_from_brackets(
        16_000_000_000_000_000_000_000_000_000_000,
        9_000_000_000_000_000,
        1_777_777_777_777_777,
    );
    assert(config.aspect_ratio.raw == 1_777_777_777_777_777);
    lemma_div_from_brackets(400_000_000_000_000_000, 1_777_777_777_777_777, 225);
    assert(trunc_div(400 * SCALE, 1_777_777_777_777_777) == 225);
    lemma_ordinary_scene_supported(
        400,
        225,
        config.focal_length,
        config.viewport_height,
        config.camera_center,
    );
}

} // verus!
