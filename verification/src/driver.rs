//! The render driver: from the parameters to the text of the image, all at
//! once or one row at a time.

use vstd::prelude::*;
use crate::camera::Camera;
use crate::config::RenderConfig;
use crate::render::{
    grid_text, header, row_text, sky_colors, sky_image, write_header, write_scanline,
};

verus! {

/// A render in progress: the camera, and how many rows have been written.
///
/// It lets a caller take the image one row at a time, from the top, and do
/// work of its own between the rows.
pub struct Renderer {
    camera: Camera,
    row: u32,
}

impl Renderer {
    #[verifier::type_invariant]
    spec fn inv(self) -> bool {
        self.camera.is_renderable() && self.row <= self.camera.image_height
    }

    /// The camera that takes the image.
    pub closed spec fn spec_camera(&self) -> Camera {
        self.camera
    }

    /// The number of rows written so far, which is the row that comes next.
    pub closed spec fn spec_next_row(&self) -> u32 {
        self.row
    }

    /// Starts a render of the image that `config` describes, where it
    /// describes one. No row has been written yet.
    pub fn start(config: &RenderConfig) -> (renderer: Option<Renderer>)
        ensures
            renderer is Some == config.spec_camera() is Some,
            renderer matches Some(r) ==> r.camera() == config.spec_camera().unwrap()
                && r.next_row() == 0,
    {
        match config.camera() {
            Some(camera) => Some(Renderer { camera, row: 0 }),
            None => None,
        }
    }

    #[verifier::when_used_as_spec(spec_camera)]
    pub fn camera(&self) -> (camera: Camera)
        ensures
            camera == self.camera(),
    {
        self.camera
    }

    #[verifier::when_used_as_spec(spec_next_row)]
    pub fn next_row(&self) -> (row: u32)
        ensures
            row == self.next_row(),
    {
        self.row
    }

    /// The number of rows still to be written.
    pub fn rows_remaining(&self) -> (rows: u32)
        ensures
            rows == self.camera().image_height - self.next_row(),
            self.next_row() <= self.camera().image_height,
    {
        proof {
            use_type_invariant(self);
        }
        self.camera.image_height - self.row
    }

    /// Appends the lines of the next row to `out` and moves on to the row
    /// below it. Where every row has been written already, nothing changes.
    pub fn write_next_scanline(&mut self, out: &mut Vec<u8>) -> (written: bool)
        ensures
            final(self).camera() == old(self).camera(),
            written == (old(self).next_row() < old(self).camera().image_height),
            written ==> final(self).next_row() == old(self).next_row() + 1,
            written ==> final(out)@ == old(out)@ + row_text(
                sky_colors(old(self).camera()),
                old(self).next_row(),
                old(self).camera().image_width as nat,
            ),
            !written ==> final(self).next_row() == old(self).next_row(),
            !written ==> final(out)@ == old(out)@,
    {
        proof {
            use_type_invariant(&*self);
        }
        if self.row < self.camera.image_height {
            assert(self.camera.can_cast_row(self.row));
            write_scanline(out, &self.camera, self.row);
            self.row = self.row + 1;
            true
        } else {
            false
        }
    }
}

/// Renders the image that `config` describes, where it describes one: the
/// header, and then the rows one after the other until none remains.
pub fn render_image(config: &RenderConfig) -> (image: Option<Vec<u8>>)
    ensures
        image is Some == config.spec_camera() is Some,
        image matches Some(text) ==> text@ == sky_image(config.spec_camera().unwrap()),
{
    match Renderer::start(config) {
        Some(mut renderer) => {
            let camera = renderer.camera();
            let mut out: Vec<u8> = Vec::new();
            write_header(&mut out, camera.image_width, camera.image_height);
            assert(out@ =~= header(camera.image_width, camera.image_height) + grid_text(
                sky_colors(camera),
                camera.image_width,
                0,
            ));
            while renderer.rows_remaining() > 0
                invariant
                    renderer.camera() == camera,
                    out@ == header(camera.image_width, camera.image_height) + grid_text(
                        sky_colors(camera),
                        camera.image_width,
                        renderer.next_row() as nat,
                    ),
                decreases camera.image_height - renderer.next_row(),
            {
                let ghost row = renderer.next_row();
                renderer.write_next_scanline(&mut out);
                assert(out@ =~= header(camera.image_width, camera.image_height) + grid_text(
                    sky_colors(camera),
                    camera.image_width,
                    (row + 1) as nat,
                ));
            }
            Some(out)
        },
        None => None,
    }
}

} // verus!
