//! A flat view of an `Image` for marshalling layers: plain RGB triples with
//! a total, bounds-checked accessor that yields black outside the frame.

use crate::image::Image;
use vstd::prelude::*;

verus! {

#[derive(Copy, Clone, Debug, PartialEq, Eq, Structural)]
pub struct Pixel {
    pub red: u8,
    pub green: u8,
    pub blue: u8,
}

pub struct CImage(pub Image);

impl CImage {
    pub fn new(image: Image) -> (c: CImage)
        ensures
            c.0 == image,
    {
        CImage(image)
    }

    /// The pixel at `(i, j)`, or black when the coordinates fall outside
    /// the image.
    pub fn at(&self, i: u64, j: u64) -> (p: Pixel)
        requires
            self.0.wf(),
        ensures
            i < self.0.spec_x() && j < self.0.spec_y() ==> p == (Pixel {
                red: self.0.spec_pixel(i as int, j as int).0,
                green: self.0.spec_pixel(i as int, j as int).1,
                blue: self.0.spec_pixel(i as int, j as int).2,
            }),
            !(i < self.0.spec_x() && j < self.0.spec_y()) ==> p == (Pixel {
                red: 0u8,
                green: 0u8,
                blue: 0u8,
            }),
    {
        if i >= self.0.x_len() as u64 || j >= self.0.y_len() as u64 {
            Pixel { red: 0, green: 0, blue: 0 }
        } else {
            let im = self.0.get(i as usize, j as usize);
            Pixel { red: im.0, green: im.1, blue: im.2 }
        }
    }
}

} // verus!
