//! The framebuffer: the image that a render fills, pixel by pixel.
use vstd::prelude::*;
use crate::op::InvalidParameter;
use crate::prelude::Color;

verus! {

/// An image of the `image` crate with three bytes to the pixel.
#[verifier::external_body]
pub struct Canvas {
    image: image::RgbImage,
}

/// The pixels of a canvas, each under its column and row. A canvas of
/// width `w` and height `h` holds the pixels `(x, y)` with `x < w` and
/// `y < h`.
pub uninterp spec fn canvas_pixels(canvas: Canvas) -> Map<(int, int), Color>;

/// The pixels of an image of the given size.
pub open spec fn grid(width: int, height: int) -> Set<(int, int)> {
    Set::new(|p: (int, int)| 0 <= p.0 < width && 0 <= p.1 < height)
}

/// The image of the given size whose pixels are all black.
pub open spec fn blank(width: int, height: int) -> Map<(int, int), Color> {
    Map::new(
        |p: (int, int)| grid(width, height).contains(p),
        |p: (int, int)| Color { r: 0, g: 0, b: 0 },
    )
}

/// One of the three bytes of a colour.
pub open spec fn channel(color: Color, i: int) -> u8 {
    if i == 0 {
        color.r
    } else if i == 1 {
        color.g
    } else {
        color.b
    }
}

/// The bytes of an image: its rows from the top, each from the left,
/// with three bytes to the pixel.
pub open spec fn bytes_spec(pixels: Map<(int, int), Color>, width: int, height: int) -> Seq<u8> {
    Seq::new(
        (3 * width * height) as nat,
        |i: int| channel(pixels[((i / 3) % width, (i / 3) / width)], i % 3),
    )
}

impl Canvas {
    /// `ImageBuffer::new` for `Rgb<u8>`: an image of the given size whose
    /// bytes are all zero. It panics where the image's bytes outnumber
    /// what a `Vec` can hold.
    #[verifier::external_body]
    fn new(width: u32, height: u32) -> (canvas: Canvas)
        requires
            3 * width * height <= isize::MAX,
        ensures
            canvas_pixels(canvas) == blank(width as int, height as int),
    {
        Canvas { image: image::ImageBuffer::new(width, height) }
    }

    /// `ImageBuffer::put_pixel`: sets the pixel `(x, y)`, and panics where
    /// the image has no such pixel.
    #[verifier::external_body]
    fn put(&mut self, x: u32, y: u32, color: Color)
        requires
            canvas_pixels(*old(self)).dom().contains((x as int, y as int)),
        ensures
            canvas_pixels(*final(self)) == canvas_pixels(*old(self)).insert(
                (x as int, y as int),
                color,
            ),
    {
        self.image.put_pixel(x, y, image::Rgb([color.r, color.g, color.b]))
    }

    /// `ImageBuffer::get_pixel`: the pixel `(x, y)`. It panics where the
    /// image has no such pixel.
    #[verifier::external_body]
    fn get(&self, x: u32, y: u32) -> (color: Color)
        requires
            canvas_pixels(*self).dom().contains((x as int, y as int)),
        ensures
            color == canvas_pixels(*self)[(x as int, y as int)],
    {
        let pixel = self.image.get_pixel(x, y);
        Color { r: pixel.0[0], g: pixel.0[1], b: pixel.0[2] }
    }
}

/// An image of a fixed size, which starts out black.
pub struct Framebuffer {
    width: u32,
    height: u32,
    canvas: Canvas,
}

impl Framebuffer {
    /// The pixels of the image, each under its column and row.
    pub closed spec fn view(&self) -> Map<(int, int), Color> {
        canvas_pixels(self.canvas)
    }

    /// The width of the image in pixels.
    pub closed spec fn width_spec(&self) -> u32 {
        self.width
    }

    /// The height of the image in pixels.
    pub closed spec fn height_spec(&self) -> u32 {
        self.height
    }

    /// The image holds the pixels of its size and no others, and its bytes
    /// fit a `Vec`.
    pub open spec fn wf(&self) -> bool {
        &&& self@.dom() =~= grid(self.width_spec() as int, self.height_spec() as int)
        &&& 3 * self.width_spec() * self.height_spec() <= isize::MAX
    }

    /// A black image of the given size, unless its bytes would outnumber
    /// what a `Vec` can hold.
    pub fn new(width: u32, height: u32) -> (r: Result<Framebuffer, InvalidParameter>)
        ensures
            3 * width * height <= isize::MAX <==> r is Ok,
            r matches Ok(frame) ==> {
                &&& frame.wf()
                &&& frame.width_spec() == width
                &&& frame.height_spec() == height
                &&& frame@ == blank(width as int, height as int)
            },
    {
        assert(width * height <= 0xffff_ffff * 0xffff_ffff) by (nonlinear_arith)
            requires
                0 <= width <= 0xffff_ffff,
                0 <= height <= 0xffff_ffff,
        ;
        assert(3 * width * height == 3 * (width * height)) by (nonlinear_arith);
        let bytes: u128 = 3 * (width as u128 * height as u128);
        if bytes > isize::MAX as u128 {
            return Err(InvalidParameter);
        }
        Ok(Framebuffer { width, height, canvas: Canvas::new(width, height) })
    }

    /// The width of the image in pixels.
    pub fn width(&self) -> (w: u32)
        ensures
            w == self.width_spec(),
    {
        self.width
    }

    /// The height of the image in pixels.
    pub fn height(&self) -> (h: u32)
        ensures
            h == self.height_spec(),
    {
        self.height
    }

    /// Sets the pixel `(x, y)`.
    pub fn put_pixel(&mut self, x: u32, y: u32, color: Color)
        requires
            old(self).wf(),
            x < old(self).width_spec(),
            y < old(self).height_spec(),
        ensures
            final(self).wf(),
            final(self).width_spec() == old(self).width_spec(),
            final(self).height_spec() == old(self).height_spec(),
            final(self)@ == old(self)@.insert((x as int, y as int), color),
    {
        self.canvas.put(x, y, color);
    }

    /// The pixel `(x, y)`.
    pub fn get_pixel(&self, x: u32, y: u32) -> (color: Color)
        requires
            self.wf(),
            x < self.width_spec(),
            y < self.height_spec(),
        ensures
            color == self@[(x as int, y as int)],
    {
        self.canvas.get(x, y)
    }

    /// The bytes of the image: its rows from the top, each from the left,
    /// with three bytes to the pixel.
    pub fn to_bytes(&self) -> (bytes: Vec<u8>)
        requires
            self.wf(),
        ensures
            bytes@ == bytes_spec(self@, self.width_spec() as int, self.height_spec() as int),
    {
        let mut bytes: Vec<u8> = Vec::new();
        let mut y: u32 = 0;
        while y < self.height
            invariant
                self.wf(),
                y <= self.height,
                bytes@.len() == 3 * self.width * y,
                forall|i: int|
                    0 <= i < bytes@.len() ==> bytes@[i] == channel(
                        self@[((i / 3) % (self.width as int), (i / 3) / (self.width as int))],
                        i % 3,
                    ),
            decreases self.height - y,
        {
            let mut x: u32 = 0;
            while x < self.width
                invariant
                    self.wf(),
                    y < self.height,
                    x <= self.width,
                    bytes@.len() == 3 * self.width * y + 3 * x,
                    forall|i: int|
                        0 <= i < bytes@.len() ==> bytes@[i] == channel(
                            self@[((i / 3) % (self.width as int), (i / 3) / (self.width as int))],
                            i % 3,
                        ),
                decreases self.width - x,
            {
                let color = self.get_pixel(x, y);
                proof {
                    let w = self.width as int;
                    let n = y * w + x;
                    assert(3 * self.width * y + 3 * x == 3 * n) by (nonlinear_arith)
                        requires
                            n == y * w + x,
                            w == self.width,
                    ;
                    vstd::arithmetic::div_mod::lemma_fundamental_div_mod_converse(
                        n,
                        w,
                        y as int,
                        x as int,
                    );
                }
                bytes.push(color.r);
                bytes.push(color.g);
                bytes.push(color.b);
                x = x + 1;
            }
            assert(3 * self.width * y + 3 * self.width == 3 * self.width * (y + 1))
                by (nonlinear_arith);
            y = y + 1;
        }
        assert(bytes@ =~= bytes_spec(self@, self.width as int, self.height as int));
        bytes
    }
}

} // verus!
