//! Rendering: the colours of a tile, and the image that the tiles make up.
//!
//! A render cuts the image into tiles and renders each by itself. The
//! colour of a pixel depends on the scene and on the pixel alone, so the
//! tiles can be rendered by any number of workers and written in any
//! order: the image is the same.
use vstd::prelude::*;
use crate::framebuffer::{blank, grid, Framebuffer};
use crate::op::InvalidParameter;
use crate::prelude::{rgb_spec, Color, Utils};
use crate::scene::Scene;
use crate::tile::{Tile, Tiling};

verus! {

/// A pixel with its colour.
#[derive(Clone, Copy, Debug, PartialEq, Eq, Structural)]
pub struct Pixel {
    pub x: u32,
    pub y: u32,
    pub color: Color,
}

/// Why a render gave no image.
#[derive(Clone, Copy, Debug, PartialEq, Eq, Structural)]
pub enum RenderError {
    /// The tiles have no side, or the image is too large to be held.
    InvalidParameter,
    /// The tile of the given index was not rendered, or not as a tile of
    /// the image is.
    TileFailed { index: u64 },
}

/// The colour of the pixel `(x, y)` of the image of a scene.
#[verifier::opaque]
pub open spec fn image_color(scene: Scene, x: int, y: int) -> Color {
    rgb_spec(scene.at_spec(x as u32, y as u32))
}

/// The image of a scene.
pub open spec fn image_spec(scene: Scene) -> Map<(int, int), Color> {
    Map::new(
        |p: (int, int)| grid(scene.width as int, scene.height as int).contains(p),
        |p: (int, int)| image_color(scene, p.0, p.1),
    )
}

/// The pixel at the given place of a tile, with its colour.
pub open spec fn tile_pixel_spec(scene: Scene, tile: Tile, place: int) -> Pixel {
    Pixel {
        x: tile.column_at(place) as u32,
        y: tile.row_at(place) as u32,
        color: image_color(scene, tile.column_at(place), tile.row_at(place)),
    }
}

/// The pixels of a tile with their colours, row by row from the top, each
/// row from the left.
pub open spec fn tile_pixels_spec(scene: Scene, tile: Tile) -> Seq<Pixel> {
    Seq::new(tile.area_spec() as nat, |place: int| tile_pixel_spec(scene, tile, place))
}

/// An image after the given pixels were written to it, one after the
/// other.
pub open spec fn written_spec(image: Map<(int, int), Color>, pixels: Seq<Pixel>) -> Map<
    (int, int),
    Color,
>
    decreases pixels.len(),
{
    if pixels.len() == 0 {
        image
    } else {
        written_spec(image, pixels.drop_last()).insert(
            (pixels.last().x as int, pixels.last().y as int),
            pixels.last().color,
        )
    }
}

/// Whether all the given pixels are pixels of an image of the given size.
pub open spec fn all_within(pixels: Seq<Pixel>, width: int, height: int) -> bool {
    forall|i: int| 0 <= i < pixels.len() ==> pixels[i].x < width && pixels[i].y < height
}

/// The image that is there when the tiles of the given indices have been
/// rendered and written to a black image, in the order given.
pub open spec fn assembled_spec(scene: Scene, tiling: Tiling, order: Seq<int>) -> Map<
    (int, int),
    Color,
>
    decreases order.len(),
{
    if order.len() == 0 {
        blank(tiling.width as int, tiling.height as int)
    } else {
        written_spec(
            assembled_spec(scene, tiling, order.drop_last()),
            tile_pixels_spec(scene, tiling.tile_spec(order.last())),
        )
    }
}

/// Writing pixels ends with writing the last of them.
proof fn lemma_written_last(image: Map<(int, int), Color>, pixels: Seq<Pixel>)
    requires
        pixels.len() > 0,
    ensures
        written_spec(image, pixels) == written_spec(image, pixels.drop_last()).insert(
            (pixels.last().x as int, pixels.last().y as int),
            pixels.last().color,
        ),
{
}

/// What one more pixel does to an image of which some pixels have been
/// set to the colours that are wanted of them.
proof fn lemma_one_more_pixel(
    image: Map<(int, int), Color>,
    before: Map<(int, int), Color>,
    key: (int, int),
    color: Color,
    p: (int, int),
    set_before: bool,
    set_after: bool,
    wanted: Color,
)
    requires
        before.dom().contains(p) <==> image.dom().contains(p) || set_before,
        set_before ==> before[p] == wanted,
        !set_before ==> before[p] == image[p],
        set_after <==> set_before || p == key,
        p == key ==> color == wanted,
    ensures
        before.insert(key, color).dom().contains(p) <==> image.dom().contains(p) || set_after,
        set_after ==> before.insert(key, color)[p] == wanted,
        !set_after ==> before.insert(key, color)[p] == image[p],
{
}

/// Writing a tile's first `n` pixels sets those and leaves the rest of
/// the image as it was.
proof fn lemma_written_prefix(
    image: Map<(int, int), Color>,
    scene: Scene,
    tile: Tile,
    n: int,
    p: (int, int),
)
    requires
        0 <= n <= tile.area_spec(),
    ensures
        ({
            let after = written_spec(image, tile_pixels_spec(scene, tile).take(n));
            let set = tile.contains(p.0, p.1) && tile.place_of(p.0, p.1) < n;
            &&& after.dom().contains(p) <==> image.dom().contains(p) || set
            &&& set ==> after[p] == image_color(scene, p.0, p.1)
            &&& !set ==> after[p] == image[p]
        }),
    decreases n,
{
    let pixels = tile_pixels_spec(scene, tile);
    if tile.contains(p.0, p.1) {
        tile.lemma_place_of_pixel(p.0, p.1);
    }
    if n > 0 {
        lemma_written_prefix(image, scene, tile, n - 1, p);
        let prefix = pixels.take(n);
        assert(prefix.drop_last() == pixels.take(n - 1));
        assert(prefix.last() == tile_pixel_spec(scene, tile, n - 1));
        lemma_written_last(image, prefix);
        tile.lemma_pixel_at_place(n - 1);
        let key = (tile.column_at(n - 1), tile.row_at(n - 1));
        assert(prefix.last().x == key.0 && prefix.last().y == key.1);
        lemma_one_more_pixel(
            image,
            written_spec(image, pixels.take(n - 1)),
            key,
            prefix.last().color,
            p,
            tile.contains(p.0, p.1) && tile.place_of(p.0, p.1) < n - 1,
            tile.contains(p.0, p.1) && tile.place_of(p.0, p.1) < n,
            image_color(scene, p.0, p.1),
        );
    } else {
        assert(pixels.take(0).len() == 0);
    }
}

/// Writing a rendered tile sets the tile's pixels to their colours and
/// leaves the rest of the image as it was.
pub proof fn lemma_written_tile(
    image: Map<(int, int), Color>,
    scene: Scene,
    tile: Tile,
    p: (int, int),
)
    ensures
        ({
            let after = written_spec(image, tile_pixels_spec(scene, tile));
            &&& after.dom().contains(p) <==> image.dom().contains(p) || tile.contains(p.0, p.1)
            &&& tile.contains(p.0, p.1) ==> after[p] == image_color(scene, p.0, p.1)
            &&& !tile.contains(p.0, p.1) ==> after[p] == image[p]
        }),
{
    let pixels = tile_pixels_spec(scene, tile);
    assert(tile.area_spec() >= 0) by (nonlinear_arith)
        requires
            tile.width_spec() >= 0,
            tile.height_spec() >= 0,
            tile.area_spec() == tile.width_spec() * tile.height_spec(),
    ;
    lemma_written_prefix(image, scene, tile, tile.area_spec(), p);
    assert(pixels.take(tile.area_spec()) == pixels);
    if tile.contains(p.0, p.1) {
        tile.lemma_place_of_pixel(p.0, p.1);
    }
}

/// What a sequence holds is what it holds before its last item, and that
/// item.
proof fn lemma_contains_last(order: Seq<int>, v: int)
    requires
        order.len() > 0,
    ensures
        order.contains(v) <==> order.drop_last().contains(v) || order.last() == v,
{
    let rest = order.drop_last();
    if order.contains(v) {
        let j = choose|j: int| 0 <= j < order.len() && order[j] == v;
        if j < order.len() - 1 {
            assert(rest[j] == v);
        }
    }
    if rest.contains(v) {
        let j = choose|j: int| 0 <= j < rest.len() && rest[j] == v;
        assert(order[j] == v);
    }
    if order.last() == v {
        assert(order[order.len() - 1] == v);
    }
}

/// Assembling an image ends with writing the last of the tiles.
proof fn lemma_assembled_last(scene: Scene, tiling: Tiling, order: Seq<int>)
    requires
        order.len() > 0,
    ensures
        assembled_spec(scene, tiling, order) == written_spec(
            assembled_spec(scene, tiling, order.drop_last()),
            tile_pixels_spec(scene, tiling.tile_spec(order.last())),
        ),
{
}

/// In an image that was assembled from tiles, the pixels of those tiles
/// have their colours and the others are black; there are no pixels
/// but those of the image.
pub proof fn lemma_assembled(scene: Scene, tiling: Tiling, order: Seq<int>, p: (int, int))
    requires
        tiling.valid(),
        forall|i: int| 0 <= i < order.len() ==> 0 <= #[trigger] order[i] < tiling.count_spec(),
    ensures
        ({
            let image = assembled_spec(scene, tiling, order);
            let within = 0 <= p.0 < tiling.width && 0 <= p.1 < tiling.height;
            &&& image.dom().contains(p) <==> within
            &&& within && order.contains(tiling.index_of(p.0, p.1)) ==> image[p] == image_color(
                scene,
                p.0,
                p.1,
            )
            &&& within && !order.contains(tiling.index_of(p.0, p.1)) ==> image[p] == (Color {
                r: 0,
                g: 0,
                b: 0,
            })
        }),
    decreases order.len(),
{
    if order.len() > 0 {
        let rest = order.drop_last();
        let index = order.last();
        let tile = tiling.tile_spec(index);
        let before = assembled_spec(scene, tiling, rest);
        let at = tiling.index_of(p.0, p.1);
        assert(0 <= order[order.len() - 1] < tiling.count_spec());
        assert forall|i: int| 0 <= i < rest.len() implies 0 <= #[trigger] rest[i]
            < tiling.count_spec() by {
            assert(rest[i] == order[i]);
        }
        lemma_assembled(scene, tiling, rest, p);
        lemma_assembled_last(scene, tiling, order);
        lemma_written_tile(before, scene, tile, p);
        lemma_contains_last(order, at);
        if tile.contains(p.0, p.1) {
            tiling.lemma_tile_of_pixel(index, p.0, p.1);
        } else if 0 <= p.0 < tiling.width && 0 <= p.1 < tiling.height {
            tiling.lemma_pixel_in_its_tile(p.0, p.1);
        }
    }
}

/// The image does not depend on the order in which the tiles are
/// rendered and written, nor on how often one is: when each tile of a
/// scene's image has been written at least once, the image is that of
/// the scene. So renders of one scene by any number of workers give the
/// same image.
pub proof fn lemma_render_order_independent(
    scene: Scene,
    tiling: Tiling,
    first: Seq<int>,
    second: Seq<int>,
)
    requires
        tiling.valid(),
        tiling.width == scene.width,
        tiling.height == scene.height,
        forall|i: int| 0 <= i < first.len() ==> 0 <= #[trigger] first[i] < tiling.count_spec(),
        forall|i: int| 0 <= i < second.len() ==> 0 <= #[trigger] second[i] < tiling.count_spec(),
        forall|index: int| 0 <= index < tiling.count_spec() ==> first.contains(index),
        forall|index: int| 0 <= index < tiling.count_spec() ==> second.contains(index),
    ensures
        assembled_spec(scene, tiling, first) == image_spec(scene),
        assembled_spec(scene, tiling, second) == assembled_spec(scene, tiling, first),
{
    let image = image_spec(scene);
    assert forall|p: (int, int)|
        #![trigger image.dom().contains(p)]
        #![trigger image[p]]
        {
            &&& image.dom().contains(p) == assembled_spec(scene, tiling, first).dom().contains(p)
            &&& image.dom().contains(p) == assembled_spec(scene, tiling, second).dom().contains(p)
            &&& image.dom().contains(p) ==> image[p] == assembled_spec(scene, tiling, first)[p]
            &&& image.dom().contains(p) ==> image[p] == assembled_spec(scene, tiling, second)[p]
        } by {
        lemma_assembled(scene, tiling, first, p);
        lemma_assembled(scene, tiling, second, p);
        if image.dom().contains(p) {
            tiling.lemma_pixel_in_its_tile(p.0, p.1);
        }
    }
    assert(assembled_spec(scene, tiling, first) =~= image);
    assert(assembled_spec(scene, tiling, second) =~= image);
}

/// The colours of the pixels of a tile, row by row from the top, each row
/// from the left.
pub fn render_tile(scene: &Scene, tile: &Tile) -> (pixels: Vec<Pixel>)
    ensures
        pixels@ == tile_pixels_spec(*scene, *tile),
{
    let mut pixels: Vec<Pixel> = Vec::new();
    let ghost w = tile.width_spec();
    let mut y: u32 = tile.y0;
    if tile.x0 >= tile.x1 || tile.y0 >= tile.y1 {
        assert(tile.area_spec() == 0) by (nonlinear_arith)
            requires
                tile.width_spec() == 0 || tile.height_spec() == 0,
                tile.area_spec() == tile.width_spec() * tile.height_spec(),
        ;
        assert(pixels@ =~= tile_pixels_spec(*scene, *tile));
        return pixels;
    }
    while y < tile.y1
        invariant
            tile.x0 < tile.x1,
            tile.y0 <= y <= tile.y1,
            w == tile.x1 - tile.x0,
            w == tile.width_spec(),
            pixels@.len() == (y - tile.y0) * w,
            forall|i: int|
                0 <= i < pixels@.len() ==> pixels@[i] == tile_pixel_spec(*scene, *tile, i),
        decreases tile.y1 - y,
    {
        let mut x: u32 = tile.x0;
        while x < tile.x1
            invariant
                tile.x0 <= x <= tile.x1,
                tile.y0 <= y < tile.y1,
                w == tile.x1 - tile.x0,
                w == tile.width_spec(),
                pixels@.len() == (y - tile.y0) * w + (x - tile.x0),
                forall|i: int|
                    0 <= i < pixels@.len() ==> pixels@[i] == tile_pixel_spec(*scene, *tile, i),
            decreases tile.x1 - x,
        {
            proof {
                reveal(image_color);
                tile.lemma_place_of_pixel(x as int, y as int);
            }
            let color = Utils::rgb(&scene.at(x, y));
            pixels.push(Pixel { x, y, color });
            x = x + 1;
        }
        assert((y - tile.y0) * w + w == (y + 1 - tile.y0) * w) by (nonlinear_arith);
        y = y + 1;
    }
    assert(tile.area_spec() == (tile.y1 - tile.y0) * w) by (nonlinear_arith)
        requires
            tile.area_spec() == w * (tile.y1 - tile.y0),
    ;
    assert(pixels@ =~= tile_pixels_spec(*scene, *tile));
    pixels
}

/// Writes pixels to an image, one after the other, unless one of them is
/// no pixel of the image: then the image stays as it is.
pub fn write_pixels(frame: &mut Framebuffer, pixels: &Vec<Pixel>) -> (r: Result<(), InvalidParameter>)
    requires
        old(frame).wf(),
    ensures
        final(frame).wf(),
        final(frame).width_spec() == old(frame).width_spec(),
        final(frame).height_spec() == old(frame).height_spec(),
        all_within(pixels@, old(frame).width_spec() as int, old(frame).height_spec() as int)
            <==> r is Ok,
        r is Ok ==> final(frame)@ == written_spec(old(frame)@, pixels@),
        r is Err ==> final(frame)@ == old(frame)@,
{
    let width = frame.width();
    let height = frame.height();
    let mut i: usize = 0;
    while i < pixels.len()
        invariant
            i <= pixels.len(),
            frame.wf(),
            frame.width_spec() == width,
            frame.height_spec() == height,
            frame@ == old(frame)@,
            forall|j: int| 0 <= j < i ==> pixels@[j].x < width && pixels@[j].y < height,
        decreases pixels.len() - i,
    {
        if pixels[i].x >= width || pixels[i].y >= height {
            return Err(InvalidParameter);
        }
        i = i + 1;
    }
    let mut i: usize = 0;
    while i < pixels.len()
        invariant
            i <= pixels.len(),
            frame.wf(),
            frame.width_spec() == width,
            frame.height_spec() == height,
            all_within(pixels@, width as int, height as int),
            frame@ == written_spec(old(frame)@, pixels@.take(i as int)),
        decreases pixels.len() - i,
    {
        let pixel = pixels[i];
        assert(pixels@.take(i + 1).drop_last() == pixels@.take(i as int));
        frame.put_pixel(pixel.x, pixel.y, pixel.color);
        i = i + 1;
    }
    assert(pixels@.take(i as int) == pixels@);
    Ok(())
}

/// Whether the given pixels are the pixels of the tile, in their order.
pub open spec fn fits_tile_spec(tile: Tile, pixels: Seq<Pixel>) -> bool {
    &&& pixels.len() == tile.area_spec()
    &&& forall|place: int|
        0 <= place < pixels.len() ==> pixels[place].x == tile.column_at(place)
            && pixels[place].y == tile.row_at(place)
}

/// Whether the given pixels are the pixels of the tile, in their order.
pub fn fits_tile(tile: &Tile, pixels: &Vec<Pixel>) -> (b: bool)
    ensures
        b == fits_tile_spec(*tile, pixels@),
{
    if tile.x0 >= tile.x1 || tile.y0 >= tile.y1 {
        assert(tile.area_spec() == 0) by (nonlinear_arith)
            requires
                tile.width_spec() == 0 || tile.height_spec() == 0,
                tile.area_spec() == tile.width_spec() * tile.height_spec(),
        ;
        return pixels.len() == 0;
    }
    let w: u64 = (tile.x1 - tile.x0) as u64;
    let h: u64 = (tile.y1 - tile.y0) as u64;
    assert(w * h <= 0xffff_ffff * 0xffff_ffff) by (nonlinear_arith)
        requires
            0 <= w <= 0xffff_ffff,
            0 <= h <= 0xffff_ffff,
    ;
    if pixels.len() as u64 != w * h {
        return false;
    }
    let mut x: u32 = tile.x0;
    let mut y: u32 = tile.y0;
    let mut i: usize = 0;
    while i < pixels.len()
        invariant
            tile.x0 < tile.x1,
            tile.y0 < tile.y1,
            w == tile.width_spec(),
            h == tile.height_spec(),
            pixels@.len() == w * h,
            i <= pixels.len(),
            i < pixels.len() ==> tile.contains(x as int, y as int) && i == (y - tile.y0) * w + (x
                - tile.x0),
            forall|place: int|
                0 <= place < i ==> pixels@[place].x == tile.column_at(place) && pixels@[place].y
                    == tile.row_at(place),
        decreases pixels.len() - i,
    {
        proof {
            tile.lemma_place_of_pixel(x as int, y as int);
        }
        if pixels[i].x != x || pixels[i].y != y {
            return false;
        }
        i = i + 1;
        if i < pixels.len() {
            if x + 1 < tile.x1 {
                x = x + 1;
            } else {
                assert((y - tile.y0) * w + w == (y + 1 - tile.y0) * w) by (nonlinear_arith);
                assert(y + 1 - tile.y0 < h) by (nonlinear_arith)
                    requires
                        (y + 1 - tile.y0) * w < w * h,
                        w > 0,
                ;
                x = tile.x0;
                y = y + 1;
            }
        }
    }
    true
}

/// The side of a render that gathers what the workers have rendered. It
/// takes the tiles in whatever order they come, writes each to the image,
/// and gives the image out when it has them all. Once a tile has failed
/// it takes no more.
pub struct Collector {
    frame: Framebuffer,
    tiling: Tiling,
    received: Vec<bool>,
    failed: Option<u64>,
}

impl Collector {
    /// The image as far as it has been written.
    pub closed spec fn frame_spec(&self) -> Map<(int, int), Color> {
        self.frame@
    }

    /// How the image is cut into tiles.
    pub closed spec fn tiling_spec(&self) -> Tiling {
        self.tiling
    }

    /// Of each tile, whether it has been written.
    pub closed spec fn received_spec(&self) -> Seq<bool> {
        self.received@
    }

    /// The tile that failed first, if one has.
    pub closed spec fn failed_spec(&self) -> Option<u64> {
        self.failed
    }

    /// The collector's image has the size that its tiles cut up, and
    /// there is a mark for each tile.
    pub closed spec fn wf(&self) -> bool {
        &&& self.frame.wf()
        &&& self.tiling.valid()
        &&& self.frame.width_spec() == self.tiling.width
        &&& self.frame.height_spec() == self.tiling.height
        &&& self.received@.len() == self.tiling.count_spec()
    }

    /// Whether the collector takes the given pixels as the tile of the
    /// given index: it has no such tile yet, and they are its pixels.
    pub open spec fn takes(&self, index: u64, pixels: Seq<Pixel>) -> bool {
        &&& index < self.tiling_spec().count_spec()
        &&& !self.received_spec()[index as int]
        &&& fits_tile_spec(self.tiling_spec().tile_spec(index as int), pixels)
    }

    /// A collector for the image that the given tiles cut up. There is
    /// none where the tiles are empty, or where the image is too large to
    /// be held.
    pub fn new(tiling: Tiling) -> (r: Result<Collector, RenderError>)
        ensures
            tiling.valid() && 3 * tiling.width * tiling.height <= isize::MAX <==> r is Ok,
            r matches Ok(collector) ==> {
                &&& collector.wf()
                &&& collector.tiling_spec() == tiling
                &&& collector.frame_spec() == blank(tiling.width as int, tiling.height as int)
                &&& collector.received_spec() == Seq::new(
                    tiling.count_spec() as nat,
                    |i: int| false,
                )
                &&& collector.failed_spec() is None
            },
            r matches Err(e) ==> e == RenderError::InvalidParameter,
    {
        if tiling.tile_width == 0 || tiling.tile_height == 0 {
            return Err(RenderError::InvalidParameter);
        }
        let frame = match Framebuffer::new(tiling.width, tiling.height) {
            Ok(frame) => frame,
            Err(_) => {
                return Err(RenderError::InvalidParameter);
            },
        };
        let count = tiling.count();
        let mut received: Vec<bool> = Vec::new();
        let mut i: u64 = 0;
        while i < count
            invariant
                i <= count,
                received@ == Seq::new(i as nat, |i: int| false),
            decreases count - i,
        {
            received.push(false);
            assert(received@ =~= Seq::new((i + 1) as nat, |i: int| false));
            i = i + 1;
        }
        Ok(Collector { frame, tiling, received, failed: None })
    }

    /// How the image is cut into tiles.
    pub fn tiling(&self) -> (t: Tiling)
        ensures
            t == self.tiling_spec(),
    {
        self.tiling
    }

    /// The tile that failed first, if one has.
    pub fn failed(&self) -> (index: Option<u64>)
        ensures
            index == self.failed_spec(),
    {
        self.failed
    }

    /// Takes what a worker has rendered as the tile of the given index and
    /// writes it to the image. Where there is no such tile, or the tile
    /// has been written already, or the pixels are not those of the tile,
    /// the tile has failed.
    pub fn accept(&mut self, index: u64, pixels: &Vec<Pixel>)
        requires
            old(self).wf(),
        ensures
            final(self).wf(),
            final(self).tiling_spec() == old(self).tiling_spec(),
            old(self).failed_spec() is Some ==> {
                &&& final(self).failed_spec() == old(self).failed_spec()
                &&& final(self).frame_spec() == old(self).frame_spec()
                &&& final(self).received_spec() == old(self).received_spec()
            },
            old(self).failed_spec() is None && old(self).takes(index, pixels@) ==> {
                &&& final(self).failed_spec() is None
                &&& final(self).frame_spec() == written_spec(old(self).frame_spec(), pixels@)
                &&& final(self).received_spec() == old(self).received_spec().update(
                    index as int,
                    true,
                )
            },
            old(self).failed_spec() is None && !old(self).takes(index, pixels@) ==> {
                &&& final(self).failed_spec() == Some(index)
                &&& final(self).frame_spec() == old(self).frame_spec()
                &&& final(self).received_spec() == old(self).received_spec()
            },
    {
        if self.failed.is_some() {
            return ;
        }
        if index >= self.tiling.count() {
            self.failed = Some(index);
            return ;
        }
        let marks: usize = self.received.len();
        assert(index < marks);
        let at: usize = index as usize;
        if self.received[at] {
            self.failed = Some(index);
            return ;
        }
        let tile = self.tiling.tile(index);
        if !fits_tile(&tile, pixels) {
            self.failed = Some(index);
            return ;
        }
        proof {
            self.tiling.lemma_tile_within(index as int);
            assert forall|i: int| 0 <= i < pixels@.len() implies pixels@[i].x < self.tiling.width
                && pixels@[i].y < self.tiling.height by {
                tile.lemma_pixel_at_place(i);
            }
        }
        match write_pixels(&mut self.frame, pixels) {
            Ok(()) => {
                self.received.set(at, true);
            },
            Err(_) => {
                self.failed = Some(index);
            },
        }
    }

    /// Takes note that the tile of the given index was not rendered.
    pub fn fail(&mut self, index: u64)
        requires
            old(self).wf(),
        ensures
            final(self).wf(),
            final(self).tiling_spec() == old(self).tiling_spec(),
            final(self).frame_spec() == old(self).frame_spec(),
            final(self).received_spec() == old(self).received_spec(),
            final(self).failed_spec() == if old(self).failed_spec() is Some {
                old(self).failed_spec()
            } else {
                Some(index)
            },
    {
        if self.failed.is_none() {
            self.failed = Some(index);
        }
    }

    /// The image, when no tile has failed and all have been written. Else
    /// the tile that failed first, or, where none has failed, the first
    /// tile that is still missing.
    pub fn finish(self) -> (r: Result<Framebuffer, RenderError>)
        requires
            self.wf(),
        ensures
            match r {
                Ok(frame) => {
                    &&& self.failed_spec() is None
                    &&& forall|i: int|
                        0 <= i < self.received_spec().len() ==> self.received_spec()[i]
                    &&& frame.wf()
                    &&& frame.width_spec() == self.tiling_spec().width
                    &&& frame.height_spec() == self.tiling_spec().height
                    &&& frame@ == self.frame_spec()
                },
                Err(RenderError::TileFailed { index }) => {
                    ||| self.failed_spec() == Some(index)
                    ||| {
                        &&& self.failed_spec() is None
                        &&& index < self.received_spec().len()
                        &&& !self.received_spec()[index as int]
                        &&& forall|i: int| 0 <= i < index ==> self.received_spec()[i]
                    }
                },
                Err(RenderError::InvalidParameter) => false,
            },
    {
        match self.failed {
            Some(index) => {
                return Err(RenderError::TileFailed { index });
            },
            None => {},
        }
        let mut i: usize = 0;
        while i < self.received.len()
            invariant
                self.wf(),
                self.failed is None,
                i <= self.received.len(),
                forall|j: int| 0 <= j < i ==> self.received@[j],
            decreases self.received.len() - i,
        {
            if !self.received[i] {
                return Err(RenderError::TileFailed { index: i as u64 });
            }
            i = i + 1;
        }
        Ok(self.frame)
    }
}

/// Renders a scene tile by tile, one after the other. There is no image
/// where the tiles are empty or cut up an image of another size than the
/// scene's, or where the image is too large to be held.
pub fn render_tiled(scene: &Scene, tiling: &Tiling) -> (r: Result<Framebuffer, RenderError>)
    ensures
        tiling.valid() && tiling.width == scene.width && tiling.height == scene.height && 3
            * scene.width * scene.height <= isize::MAX <==> r is Ok,
        r matches Ok(frame) ==> {
            &&& frame.wf()
            &&& frame.width_spec() == scene.width
            &&& frame.height_spec() == scene.height
            &&& frame@ == image_spec(*scene)
        },
        r matches Err(e) ==> e == RenderError::InvalidParameter,
{
    if tiling.tile_width == 0 || tiling.tile_height == 0 || tiling.width != scene.width
        || tiling.height != scene.height {
        return Err(RenderError::InvalidParameter);
    }
    let mut frame = match Framebuffer::new(scene.width, scene.height) {
        Ok(frame) => frame,
        Err(_) => {
            return Err(RenderError::InvalidParameter);
        },
    };
    let count = tiling.count();
    let mut index: u64 = 0;
    while index < count
        invariant
            tiling.valid(),
            tiling.width == scene.width,
            tiling.height == scene.height,
            count == tiling.count_spec(),
            index <= count,
            frame.wf(),
            frame.width_spec() == scene.width,
            frame.height_spec() == scene.height,
            frame@ == assembled_spec(*scene, *tiling, Seq::new(index as nat, |i: int| i)),
        decreases count - index,
    {
        let tile = tiling.tile(index);
        let pixels = render_tile(scene, &tile);
        proof {
            tiling.lemma_tile_within(index as int);
            assert forall|i: int| 0 <= i < pixels@.len() implies pixels@[i].x < scene.width
                && pixels@[i].y < scene.height by {
                tile.lemma_pixel_at_place(i);
            }
            let order = Seq::new((index + 1) as nat, |i: int| i);
            assert(order.drop_last() == Seq::new(index as nat, |i: int| i));
        }
        match write_pixels(&mut frame, &pixels) {
            Ok(()) => {},
            Err(_) => {
                return Err(RenderError::TileFailed { index });
            },
        }
        index = index + 1;
    }
    proof {
        let order = Seq::new(count as nat, |i: int| i);
        assert forall|i: int| 0 <= i < count implies order.contains(i) by {
            assert(order[i] == i);
        }
        lemma_render_order_independent(*scene, *tiling, order, order);
    }
    Ok(frame)
}

/// The tiles that an order names.
pub open spec fn indices(order: Seq<u64>) -> Seq<int> {
    Seq::new(order.len(), |i: int| order[i] as int)
}

/// Whether an order names at its place `i` what cannot be rendered then:
/// a tile that there is not, or one that it has named before.
pub open spec fn out_of_turn(order: Seq<u64>, count: int, i: int) -> bool {
    order[i] >= count || exists|j: int| 0 <= j < i && order[j] == order[i]
}

/// A rendered tile holds the pixels of the tile, in their order.
pub proof fn lemma_rendered_tile_fits(scene: Scene, tile: Tile)
    ensures
        fits_tile_spec(tile, tile_pixels_spec(scene, tile)),
{
    let pixels = tile_pixels_spec(scene, tile);
    assert(tile.area_spec() >= 0) by (nonlinear_arith)
        requires
            tile.width_spec() >= 0,
            tile.height_spec() >= 0,
            tile.area_spec() == tile.width_spec() * tile.height_spec(),
    ;
    assert forall|place: int| 0 <= place < pixels.len() implies pixels[place].x == tile.column_at(
        place,
    ) && pixels[place].y == tile.row_at(place) by {
        tile.lemma_pixel_at_place(place);
    }
}

/// Renders a scene tile by tile in the order given, as workers that
/// finish in that order would. The order has to name each tile once: the
/// first tile that it names out of turn has failed, and else the first
/// that it does not name.
pub fn render_in_order(scene: &Scene, tiling: &Tiling, order: &Vec<u64>) -> (r: Result<
    Framebuffer,
    RenderError,
>)
    ensures
        r is Ok <==> {
            &&& tiling.valid()
            &&& tiling.width == scene.width
            &&& tiling.height == scene.height
            &&& 3 * scene.width * scene.height <= isize::MAX
            &&& forall|i: int| 0 <= i < order@.len() ==> !out_of_turn(order@, tiling.count_spec(), i)
            &&& forall|t: int| 0 <= t < tiling.count_spec() ==> indices(order@).contains(t)
        },
        r matches Ok(frame) ==> {
            &&& frame.wf()
            &&& frame.width_spec() == scene.width
            &&& frame.height_spec() == scene.height
            &&& frame@ == image_spec(*scene)
        },
        r matches Err(RenderError::InvalidParameter) ==> !{
            &&& tiling.valid()
            &&& tiling.width == scene.width
            &&& tiling.height == scene.height
            &&& 3 * scene.width * scene.height <= isize::MAX
        },
        r matches Err(RenderError::TileFailed { index }) ==> {
            ||| exists|i: int|
                {
                    &&& 0 <= i < order@.len()
                    &&& out_of_turn(order@, tiling.count_spec(), i)
                    &&& order@[i] == index
                    &&& forall|j: int| 0 <= j < i ==> !out_of_turn(order@, tiling.count_spec(), j)
                }
            ||| {
                &&& forall|i: int|
                    0 <= i < order@.len() ==> !out_of_turn(order@, tiling.count_spec(), i)
                &&& index < tiling.count_spec()
                &&& !indices(order@).contains(index as int)
                &&& forall|t: int| 0 <= t < index ==> indices(order@).contains(t)
            }
        },
{
    if tiling.width != scene.width || tiling.height != scene.height {
        return Err(RenderError::InvalidParameter);
    }
    let mut collector = match Collector::new(*tiling) {
        Ok(collector) => collector,
        Err(e) => {
            return Err(e);
        },
    };
    let count = tiling.count();
    let mut i: usize = 0;
    while i < order.len()
        invariant
            tiling.valid(),
            tiling.width == scene.width,
            tiling.height == scene.height,
            3 * scene.width * scene.height <= isize::MAX,
            count == tiling.count_spec(),
            i <= order.len(),
            collector.wf(),
            collector.tiling_spec() == *tiling,
            collector.failed_spec() is None,
            forall|j: int| 0 <= j < i ==> !out_of_turn(order@, count as int, j),
            collector.frame_spec() == assembled_spec(
                *scene,
                *tiling,
                indices(order@.take(i as int)),
            ),
            collector.received_spec() == Seq::new(
                count as nat,
                |t: int| indices(order@.take(i as int)).contains(t),
            ),
        decreases order.len() - i,
    {
        let index = order[i];
        let ghost before = indices(order@.take(i as int));
        let ghost after = indices(order@.take(i + 1));
        proof {
            assert(after.drop_last() == before);
            assert(after.last() == index);
            assert forall|t: int| after.contains(t) <==> before.contains(t) || t == index by {
                lemma_contains_last(after, t);
            }
            if before.contains(index as int) {
                let j = choose|j: int| 0 <= j < before.len() && before[j] == index;
                assert(order@[j] == order@[i as int]);
            }
            if exists|j: int| 0 <= j < i && order@[j] == order@[i as int] {
                let j = choose|j: int| 0 <= j < i && order@[j] == order@[i as int];
                assert(before[j] == index);
            }
        }
        let pixels = if index < count {
            render_tile(scene, &tiling.tile(index))
        } else {
            Vec::new()
        };
        let ghost taken = collector.takes(index, pixels@);
        proof {
            if index < count {
                lemma_rendered_tile_fits(*scene, tiling.tile_spec(index as int));
                assert(collector.received_spec()[index as int] == before.contains(index as int));
            }
            assert(taken == !out_of_turn(order@, count as int, i as int));
        }
        collector.accept(index, &pixels);
        match collector.failed() {
            Some(failed) => {
                assert(failed == index);
                assert(out_of_turn(order@, count as int, i as int));
                return Err(RenderError::TileFailed { index: failed });
            },
            None => {},
        }
        assert(collector.received_spec() =~= Seq::new(count as nat, |t: int| after.contains(t)));
        i = i + 1;
    }
    proof {
        assert(order@.take(i as int) == order@);
        assert forall|j: int| 0 <= j < indices(order@).len() implies 0 <= #[trigger] indices(
            order@,
        )[j] < tiling.count_spec() by {
            assert(!out_of_turn(order@, count as int, j));
        }
    }
    match collector.finish() {
        Ok(frame) => {
            proof {
                assert forall|t: int| 0 <= t < tiling.count_spec() implies indices(
                    order@,
                ).contains(t) by {
                    assert(collector.received_spec()[t]);
                }
                lemma_render_order_independent(*scene, *tiling, indices(order@), indices(order@));
            }
            Ok(frame)
        },
        Err(e) => {
            proof {
                if e is TileFailed {
                    let index = e->index;
                    assert(!collector.received_spec()[index as int]);
                    assert forall|t: int| 0 <= t < index implies indices(order@).contains(t) by {
                        assert(collector.received_spec()[t]);
                    }
                }
            }
            Err(e)
        },
    }
}

/// Renders a scene in square tiles of the given side. There is no image
/// where the side is zero, or where the image is too large to be held.
pub fn render(scene: &Scene, side: u32) -> (r: Result<Framebuffer, RenderError>)
    ensures
        side > 0 && 3 * scene.width * scene.height <= isize::MAX <==> r is Ok,
        r matches Ok(frame) ==> {
            &&& frame.wf()
            &&& frame.width_spec() == scene.width
            &&& frame.height_spec() == scene.height
            &&& frame@ == image_spec(*scene)
        },
        r matches Err(e) ==> e == RenderError::InvalidParameter,
{
    match Tiling::new(scene.width, scene.height, side) {
        Ok(tiling) => render_tiled(scene, &tiling),
        Err(_) => Err(RenderError::InvalidParameter),
    }
}

} // verus!
