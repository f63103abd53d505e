//! The symbol as a picture: ten by ten pixels for each module, black for a
//! dark module and white for a light one, with a white margin of twenty
//! pixels on every side. The picture is painted on an image buffer of the
//! `image` crate, which this module calls and does not verify.
use crate::utils::{grid, Pixels};
use vstd::prelude::*;

verus! {

/// Width and height of the picture, in pixels.
pub const PICTURE_SIZE: u32 = 410;

/// Width of the margin, in pixels.
pub const MARGIN: u32 = 20;

/// Width and height of a module, in pixels.
pub const MODULE_SIZE: u32 = 10;

/// An RGB image in the making. It holds an `image::RgbImage`, which Verus
/// does not look into: what is known of it is what the functions below
/// state of `canvas_rows`.
#[verifier::external_body]
pub struct Canvas {
    image: image::RgbImage,
}

/// The pixels of a canvas, row by row from the top, each as its red, green
/// and blue parts.
pub uninterp spec fn canvas_rows(canvas: Canvas) -> Seq<Seq<(u8, u8, u8)>>;

/// The samples of a picture in the order of an RGB buffer: row by row, and
/// for each pixel red, green and blue.
pub open spec fn rgb_samples(rows: Seq<Seq<(u8, u8, u8)>>) -> Seq<u8> {
    let height = rows.len() as int;
    let width = if height > 0 {
        rows[0].len() as int
    } else {
        0
    };
    Seq::new(
        (3 * width * height) as nat,
        |i: int|
            {
                let pixel = rows[(i / 3) / width][(i / 3) % width];
                if i % 3 == 0 {
                    pixel.0
                } else if i % 3 == 1 {
                    pixel.1
                } else {
                    pixel.2
                }
            },
    )
}

/// Whether every row of `rows` has `width` pixels.
pub open spec fn has_width(rows: Seq<Seq<(u8, u8, u8)>>, width: int) -> bool {
    forall|y: int| 0 <= y < rows.len() ==> (#[trigger] rows[y]).len() == width
}

/// The colour of the pixel `(px, py)` of the picture of `g`.
pub open spec fn pixel_colour(g: Seq<Seq<bool>>, px: int, py: int) -> (u8, u8, u8) {
    if 20 <= px < 390 && 20 <= py < 390 && g[(py - 20) / 10][(px - 20) / 10] {
        (0u8, 0u8, 0u8)
    } else {
        (255u8, 255u8, 255u8)
    }
}

/// The picture of `g`, row by row.
pub open spec fn picture(g: Seq<Seq<bool>>) -> Seq<Seq<(u8, u8, u8)>> {
    Seq::new(410, |py: int| Seq::new(410, |px: int| pixel_colour(g, px, py)))
}

/// Calls `image::ImageBuffer::from_pixel` with an `image::Rgb` pixel. Not
/// verified. The buffer it returns has `height` rows of `width` pixels, all
/// of the given colour. It panics where the buffer would be larger than a
/// vector can be: the precondition keeps the number of samples below that.
#[verifier::external_body]
fn filled_canvas(width: u32, height: u32, colour: (u8, u8, u8)) -> (canvas: Canvas)
    requires
        3 * width * height <= 0x7fff_ffff,
    ensures
        canvas_rows(canvas) == Seq::new(
            height as nat,
            |y: int| Seq::new(width as nat, |x: int| colour),
        ),
{
    Canvas {
        image: image::ImageBuffer::from_pixel(
            width,
            height,
            image::Rgb([colour.0, colour.1, colour.2]),
        ),
    }
}

/// Calls `image::ImageBuffer::put_pixel` with an `image::Rgb` pixel. Not
/// verified. It sets the pixel in column `x` of row `y` and leaves the
/// others as they are; it panics outside the picture, which the
/// precondition excludes.
#[verifier::external_body]
fn put_pixel(canvas: &mut Canvas, x: u32, y: u32, colour: (u8, u8, u8))
    requires
        y < canvas_rows(*old(canvas)).len(),
        x < canvas_rows(*old(canvas))[y as int].len(),
    ensures
        canvas_rows(*final(canvas)) == canvas_rows(*old(canvas)).update(
            y as int,
            canvas_rows(*old(canvas))[y as int].update(x as int, colour),
        ),
{
    canvas.image.put_pixel(x, y, image::Rgb([colour.0, colour.1, colour.2]))
}

/// Calls `image::ImageBuffer::into_raw`. Not verified. It hands out the
/// samples of the buffer: row by row, three for each pixel.
#[verifier::external_body]
fn into_samples(canvas: Canvas) -> (samples: Vec<u8>)
    requires
        canvas_rows(canvas).len() > 0,
        has_width(canvas_rows(canvas), canvas_rows(canvas)[0].len() as int),
    ensures
        samples@ == rgb_samples(canvas_rows(canvas)),
{
    canvas.image.into_raw()
}

/// Whether the pixel `(px, py)` comes before `(at_x, at_y)` when the
/// picture is read row by row.
spec fn painted_before(px: int, py: int, at_x: int, at_y: int) -> bool {
    py < at_y || (py == at_y && px < at_x)
}

/// What the pixel `(px, py)` holds when the painting has come to
/// `(at_x, at_y)`.
spec fn colour_so_far(g: Seq<Seq<bool>>, px: int, py: int, at_x: int, at_y: int) -> (u8, u8, u8) {
    if painted_before(px, py, at_x, at_y) {
        pixel_colour(g, px, py)
    } else {
        (255u8, 255u8, 255u8)
    }
}

/// Paints the picture of a grid.
pub fn render(pixels: &Pixels) -> (canvas: Canvas)
    ensures
        canvas_rows(canvas) == picture(grid(*pixels)),
{
    let white: (u8, u8, u8) = (255, 255, 255);
    let black: (u8, u8, u8) = (0, 0, 0);
    let mut canvas: Canvas = filled_canvas(PICTURE_SIZE, PICTURE_SIZE, white);
    let mut py: u32 = MARGIN;
    while py < PICTURE_SIZE - MARGIN
        invariant
            20 <= py <= 390,
            white == (255u8, 255u8, 255u8),
            black == (0u8, 0u8, 0u8),
            canvas_rows(canvas).len() == 410,
            has_width(canvas_rows(canvas), 410),
            forall|x: int, y: int|
                0 <= x < 410 && 0 <= y < 410 ==> (#[trigger] canvas_rows(canvas)[y][x])
                    == colour_so_far(grid(*pixels), x, y, 0, py as int),
        decreases 390 - py,
    {
        let mut px: u32 = MARGIN;
        while px < PICTURE_SIZE - MARGIN
            invariant
                20 <= py < 390,
                20 <= px <= 390,
                white == (255u8, 255u8, 255u8),
                black == (0u8, 0u8, 0u8),
                canvas_rows(canvas).len() == 410,
                has_width(canvas_rows(canvas), 410),
                forall|x: int, y: int|
                    0 <= x < 410 && 0 <= y < 410 ==> (#[trigger] canvas_rows(canvas)[y][x])
                        == colour_so_far(grid(*pixels), x, y, px as int, py as int),
            decreases 390 - px,
        {
            let row: usize = ((py - MARGIN) / MODULE_SIZE) as usize;
            let column: usize = ((px - MARGIN) / MODULE_SIZE) as usize;
            let colour: (u8, u8, u8) = if pixels[row][column] {
                black
            } else {
                white
            };
            put_pixel(&mut canvas, px, py, colour);
            px += 1;
        }
        py += 1;
    }
    proof {
        let rows = canvas_rows(canvas);
        let want = picture(grid(*pixels));
        assert forall|y: int| 0 <= y < 410 implies rows[y] == want[y] by {
            assert forall|x: int| 0 <= x < 410 implies rows[y][x] == want[y][x] by {}
            assert(rows[y] =~= want[y]);
        }
        assert(rows =~= want);
    }
    canvas
}

/// The picture of a grid as the samples of an RGB image of 410 by 410
/// pixels: row by row, and for each pixel red, green and blue.
pub fn to_rgb(pixels: Pixels) -> (samples: Vec<u8>)
    ensures
        samples@ == rgb_samples(picture(grid(pixels))),
        samples@.len() == 3 * 410 * 410,
{
    let canvas = render(&pixels);
    into_samples(canvas)
}

} // verus!
