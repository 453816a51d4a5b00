//! The frame driver: one shading decision per pixel, written into an RGBA
//! image of the scene's size.
use vstd::prelude::*;
use image::{DynamicImage, GenericImage, Rgba};

verus! {

#[verifier::external_type_specification]
#[verifier::external_body]
pub struct ExDynamicImage(DynamicImage);

/// Whether an image stores its pixels as 8-bit red, green, blue and alpha.
pub uninterp spec fn holds_rgba8(img: DynamicImage) -> bool;

/// The number of pixel columns of an image.
pub uninterp spec fn image_width(img: DynamicImage) -> u32;

/// The number of pixel rows of an image.
pub uninterp spec fn image_height(img: DynamicImage) -> u32;

/// The pixels of an image as red, green, blue and alpha, row after row.
pub uninterp spec fn image_pixels(img: DynamicImage) -> Seq<(u8, u8, u8, u8)>;

/// The pixel in column `x` of row `y`.
pub open spec fn pixel_at(img: DynamicImage, x: int, y: int) -> (u8, u8, u8, u8) {
    image_pixels(img)[y * image_width(img) + x]
}

/// Relies on `DynamicImage::new_rgba8`: an 8-bit RGBA image of the given
/// size whose channels are all zero. It panics where four times the width,
/// or that times the height, overflows `usize`.
#[verifier::external_body]
fn blank_image(width: u32, height: u32) -> (r: DynamicImage)
    requires
        4 * (width as int) <= usize::MAX,
        4 * (width as int) * (height as int) <= usize::MAX,
    ensures
        holds_rgba8(r),
        image_width(r) == width,
        image_height(r) == height,
        image_pixels(r) == Seq::new(
            (width as nat) * (height as nat),
            |i: int| (0u8, 0u8, 0u8, 0u8),
        ),
{
    DynamicImage::new_rgba8(width, height)
}

/// Relies on `GenericImage::put_pixel` of `DynamicImage`: on an 8-bit RGBA
/// image it replaces the pixel in column `x` of row `y` and nothing else. It
/// panics outside the image.
#[verifier::external_body]
fn set_pixel(img: &mut DynamicImage, x: u32, y: u32, rgba: (u8, u8, u8, u8))
    requires
        holds_rgba8(*old(img)),
        x < image_width(*old(img)),
        y < image_height(*old(img)),
    ensures
        holds_rgba8(*final(img)),
        image_width(*final(img)) == image_width(*old(img)),
        image_height(*final(img)) == image_height(*old(img)),
        image_pixels(*final(img)) == image_pixels(*old(img)).update(
            y * image_width(*old(img)) + x,
            rgba,
        ),
{
    img.put_pixel(x, y, Rgba([rgba.0, rgba.1, rgba.2, rgba.3]))
}

/// The pixel that a shading decision gives: the color, or black where
/// nothing was hit; fully opaque either way.
pub open spec fn pixel_value(c: Option<(u8, u8, u8)>) -> (u8, u8, u8, u8) {
    match c {
        Some((r, g, b)) => (r, g, b, 255u8),
        None => (0u8, 0u8, 0u8, 255u8),
    }
}

/// Pixel (`x`, `y`) of `img` is the pixel of an answer that `shade` may give
/// for it.
pub open spec fn pixel_from_shade<F: Fn(u32, u32) -> Option<(u8, u8, u8)>>(
    img: DynamicImage,
    shade: F,
    x: u32,
    y: u32,
) -> bool {
    exists|c: Option<(u8, u8, u8)>|
        #[trigger] shade.ensures((x, y), c) && pixel_at(img, x as int, y as int) == pixel_value(c)
}

/// Pixel (`px`, `py`) of `img` holds what `shade` answered for it, as
/// recorded in `shades`.
spec fn shaded<F: Fn(u32, u32) -> Option<(u8, u8, u8)>>(
    img: DynamicImage,
    shade: F,
    shades: Map<(u32, u32), Option<(u8, u8, u8)>>,
    px: u32,
    py: u32,
) -> bool {
    &&& shades.contains_key((px, py))
    &&& shade.ensures((px, py), shades[(px, py)])
    &&& pixel_at(img, px as int, py as int) == pixel_value(shades[(px, py)])
}

proof fn lemma_row_major(w: int, h: int, x1: int, y1: int, x2: int, y2: int)
    requires
        0 <= x1 < w,
        0 <= x2 < w,
        0 <= y1 < h,
        0 <= y2 < h,
    ensures
        0 <= y1 * w + x1 < w * h,
        y1 * w + x1 == y2 * w + x2 ==> x1 == x2 && y1 == y2,
{
    assert(0 <= y1 * w + x1 < w * h) by (nonlinear_arith)
        requires
            0 <= x1 < w,
            0 <= y1 < h,
    ;
    if y1 < y2 {
        assert(y1 * w + x1 < y2 * w + x2) by (nonlinear_arith)
            requires
                0 <= x1 < w,
                0 <= x2,
                y1 < y2,
        ;
    } else if y2 < y1 {
        assert(y2 * w + x2 < y1 * w + x1) by (nonlinear_arith)
            requires
                0 <= x2 < w,
                0 <= x1,
                y2 < y1,
        ;
    }
}

/// Renders a `width` × `height` frame: asks `shade` once for each pixel,
/// row after row. A pixel that `shade` colors gets that color, a pixel where
/// nothing was hit gets black; every pixel is fully opaque.
pub fn render_frame<F: Fn(u32, u32) -> Option<(u8, u8, u8)>>(
    width: u32,
    height: u32,
    shade: F,
) -> (r: DynamicImage)
    requires
        4 * (width as int) <= usize::MAX,
        4 * (width as int) * (height as int) <= usize::MAX,
        forall|x: u32, y: u32| x < width && y < height ==> shade.requires((x, y)),
    ensures
        holds_rgba8(r),
        image_width(r) == width,
        image_height(r) == height,
        image_pixels(r).len() == (width as nat) * (height as nat),
        forall|x: u32, y: u32|
            x < width && y < height ==> #[trigger] pixel_from_shade(r, shade, x, y),
{
    let mut img = blank_image(width, height);
    let ghost w = width as int;
    let ghost h = height as int;
    let ghost mut shades: Map<(u32, u32), Option<(u8, u8, u8)>> = Map::empty();
    assert forall|px: u32, py: u32| px < width && py < height implies #[trigger] pixel_at(
        img,
        px as int,
        py as int,
    ) == (0u8, 0u8, 0u8, 0u8) by {
        lemma_row_major(w, h, px as int, py as int, px as int, py as int);
    }
    let mut y: u32 = 0;
    while y < height
        invariant
            y <= height,
            w == width,
            h == height,
            holds_rgba8(img),
            image_width(img) == width,
            image_height(img) == height,
            image_pixels(img).len() == w * h,
            forall|x: u32, y: u32| x < width && y < height ==> shade.requires((x, y)),
            forall|px: u32, py: u32|
                px < width && py < y ==> #[trigger] shaded(img, shade, shades, px, py),
            forall|px: u32, py: u32|
                px < width && y <= py < height ==> #[trigger] pixel_at(
                    img,
                    px as int,
                    py as int,
                ) == (0u8, 0u8, 0u8, 0u8),
        decreases height - y,
    {
        let mut x: u32 = 0;
        while x < width
            invariant
                x <= width,
                y < height,
                w == width,
                h == height,
                holds_rgba8(img),
                image_width(img) == width,
                image_height(img) == height,
                image_pixels(img).len() == w * h,
                forall|x: u32, y: u32| x < width && y < height ==> shade.requires((x, y)),
                forall|px: u32, py: u32|
                    px < width && (py < y || (py == y && px < x)) ==> #[trigger] shaded(
                        img,
                        shade,
                        shades,
                        px,
                        py,
                    ),
                forall|px: u32, py: u32|
                    px < width && py < height && (py > y || (py == y && px >= x))
                        ==> #[trigger] pixel_at(img, px as int, py as int) == (
                        0u8,
                        0u8,
                        0u8,
                        0u8,
                    ),
            decreases width - x,
        {
            let c = shade(x, y);
            let ghost before = img;
            let ghost recorded = shades;
            proof {
                lemma_row_major(w, h, x as int, y as int, x as int, y as int);
                shades = shades.insert((x, y), c);
            }
            let rgba = match c {
                Some((r, g, b)) => (r, g, b, 255u8),
                None => (0u8, 0u8, 0u8, 255u8),
            };
            set_pixel(&mut img, x, y, rgba);
            assert forall|px: u32, py: u32| px < width && py < height implies #[trigger] pixel_at(
                img,
                px as int,
                py as int,
            ) == if px == x && py == y {
                pixel_value(c)
            } else {
                pixel_at(before, px as int, py as int)
            } by {
                lemma_row_major(w, h, px as int, py as int, x as int, y as int);
            }
            assert forall|px: u32, py: u32|
                px < width && (py < y || (py == y && px <= x)) implies #[trigger] shaded(
                img,
                shade,
                shades,
                px,
                py,
            ) by {
                if px != x || py != y {
                    assert(shaded(before, shade, recorded, px, py));
                }
            }
            x += 1;
        }
        y += 1;
    }
    assert forall|x: u32, y: u32|
        x < width && y < height implies #[trigger] pixel_from_shade(img, shade, x, y) by {
        assert(shaded(img, shade, shades, x, y));
    }
    img
}

} // verus!
