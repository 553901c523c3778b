use crate::buffer::BufferView;
use crate::buffer::TextBuffer;
use crate::color::Rgba;
use crate::editor::CosmicEditor;
use crate::editor::EditorView;
use crate::raster::composite;
use crate::raster::composited;
use crate::raster::overlaid;
use crate::raster::overlay;
use crate::raster::solid;
use crate::raster::solid_fill;
use crate::raster::Frame;
use crate::raster::GlyphRect;
use vstd::prelude::*;

verus! {

/// The colour of text that carries no colour of its own, as `0xAARRGGBB`.
pub const TEXT_ARGB: u32 = 0xff00_0000;

/// The colour in which the cursor and the selection are marked, as
/// `0xAARRGGBB`.
pub const MARKER_ARGB: u32 = 0xffff_00ff;

/// A decoded background image: RGBA bytes in row-major order.
pub struct Bitmap {
    pub pixels: Vec<u8>,
    pub width: u32,
    pub height: u32,
}

/// What `image`'s `DynamicImage::resize_to_fill` with the triangle filter
/// makes of an RGBA image of `width` by `height` pixels for a target of
/// `new_width` by `new_height`: the bytes of the scaled and cropped image, or
/// `None` where `pixels` is too short to be such an image.
pub uninterp spec fn resized_to_fill(
    pixels: Seq<u8>,
    width: u32,
    height: u32,
    new_width: u32,
    new_height: u32,
) -> Option<Seq<u8>>;

/// The largest extent in pixels that the resampler is handed. It computes
/// positions in single precision, which holds every whole and every half
/// pixel up to here exactly.
pub const MAX_RESIZE_EXTENT: u32 = 0x40_0000;

/// An upper bound on the extent that the source reaches along one axis when
/// it is scaled to fill the target: the target's extent, or the source's
/// scaled by the other axis' ratio and rounded up, whichever is larger.
pub open spec fn scaled_extent(target: u32, source: u32, other_target: u32, other_source: u32) -> int {
    let scaled = (source * other_target + other_source - 1) / (other_source as int);
    if target >= scaled {
        target as int
    } else {
        scaled
    }
}

/// Whether the resampler can make this resize: no extent is empty, no
/// extent of source, target or scaled image exceeds what single precision
/// holds exactly, and the buffers of the two passes, at sixteen bytes for
/// each pixel, fit into memory that can be addressed.
pub open spec fn resize_fits(width: u32, height: u32, new_width: u32, new_height: u32) -> bool {
    &&& 0 < width <= MAX_RESIZE_EXTENT
    &&& 0 < height <= MAX_RESIZE_EXTENT
    &&& 0 < new_width <= MAX_RESIZE_EXTENT
    &&& 0 < new_height <= MAX_RESIZE_EXTENT
    &&& scaled_extent(new_width, width, new_height, height) <= MAX_RESIZE_EXTENT
    &&& scaled_extent(new_height, height, new_width, width) <= MAX_RESIZE_EXTENT
    &&& 16 * scaled_extent(new_width, width, new_height, height) * scaled_extent(
        new_height,
        height,
        new_width,
        width,
    ) <= isize::MAX
    &&& 16 * width * scaled_extent(new_height, height, new_width, width) <= isize::MAX
}

/// Calls `image::RgbaImage::from_raw`, `DynamicImage::resize_to_fill` with
/// `FilterType::Triangle`, and `into_raw`. The resampled bytes are named,
/// not stated. Two things are stated as the source shows them: `from_raw`
/// refuses exactly a buffer that is too short for the image's size, and the
/// scaled image is cropped to exactly the target's size.
#[verifier::external_body]
fn resize_to_fill(pixels: &Vec<u8>, width: u32, height: u32, new_width: u32, new_height: u32) -> (out:
    Option<Vec<u8>>)
    requires
        resize_fits(width, height, new_width, new_height),
    ensures
        match out {
            Some(v) => resized_to_fill(pixels@, width, height, new_width, new_height) == Some(v@),
            None => resized_to_fill(pixels@, width, height, new_width, new_height)
                == None::<Seq<u8>>,
        },
        out is None <==> pixels@.len() < 4 * width * height,
        out matches Some(v) ==> v@.len() == 4 * new_width * new_height,
{
    image::RgbaImage::from_raw(width, height, pixels.clone()).map(
        |img|
            image::DynamicImage::ImageRgba8(img).resize_to_fill(
                new_width,
                new_height,
                image::imageops::FilterType::Triangle,
            ).into_rgba8().into_raw(),
    )
}

/// The background of a surface of `width` by `height` pixels: the source's
/// pixels copied over a cleared surface where there is a source, the fill
/// colour everywhere where there is none.
pub open spec fn background(width: nat, height: nat, fill: Rgba, source: Option<Seq<u8>>) -> Seq<
    u8,
> {
    match source {
        Some(data) => overlaid(
            solid(width, height, Rgba { r: 0, g: 0, b: 0, a: 0 }),
            data,
        ),
        None => solid(width, height, fill),
    }
}

/// The bytes that a background image contributes to a surface of `width` by
/// `height` pixels: its own where the sizes agree, the resampled ones where
/// they differ and the resize can be made, and none else.
pub open spec fn image_source(image: Option<&Bitmap>, width: u32, height: u32) -> Option<
    Seq<u8>,
> {
    match image {
        None => None,
        Some(bitmap) => if bitmap.width == width && bitmap.height == height {
            Some(bitmap.pixels@)
        } else if resize_fits(bitmap.width, bitmap.height, width, height) {
            resized_to_fill(bitmap.pixels@, bitmap.width, bitmap.height, width, height)
        } else {
            None
        },
    }
}

/// Builds the background from bytes that are already at the surface's size.
pub fn background_from(width: u32, height: u32, fill: Rgba, source: Option<&Vec<u8>>) -> (pixels:
    Vec<u8>)
    requires
        width * height * 4 <= usize::MAX,
    ensures
        pixels@ == background(
            width as nat,
            height as nat,
            fill,
            match source {
                Some(data) => Some(data@),
                None => None,
            },
        ),
        pixels@.len() == width * height * 4,
{
    match source {
        Some(data) => {
            let mut pixels = solid_fill(width, height, Rgba { r: 0, g: 0, b: 0, a: 0 });
            overlay(&mut pixels, data);
            pixels
        },
        None => solid_fill(width, height, fill),
    }
}

fn extent(target: u32, source: u32, other_target: u32, other_source: u32) -> (e: u64)
    requires
        source <= MAX_RESIZE_EXTENT,
        other_target <= MAX_RESIZE_EXTENT,
        0 < other_source <= MAX_RESIZE_EXTENT,
    ensures
        e == scaled_extent(target, source, other_target, other_source),
{
    assert(source * other_target <= 0x40_0000 * 0x40_0000) by (nonlinear_arith)
        requires
            0 <= source <= 0x40_0000,
            0 <= other_target <= 0x40_0000,
    ;
    let scaled: u64 = ((source as u64) * (other_target as u64) + (other_source as u64) - 1) / (
    other_source as u64);
    if target as u64 >= scaled {
        target as u64
    } else {
        scaled
    }
}

fn fits(width: u32, height: u32, new_width: u32, new_height: u32) -> (yes: bool)
    ensures
        yes == resize_fits(width, height, new_width, new_height),
{
    if width == 0 || height == 0 || new_width == 0 || new_height == 0 {
        return false;
    }
    if width > MAX_RESIZE_EXTENT || height > MAX_RESIZE_EXTENT || new_width > MAX_RESIZE_EXTENT
        || new_height > MAX_RESIZE_EXTENT {
        return false;
    }
    let a: u64 = extent(new_width, width, new_height, height);
    let b: u64 = extent(new_height, height, new_width, width);
    if a > MAX_RESIZE_EXTENT as u64 || b > MAX_RESIZE_EXTENT as u64 {
        return false;
    }
    assert(16 * a * b <= 16 * 0x40_0000 * 0x40_0000 && 16 * width * b <= 16 * 0x40_0000
        * 0x40_0000) by (nonlinear_arith)
        requires
            0 <= a <= 0x40_0000,
            0 <= b <= 0x40_0000,
            0 <= width <= 0x40_0000,
    ;
    let limit: u64 = isize::MAX as u64;
    16 * a * b <= limit && 16 * (width as u64) * b <= limit
}

/// Whether a bitmap serves as the background of a surface of `width` by
/// `height` pixels: it has the surface's size, or it can be resampled to it
/// and holds all the bytes of its own size.
pub open spec fn serves(bitmap: &Bitmap, width: u32, height: u32) -> bool {
    (bitmap.width == width && bitmap.height == height) || (resize_fits(
        bitmap.width,
        bitmap.height,
        width,
        height,
    ) && bitmap.pixels@.len() >= 4 * bitmap.width * bitmap.height)
}

/// Draws the background of a surface: the image, resampled to the surface's
/// size where it has another, or else the fill colour. An image that serves
/// fills the surface where it holds all the bytes of its size; what is
/// missing of an image that has the surface's size stays cleared.
pub fn render_background(width: u32, height: u32, fill: Rgba, image: Option<&Bitmap>) -> (pixels:
    Vec<u8>)
    requires
        width * height * 4 <= usize::MAX,
    ensures
        pixels@ == background(
            width as nat,
            height as nat,
            fill,
            image_source(image, width, height),
        ),
        pixels@.len() == width * height * 4,
        image_source(image, width, height) is Some <==> (image matches Some(bitmap) && serves(
            bitmap,
            width,
            height,
        )),
        (image matches Some(bitmap) && serves(bitmap, width, height) && !(bitmap.width == width
            && bitmap.height == height)) ==> pixels@ == image_source(image, width, height)->0,
{
    match image {
        None => background_from(width, height, fill, None),
        Some(bitmap) => {
            if bitmap.width == width && bitmap.height == height {
                background_from(width, height, fill, Some(&bitmap.pixels))
            } else if fits(bitmap.width, bitmap.height, width, height) {
                let resized = resize_to_fill(
                    &bitmap.pixels,
                    bitmap.width,
                    bitmap.height,
                    width,
                    height,
                );
                match resized {
                    Some(data) => {
                        let pixels = background_from(width, height, fill, Some(&data));
                        assert(4 * width * height == width * height * 4) by (nonlinear_arith);
                        assert(pixels@ =~= data@);
                        pixels
                    },
                    None => background_from(width, height, fill, None),
                }
            } else {
                background_from(width, height, fill, None)
            }
        },
    }
}

/// The background that a widget in `frame` is drawn on.
pub open spec fn frame_background(frame: Frame, fill: Rgba, image: Option<&Bitmap>) -> Seq<u8> {
    background(
        frame.width as nat,
        frame.height as nat,
        fill,
        image_source(image, frame.width as u32, frame.height as u32),
    )
}

/// Whether a frame names a surface whose bytes can be addressed.
pub open spec fn frame_fits(frame: Frame) -> bool {
    frame.width >= 0 && frame.height >= 0 && frame.width * frame.height * 4 <= usize::MAX
}

/// Renders a read-only widget. Nothing is drawn where the buffer is not
/// stale. Else the background is drawn and the rectangles that the shaping
/// engine made of the glyphs are composited onto it, in their order, and
/// the buffer is no longer stale.
pub fn render_buffer(
    buffer: &mut TextBuffer,
    rects: &Vec<GlyphRect>,
    fill: Rgba,
    image: Option<&Bitmap>,
    frame: &Frame,
) -> (out: Option<Vec<u8>>)
    requires
        frame_fits(*frame),
    ensures
        out is Some <==> old(buffer)@.redraw,
        out matches Some(pixels) ==> pixels@ == composited(
            frame_background(*frame, fill, image),
            *frame,
            rects@,
        ) && pixels@.len() == frame.width * frame.height * 4,
        final(buffer)@ == (BufferView { redraw: false, ..old(buffer)@ }),
{
    if !buffer.redraw() {
        return None;
    }
    let mut pixels = render_background(frame.width as u32, frame.height as u32, fill, image);
    composite(&mut pixels, frame, rects);
    buffer.set_redraw(false);
    Some(pixels)
}

/// Renders an editable widget. Nothing is drawn where the editor's text is
/// not marked for redraw. Else the background is drawn and the rectangles
/// that the shaping engine made of glyphs, selection and cursor are
/// composited onto it, in their order, and the mark is cleared.
pub fn render_editor(
    editor: &mut CosmicEditor,
    rects: &Vec<GlyphRect>,
    fill: Rgba,
    image: Option<&Bitmap>,
    frame: &Frame,
) -> (out: Option<Vec<u8>>)
    requires
        frame_fits(*frame),
    ensures
        out is Some <==> old(editor)@.redraw,
        out matches Some(pixels) ==> pixels@ == composited(
            frame_background(*frame, fill, image),
            *frame,
            rects@,
        ) && pixels@.len() == frame.width * frame.height * 4,
        final(editor)@ == (EditorView { redraw: false, ..old(editor)@ }),
{
    if !editor.redraw() {
        return None;
    }
    let mut pixels = render_background(frame.width as u32, frame.height as u32, fill, image);
    composite(&mut pixels, frame, rects);
    editor.set_redraw(false);
    Some(pixels)
}

} // verus!
