use crate::color::opaque;
use crate::color::over;
use crate::color::unpack;
use crate::color::Rgba;
use vstd::arithmetic::div_mod::lemma_fundamental_div_mod_converse;
use vstd::prelude::*;

verus! {

/// Where drawing lands on a widget's surface: the surface's size in pixels,
/// the inset of the text inside it, and the horizontal scroll of the text.
#[derive(Clone, Copy, Debug, PartialEq, Eq, Structural)]
pub struct Frame {
    pub width: i32,
    pub height: i32,
    pub pad_x: i32,
    pub pad_y: i32,
    pub x_offset: i32,
}

/// The pixel stored at position `p` of a row-major RGBA buffer.
pub open spec fn pixel_at(buf: Seq<u8>, p: int) -> Rgba {
    Rgba { r: buf[4 * p], g: buf[4 * p + 1], b: buf[4 * p + 2], a: buf[4 * p + 3] }
}

/// Channel `k` of a colour, in the order red, green, blue, alpha.
pub open spec fn channel(c: Rgba, k: int) -> u8 {
    if k == 0 {
        c.r
    } else if k == 1 {
        c.g
    } else if k == 2 {
        c.b
    } else {
        c.a
    }
}

/// The buffer with the pixel at position `p` replaced by `c`.
pub open spec fn with_pixel(buf: Seq<u8>, p: int, c: Rgba) -> Seq<u8> {
    buf.update(4 * p, c.r).update(4 * p + 1, c.g).update(4 * p + 2, c.b).update(4 * p + 3, c.a)
}

/// Whether `(x, y)` lies on a surface of the given size and a buffer of `len`
/// bytes holds its pixel.
pub open spec fn has_pixel(len: nat, width: int, height: int, x: int, y: int) -> bool {
    0 <= x < width && 0 <= y < height && 4 * (y * width + x) + 4 <= len
}

/// The buffer after one pixel of `color` was composited at `(x, y)`: a
/// position off the surface changes nothing.
pub open spec fn drawn_pixel(
    buf: Seq<u8>,
    width: int,
    height: int,
    x: int,
    y: int,
    color: Rgba,
    coverage: u8,
) -> Seq<u8> {
    if has_pixel(buf.len(), width, height, x, y) {
        let p = y * width + x;
        with_pixel(buf, p, over(color, pixel_at(buf, p), coverage))
    } else {
        buf
    }
}

/// Whether surface position `(px, py)` is covered by the rectangle that the
/// shaping engine reports at `(x, y)` with size `w` by `h`, once the text is
/// inset by the frame's padding and scrolled left by its offset.
pub open spec fn in_rect(frame: Frame, x: int, y: int, w: int, h: int, px: int, py: int) -> bool {
    let left = x + frame.pad_x - frame.x_offset;
    let top = y + frame.pad_y;
    left <= px < left + w && top <= py < top + h
}

/// Whether byte `j` of a buffer belongs to a pixel that the rectangle covers.
pub open spec fn byte_in_rect(
    len: nat,
    frame: Frame,
    x: int,
    y: int,
    w: int,
    h: int,
    j: int,
) -> bool {
    let p = j / 4;
    frame.width > 0 && has_pixel(
        len,
        frame.width as int,
        frame.height as int,
        p % (frame.width as int),
        p / (frame.width as int),
    ) && in_rect(frame, x, y, w, h, p % (frame.width as int), p / (frame.width as int))
}

/// The buffer after a rectangle of `color` was composited onto it: every
/// pixel that the rectangle covers is blended once, every other byte stays.
pub open spec fn painted(
    buf: Seq<u8>,
    frame: Frame,
    x: int,
    y: int,
    w: int,
    h: int,
    color: Rgba,
    coverage: u8,
) -> Seq<u8> {
    Seq::new(
        buf.len(),
        |j: int|
            if byte_in_rect(buf.len(), frame, x, y, w, h, j) {
                channel(over(color, pixel_at(buf, j / 4), coverage), j % 4)
            } else {
                buf[j]
            },
    )
}

/// A surface of `width` by `height` pixels, each of them `color`.
pub open spec fn solid(width: nat, height: nat, color: Rgba) -> Seq<u8> {
    Seq::new(width * height * 4, |j: int| channel(color, j % 4))
}

/// The buffer with its leading whole pixels replaced by those of `data`, as
/// far as both reach.
pub open spec fn overlaid(buf: Seq<u8>, data: Seq<u8>) -> Seq<u8> {
    let n = 4 * (if buf.len() / 4 <= data.len() / 4 {
        buf.len() / 4
    } else {
        data.len() / 4
    });
    Seq::new(buf.len(), |j: int| if j < n { data[j] } else { buf[j] })
}

proof fn lemma_row_major(width: int, x: int, y: int)
    requires
        0 <= x < width,
        0 <= y,
    ensures
        (y * width + x) / width == y,
        (y * width + x) % width == x,
        0 <= y * width + x,
{
    assert(y * width == width * y) by (nonlinear_arith);
    assert(0 <= y * width) by (nonlinear_arith)
        requires
            0 <= y,
            0 < width,
    ;
    lemma_fundamental_div_mod_converse(y * width + x, width, y, x);
}

proof fn lemma_pixel_offset_bound(width: int, height: int, x: int, y: int)
    requires
        0 <= x < width <= i32::MAX,
        0 <= y < height <= i32::MAX,
    ensures
        0 <= y * width + x < width * height,
        width * height <= 0x3fff_ffff_0000_0001,
{
    assert(y * width + x < width * height) by (nonlinear_arith)
        requires
            0 <= x < width,
            0 <= y < height,
    ;
    assert(0 <= y * width) by (nonlinear_arith)
        requires
            0 <= y,
            0 <= width,
    ;
    assert(width * height <= 0x7fff_ffff * 0x7fff_ffff) by (nonlinear_arith)
        requires
            0 <= width <= 0x7fff_ffff,
            0 <= height <= 0x7fff_ffff,
    ;
}

/// Composites one pixel of `color`, covered by `coverage` out of 255, onto
/// the surface at `(x, y)`. A position outside the surface, or one that the
/// buffer does not hold, is skipped.
pub fn draw_pixel(
    buffer: &mut Vec<u8>,
    width: i32,
    height: i32,
    x: i32,
    y: i32,
    color: Rgba,
    coverage: u8,
)
    ensures
        final(buffer)@ == drawn_pixel(
            old(buffer)@,
            width as int,
            height as int,
            x as int,
            y as int,
            color,
            coverage,
        ),
        final(buffer)@.len() == old(buffer)@.len(),
{
    if y < 0 || y >= height {
        return ;
    }
    if x < 0 || x >= width {
        return ;
    }
    proof {
        lemma_pixel_offset_bound(width as int, height as int, x as int, y as int);
    }
    let position: u64 = (y as u64) * (width as u64) + (x as u64);
    let end: u64 = position * 4 + 4;
    if end > buffer.len() as u64 {
        return ;
    }
    let offset: usize = (position * 4) as usize;
    let bg = Rgba {
        r: buffer[offset],
        g: buffer[offset + 1],
        b: buffer[offset + 2],
        a: buffer[offset + 3],
    };
    let out = color.blend_over(bg, coverage);
    buffer[offset] = out.r;
    buffer[offset + 1] = out.g;
    buffer[offset + 2] = out.b;
    buffer[offset + 3] = out.a;
}

/// The rectangle's first covered column and row on the surface, and the
/// column and row just past its last.
pub open spec fn clip(frame: Frame, x: int, y: int, w: int, h: int) -> (int, int, int, int) {
    let left = x + frame.pad_x - frame.x_offset;
    let top = y + frame.pad_y;
    (
        if left < 0 {
            0
        } else {
            left
        },
        if left + w > frame.width {
            frame.width as int
        } else {
            left + w
        },
        if top < 0 {
            0
        } else {
            top
        },
        if top + h > frame.height {
            frame.height as int
        } else {
            top + h
        },
    )
}

/// Whether pixel `q` of a surface `width` wide comes before `(col, row)` in
/// reading order.
spec fn before(q: int, width: int, row: int, col: int) -> bool {
    q / width < row || (q / width == row && q % width < col)
}

/// The buffer while a rectangle is being composited row by row: the pixels
/// before `(col, row)` in reading order are blended, the others are not yet.
spec fn painted_until(
    buf: Seq<u8>,
    frame: Frame,
    x: int,
    y: int,
    w: int,
    h: int,
    color: Rgba,
    coverage: u8,
    row: int,
    col: int,
) -> Seq<u8> {
    Seq::new(
        buf.len(),
        |j: int|
            if byte_in_rect(buf.len(), frame, x, y, w, h, j) && before(
                j / 4,
                frame.width as int,
                row,
                col,
            ) {
                channel(over(color, pixel_at(buf, j / 4), coverage), j % 4)
            } else {
                buf[j]
            },
    )
}

proof fn lemma_clip_contains(len: nat, frame: Frame, x: int, y: int, w: int, h: int, j: int)
    requires
        byte_in_rect(len, frame, x, y, w, h, j),
    ensures
        ({
            let (c0, c1, r0, r1) = clip(frame, x, y, w, h);
            let p = j / 4;
            &&& c0 <= p % (frame.width as int) < c1
            &&& r0 <= p / (frame.width as int) < r1
        }),
{
}

proof fn lemma_painted_start(
    buf: Seq<u8>,
    frame: Frame,
    x: int,
    y: int,
    w: int,
    h: int,
    color: Rgba,
    coverage: u8,
)
    ensures
        ({
            let (c0, c1, r0, r1) = clip(frame, x, y, w, h);
            painted_until(buf, frame, x, y, w, h, color, coverage, r0, c0) == buf
        }),
{
    let (c0, c1, r0, r1) = clip(frame, x, y, w, h);
    let s = painted_until(buf, frame, x, y, w, h, color, coverage, r0, c0);
    assert forall|j: int| 0 <= j < buf.len() implies s[j] == buf[j] by {
        if byte_in_rect(buf.len(), frame, x, y, w, h, j) {
            lemma_clip_contains(buf.len(), frame, x, y, w, h, j);
        }
    }
    assert(s =~= buf);
}

proof fn lemma_painted_row_end(
    buf: Seq<u8>,
    frame: Frame,
    x: int,
    y: int,
    w: int,
    h: int,
    color: Rgba,
    coverage: u8,
    row: int,
    col: int,
)
    requires
        col >= clip(frame, x, y, w, h).1,
    ensures
        painted_until(buf, frame, x, y, w, h, color, coverage, row, col) == painted_until(
            buf,
            frame,
            x,
            y,
            w,
            h,
            color,
            coverage,
            row + 1,
            clip(frame, x, y, w, h).0,
        ),
{
    let (c0, c1, r0, r1) = clip(frame, x, y, w, h);
    let s = painted_until(buf, frame, x, y, w, h, color, coverage, row, col);
    let t = painted_until(buf, frame, x, y, w, h, color, coverage, row + 1, c0);
    assert forall|j: int| 0 <= j < buf.len() implies s[j] == t[j] by {
        if byte_in_rect(buf.len(), frame, x, y, w, h, j) {
            lemma_clip_contains(buf.len(), frame, x, y, w, h, j);
        }
    }
    assert(s =~= t);
}

proof fn lemma_painted_end(
    buf: Seq<u8>,
    frame: Frame,
    x: int,
    y: int,
    w: int,
    h: int,
    color: Rgba,
    coverage: u8,
    row: int,
    col: int,
)
    requires
        row >= clip(frame, x, y, w, h).3,
    ensures
        painted_until(buf, frame, x, y, w, h, color, coverage, row, col) == painted(
            buf,
            frame,
            x,
            y,
            w,
            h,
            color,
            coverage,
        ),
{
    let s = painted_until(buf, frame, x, y, w, h, color, coverage, row, col);
    let t = painted(buf, frame, x, y, w, h, color, coverage);
    assert forall|j: int| 0 <= j < buf.len() implies s[j] == t[j] by {
        if byte_in_rect(buf.len(), frame, x, y, w, h, j) {
            lemma_clip_contains(buf.len(), frame, x, y, w, h, j);
        }
    }
    assert(s =~= t);
}

proof fn lemma_painted_step(
    buf: Seq<u8>,
    frame: Frame,
    x: int,
    y: int,
    w: int,
    h: int,
    color: Rgba,
    coverage: u8,
    row: int,
    col: int,
)
    requires
        clip(frame, x, y, w, h).0 <= col < clip(frame, x, y, w, h).1,
        clip(frame, x, y, w, h).2 <= row < clip(frame, x, y, w, h).3,
    ensures
        drawn_pixel(
            painted_until(buf, frame, x, y, w, h, color, coverage, row, col),
            frame.width as int,
            frame.height as int,
            col,
            row,
            color,
            coverage,
        ) == painted_until(buf, frame, x, y, w, h, color, coverage, row, col + 1),
{
    let width = frame.width as int;
    let height = frame.height as int;
    let cur = painted_until(buf, frame, x, y, w, h, color, coverage, row, col);
    let next = painted_until(buf, frame, x, y, w, h, color, coverage, row, col + 1);
    let out = drawn_pixel(cur, width, height, col, row, color, coverage);
    let p = row * width + col;
    lemma_row_major(width, col, row);
    assert(in_rect(frame, x, y, w, h, col, row));
    assert forall|q: int| q != p implies #[trigger] before(q, width, row, col) == before(
        q,
        width,
        row,
        col + 1,
    ) by {
        if q % width == col && q / width == row {
            vstd::arithmetic::div_mod::lemma_fundamental_div_mod(q, width);
            assert(width * row == row * width) by (nonlinear_arith);
        }
    }
    if has_pixel(buf.len(), width, height, col, row) {
        assert forall|k: int| 0 <= k < 4 implies #[trigger] cur[4 * p + k] == buf[4 * p + k] by {
            assert((4 * p + k) / 4 == p);
        }
        assert(pixel_at(cur, p) == pixel_at(buf, p));
        let c = over(color, pixel_at(buf, p), coverage);
        assert forall|j: int| 0 <= j < buf.len() implies out[j] == next[j] by {
            if j / 4 == p {
                assert(j == 4 * p + j % 4);
                assert(byte_in_rect(buf.len(), frame, x, y, w, h, j));
                assert(before(p, width, row, col + 1));
            } else {
                assert(out[j] == cur[j]);
            }
        }
        assert(out =~= next);
    } else {
        assert forall|j: int| 0 <= j < buf.len() implies cur[j] == next[j] by {
            if j / 4 == p {
                assert(!byte_in_rect(buf.len(), frame, x, y, w, h, j));
            }
        }
        assert(cur =~= next);
    }
}

/// Composites a rectangle of `color`, covered by `coverage` out of 255, onto
/// the surface. `(x, y)` and the size are the shaping engine's; the frame
/// insets the text and scrolls it. The part that falls outside the surface
/// is skipped.
pub fn fill_rect(
    buffer: &mut Vec<u8>,
    frame: &Frame,
    x: i32,
    y: i32,
    w: u32,
    h: u32,
    color: Rgba,
    coverage: u8,
)
    ensures
        final(buffer)@ == painted(
            old(buffer)@,
            *frame,
            x as int,
            y as int,
            w as int,
            h as int,
            color,
            coverage,
        ),
        final(buffer)@.len() == old(buffer)@.len(),
{
    let left: i64 = x as i64 + frame.pad_x as i64 - frame.x_offset as i64;
    let top: i64 = y as i64 + frame.pad_y as i64;
    let c0: i64 = if left < 0 {
        0
    } else {
        left
    };
    let c1: i64 = if left + w as i64 > frame.width as i64 {
        frame.width as i64
    } else {
        left + w as i64
    };
    let r0: i64 = if top < 0 {
        0
    } else {
        top
    };
    let r1: i64 = if top + h as i64 > frame.height as i64 {
        frame.height as i64
    } else {
        top + h as i64
    };
    let mut row: i64 = r0;
    proof {
        lemma_painted_start(
            buffer@,
            *frame,
            x as int,
            y as int,
            w as int,
            h as int,
            color,
            coverage,
        );
    }
    while row < r1
        invariant
            (c0 as int, c1 as int, r0 as int, r1 as int) == clip(
                *frame,
                x as int,
                y as int,
                w as int,
                h as int,
            ),
            r0 <= row,
            buffer@ == painted_until(
                old(buffer)@,
                *frame,
                x as int,
                y as int,
                w as int,
                h as int,
                color,
                coverage,
                row as int,
                c0 as int,
            ),
        decreases r1 - row,
    {
        let mut col: i64 = c0;
        while col < c1
            invariant
                (c0 as int, c1 as int, r0 as int, r1 as int) == clip(
                    *frame,
                    x as int,
                    y as int,
                    w as int,
                    h as int,
                ),
                r0 <= row < r1,
                c0 <= col,
                buffer@ == painted_until(
                    old(buffer)@,
                    *frame,
                    x as int,
                    y as int,
                    w as int,
                    h as int,
                    color,
                    coverage,
                    row as int,
                    col as int,
                ),
            decreases c1 - col,
        {
            proof {
                lemma_painted_step(
                    old(buffer)@,
                    *frame,
                    x as int,
                    y as int,
                    w as int,
                    h as int,
                    color,
                    coverage,
                    row as int,
                    col as int,
                );
            }
            draw_pixel(buffer, frame.width, frame.height, col as i32, row as i32, color, coverage);
            col = col + 1;
        }
        proof {
            lemma_painted_row_end(
                old(buffer)@,
                *frame,
                x as int,
                y as int,
                w as int,
                h as int,
                color,
                coverage,
                row as int,
                col as int,
            );
        }
        row = row + 1;
    }
    proof {
        lemma_painted_end(
            old(buffer)@,
            *frame,
            x as int,
            y as int,
            w as int,
            h as int,
            color,
            coverage,
            row as int,
            c0 as int,
        );
    }
}

/// One rectangle as the shaping engine hands it to its drawing callback:
/// place and size in the text's own coordinates, and a colour packed as
/// `0xAARRGGBB`.
#[derive(Clone, Copy, Debug, PartialEq, Eq, Structural)]
pub struct GlyphRect {
    pub x: i32,
    pub y: i32,
    pub w: u32,
    pub h: u32,
    pub argb: u32,
}

/// The buffer after one rectangle of the shaping engine was composited onto
/// it: the colour's alpha byte is the coverage, and its three colour bytes
/// are an opaque foreground.
pub open spec fn drawn_rect(buf: Seq<u8>, frame: Frame, rect: GlyphRect) -> Seq<u8> {
    painted(
        buf,
        frame,
        rect.x as int,
        rect.y as int,
        rect.w as int,
        rect.h as int,
        opaque(unpack(rect.argb)),
        unpack(rect.argb).a,
    )
}

/// The buffer after rectangles of the shaping engine were composited onto
/// it, one after the other.
pub open spec fn composited(buf: Seq<u8>, frame: Frame, rects: Seq<GlyphRect>) -> Seq<u8>
    decreases rects.len(),
{
    if rects.len() == 0 {
        buf
    } else {
        drawn_rect(composited(buf, frame, rects.drop_last()), frame, rects.last())
    }
}

/// Compositing keeps the surface's length.
pub proof fn lemma_composited_len(buf: Seq<u8>, frame: Frame, rects: Seq<GlyphRect>)
    ensures
        composited(buf, frame, rects).len() == buf.len(),
    decreases rects.len(),
{
    if rects.len() > 0 {
        lemma_composited_len(buf, frame, rects.drop_last());
    }
}

/// Composites the rectangles of the shaping engine onto the surface, one
/// after the other.
pub fn composite(buffer: &mut Vec<u8>, frame: &Frame, rects: &Vec<GlyphRect>)
    ensures
        final(buffer)@ == composited(old(buffer)@, *frame, rects@),
        final(buffer)@.len() == old(buffer)@.len(),
{
    let mut i: usize = 0;
    assert(rects@.take(0) =~= Seq::<GlyphRect>::empty());
    while i < rects.len()
        invariant
            i <= rects.len(),
            buffer@ == composited(old(buffer)@, *frame, rects@.take(i as int)),
            buffer@.len() == old(buffer)@.len(),
        decreases rects.len() - i,
    {
        let rect = &rects[i];
        proof {
            assert(rects@.take(i + 1).drop_last() =~= rects@.take(i as int));
            assert(rects@.take(i + 1).last() == *rect);
        }
        draw_rect(buffer, frame, rect.x, rect.y, rect.w, rect.h, rect.argb);
        i = i + 1;
    }
    assert(rects@.take(i as int) =~= rects@);
}

/// Composites a rectangle in the colour that the shaping engine hands to its
/// drawing callback, packed as `0xAARRGGBB`: the alpha byte is the coverage,
/// and the three colour bytes are an opaque foreground.
pub fn draw_rect(buffer: &mut Vec<u8>, frame: &Frame, x: i32, y: i32, w: u32, h: u32, argb: u32)
    ensures
        final(buffer)@ == drawn_rect(old(buffer)@, *frame, (GlyphRect { x, y, w, h, argb })),
        final(buffer)@.len() == old(buffer)@.len(),
{
    let c = Rgba::from_argb(argb);
    fill_rect(buffer, frame, x, y, w, h, Rgba { r: c.r, g: c.g, b: c.b, a: 255 }, c.a);
}

/// A fresh surface of `width` by `height` pixels, each of them `color`.
pub fn solid_fill(width: u32, height: u32, color: Rgba) -> (pixels: Vec<u8>)
    requires
        width * height * 4 <= usize::MAX,
    ensures
        pixels@ == solid(width as nat, height as nat, color),
        pixels@.len() == width * height * 4,
{
    assert(width * height * 4 == (width * height) * 4) by (nonlinear_arith);
    assert(width * height >= 0) by (nonlinear_arith)
        requires
            width >= 0,
            height >= 0,
    ;
    let count: usize = (width as usize) * (height as usize);
    let mut pixels: Vec<u8> = Vec::new();
    let mut i: usize = 0;
    while i < count
        invariant
            i <= count,
            count * 4 <= usize::MAX,
            pixels@ == Seq::new((i * 4) as nat, |j: int| channel(color, j % 4)),
        decreases count - i,
    {
        pixels.push(color.r);
        pixels.push(color.g);
        pixels.push(color.b);
        pixels.push(color.a);
        i = i + 1;
        assert(pixels@ =~= Seq::new((i * 4) as nat, |j: int| channel(color, j % 4)));
    }
    assert(pixels@ =~= solid(width as nat, height as nat, color));
    pixels
}

/// Copies the pixels of `data` over the front of `buffer`, pixel for pixel,
/// as far as both reach. The buffer keeps its length.
pub fn overlay(buffer: &mut Vec<u8>, data: &Vec<u8>)
    ensures
        final(buffer)@ == overlaid(old(buffer)@, data@),
        final(buffer)@.len() == old(buffer)@.len(),
{
    let whole: usize = if buffer.len() / 4 <= data.len() / 4 {
        buffer.len() / 4
    } else {
        data.len() / 4
    };
    let n: usize = whole * 4;
    let mut i: usize = 0;
    while i < n
        invariant
            i <= n,
            n <= data@.len(),
            n <= buffer@.len(),
            buffer@.len() == old(buffer)@.len(),
            buffer@ == Seq::new(
                old(buffer)@.len(),
                |j: int|
                    if j < i {
                        data@[j]
                    } else {
                        old(buffer)@[j]
                    },
            ),
        decreases n - i,
    {
        let byte = data[i];
        buffer[i] = byte;
        i = i + 1;
        assert(buffer@ =~= Seq::new(
            old(buffer)@.len(),
            |j: int|
                if j < i {
                    data@[j]
                } else {
                    old(buffer)@[j]
                },
        ));
    }
    assert(buffer@ =~= overlaid(old(buffer)@, data@));
}

} // verus!
