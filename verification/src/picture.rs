//! Captured pictures: pixel formats, and the pointer that is drawn into them.

use vstd::prelude::*;

verus! {

/// How the four bytes of a captured pixel are used.
#[derive(Clone, Copy, Debug, PartialEq, Eq, Structural)]
pub enum RawPixelFormat {
    Bgra,
    Bgrx,
    Rgba,
    Rgbx,
}

/// How the four bytes of a pointer's pixel are used.
#[derive(Clone, Copy, Debug, PartialEq, Eq, Structural)]
pub enum CursorPixelFormat {
    Rgbx,
    Bgrx,
    Xrgb,
    Xbgr,
    Rgba,
    Bgra,
    Argb,
    Abgr,
}

/// A colour and how much it covers.
#[derive(Clone, Copy, Debug, PartialEq, Eq, Structural)]
pub struct Colour {
    pub red: u8,
    pub green: u8,
    pub blue: u8,
    pub alpha: u8,
}

impl CursorPixelFormat {
    /// The colour of the pixel at an offset.
    pub open spec fn colour_at(self, pixels: Seq<u8>, offset: int) -> Colour {
        let first = pixels[offset];
        let second = pixels[offset + 1];
        let third = pixels[offset + 2];
        let fourth = pixels[offset + 3];
        match self {
            CursorPixelFormat::Rgbx => Colour {
                red: first,
                green: second,
                blue: third,
                alpha: 255,
            },
            CursorPixelFormat::Bgrx => Colour {
                red: third,
                green: second,
                blue: first,
                alpha: 255,
            },
            CursorPixelFormat::Xrgb => Colour {
                red: second,
                green: third,
                blue: fourth,
                alpha: 255,
            },
            CursorPixelFormat::Xbgr => Colour {
                red: fourth,
                green: third,
                blue: second,
                alpha: 255,
            },
            CursorPixelFormat::Rgba => Colour {
                red: first,
                green: second,
                blue: third,
                alpha: fourth,
            },
            CursorPixelFormat::Bgra => Colour {
                red: third,
                green: second,
                blue: first,
                alpha: fourth,
            },
            CursorPixelFormat::Argb => Colour {
                red: second,
                green: third,
                blue: fourth,
                alpha: first,
            },
            CursorPixelFormat::Abgr => Colour {
                red: fourth,
                green: third,
                blue: second,
                alpha: first,
            },
        }
    }

    /// The colour of the pixel at an offset.
    pub fn rgba(self, pixels: &[u8], offset: usize) -> (colour: Colour)
        requires
            offset + 4 <= pixels@.len(),
        ensures
            colour == self.colour_at(pixels@, offset as int),
    {
        let first: u8 = pixels[offset];
        let second: u8 = pixels[offset + 1];
        let third: u8 = pixels[offset + 2];
        let fourth: u8 = pixels[offset + 3];
        match self {
            CursorPixelFormat::Rgbx => Colour {
                red: first,
                green: second,
                blue: third,
                alpha: 255,
            },
            CursorPixelFormat::Bgrx => Colour {
                red: third,
                green: second,
                blue: first,
                alpha: 255,
            },
            CursorPixelFormat::Xrgb => Colour {
                red: second,
                green: third,
                blue: fourth,
                alpha: 255,
            },
            CursorPixelFormat::Xbgr => Colour {
                red: fourth,
                green: third,
                blue: second,
                alpha: 255,
            },
            CursorPixelFormat::Rgba => Colour {
                red: first,
                green: second,
                blue: third,
                alpha: fourth,
            },
            CursorPixelFormat::Bgra => Colour {
                red: third,
                green: second,
                blue: first,
                alpha: fourth,
            },
            CursorPixelFormat::Argb => Colour {
                red: second,
                green: third,
                blue: fourth,
                alpha: first,
            },
            CursorPixelFormat::Abgr => Colour {
                red: fourth,
                green: third,
                blue: second,
                alpha: first,
            },
        }
    }
}

/// The picture of the pointer. Its hotspot lies at `position` of the frame.
#[derive(Debug)]
pub struct CursorImage {
    pub position: (i32, i32),
    pub hotspot: (i32, i32),
    pub width: u32,
    pub height: u32,
    pub stride: usize,
    pub format: CursorPixelFormat,
    pub pixels: Vec<u8>,
}

/// A captured frame. The stride is the distance between two rows in bytes.
#[derive(Debug)]
pub struct CapturedFrame {
    pub data: Vec<u8>,
    pub stride: usize,
    pub width: u32,
    pub height: u32,
    pub format: RawPixelFormat,
    pub timestamp: u64,
    pub cursor: Option<CursorImage>,
}

/// A colour component over another one.
pub open spec fn blended(foreground: u8, background: u8, alpha: u8) -> u8 {
    ((foreground * alpha + background * (255 - alpha)) / 255) as u8
}

fn blend(foreground: u8, background: u8, alpha: u8) -> (result: u8)
    ensures
        result == blended(foreground, background, alpha),
{
    assert(0 <= foreground * alpha <= 255 * alpha && 0 <= background * (255 - alpha) <= 255 * (255
        - alpha)) by (nonlinear_arith)
        requires
            0 <= foreground <= 255,
            0 <= background <= 255,
            0 <= alpha <= 255,
    ;
    let cover: u32 = alpha as u32;
    ((foreground as u32 * cover + background as u32 * (255 - cover)) / 255) as u8
}

/// A blend lies between its two components, at the share that the alpha gives, rounded down: an
/// opaque foreground hides the background, and a transparent one leaves it.
pub proof fn lemma_blends_lie_between(foreground: u8, background: u8, alpha: u8)
    ensures
        alpha == 255 ==> blended(foreground, background, alpha) == foreground,
        alpha == 0 ==> blended(foreground, background, alpha) == background,
        255 * blended(foreground, background, alpha) <= foreground * alpha + background * (255
            - alpha) < 255 * (blended(foreground, background, alpha) + 1),
{
    let share = foreground * alpha + background * (255 - alpha);
    assert(0 <= share <= 255 * 255) by (nonlinear_arith)
        requires
            share == foreground * alpha + background * (255 - alpha),
            0 <= foreground <= 255,
            0 <= background <= 255,
            0 <= alpha <= 255,
    ;
    if alpha == 255 {
        assert(share == foreground * 255) by (nonlinear_arith)
            requires
                share == foreground * alpha + background * (255 - alpha),
                alpha == 255,
        ;
    }
    if alpha == 0 {
        assert(share == background * 255) by (nonlinear_arith)
            requires
                share == foreground * alpha + background * (255 - alpha),
                alpha == 0,
        ;
    }
}

/// The letters of a pixel format, in the order of its bytes. An `x` stands for a byte that says
/// nothing.
pub open spec fn letters(format: CursorPixelFormat) -> Seq<char> {
    match format {
        CursorPixelFormat::Rgbx => seq!['r', 'g', 'b', 'x'],
        CursorPixelFormat::Bgrx => seq!['b', 'g', 'r', 'x'],
        CursorPixelFormat::Xrgb => seq!['x', 'r', 'g', 'b'],
        CursorPixelFormat::Xbgr => seq!['x', 'b', 'g', 'r'],
        CursorPixelFormat::Rgba => seq!['r', 'g', 'b', 'a'],
        CursorPixelFormat::Bgra => seq!['b', 'g', 'r', 'a'],
        CursorPixelFormat::Argb => seq!['a', 'r', 'g', 'b'],
        CursorPixelFormat::Abgr => seq!['a', 'b', 'g', 'r'],
    }
}

/// The letters of a format name its bytes, and a format without an alpha is opaque.
pub proof fn lemma_letters_name_the_bytes(
    format: CursorPixelFormat,
    pixels: Seq<u8>,
    offset: int,
    place: int,
)
    requires
        0 <= place < 4,
    ensures
        letters(format)[place] == 'r' ==> format.colour_at(pixels, offset).red == pixels[offset
            + place],
        letters(format)[place] == 'g' ==> format.colour_at(pixels, offset).green == pixels[offset
            + place],
        letters(format)[place] == 'b' ==> format.colour_at(pixels, offset).blue == pixels[offset
            + place],
        letters(format)[place] == 'a' ==> format.colour_at(pixels, offset).alpha == pixels[offset
            + place],
        letters(format)[place] == 'x' ==> format.colour_at(pixels, offset).alpha == 255,
{
}

/// A frame's bytes with a colour over the pixel at an offset. Its fourth byte stays.
pub open spec fn covered(data: Seq<u8>, offset: int, format: RawPixelFormat, colour: Colour) -> Seq<u8> {
    let (first, third) = match format {
        RawPixelFormat::Bgra | RawPixelFormat::Bgrx => (colour.blue, colour.red),
        RawPixelFormat::Rgba | RawPixelFormat::Rgbx => (colour.red, colour.blue),
    };
    data.update(offset, blended(first, data[offset], colour.alpha)).update(
        offset + 1,
        blended(colour.green, data[offset + 1], colour.alpha),
    ).update(offset + 2, blended(third, data[offset + 2], colour.alpha))
}

impl CapturedFrame {
    /// Where a pixel starts.
    pub open spec fn pixel_offset(self, x: int, y: int) -> int {
        y * self.stride + x * 4
    }
}

impl CursorImage {
    /// Whether the pointer and the frame have sizes that can be drawn.
    pub open spec fn drawable(self, frame: CapturedFrame) -> bool {
        self.stride >= self.width * 4 && self.width <= i32::MAX && self.height <= i32::MAX
            && frame.width <= i32::MAX && frame.height <= i32::MAX
    }

    /// The frame's bytes after one pixel of the pointer was drawn. What lies outside of the frame,
    /// or of the pointer's bytes, is left out.
    pub open spec fn pixel_drawn(self, frame: CapturedFrame, data: Seq<u8>, x: int, y: int) -> Seq<u8> {
        let target_x = self.position.0 - self.hotspot.0 + x;
        let target_y = self.position.1 - self.hotspot.1 + y;
        let source = y * self.stride + x * 4;
        let target = frame.pixel_offset(target_x, target_y);
        if 0 <= target_x < frame.width && 0 <= target_y < frame.height && source + 4
            <= self.pixels@.len() && target + 4 <= data.len() {
            covered(data, target, frame.format, self.format.colour_at(self.pixels@, source))
        } else {
            data
        }
    }

    /// The frame's bytes after the first pixels of a row of the pointer were drawn.
    pub open spec fn row_drawn(self, frame: CapturedFrame, data: Seq<u8>, y: int, count: int) -> Seq<u8>
        decreases count,
    {
        if count <= 0 {
            data
        } else {
            self.pixel_drawn(frame, self.row_drawn(frame, data, y, count - 1), count - 1, y)
        }
    }

    /// The frame's bytes after the first rows of the pointer were drawn.
    pub open spec fn rows_drawn(self, frame: CapturedFrame, data: Seq<u8>, count: int) -> Seq<u8>
        decreases count,
    {
        if count <= 0 {
            data
        } else {
            self.row_drawn(
                frame,
                self.rows_drawn(frame, data, count - 1),
                count - 1,
                self.width as int,
            )
        }
    }

    /// The frame's bytes after the pointer was drawn.
    pub open spec fn drawn(self, frame: CapturedFrame) -> Seq<u8> {
        if self.drawable(frame) {
            self.rows_drawn(frame, frame.data@, self.height as int)
        } else {
            frame.data@
        }
    }
}

proof fn lemma_pixel_keeps_length(cursor: CursorImage, frame: CapturedFrame, data: Seq<u8>, x: int, y: int)
    ensures
        cursor.pixel_drawn(frame, data, x, y).len() == data.len(),
{
}

proof fn lemma_row_keeps_length(
    cursor: CursorImage,
    frame: CapturedFrame,
    data: Seq<u8>,
    y: int,
    count: int,
)
    ensures
        cursor.row_drawn(frame, data, y, count).len() == data.len(),
    decreases count,
{
    if count > 0 {
        lemma_row_keeps_length(cursor, frame, data, y, count - 1);
    }
}

impl CapturedFrame {
    /// Whether a pixel lies in the frame, and its bytes are there.
    pub open spec fn has_pixel(self, x: int, y: int) -> bool {
        0 <= x < self.width && 0 <= y < self.height && self.pixel_offset(x, y) + 4
            <= self.data@.len()
    }
}

impl CursorImage {
    /// Whether a pixel of the pointer, and its bytes, lie over a pixel of the frame.
    pub open spec fn lies_over(self, x: int, y: int) -> bool {
        let column = x - self.position.0 + self.hotspot.0;
        let line = y - self.position.1 + self.hotspot.1;
        0 <= column < self.width && 0 <= line < self.height && line * self.stride + column * 4 + 4
            <= self.pixels@.len()
    }

    /// The colour of the pointer over a pixel of the frame.
    pub open spec fn colour_over(self, x: int, y: int) -> Colour {
        let column = x - self.position.0 + self.hotspot.0;
        let line = y - self.position.1 + self.hotspot.1;
        self.format.colour_at(self.pixels@, line * self.stride + column * 4)
    }
}

/// What stands in the frame at a pixel, in the order of its bytes.
pub open spec fn pixel_of(data: Seq<u8>, offset: int) -> (u8, u8, u8, u8) {
    (data[offset], data[offset + 1], data[offset + 2], data[offset + 3])
}

/// A pixel with a colour over it. The byte that is no colour stays as it is.
pub open spec fn pixel_under(
    pixel: (u8, u8, u8, u8),
    format: RawPixelFormat,
    colour: Colour,
) -> (u8, u8, u8, u8) {
    match format {
        RawPixelFormat::Bgra | RawPixelFormat::Bgrx => (
            blended(colour.blue, pixel.0, colour.alpha),
            blended(colour.green, pixel.1, colour.alpha),
            blended(colour.red, pixel.2, colour.alpha),
            pixel.3,
        ),
        RawPixelFormat::Rgba | RawPixelFormat::Rgbx => (
            blended(colour.red, pixel.0, colour.alpha),
            blended(colour.green, pixel.1, colour.alpha),
            blended(colour.blue, pixel.2, colour.alpha),
            pixel.3,
        ),
    }
}

proof fn lemma_pixels_do_not_overlap(frame: CapturedFrame, a: (int, int), b: (int, int))
    requires
        frame.stride >= frame.width * 4,
        0 <= a.0 < frame.width,
        0 <= b.0 < frame.width,
        0 <= a.1,
        0 <= b.1,
        a != b,
    ensures
        frame.pixel_offset(a.0, a.1) + 4 <= frame.pixel_offset(b.0, b.1) || frame.pixel_offset(
            b.0,
            b.1,
        ) + 4 <= frame.pixel_offset(a.0, a.1),
        frame.pixel_offset(a.0, a.1) >= 0,
        frame.pixel_offset(b.0, b.1) >= 0,
{
    let stride = frame.stride as int;
    assert(a.1 * stride >= 0 && b.1 * stride >= 0) by (nonlinear_arith)
        requires
            a.1 >= 0,
            b.1 >= 0,
            stride >= 0,
    ;
    if a.1 < b.1 {
        assert(a.1 * stride + stride <= b.1 * stride) by (nonlinear_arith)
            requires
                a.1 + 1 <= b.1,
                stride >= 0,
        ;
    } else if b.1 < a.1 {
        assert(b.1 * stride + stride <= a.1 * stride) by (nonlinear_arith)
            requires
                b.1 + 1 <= a.1,
                stride >= 0,
        ;
    }
}

proof fn lemma_one_pixel(
    cursor: CursorImage,
    frame: CapturedFrame,
    data: Seq<u8>,
    column: int,
    line: int,
    x: int,
    y: int,
)
    requires
        frame.stride >= frame.width * 4,
        data.len() == frame.data@.len(),
        frame.has_pixel(x, y),
        0 <= column < cursor.width,
        0 <= line < cursor.height,
    ensures
        ({
            let after = cursor.pixel_drawn(frame, data, column, line);
            let offset = frame.pixel_offset(x, y);
            pixel_of(after, offset) == if column == x - cursor.position.0 + cursor.hotspot.0 && line
                == y - cursor.position.1 + cursor.hotspot.1 && cursor.lies_over(x, y) {
                pixel_under(pixel_of(data, offset), frame.format, cursor.colour_over(x, y))
            } else {
                pixel_of(data, offset)
            }
        }),
{
    let target_x = cursor.position.0 - cursor.hotspot.0 + column;
    let target_y = cursor.position.1 - cursor.hotspot.1 + line;
    let offset = frame.pixel_offset(x, y);
    let target = frame.pixel_offset(target_x, target_y);
    assert(y * frame.stride >= 0) by (nonlinear_arith)
        requires
            y >= 0,
            frame.stride >= 0,
    ;
    if 0 <= target_x < frame.width && 0 <= target_y < frame.height && (target_x, target_y) != (x, y) {
        lemma_pixels_do_not_overlap(frame, (x, y), (target_x, target_y));
    }
}

proof fn lemma_one_row(
    cursor: CursorImage,
    frame: CapturedFrame,
    data: Seq<u8>,
    line: int,
    count: int,
    x: int,
    y: int,
)
    requires
        frame.stride >= frame.width * 4,
        data.len() == frame.data@.len(),
        frame.has_pixel(x, y),
        0 <= count <= cursor.width,
        0 <= line < cursor.height,
    ensures
        ({
            let after = cursor.row_drawn(frame, data, line, count);
            let offset = frame.pixel_offset(x, y);
            pixel_of(after, offset) == if x - cursor.position.0 + cursor.hotspot.0 < count && line
                == y - cursor.position.1 + cursor.hotspot.1 && cursor.lies_over(x, y) {
                pixel_under(pixel_of(data, offset), frame.format, cursor.colour_over(x, y))
            } else {
                pixel_of(data, offset)
            }
        }),
    decreases count,
{
    if count > 0 {
        lemma_one_row(cursor, frame, data, line, count - 1, x, y);
        lemma_row_keeps_length(cursor, frame, data, line, count - 1);
        lemma_one_pixel(
            cursor,
            frame,
            cursor.row_drawn(frame, data, line, count - 1),
            count - 1,
            line,
            x,
            y,
        );
    }
}

proof fn lemma_some_rows(
    cursor: CursorImage,
    frame: CapturedFrame,
    data: Seq<u8>,
    count: int,
    x: int,
    y: int,
)
    requires
        frame.stride >= frame.width * 4,
        data.len() == frame.data@.len(),
        frame.has_pixel(x, y),
        0 <= count <= cursor.height,
    ensures
        ({
            let after = cursor.rows_drawn(frame, data, count);
            let offset = frame.pixel_offset(x, y);
            &&& after.len() == data.len()
            &&& pixel_of(after, offset) == if y - cursor.position.1 + cursor.hotspot.1 < count
                && cursor.lies_over(x, y) {
                pixel_under(pixel_of(data, offset), frame.format, cursor.colour_over(x, y))
            } else {
                pixel_of(data, offset)
            }
        }),
    decreases count,
{
    if count > 0 {
        lemma_some_rows(cursor, frame, data, count - 1, x, y);
        let before = cursor.rows_drawn(frame, data, count - 1);
        lemma_one_row(cursor, frame, before, count - 1, cursor.width as int, x, y);
        lemma_row_keeps_length(cursor, frame, before, count - 1, cursor.width as int);
    }
}

/// The pointer is drawn where it is, its hotspot at its position: a pixel of the frame that lies
/// under a pixel of the pointer is blended with it, once, and every other pixel stays as it is.
pub proof fn lemma_pointers_cover_their_pixels(cursor: CursorImage, frame: CapturedFrame, x: int, y: int)
    requires
        frame.stride >= frame.width * 4,
        cursor.drawable(frame),
        frame.has_pixel(x, y),
    ensures
        ({
            let offset = frame.pixel_offset(x, y);
            pixel_of(cursor.drawn(frame), offset) == if cursor.lies_over(x, y) {
                pixel_under(pixel_of(frame.data@, offset), frame.format, cursor.colour_over(x, y))
            } else {
                pixel_of(frame.data@, offset)
            }
        }),
{
    lemma_some_rows(cursor, frame, frame.data@, cursor.height as int, x, y);
}

/// Whether every pixel of a pointer is fully transparent.
pub open spec fn is_transparent(cursor: CursorImage) -> bool {
    forall|offset: int|
        0 <= offset && offset + 4 <= cursor.pixels@.len() ==> (
        #[trigger] cursor.format.colour_at(cursor.pixels@, offset)).alpha == 0
}

proof fn lemma_transparent_row(
    cursor: CursorImage,
    frame: CapturedFrame,
    data: Seq<u8>,
    y: int,
    count: int,
)
    requires
        is_transparent(cursor),
        y >= 0,
    ensures
        cursor.row_drawn(frame, data, y, count) == data,
    decreases count,
{
    if count > 0 {
        lemma_transparent_row(cursor, frame, data, y, count - 1);
        let x = count - 1;
        let source = y * cursor.stride + x * 4;
        assert(y * cursor.stride >= 0) by (nonlinear_arith)
            requires
                y >= 0,
                cursor.stride >= 0,
        ;
        let target_x = cursor.position.0 - cursor.hotspot.0 + x;
        let target_y = cursor.position.1 - cursor.hotspot.1 + y;
        let target = frame.pixel_offset(target_x, target_y);
        if 0 <= target_x < frame.width && 0 <= target_y < frame.height && source + 4
            <= cursor.pixels@.len() && target + 4 <= data.len() {
            assert(target_y * frame.stride >= 0) by (nonlinear_arith)
                requires
                    target_y >= 0,
                    frame.stride >= 0,
            ;
            let colour = cursor.format.colour_at(cursor.pixels@, source);
            assert(colour.alpha == 0);
            assert forall|foreground: u8, background: u8| #[trigger]
                blended(foreground, background, colour.alpha) == background by {
                assert(foreground * colour.alpha == 0) by (nonlinear_arith)
                    requires
                        colour.alpha == 0,
                ;
            }
            assert(cursor.pixel_drawn(frame, data, x, y) =~= data);
        }
    }
}

proof fn lemma_transparent_rows(cursor: CursorImage, frame: CapturedFrame, data: Seq<u8>, count: int)
    requires
        is_transparent(cursor),
    ensures
        cursor.rows_drawn(frame, data, count) == data,
    decreases count,
{
    if count > 0 {
        lemma_transparent_rows(cursor, frame, data, count - 1);
        lemma_transparent_row(cursor, frame, data, count - 1, cursor.width as int);
    }
}

/// A fully transparent pointer leaves the frame as it is.
pub proof fn lemma_transparent_pointers_draw_nothing(cursor: CursorImage, frame: CapturedFrame)
    requires
        is_transparent(cursor),
    ensures
        cursor.drawn(frame) == frame.data@,
{
    lemma_transparent_rows(cursor, frame, frame.data@, cursor.height as int);
}

fn draw_pixel(frame: &mut CapturedFrame, target: usize, colour: Colour)
    requires
        target + 4 <= old(frame).data@.len(),
    ensures
        final(frame).data@ == covered(
            old(frame).data@,
            target as int,
            old(frame).format,
            colour,
        ),
        *final(frame) == (CapturedFrame { data: final(frame).data, ..*old(frame) }),
{
    let (first, third): (u8, u8) = match frame.format {
        RawPixelFormat::Bgra | RawPixelFormat::Bgrx => (colour.blue, colour.red),
        RawPixelFormat::Rgba | RawPixelFormat::Rgbx => (colour.red, colour.blue),
    };
    let total: usize = frame.data.len();
    assert(target + 4 <= total);
    let a: u8 = blend(first, frame.data[target], colour.alpha);
    let b: u8 = blend(colour.green, frame.data[target + 1], colour.alpha);
    let c: u8 = blend(third, frame.data[target + 2], colour.alpha);
    frame.data.set(target, a);
    frame.data.set(target + 1, b);
    frame.data.set(target + 2, c);
}

/// Draws the pointer into a frame.
pub fn composite_cursor(frame: &mut CapturedFrame, cursor: &CursorImage)
    ensures
        final(frame).data@ == cursor.drawn(*old(frame)),
        final(frame).data@.len() == old(frame).data@.len(),
        *final(frame) == (CapturedFrame { data: final(frame).data, ..*old(frame) }),
{
    if (cursor.stride as u128) < cursor.width as u128 * 4 || cursor.width > i32::MAX as u32
        || cursor.height > i32::MAX as u32 || frame.width > i32::MAX as u32 || frame.height
        > i32::MAX as u32 {
        return;
    }
    let left: i64 = cursor.position.0 as i64 - cursor.hotspot.0 as i64;
    let top: i64 = cursor.position.1 as i64 - cursor.hotspot.1 as i64;
    let ghost before = *frame;
    let mut y: u32 = 0;
    while y < cursor.height
        invariant
            y <= cursor.height,
            cursor.drawable(before),
            left == cursor.position.0 - cursor.hotspot.0,
            top == cursor.position.1 - cursor.hotspot.1,
            *frame == (CapturedFrame { data: frame.data, ..before }),
            frame.data@ == cursor.rows_drawn(before, before.data@, y as int),
            frame.data@.len() == before.data@.len(),
        decreases cursor.height - y,
    {
        let ghost start = frame.data@;
        let mut x: u32 = 0;
        while x < cursor.width
            invariant
                x <= cursor.width,
                y < cursor.height,
                cursor.drawable(before),
                left == cursor.position.0 - cursor.hotspot.0,
                top == cursor.position.1 - cursor.hotspot.1,
                *frame == (CapturedFrame { data: frame.data, ..before }),
                frame.data@ == cursor.row_drawn(before, start, y as int, x as int),
                frame.data@.len() == before.data@.len(),
                start.len() == before.data@.len(),
            decreases cursor.width - x,
        {
            let target_x: i64 = left + x as i64;
            let target_y: i64 = top + y as i64;
            proof {
                lemma_row_keeps_length(*cursor, before, start, y as int, x as int);
                lemma_pixel_keeps_length(*cursor, before, frame.data@, x as int, y as int);
            }
            if 0 <= target_x && target_x < frame.width as i64 && 0 <= target_y && target_y
                < frame.height as i64 {
                assert(0 <= y * cursor.stride <= 0xffff_ffff * 0xffff_ffff_ffff_ffff)
                    by (nonlinear_arith)
                    requires
                        0 <= y <= 0xffff_ffff,
                        0 <= cursor.stride <= 0xffff_ffff_ffff_ffff,
                ;
                assert(0 <= target_y * frame.stride <= 0xffff_ffff * 0xffff_ffff_ffff_ffff)
                    by (nonlinear_arith)
                    requires
                        0 <= target_y <= 0xffff_ffff,
                        0 <= frame.stride <= 0xffff_ffff_ffff_ffff,
                ;
                let source: u128 = y as u128 * cursor.stride as u128 + x as u128 * 4;
                let target: u128 = target_y as u128 * frame.stride as u128 + target_x as u128 * 4;
                if source + 4 <= cursor.pixels.len() as u128 && target + 4
                    <= frame.data.len() as u128 {
                    let colour: Colour = cursor.format.rgba(
                        cursor.pixels.as_slice(),
                        source as usize,
                    );
                    draw_pixel(frame, target as usize, colour);
                }
            }
            assert(frame.data@ == cursor.row_drawn(before, start, y as int, x + 1));
            x = x + 1;
        }
        y = y + 1;
    }
}

/// Why a captured frame cannot be encoded.
#[derive(Clone, Copy, Debug, PartialEq, Eq, Structural)]
pub enum FrameError {
    Empty,
    TooLarge,
    Short,
}

/// Whether the bytes of a frame hold its rows. Each pixel takes four bytes.
pub fn validate_frame(width: u32, height: u32, stride: usize, length: usize) -> (result: Result<
    (),
    FrameError,
>)
    ensures
        result == if width == 0 || height == 0 {
            Err::<(), FrameError>(FrameError::Empty)
        } else if stride * height > usize::MAX {
            Err(FrameError::TooLarge)
        } else if stride < width * 4 || length < stride * height {
            Err(FrameError::Short)
        } else {
            Ok(())
        },
{
    if width == 0 || height == 0 {
        return Err(FrameError::Empty);
    }
    assert(0 <= stride * height <= 0xffff_ffff_ffff_ffff * 0xffff_ffff) by (nonlinear_arith)
        requires
            0 <= stride <= 0xffff_ffff_ffff_ffff,
            0 <= height <= 0xffff_ffff,
    ;
    let needed: u128 = stride as u128 * height as u128;
    if needed > usize::MAX as u128 {
        return Err(FrameError::TooLarge);
    }
    if (stride as u128) < width as u128 * 4 || (length as u128) < needed {
        return Err(FrameError::Short);
    }
    Ok(())
}

} // verus!
