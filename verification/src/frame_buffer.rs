//! Text on the frame buffer: a fixed-width font of glyphs eight pixels wide,
//! drawn at a cursor that wraps at the right edge and starts over at the top
//! when the screen is full.
use vstd::prelude::*;

verus! {

/// Width of a glyph in pixels.
pub const CHAR_WIDTH: usize = 8;

/// Pixels between two lines of text.
pub const LINE_SPACING: usize = 3;

/// Pixels between two characters.
pub const LETTER_SPACING: usize = 1;

/// Pixels kept free at the edges of the screen.
pub const SCREEN_PADDING: usize = 5;

/// The character drawn in place of one that the font lacks.
pub const BACKUP_CHAR: char = '?';

/// Number of glyphs that the font file has room for.
pub const GLYPH_SLOTS: usize = 512;

/// A colour with its four channels.
#[derive(Clone, Copy, Debug, PartialEq, Eq, Structural)]
pub struct Color {
    /// Red.
    pub r: u8,
    /// Green.
    pub g: u8,
    /// Blue.
    pub b: u8,
    /// Alpha.
    pub a: u8,
}

/// The colour of the text.
pub open spec fn spec_text_color() -> Color {
    Color { r: 243, g: 98, b: 95, a: 0 }
}

/// The colour of the text.
#[verifier::when_used_as_spec(spec_text_color)]
pub fn text_color() -> (c: Color)
    ensures
        c == spec_text_color(),
{
    Color { r: 243, g: 98, b: 95, a: 0 }
}

/// The order of the channels in a pixel.
#[derive(Clone, Copy, Debug, PartialEq, Eq, Structural)]
pub enum PixelFormat {
    /// Red, green, blue.
    Rgb,
    /// Blue, green, red.
    Bgr,
    /// One byte of grey.
    U8,
    /// Anything else.
    Unknown,
}

/// What the bootloader says of the frame buffer.
#[derive(Clone, Copy, Debug, PartialEq, Eq, Structural)]
pub struct FrameBufferInfo {
    /// Number of bytes of the buffer.
    pub byte_len: usize,
    /// Number of pixels of a row that are visible.
    pub width: usize,
    /// Number of rows.
    pub height: usize,
    /// The order of the channels in a pixel.
    pub pixel_format: PixelFormat,
    /// Number of bytes of a pixel.
    pub bytes_per_pixel: usize,
    /// Number of pixels from the start of one row to the start of the next.
    pub stride: usize,
}

/// Why the writer refused.
#[derive(Clone, Copy, Debug, PartialEq, Eq, Structural)]
pub enum FrameBufferError {
    /// The font file is too short for its header and its 512 glyphs, or its
    /// glyphs have no rows.
    BadFont,
    /// The font has a glyph neither for the character nor for the backup
    /// character.
    NoBackupGlyph,
    /// The pixel format is neither RGB nor BGR, or a pixel has more than
    /// four bytes.
    UnsupportedFormat,
    /// The bytes of the pixel do not lie inside the buffer.
    OutOfBounds,
    /// The row of the cursor would pass the largest number that a row can
    /// be.
    CursorOverflow,
}

/// Item `i` of the font's table of code points: a 16-bit little-endian
/// number.
pub open spec fn table_item(table: Seq<u8>, i: int) -> int {
    table[2 * i] + 256 * table[2 * i + 1]
}

/// How many of the first `count` items of the table end a group.
pub open spec fn groups_ended(table: Seq<u8>, count: int) -> int
    decreases count,
{
    if count <= 0 {
        0
    } else {
        groups_ended(table, count - 1) + (if table_item(table, count - 1) == 0xffff {
            1int
        } else {
            0int
        })
    }
}

/// The place of the first item of the table that equals `code`, which must
/// not be the end-of-group mark; the number of items if there is none.
pub open spec fn first_match(table: Seq<u8>, code: int, from: int) -> int
    decreases table.len() / 2 - from,
{
    if from >= table.len() / 2 {
        from
    } else if table_item(table, from) != 0xffff && table_item(table, from) == code {
        from
    } else {
        first_match(table, code, from + 1)
    }
}

/// No more groups end than there are items.
pub proof fn lemma_groups_ended_bounds(table: Seq<u8>, count: int)
    ensures
        0 <= groups_ended(table, count),
        count >= 0 ==> groups_ended(table, count) <= count,
    decreases count,
{
    if count > 0 {
        lemma_groups_ended_bounds(table, count - 1);
    }
}

/// The code that a character is looked up by: its code point cut down to 16
/// bits.
pub open spec fn char_code(c: char) -> int {
    (c as u32) as int % 0x1_0000
}

/// A bitmap font in the PSF1 layout: a header, 512 glyphs of `char_size`
/// rows of eight pixels each, and a table that sorts code points into groups,
/// group `k` being drawn with glyph `k`.
pub struct Font {
    data: Vec<u8>,
    header_size: usize,
    char_size: usize,
}

impl Font {
    /// The bytes of the font file.
    pub closed spec fn data(&self) -> Seq<u8> {
        self.data@
    }

    /// Number of bytes of the header.
    pub closed spec fn header_size(&self) -> int {
        self.header_size as int
    }

    /// Number of bytes, and of rows, of a glyph.
    pub closed spec fn char_size(&self) -> int {
        self.char_size as int
    }

    /// The invariant of a font.
    pub closed spec fn wf(&self) -> bool {
        &&& self.data.len() >= 4
        &&& self.header_size == self.data[1]
        &&& self.char_size == self.data[3]
        &&& self.char_size > 0
        &&& self.header_size <= 512 * self.char_size <= self.data.len()
    }

    /// A glyph has between 1 and 255 rows.
    pub proof fn lemma_char_size(&self)
        requires
            self.wf(),
        ensures
            0 < self.char_size() < 256,
    {
    }

    /// A glyph that the font has lies wholly inside the font file.
    pub proof fn lemma_glyph_in_file(&self, c: char)
        requires
            self.wf(),
            self.glyph_start(c) is Some,
        ensures
            0 <= self.glyph_start(c).unwrap(),
            self.glyph_start(c).unwrap() + self.char_size() <= self.data().len(),
    {
        lemma_groups_ended_bounds(self.table(), first_match(self.table(), char_code(c), 0));
        let g = groups_ended(self.table(), first_match(self.table(), char_code(c), 0));
        let cs = self.char_size();
        assert(0 <= g * cs) by (nonlinear_arith)
            requires
                0 <= g,
                0 <= cs,
        ;
    }

    /// The table of code points: what follows the glyphs.
    pub open spec fn table(&self) -> Seq<u8> {
        self.data().subrange(512 * self.char_size(), self.data().len() as int)
    }

    /// Number of bytes of glyph data: from the end of the header to the
    /// start of the table.
    pub open spec fn glyph_bytes(&self) -> int {
        512 * self.char_size() - self.header_size()
    }

    /// The offset, in the glyph data, of the glyph for `c`: the number of
    /// groups that end before the first table item equal to the code of
    /// `c`, times the size of a glyph. `None` if no item equals the code.
    pub open spec fn char_position(&self, c: char) -> Option<int> {
        let at = first_match(self.table(), char_code(c), 0);
        if at < self.table().len() / 2 {
            Some(groups_ended(self.table(), at) * self.char_size())
        } else {
            None
        }
    }

    /// The offset, in the font file, of the glyph for `c`, if the font has
    /// one that lies wholly inside the glyph data.
    pub open spec fn glyph_start(&self, c: char) -> Option<int> {
        match self.char_position(c) {
            Some(p) => if p + self.char_size() <= self.glyph_bytes() {
                Some(self.header_size() + p)
            } else {
                None
            },
            None => None,
        }
    }

    /// Reads a font file. The second byte of the header is its length, the
    /// fourth the size of a glyph, which must not be zero; header and glyphs
    /// must lie inside the file.
    pub fn new(data: Vec<u8>) -> (r: Result<Font, FrameBufferError>)
        ensures
            r is Ok <==> data.len() >= 4 && data[3] > 0 && data[1] <= 512 * data[3] <= data.len(),
            r matches Ok(font) ==> font.wf() && font.data() == data@ && font.header_size() == data[1]
                && font.char_size() == data[3],
            r matches Err(e) ==> e == FrameBufferError::BadFont,
    {
        if data.len() < 4 {
            return Err(FrameBufferError::BadFont);
        }
        let header_size: usize = data[1] as usize;
        let char_size: usize = data[3] as usize;
        if char_size == 0 || header_size > 512 * char_size || 512 * char_size > data.len() {
            return Err(FrameBufferError::BadFont);
        }
        Ok(Font { data, header_size, char_size })
    }

    /// Number of rows of a glyph.
    pub fn char_height(&self) -> (h: usize)
        requires
            self.wf(),
        ensures
            h == self.char_size(),
            0 < h < 256,
    {
        self.char_size
    }

    /// Where in the glyph data the glyph for `c` starts. A place that no
    /// `usize` can hold is no place.
    pub fn get_char_position(&self, c: char) -> (r: Option<usize>)
        requires
            self.wf(),
        ensures
            r == (match self.char_position(c) {
                Some(p) => if p <= usize::MAX {
                    Some(p as usize)
                } else {
                    None::<usize>
                },
                None => None::<usize>,
            }),
            self.char_position(c) matches Some(p) ==> 0 <= p,
    {
        proof {
            let g = groups_ended(self.table(), first_match(self.table(), char_code(c), 0));
            let cs = self.char_size();
            lemma_groups_ended_bounds(self.table(), first_match(self.table(), char_code(c), 0));
            assert(0 <= g * cs) by (nonlinear_arith)
                requires
                    0 <= g,
                    0 <= cs,
            ;
        }
        let code: u32 = (c as u32) % 0x1_0000;
        let start: usize = 512 * self.char_size;
        let items: usize = (self.data.len() - start) / 2;
        let mut code_index: usize = 0;
        let mut i: usize = 0;
        while i < items
            invariant
                self.wf(),
                start == 512 * self.char_size,
                items == self.table().len() / 2,
                self.table().len() == self.data.len() - start,
                i <= items,
                code == char_code(c),
                code_index == groups_ended(self.table(), i as int),
                code_index <= i,
                first_match(self.table(), char_code(c), 0) == first_match(
                    self.table(),
                    char_code(c),
                    i as int,
                ),
            decreases items - i,
        {
            let low: u32 = self.data[start + 2 * i] as u32;
            let high: u32 = self.data[start + 2 * i + 1] as u32;
            let value: u32 = low + 256 * high;
            assert(value == table_item(self.table(), i as int));
            if value == 0xffff {
                code_index += 1;
            } else if value == code {
                return code_index.checked_mul(self.char_size);
            }
            i += 1;
        }
        None
    }

    /// Where in the font file the glyph for `c` starts, if the font has one.
    pub fn get_glyph_data(&self, c: char) -> (r: Option<usize>)
        requires
            self.wf(),
        ensures
            match self.glyph_start(c) {
                Some(s) => 0 <= s && r == Some(s as usize) && s + self.char_size()
                    <= self.data().len(),
                None => r is None,
            },
    {
        proof {
            if self.glyph_start(c) is Some {
                self.lemma_glyph_in_file(c);
            }
            assert(self.glyph_bytes() <= self.data.len() <= usize::MAX);
        }
        match self.get_char_position(c) {
            None => None,
            Some(char_start) => {
                let glyph_bytes: usize = 512 * self.char_size - self.header_size;
                if char_start <= glyph_bytes && self.char_size <= glyph_bytes - char_start {
                    Some(self.header_size + char_start)
                } else {
                    None
                }
            },
        }
    }

    /// Byte `row` of the glyph that starts at `start`: its pixels from left
    /// to right, highest bit first.
    pub fn glyph_row(&self, start: usize, row: usize) -> (bits: u8)
        requires
            self.wf(),
            start + row < self.data().len(),
        ensures
            bits == self.data()[start + row],
    {
        self.data[start + row]
    }
}

/// Whether the pixel in column `col` of a glyph row is set.
pub open spec fn pixel_set(bits: u8, col: int) -> bool {
    (bits as int / pow2(7 - col)) % 2 == 1
}

/// Two to the power of `e`, for the eight columns of a glyph.
pub open spec fn pow2(e: int) -> int {
    if e <= 0 {
        1
    } else if e == 1 {
        2
    } else if e == 2 {
        4
    } else if e == 3 {
        8
    } else if e == 4 {
        16
    } else if e == 5 {
        32
    } else if e == 6 {
        64
    } else {
        128
    }
}

/// The bytes of a pixel of `color`, channel by channel.
pub open spec fn pixel_bytes(format: PixelFormat, color: Color) -> Seq<u8> {
    if format == PixelFormat::Bgr {
        seq![color.b, color.g, color.r, color.a]
    } else {
        seq![color.r, color.g, color.b, color.a]
    }
}

/// The offset of the first byte of the pixel in column `x` of row `y`.
pub open spec fn pixel_offset(info: FrameBufferInfo, x: int, y: int) -> int {
    (y * info.stride + x) * info.bytes_per_pixel
}

/// What writing the pixel in column `x` of row `y` answers, in a buffer of
/// `length` bytes. The pixel is written exactly when the format is one that
/// the writer knows and the bytes of the pixel lie inside the buffer; where
/// on the screen they lie does not matter.
pub open spec fn pixel_outcome(info: FrameBufferInfo, length: int, x: int, y: int) -> Result<
    (),
    FrameBufferError,
> {
    if (info.pixel_format != PixelFormat::Rgb && info.pixel_format != PixelFormat::Bgr)
        || info.bytes_per_pixel > 4 {
        Err(FrameBufferError::UnsupportedFormat)
    } else if (y * info.stride + x + 1) * info.bytes_per_pixel > length {
        Err(FrameBufferError::OutOfBounds)
    } else {
        Ok(())
    }
}

/// `buffer` with the pixel in column `x` of row `y` set to `color`.
pub open spec fn with_pixel(buffer: Seq<u8>, info: FrameBufferInfo, x: int, y: int, color: Color) -> Seq<
    u8,
> {
    Seq::new(
        buffer.len(),
        |i: int|
            if pixel_offset(info, x, y) <= i < pixel_offset(info, x, y) + info.bytes_per_pixel {
                pixel_bytes(info.pixel_format, color)[i - pixel_offset(info, x, y)]
            } else {
                buffer[i]
            },
    )
}

/// `buffer` with the first `cells` pixels of a glyph drawn at column `x`,
/// row `y` in the text colour, the pixels counted row by row from the top
/// left. Pixels that the glyph leaves clear keep what they held.
pub open spec fn painted(
    buffer: Seq<u8>,
    info: FrameBufferInfo,
    glyph: Seq<u8>,
    x: int,
    y: int,
    cells: int,
) -> Seq<u8>
    decreases cells,
{
    if cells <= 0 {
        buffer
    } else {
        let before = painted(buffer, info, glyph, x, y, cells - 1);
        let k = cells - 1;
        if pixel_set(glyph[k / 8], k % 8) {
            with_pixel(before, info, x + k % 8, y + k / 8, text_color())
        } else {
            before
        }
    }
}

/// What drawing the first `cells` pixels of a glyph at column `x`, row `y`
/// answers: the refusal of the first pixel that the glyph sets and the
/// buffer refuses, if there is one.
pub open spec fn glyph_outcome(
    info: FrameBufferInfo,
    length: int,
    glyph: Seq<u8>,
    x: int,
    y: int,
    cells: int,
) -> Result<(), FrameBufferError>
    decreases cells,
{
    if cells <= 0 {
        Ok(())
    } else {
        let k = cells - 1;
        match glyph_outcome(info, length, glyph, x, y, k) {
            Err(e) => Err(e),
            Ok(_) => if pixel_set(glyph[k / 8], k % 8) {
                pixel_outcome(info, length, x + k % 8, y + k / 8)
            } else {
                Ok(())
            },
        }
    }
}

/// A refusal among the first pixels of a glyph is the refusal of the glyph.
pub proof fn lemma_glyph_refusal_stays(
    info: FrameBufferInfo,
    length: int,
    glyph: Seq<u8>,
    x: int,
    y: int,
    failed: int,
    cells: int,
)
    requires
        failed <= cells,
        glyph_outcome(info, length, glyph, x, y, failed) is Err,
    ensures
        glyph_outcome(info, length, glyph, x, y, cells) == glyph_outcome(
            info,
            length,
            glyph,
            x,
            y,
            failed,
        ),
    decreases cells - failed,
{
    if failed < cells {
        lemma_glyph_refusal_stays(info, length, glyph, x, y, failed, cells - 1);
    }
}

/// A glyph that can be drawn can be drawn pixel by pixel.
pub proof fn lemma_glyph_pixels_fit(
    info: FrameBufferInfo,
    length: int,
    glyph: Seq<u8>,
    x: int,
    y: int,
    cells: int,
    k: int,
)
    requires
        glyph_outcome(info, length, glyph, x, y, cells) is Ok,
        0 <= k < cells,
        pixel_set(glyph[k / 8], k % 8),
    ensures
        pixel_outcome(info, length, x + k % 8, y + k / 8) is Ok,
    decreases cells,
{
    if k < cells - 1 {
        lemma_glyph_pixels_fit(info, length, glyph, x, y, cells - 1, k);
    }
}

/// What the writer stands for.
pub struct WriterView {
    /// The bytes of the frame buffer.
    pub buffer: Seq<u8>,
    /// Column of the cursor.
    pub x: int,
    /// Row of the cursor.
    pub y: int,
    /// What the bootloader said of the frame buffer.
    pub info: FrameBufferInfo,
    /// The font.
    pub font: Font,
}

/// The glyph that `c` is drawn with: its own, or the backup glyph if the
/// font has none for it; `None` if it has neither.
pub open spec fn glyph_for(font: Font, c: char) -> Option<Seq<u8>> {
    match font.glyph_start(c) {
        Some(s) => Some(font.data().subrange(s, s + font.char_size())),
        None => match font.glyph_start(BACKUP_CHAR) {
            Some(s) => Some(font.data().subrange(s, s + font.char_size())),
            None => None,
        },
    }
}

/// The state after the screen was blanked: every byte is zero and the
/// cursor stands at the top left padding.
pub open spec fn cleared(view: WriterView) -> WriterView {
    WriterView {
        buffer: Seq::new(view.buffer.len(), |i: int| 0u8),
        x: SCREEN_PADDING as int,
        y: SCREEN_PADDING as int,
        ..view
    }
}

/// The state after a line feed: the cursor goes down by the height of a
/// glyph and the line spacing, wherever it stood, and back to the left
/// padding.
pub open spec fn line_fed(view: WriterView) -> WriterView {
    WriterView {
        x: SCREEN_PADDING as int,
        y: view.y + view.font.char_size() + LINE_SPACING,
        ..view
    }
}

/// Whether a line feed keeps the row of the cursor within what a row can
/// be.
pub open spec fn line_feed_fits(view: WriterView) -> bool {
    view.y + view.font.char_size() + LINE_SPACING <= usize::MAX
}

/// Whether a character other than a line feed or a carriage return is
/// written after a line feed: it would reach the right edge.
pub open spec fn wraps(view: WriterView) -> bool {
    view.x + CHAR_WIDTH >= view.info.width
}

/// Whether writing `c` keeps the row of the cursor within what a row can
/// be.
pub open spec fn char_fits(view: WriterView, c: char) -> bool {
    if c == '\n' {
        line_feed_fits(view)
    } else if c == '\r' {
        true
    } else {
        wraps(view) ==> line_feed_fits(view)
    }
}

/// Where a character other than a line feed or a carriage return is drawn:
/// at the cursor, after a line feed if it would reach the right edge, and on
/// a blanked screen if it would then reach the bottom padding.
pub open spec fn placed(view: WriterView) -> WriterView {
    let wrapped = if wraps(view) {
        line_fed(view)
    } else {
        view
    };
    if wrapped.y + view.font.char_size() + SCREEN_PADDING >= view.info.height {
        cleared(view)
    } else {
        wrapped
    }
}

/// What writing `c` answers. Line feed and carriage return always succeed;
/// any other character needs a glyph, and every pixel that the glyph sets
/// must be one that the buffer takes.
pub open spec fn char_outcome(view: WriterView, c: char) -> Result<(), FrameBufferError> {
    if c == '\n' || c == '\r' {
        Ok(())
    } else {
        match glyph_for(view.font, c) {
            None => Err(FrameBufferError::NoBackupGlyph),
            Some(glyph) => glyph_outcome(
                view.info,
                view.buffer.len() as int,
                glyph,
                placed(view).x,
                placed(view).y,
                8 * view.font.char_size(),
            ),
        }
    }
}

/// The state after writing `c`: a line feed moves the cursor down, a
/// carriage return moves it to the left padding, and any other character is
/// drawn where it is placed, after which the cursor moves on by the width of
/// a glyph and the letter spacing. A character that is refused changes
/// nothing.
pub open spec fn char_written(view: WriterView, c: char) -> WriterView {
    if char_outcome(view, c) is Err {
        view
    } else if c == '\n' {
        line_fed(view)
    } else if c == '\r' {
        WriterView { x: SCREEN_PADDING as int, ..view }
    } else {
        let at = placed(view);
        WriterView {
            buffer: painted(
                at.buffer,
                view.info,
                glyph_for(view.font, c).unwrap(),
                at.x,
                at.y,
                8 * view.font.char_size(),
            ),
            x: at.x + CHAR_WIDTH + LETTER_SPACING,
            ..at
        }
    }
}

/// What writing the characters of `text` one by one answers: the refusal of
/// the first character that is refused, or that would take the cursor's row
/// beyond what a row can be.
#[verifier::opaque]
pub open spec fn text_outcome(view: WriterView, text: Seq<char>) -> Result<(), FrameBufferError>
    decreases text.len(),
{
    if text.len() == 0 {
        Ok(())
    } else {
        match text_outcome(view, text.drop_last()) {
            Err(e) => Err(e),
            Ok(_) => if char_fits(text_written(view, text.drop_last()), text.last()) {
                char_outcome(text_written(view, text.drop_last()), text.last())
            } else {
                Err(FrameBufferError::CursorOverflow)
            },
        }
    }
}

/// The state after writing the characters of `text` one by one, up to the
/// first that is refused.
#[verifier::opaque]
pub open spec fn text_written(view: WriterView, text: Seq<char>) -> WriterView
    decreases text.len(),
{
    if text.len() == 0 {
        view
    } else {
        match text_outcome(view, text.drop_last()) {
            Err(e) => text_written(view, text.drop_last()),
            Ok(_) => if char_fits(text_written(view, text.drop_last()), text.last()) {
                char_written(text_written(view, text.drop_last()), text.last())
            } else {
                text_written(view, text.drop_last())
            },
        }
    }
}

/// What one more character adds to a text all of whose characters were
/// written.
pub proof fn lemma_text_step(view: WriterView, text: Seq<char>, done: int)
    requires
        0 <= done < text.len(),
        text_outcome(view, text.take(done)) is Ok,
    ensures
        text_outcome(view, text.take(0)) is Ok,
        text_written(view, text.take(0)) == view,
        text_outcome(view, text.take(done + 1)) == (if char_fits(
            text_written(view, text.take(done)),
            text[done],
        ) {
            char_outcome(text_written(view, text.take(done)), text[done])
        } else {
            Err(FrameBufferError::CursorOverflow)
        }),
        text_written(view, text.take(done + 1)) == (if char_fits(
            text_written(view, text.take(done)),
            text[done],
        ) {
            char_written(text_written(view, text.take(done)), text[done])
        } else {
            text_written(view, text.take(done))
        }),
{
    reveal(text_outcome);
    reveal(text_written);
    assert(text.take(done + 1).drop_last() =~= text.take(done));
    assert(text.take(done + 1).last() == text[done]);
}

/// Once a character of a text is refused, the refusal and the state stay as
/// they are however long the text goes on.
pub proof fn lemma_text_stops(view: WriterView, text: Seq<char>, failed: int)
    requires
        0 <= failed <= text.len(),
        text_outcome(view, text.take(failed)) is Err,
    ensures
        text_outcome(view, text) == text_outcome(view, text.take(failed)),
        text_written(view, text) == text_written(view, text.take(failed)),
    decreases text.len() - failed,
{
    reveal(text_outcome);
    reveal(text_written);
    if failed == text.len() {
        assert(text.take(failed) =~= text);
    } else {
        assert(text.drop_last().take(failed) =~= text.take(failed));
        lemma_text_stops(view, text.drop_last(), failed);
    }
}

/// Writes text to a frame buffer.
pub struct FrameBufferWriter {
    framebuffer: Vec<u8>,
    info: FrameBufferInfo,
    x_pos: usize,
    y_pos: usize,
    font: Font,
}

impl View for FrameBufferWriter {
    type V = WriterView;

    closed spec fn view(&self) -> WriterView {
        WriterView {
            buffer: self.framebuffer@,
            x: self.x_pos as int,
            y: self.y_pos as int,
            info: self.info,
            font: self.font,
        }
    }
}

/// Whether the pixel in column `col` of a glyph row is set.
fn column_set(bits: u8, col: usize) -> (set: bool)
    requires
        col < 8,
    ensures
        set == pixel_set(bits, col as int),
{
    let weight: u8 = if col == 0 {
        128
    } else if col == 1 {
        64
    } else if col == 2 {
        32
    } else if col == 3 {
        16
    } else if col == 4 {
        8
    } else if col == 5 {
        4
    } else if col == 6 {
        2
    } else {
        1
    };
    (bits / weight) % 2 == 1
}

/// What writing the pixel in column `x` of row `y` answers, and the offset
/// of its first byte when it is written.
fn locate_pixel(info: &FrameBufferInfo, length: usize, x: usize, y: usize) -> (r: Result<
    usize,
    FrameBufferError,
>)
    ensures
        match pixel_outcome(*info, length as int, x as int, y as int) {
            Ok(_) => r == Ok::<usize, FrameBufferError>(
                pixel_offset(*info, x as int, y as int) as usize,
            ) && 0 <= pixel_offset(*info, x as int, y as int) && pixel_offset(
                *info,
                x as int,
                y as int,
            ) + info.bytes_per_pixel <= length,
            Err(e) => r == Err::<usize, FrameBufferError>(e),
        },
{
    match info.pixel_format {
        PixelFormat::Rgb => {},
        PixelFormat::Bgr => {},
        _ => {
            return Err(FrameBufferError::UnsupportedFormat);
        },
    }
    let b: usize = info.bytes_per_pixel;
    if b > 4 {
        return Err(FrameBufferError::UnsupportedFormat);
    }
    if b == 0 {
        assert((y * info.stride + x + 1) * 0 == 0) by (nonlinear_arith);
        assert((y * info.stride + x) * 0 == 0) by (nonlinear_arith);
        return Ok(0);
    }
    let ghost s = info.stride as int;
    proof {
        assert(0 <= y * s) by (nonlinear_arith)
            requires
                0 <= y,
                0 <= s,
        ;
        assert((y * s + x + 1) * b >= y * s + x + 1) by (nonlinear_arith)
            requires
                b >= 1,
                y * s + x + 1 >= 0,
        ;
        assert((y * s + x + 1) * b == (y * s + x) * b + b) by (nonlinear_arith);
    }
    let rows: usize = match y.checked_mul(info.stride) {
        Some(v) => v,
        None => {
            return Err(FrameBufferError::OutOfBounds);
        },
    };
    let pixel: usize = match rows.checked_add(x) {
        Some(v) => v,
        None => {
            return Err(FrameBufferError::OutOfBounds);
        },
    };
    let offset: usize = match pixel.checked_mul(b) {
        Some(v) => v,
        None => {
            return Err(FrameBufferError::OutOfBounds);
        },
    };
    if offset > length || b > length - offset {
        return Err(FrameBufferError::OutOfBounds);
    }
    Ok(offset)
}

impl FrameBufferWriter {
    /// The invariant of the writer: its font is one that was read.
    pub closed spec fn wf(&self) -> bool {
        self.font.wf()
    }

    /// The font of a writer is one that was read.
    pub proof fn lemma_font(&self)
        requires
            self.wf(),
        ensures
            0 < self@.font.char_size() < 256,
    {
        self.font.lemma_char_size();
    }

    /// A writer on `framebuffer`, whatever the buffer holds and whatever is
    /// said of it: the buffer is blanked and the cursor stands at the top
    /// left padding.
    pub fn new(framebuffer: Vec<u8>, info: FrameBufferInfo, font: Font) -> (writer: FrameBufferWriter)
        requires
            font.wf(),
        ensures
            writer.wf(),
            writer@ == (WriterView {
                buffer: Seq::new(framebuffer.len() as nat, |i: int| 0u8),
                x: SCREEN_PADDING as int,
                y: SCREEN_PADDING as int,
                info,
                font,
            }),
    {
        let mut writer = FrameBufferWriter { framebuffer, info, x_pos: 0, y_pos: 0, font };
        writer.clear();
        writer
    }

    /// Width of the visible part of the screen in pixels.
    pub fn width(&self) -> (w: usize)
        ensures
            w == self@.info.width,
    {
        self.info.width
    }

    /// Height of the screen in pixels.
    pub fn height(&self) -> (h: usize)
        ensures
            h == self@.info.height,
    {
        self.info.height
    }

    /// The bytes of the frame buffer.
    pub fn buffer(&self) -> (bytes: &Vec<u8>)
        ensures
            bytes@ == self@.buffer,
    {
        &self.framebuffer
    }

    /// Column and row of the cursor.
    pub fn cursor(&self) -> (at: (usize, usize))
        ensures
            at.0 == self@.x,
            at.1 == self@.y,
    {
        (self.x_pos, self.y_pos)
    }

    /// Whether a line feed keeps the row of the cursor within what a row
    /// can be.
    fn line_feed_fits(&self) -> (b: bool)
        requires
            self.wf(),
        ensures
            b == line_feed_fits(self@),
    {
        self.font.char_height() + LINE_SPACING <= usize::MAX - self.y_pos
    }

    /// Whether a character other than a line feed or a carriage return
    /// would reach the right edge.
    fn wraps(&self) -> (b: bool)
        ensures
            b == wraps(self@),
    {
        self.info.width < CHAR_WIDTH || self.x_pos >= self.info.width - CHAR_WIDTH
    }

    /// Whether writing `c` keeps the row of the cursor within what a row
    /// can be. `write_char` asks for it.
    pub fn fits(&self, c: char) -> (b: bool)
        requires
            self.wf(),
        ensures
            b == char_fits(self@, c),
    {
        if c == '\n' {
            self.line_feed_fits()
        } else if c == '\r' {
            true
        } else {
            !self.wraps() || self.line_feed_fits()
        }
    }

    /// The cursor goes down by one line and back to the left padding.
    fn newline(&mut self)
        requires
            old(self).wf(),
            line_feed_fits(old(self)@),
        ensures
            final(self).wf(),
            final(self)@ == line_fed(old(self)@),
    {
        self.y_pos = self.y_pos + (self.font.char_height() + LINE_SPACING);
        self.carriage_return();
    }

    /// The cursor goes back to the left padding.
    fn carriage_return(&mut self)
        requires
            old(self).wf(),
        ensures
            final(self).wf(),
            final(self)@ == (WriterView { x: SCREEN_PADDING as int, ..old(self)@ }),
    {
        self.x_pos = SCREEN_PADDING;
    }

    /// Blanks the screen and puts the cursor at the top left padding.
    pub fn clear(&mut self)
        requires
            old(self).wf(),
        ensures
            final(self).wf(),
            final(self)@ == cleared(old(self)@),
    {
        self.x_pos = SCREEN_PADDING;
        self.y_pos = SCREEN_PADDING;
        let mut i: usize = 0;
        while i < self.framebuffer.len()
            invariant
                i <= self.framebuffer.len(),
                self.framebuffer.len() == old(self).framebuffer.len(),
                self.info == old(self).info,
                self.font == old(self).font,
                self.x_pos == SCREEN_PADDING,
                self.y_pos == SCREEN_PADDING,
                forall|k: int| 0 <= k < i ==> self.framebuffer[k] == 0,
            decreases self.framebuffer.len() - i,
        {
            self.framebuffer.set(i, 0);
            i += 1;
        }
        assert(self@.buffer =~= cleared(old(self)@).buffer);
    }

    /// Sets the pixel in column `x` of row `y` to `color`. The pixel is
    /// written whenever its bytes lie inside the buffer, on the visible part
    /// of the screen or not. A pixel whose bytes do not, and any pixel in a
    /// format that the writer does not know, is refused and nothing is
    /// written.
    pub fn write_pixel(&mut self, x: usize, y: usize, color: Color) -> (r: Result<
        (),
        FrameBufferError,
    >)
        requires
            old(self).wf(),
        ensures
            final(self).wf(),
            r == pixel_outcome(
                old(self)@.info,
                old(self)@.buffer.len() as int,
                x as int,
                y as int,
            ),
            r is Ok ==> final(self)@ == (WriterView {
                buffer: with_pixel(old(self)@.buffer, old(self)@.info, x as int, y as int, color),
                ..old(self)@
            }),
            r is Err ==> final(self)@ == old(self)@,
    {
        let byte_offset: usize = match locate_pixel(&self.info, self.framebuffer.len(), x, y) {
            Ok(offset) => offset,
            Err(e) => {
                return Err(e);
            },
        };
        let bytes_per_pixel: usize = self.info.bytes_per_pixel;
        let channels: [u8; 4] = match self.info.pixel_format {
            PixelFormat::Bgr => [color.b, color.g, color.r, color.a],
            _ => [color.r, color.g, color.b, color.a],
        };
        let mut k: usize = 0;
        while k < bytes_per_pixel
            invariant
                k <= bytes_per_pixel <= 4,
                byte_offset + bytes_per_pixel <= self.framebuffer.len(),
                self.framebuffer.len() == old(self).framebuffer.len(),
                self.info == old(self).info,
                self.font == old(self).font,
                self.x_pos == old(self).x_pos,
                self.y_pos == old(self).y_pos,
                channels@ == pixel_bytes(self.info.pixel_format, color),
                forall|i: int|
                    0 <= i < self.framebuffer.len() ==> self.framebuffer[i] == (if byte_offset <= i
                        < byte_offset + k {
                        channels[i - byte_offset]
                    } else {
                        old(self).framebuffer[i]
                    }),
            decreases bytes_per_pixel - k,
        {
            self.framebuffer.set(byte_offset + k, channels[k]);
            k += 1;
        }
        assert(self@.buffer =~= with_pixel(
            old(self)@.buffer,
            old(self)@.info,
            x as int,
            y as int,
            color,
        ));
        Ok(())
    }

    /// Where in the font file the glyph starts that `c` is drawn with.
    fn glyph_of(&self, c: char) -> (r: Option<usize>)
        requires
            self.wf(),
        ensures
            match glyph_for(self@.font, c) {
                Some(glyph) => r is Some && r.unwrap() + self@.font.char_size()
                    <= self@.font.data().len() && glyph == self@.font.data().subrange(
                    r.unwrap() as int,
                    r.unwrap() + self@.font.char_size(),
                ),
                None => r is None,
            },
    {
        match self.font.get_glyph_data(c) {
            Some(s) => Some(s),
            None => self.font.get_glyph_data(BACKUP_CHAR),
        }
    }

    /// What drawing the glyph that starts at `start` in the font file
    /// answers, at column `x`, row `y`.
    fn check_glyph(&self, start: usize, x: usize, y: usize) -> (r: Result<(), FrameBufferError>)
        requires
            self.wf(),
            start + self@.font.char_size() <= self@.font.data().len(),
            x + 8 <= usize::MAX,
            y + self@.font.char_size() <= usize::MAX,
        ensures
            r == glyph_outcome(
                self@.info,
                self@.buffer.len() as int,
                self@.font.data().subrange(start as int, start + self@.font.char_size()),
                x as int,
                y as int,
                8 * self@.font.char_size(),
            ),
    {
        let char_height: usize = self.font.char_height();
        let ghost glyph = self@.font.data().subrange(start as int, start + char_height);
        let ghost length = self@.buffer.len() as int;
        let mut row: usize = 0;
        while row < char_height
            invariant
                self.wf(),
                row <= char_height,
                char_height == self@.font.char_size(),
                start + char_height <= self@.font.data().len(),
                x + 8 <= usize::MAX,
                y + char_height <= usize::MAX,
                glyph == self@.font.data().subrange(start as int, start + char_height),
                length == self@.buffer.len(),
                glyph_outcome(self@.info, length, glyph, x as int, y as int, 8 * row) is Ok,
            decreases char_height - row,
        {
            let bits: u8 = self.font.glyph_row(start, row);
            let mut col: usize = 0;
            while col < 8
                invariant
                    self.wf(),
                    col <= 8,
                    row < char_height,
                    char_height == self@.font.char_size(),
                    x + 8 <= usize::MAX,
                    y + char_height <= usize::MAX,
                    start + char_height <= self@.font.data().len(),
                    glyph == self@.font.data().subrange(start as int, start + char_height),
                    bits == glyph[row as int],
                    length == self@.buffer.len(),
                    glyph_outcome(self@.info, length, glyph, x as int, y as int, 8 * row + col)
                        is Ok,
                decreases 8 - col,
            {
                proof {
                    let k = 8 * row + col;
                    assert(k / 8 == row && k % 8 == col);
                }
                if column_set(bits, col) {
                    match locate_pixel(&self.info, self.framebuffer.len(), x + col, y + row) {
                        Ok(_) => {},
                        Err(e) => {
                            proof {
                                let k = 8 * row + col;
                                assert(glyph_outcome(
                                    self@.info,
                                    length,
                                    glyph,
                                    x as int,
                                    y as int,
                                    k + 1,
                                ) == Err::<(), FrameBufferError>(e));
                                lemma_glyph_refusal_stays(
                                    self@.info,
                                    length,
                                    glyph,
                                    x as int,
                                    y as int,
                                    k + 1,
                                    8 * char_height,
                                );
                            }
                            return Err(e);
                        },
                    }
                }
                col += 1;
            }
            row += 1;
        }
        Ok(())
    }

    /// Draws the glyph that starts at `start` in the font file at the
    /// cursor and moves the cursor on.
    fn render_char(&mut self, start: usize)
        requires
            old(self).wf(),
            start + old(self)@.font.char_size() <= old(self)@.font.data().len(),
            old(self)@.x + CHAR_WIDTH + LETTER_SPACING <= usize::MAX,
            old(self)@.y + old(self)@.font.char_size() <= usize::MAX,
            glyph_outcome(
                old(self)@.info,
                old(self)@.buffer.len() as int,
                old(self)@.font.data().subrange(start as int, start + old(self)@.font.char_size()),
                old(self)@.x,
                old(self)@.y,
                8 * old(self)@.font.char_size(),
            ) is Ok,
        ensures
            final(self).wf(),
            final(self)@ == (WriterView {
                buffer: painted(
                    old(self)@.buffer,
                    old(self)@.info,
                    old(self)@.font.data().subrange(
                        start as int,
                        start + old(self)@.font.char_size(),
                    ),
                    old(self)@.x,
                    old(self)@.y,
                    8 * old(self)@.font.char_size(),
                ),
                x: old(self)@.x + CHAR_WIDTH + LETTER_SPACING,
                ..old(self)@
            }),
    {
        let char_height: usize = self.font.char_height();
        let ghost glyph = self@.font.data().subrange(start as int, start + char_height);
        let ghost length = self@.buffer.len() as int;
        let x0: usize = self.x_pos;
        let y0: usize = self.y_pos;
        let mut row: usize = 0;
        while row < char_height
            invariant
                self.wf(),
                row <= char_height,
                char_height == self@.font.char_size(),
                self@.info == old(self)@.info,
                self@.font == old(self)@.font,
                self@.x == x0 == old(self)@.x,
                self@.y == y0 == old(self)@.y,
                x0 + 9 <= usize::MAX,
                y0 + char_height <= usize::MAX,
                start + char_height <= self@.font.data().len(),
                glyph == self@.font.data().subrange(start as int, start + char_height),
                length == self@.buffer.len(),
                glyph_outcome(self@.info, length, glyph, x0 as int, y0 as int, 8 * char_height)
                    is Ok,
                self@.buffer == painted(
                    old(self)@.buffer,
                    self@.info,
                    glyph,
                    x0 as int,
                    y0 as int,
                    8 * row,
                ),
            decreases char_height - row,
        {
            let bits: u8 = self.font.glyph_row(start, row);
            let mut col: usize = 0;
            while col < 8
                invariant
                    self.wf(),
                    col <= 8,
                    row < char_height,
                    char_height == self@.font.char_size(),
                    self@.info == old(self)@.info,
                    self@.font == old(self)@.font,
                    self@.x == x0 == old(self)@.x,
                    self@.y == y0 == old(self)@.y,
                    x0 + 9 <= usize::MAX,
                    y0 + char_height <= usize::MAX,
                    bits == glyph[row as int],
                    length == self@.buffer.len(),
                    glyph_outcome(self@.info, length, glyph, x0 as int, y0 as int, 8 * char_height)
                        is Ok,
                    self@.buffer == painted(
                        old(self)@.buffer,
                        self@.info,
                        glyph,
                        x0 as int,
                        y0 as int,
                        8 * row + col,
                    ),
                decreases 8 - col,
            {
                let set = column_set(bits, col);
                proof {
                    let k = 8 * row + col;
                    assert(k / 8 == row && k % 8 == col);
                    if set {
                        lemma_glyph_pixels_fit(
                            self@.info,
                            length,
                            glyph,
                            x0 as int,
                            y0 as int,
                            8 * char_height,
                            k,
                        );
                    }
                }
                if set {
                    let _ = self.write_pixel(x0 + col, y0 + row, text_color());
                }
                col += 1;
            }
            row += 1;
        }
        self.x_pos = self.x_pos + CHAR_WIDTH + LETTER_SPACING;
    }

    /// Writes one character at the cursor. A character whose glyph the
    /// buffer cannot take, or that has no glyph at all, is refused and
    /// nothing changes.
    pub fn write_char(&mut self, c: char) -> (r: Result<(), FrameBufferError>)
        requires
            old(self).wf(),
            char_fits(old(self)@, c),
        ensures
            final(self).wf(),
            r == char_outcome(old(self)@, c),
            final(self)@ == char_written(old(self)@, c),
    {
        if c == '\n' {
            self.newline();
            return Ok(());
        }
        if c == '\r' {
            self.carriage_return();
            return Ok(());
        }
        let char_height: usize = self.font.char_height();
        let wraps = self.wraps();
        let (x, wrapped_y) = if wraps {
            (SCREEN_PADDING, self.y_pos + (char_height + LINE_SPACING))
        } else {
            (self.x_pos, self.y_pos)
        };
        let clears = self.info.height < char_height + SCREEN_PADDING || wrapped_y
            >= self.info.height - (char_height + SCREEN_PADDING);
        let (x, y) = if clears {
            (SCREEN_PADDING, SCREEN_PADDING)
        } else {
            (x, wrapped_y)
        };
        assert(x == placed(self@).x && y == placed(self@).y);
        let start: usize = match self.glyph_of(c) {
            Some(start) => start,
            None => {
                return Err(FrameBufferError::NoBackupGlyph);
            },
        };
        match self.check_glyph(start, x, y) {
            Ok(()) => {},
            Err(e) => {
                return Err(e);
            },
        }
        if clears {
            self.clear();
        } else if wraps {
            self.newline();
        }
        assert(self@ == placed(old(self)@));
        self.render_char(start);
        Ok(())
    }

    /// Writes the characters of `text` one by one and stops at the first
    /// that is refused.
    pub fn write_str(&mut self, text: &str) -> (r: Result<(), FrameBufferError>)
        requires
            old(self).wf(),
        ensures
            final(self).wf(),
            r == text_outcome(old(self)@, text@),
            final(self)@ == text_written(old(self)@, text@),
    {
        proof {
            reveal(text_outcome);
            reveal(text_written);
            assert(text_outcome(old(self)@, text@.take(0)) is Ok);
            assert(text_written(old(self)@, text@.take(0)) == old(self)@);
        }
        for c in it: text.chars()
            invariant
                self.wf(),
                it.seq() == text@,
                text_outcome(old(self)@, text@.take(it.index() as int)) is Ok,
                self@ == text_written(old(self)@, text@.take(it.index() as int)),
        {
            proof {
                lemma_text_step(old(self)@, text@, it.index() as int);
            }
            if !self.fits(c) {
                proof {
                    lemma_text_stops(old(self)@, text@, it.index() + 1);
                }
                return Err(FrameBufferError::CursorOverflow);
            }
            match self.write_char(c) {
                Ok(()) => {},
                Err(e) => {
                    proof {
                        lemma_text_stops(old(self)@, text@, it.index() + 1);
                    }
                    return Err(e);
                },
            }
        }
        assert(text@.take(text@.len() as int) =~= text@);
        Ok(())
    }
}

/// Writes `text` to the screen at the cursor and stops at the first
/// character that is refused.
pub fn _print(writer: &mut FrameBufferWriter, text: &str) -> (r: Result<(), FrameBufferError>)
    requires
        old(writer).wf(),
    ensures
        final(writer).wf(),
        r == text_outcome(old(writer)@, text@),
        final(writer)@ == text_written(old(writer)@, text@),
{
    writer.write_str(text)
}

} // verus!
