use kernel::frame_buffer::{
    _print, text_color, Color, Font, FrameBufferError, FrameBufferInfo, FrameBufferWriter,
    PixelFormat, BACKUP_CHAR,
};

/// A font of two-row glyphs: glyph 0 for `A`, glyph 1 for `?`, glyph 2 for
/// `B` and `b`, glyph 3, which sets no pixel, for the space.
fn font_bytes() -> Vec<u8> {
    let mut data = vec![0u8; 1024];
    data[0] = 0x36;
    data[1] = 0x04;
    data[3] = 2;
    data[4] = 0b1000_0001;
    data[5] = 0b0100_0010;
    data[6] = 0xff;
    data[7] = 0x00;
    data[8] = 0b0000_0001;
    data[9] = 0b1000_0000;
    for item in [0x41u16, 0xffff, 0x3f, 0xffff, 0x42, 0x62, 0xffff, 0x20, 0xffff] {
        data.extend_from_slice(&item.to_le_bytes());
    }
    data
}

fn info(width: usize, height: usize, format: PixelFormat, bytes_per_pixel: usize) -> FrameBufferInfo {
    let stride = width + 4;
    FrameBufferInfo {
        byte_len: stride * height * bytes_per_pixel,
        width,
        height,
        pixel_format: format,
        bytes_per_pixel,
        stride,
    }
}

fn writer_on(info: FrameBufferInfo, length: usize) -> FrameBufferWriter {
    FrameBufferWriter::new(vec![0x55; length], info, Font::new(font_bytes()).unwrap())
}

fn writer(width: usize, height: usize) -> FrameBufferWriter {
    let info = info(width, height, PixelFormat::Rgb, 4);
    writer_on(info, info.byte_len)
}

/// The pixels that are not black, as (column, row), in row-major order.
fn lit(writer: &FrameBufferWriter, width: usize, height: usize) -> Vec<(usize, usize)> {
    let stride = width + 4;
    let mut pixels = Vec::new();
    for y in 0..height {
        for x in 0..stride {
            let at = (y * stride + x) * 4;
            if writer.buffer()[at..at + 4] != [0, 0, 0, 0] {
                assert_eq!(writer.buffer()[at..at + 4], [243, 98, 95, 0]);
                pixels.push((x, y));
            }
        }
    }
    pixels
}

#[test]
fn font_layout() {
    let font = Font::new(font_bytes()).unwrap();
    assert_eq!(font.char_height(), 2);
    assert_eq!(font.get_char_position('A'), Some(0));
    assert_eq!(font.get_char_position('?'), Some(2));
    assert_eq!(font.get_char_position('B'), Some(4));
    assert_eq!(font.get_char_position('b'), Some(4));
    assert_eq!(font.get_char_position('C'), None);
    // The end-of-group mark is no code point.
    assert_eq!(font.get_char_position('\u{ffff}'), None);
    // Code points are looked up by their low 16 bits.
    assert_eq!(font.get_char_position('\u{10041}'), Some(0));
    assert_eq!(font.get_glyph_data('A'), Some(4));
    assert_eq!(font.get_glyph_data('b'), Some(8));
    assert_eq!(font.get_glyph_data('C'), None);
    assert_eq!(font.glyph_row(4, 1), 0b0100_0010);
    assert_eq!(BACKUP_CHAR, '?');
}

#[test]
fn glyph_beyond_the_glyph_data_is_missing() {
    // 510 empty groups put `Z` into group 510, which still lies inside
    // the glyph data; one more group and it does not.
    let mut data = vec![0u8; 1024];
    data[1] = 4;
    data[3] = 2;
    for _ in 0..509 {
        data.extend_from_slice(&0xffffu16.to_le_bytes());
    }
    data.extend_from_slice(&0x5au16.to_le_bytes());
    data.extend_from_slice(&0xffffu16.to_le_bytes());
    data.extend_from_slice(&0x59u16.to_le_bytes());
    let font = Font::new(data).unwrap();
    assert_eq!(font.get_char_position('Z'), Some(1018));
    assert_eq!(font.get_glyph_data('Z'), Some(1022));
    assert_eq!(font.get_char_position('Y'), Some(1020));
    assert_eq!(font.get_glyph_data('Y'), None);
}

#[test]
fn bad_fonts_are_refused() {
    assert!(matches!(Font::new(vec![0x36, 4, 0]), Err(FrameBufferError::BadFont)));
    let mut no_rows = font_bytes();
    no_rows[3] = 0;
    assert!(matches!(Font::new(no_rows), Err(FrameBufferError::BadFont)));
    let mut short = font_bytes();
    short.truncate(1023);
    assert!(matches!(Font::new(short), Err(FrameBufferError::BadFont)));
    let mut long_header = vec![0u8; 4];
    long_header[1] = 255;
    long_header[3] = 1;
    long_header.resize(512, 0);
    assert!(Font::new(long_header).is_ok());
}

#[test]
fn any_buffer_with_any_info_makes_a_writer() {
    let w = writer(20, 16);
    assert!(w.buffer().iter().all(|b| *b == 0));
    assert_eq!(w.buffer().len(), 24 * 16 * 4);
    assert_eq!(w.cursor(), (5, 5));
    assert_eq!((w.width(), w.height()), (20, 16));
    // A format that cannot be drawn in, a buffer that does not fit what is
    // said of it, a screen without room for a character, no buffer at all.
    let odd = FrameBufferInfo {
        byte_len: 1 << 40,
        width: 3,
        height: 0,
        pixel_format: PixelFormat::Unknown,
        bytes_per_pixel: 9,
        stride: 1,
    };
    for length in [0usize, 1, 64, 1000] {
        let w = writer_on(odd, length);
        assert_eq!(w.buffer(), &vec![0u8; length]);
        assert_eq!(w.cursor(), (5, 5));
        assert_eq!((w.width(), w.height()), (3, 0));
    }
}

#[test]
fn pixel_in_a_small_buffer() {
    let info = FrameBufferInfo {
        byte_len: 64,
        width: 4,
        height: 4,
        pixel_format: PixelFormat::Bgr,
        bytes_per_pixel: 4,
        stride: 4,
    };
    let mut w = writer_on(info, 64);
    assert_eq!(w.write_pixel(1, 2, Color { r: 1, g: 2, b: 3, a: 0 }), Ok(()));
    let mut expected = vec![0u8; 64];
    expected[36..40].copy_from_slice(&[3, 2, 1, 0]);
    assert_eq!(w.buffer(), &expected);
    assert_eq!(w.cursor(), (5, 5));
    // The last pixel that the buffer holds, and the first that it does not.
    assert_eq!(w.write_pixel(3, 3, Color { r: 9, g: 8, b: 7, a: 6 }), Ok(()));
    assert_eq!(w.buffer()[60..64], [7, 8, 9, 6]);
    assert_eq!(w.write_pixel(0, 4, text_color()), Err(FrameBufferError::OutOfBounds));
    assert_eq!(w.write_pixel(4, 3, text_color()), Err(FrameBufferError::OutOfBounds));
    assert_eq!(w.write_pixel(usize::MAX, usize::MAX, text_color()), Err(FrameBufferError::OutOfBounds));
    assert_eq!(w.write_pixel(0, usize::MAX, text_color()), Err(FrameBufferError::OutOfBounds));
    expected[60..64].copy_from_slice(&[7, 8, 9, 6]);
    assert_eq!(w.buffer(), &expected);
}

#[test]
fn pixel_outside_the_visible_part_is_written_if_the_buffer_holds_it() {
    let color = Color { r: 1, g: 2, b: 3, a: 4 };
    let mut w = writer(20, 16);
    // Column 22 lies in the padding between width and stride.
    assert_eq!(w.write_pixel(22, 1, color), Ok(()));
    let at = (1 * 24 + 22) * 4;
    assert_eq!(w.buffer()[at..at + 4], [1, 2, 3, 4]);
    // Column 24 of row 0 is column 0 of row 1.
    assert_eq!(w.write_pixel(24, 0, color), Ok(()));
    assert_eq!(w.buffer()[24 * 4..25 * 4], [1, 2, 3, 4]);
    assert_eq!(w.buffer().iter().filter(|b| **b != 0).count(), 8);
    // A buffer longer than its rows holds rows below the height.
    let info = info(20, 16, PixelFormat::Rgb, 4);
    let mut long = writer_on(info, info.byte_len + 24 * 4);
    assert_eq!(long.write_pixel(23, 16, color), Ok(()));
    assert_eq!(long.write_pixel(0, 17, color), Err(FrameBufferError::OutOfBounds));
}

#[test]
fn pixels_are_written_in_the_order_of_the_format() {
    let color = Color { r: 1, g: 2, b: 3, a: 4 };
    let mut w = writer(20, 16);
    assert_eq!(w.write_pixel(2, 1, color), Ok(()));
    let at = (1 * 24 + 2) * 4;
    assert_eq!(w.buffer()[at..at + 4], [1, 2, 3, 4]);
    assert_eq!(w.buffer().iter().filter(|b| **b != 0).count(), 4);
    assert_eq!(w.cursor(), (5, 5));

    let bgr = info(20, 16, PixelFormat::Bgr, 3);
    let mut w = writer_on(bgr, bgr.byte_len);
    assert_eq!(w.write_pixel(19, 15, color), Ok(()));
    let at = (15 * 24 + 19) * 3;
    assert_eq!(w.buffer()[at..at + 3], [3, 2, 1]);
    assert_eq!(w.buffer().iter().filter(|b| **b != 0).count(), 3);
    assert_eq!(text_color(), Color { r: 243, g: 98, b: 95, a: 0 });
}

#[test]
fn unknown_formats_are_refused_when_a_pixel_is_written() {
    let color = Color { r: 1, g: 2, b: 3, a: 4 };
    for format in [PixelFormat::U8, PixelFormat::Unknown] {
        let info = info(20, 16, format, 4);
        let mut w = writer_on(info, info.byte_len);
        assert_eq!(w.write_pixel(0, 0, color), Err(FrameBufferError::UnsupportedFormat));
        // The format is looked at before the place.
        assert_eq!(w.write_pixel(0, 99, color), Err(FrameBufferError::UnsupportedFormat));
        assert!(w.buffer().iter().all(|b| *b == 0));
    }
    let wide = FrameBufferInfo { bytes_per_pixel: 5, ..info(20, 16, PixelFormat::Rgb, 4) };
    let mut w = writer_on(wide, wide.byte_len);
    assert_eq!(w.write_pixel(0, 0, color), Err(FrameBufferError::UnsupportedFormat));
    // A pixel without bytes takes no room and writes nothing.
    let none = FrameBufferInfo { bytes_per_pixel: 0, ..info(20, 16, PixelFormat::Rgb, 4) };
    let mut w = writer_on(none, 8);
    assert_eq!(w.write_pixel(1000, 1000, color), Ok(()));
    assert_eq!(w.buffer(), &vec![0u8; 8]);
}

#[test]
fn characters_are_drawn_at_the_cursor() {
    let mut w = writer(40, 40);
    assert_eq!(w.write_char('A'), Ok(()));
    assert_eq!(lit(&w, 40, 40), vec![(5, 5), (12, 5), (6, 6), (11, 6)]);
    assert_eq!(w.cursor(), (14, 5));
    assert_eq!(w.write_char('b'), Ok(()));
    assert_eq!(
        lit(&w, 40, 40),
        vec![(5, 5), (12, 5), (21, 5), (6, 6), (11, 6), (14, 6)]
    );
    assert_eq!(w.cursor(), (23, 5));
}

#[test]
fn missing_glyph_is_drawn_as_the_backup() {
    let mut w = writer(40, 40);
    assert_eq!(w.write_char('C'), Ok(()));
    let row: Vec<(usize, usize)> = (5..13).map(|x| (x, 5)).collect();
    assert_eq!(lit(&w, 40, 40), row);
    assert_eq!(w.cursor(), (14, 5));
}

#[test]
fn character_without_glyph_or_backup_is_refused() {
    let mut blind = font_bytes();
    blind[1024 + 4] = 0x40;
    let info = info(40, 40, PixelFormat::Rgb, 4);
    let mut w = FrameBufferWriter::new(vec![0; info.byte_len], info, Font::new(blind).unwrap());
    assert_eq!(w.write_char('A'), Ok(()));
    assert_eq!(w.write_char('C'), Err(FrameBufferError::NoBackupGlyph));
    assert_eq!(w.write_char('?'), Err(FrameBufferError::NoBackupGlyph));
    assert_eq!(w.cursor(), (14, 5));
    assert_eq!(lit(&w, 40, 40).len(), 4);
    assert_eq!(w.write_char('\n'), Ok(()));
}

#[test]
fn line_feed_always_goes_down_by_one_line() {
    let mut w = writer(40, 40);
    assert_eq!(w.write_char('A'), Ok(()));
    assert_eq!(w.write_char('\r'), Ok(()));
    assert_eq!(w.cursor(), (5, 5));
    assert_eq!(w.write_char('A'), Ok(()));
    assert_eq!(w.write_char('\n'), Ok(()));
    assert_eq!(w.cursor(), (5, 10));
    assert_eq!(w.write_char('A'), Ok(()));
    assert_eq!(
        lit(&w, 40, 40),
        vec![(5, 5), (12, 5), (6, 6), (11, 6), (5, 10), (12, 10), (6, 11), (11, 11)]
    );
    // The bottom edge does not stop the cursor.
    for line in 1..=100usize {
        assert!(w.fits('\n'));
        assert_eq!(w.write_char('\n'), Ok(()));
        assert_eq!(w.cursor(), (5, 10 + 5 * line));
    }
    assert_eq!(w.cursor(), (5, 510));
    assert_eq!(lit(&w, 40, 40).len(), 8);
    // The next character finds no room below and starts over at the top.
    assert_eq!(w.write_char('b'), Ok(()));
    assert_eq!(lit(&w, 40, 40), vec![(12, 5), (5, 6)]);
    assert_eq!(w.cursor(), (14, 5));
}

#[test]
fn text_wraps_at_the_right_edge() {
    let mut w = writer(40, 40);
    assert_eq!(_print(&mut w, "AAA"), Ok(()));
    assert_eq!(w.cursor(), (32, 5));
    // 32 + 8 reaches the edge: the fourth character goes to the next line.
    assert!(w.fits('A'));
    assert_eq!(w.write_char('A'), Ok(()));
    assert_eq!(w.cursor(), (14, 10));
    assert_eq!(lit(&w, 40, 40).len(), 16);
    assert!(lit(&w, 40, 40).contains(&(5, 10)));
}

#[test]
fn full_screen_starts_over() {
    let mut w = writer(20, 16);
    assert_eq!(w.write_char('A'), Ok(()));
    assert_eq!(w.cursor(), (14, 5));
    // The next character wraps to row 10, which is too close to the bottom:
    // the screen is cleared and the character drawn at the top.
    assert_eq!(w.write_char('b'), Ok(()));
    assert_eq!(lit(&w, 20, 16), vec![(12, 5), (5, 6)]);
    assert_eq!(w.cursor(), (14, 5));
    w.clear();
    assert!(w.buffer().iter().all(|b| *b == 0));
    assert_eq!(w.cursor(), (5, 5));
}

#[test]
fn character_that_the_buffer_cannot_take_is_refused() {
    // Rows of 8 pixels: a glyph at column 5 runs into the next row, which
    // the buffer holds, so it is drawn there.
    let narrow = FrameBufferInfo {
        byte_len: 8 * 8 * 4,
        width: 8,
        height: 8,
        pixel_format: PixelFormat::Rgb,
        bytes_per_pixel: 4,
        stride: 8,
    };
    let mut w = writer_on(narrow, narrow.byte_len);
    assert_eq!(w.write_char('A'), Ok(()));
    assert_eq!(w.cursor(), (14, 5));
    let a = |x: usize, y: usize| (y * 8 + x) * 4;
    for at in [a(5, 5), a(12, 5), a(6, 6), a(11, 6)] {
        assert_eq!(w.buffer()[at..at + 4], [243, 98, 95, 0]);
    }
    // A buffer of six rows does not hold row 6 from column 8 on: the glyph
    // of `A` sets (11, 6), and nothing of it is drawn.
    let mut short = writer_on(narrow, 6 * 8 * 4 + 8 * 4);
    assert_eq!(short.write_char('A'), Err(FrameBufferError::OutOfBounds));
    assert!(short.buffer().iter().all(|b| *b == 0));
    assert_eq!(short.cursor(), (5, 5));
    // The glyph of the space sets no pixel and needs no room.
    assert_eq!(short.write_char(' '), Ok(()));
    assert_eq!(short.cursor(), (14, 5));
    // Neither does it need a format that can be drawn in.
    let unknown = info(40, 40, PixelFormat::Unknown, 4);
    let mut w = writer_on(unknown, unknown.byte_len);
    assert_eq!(w.write_char(' '), Ok(()));
    assert_eq!(w.write_char('A'), Err(FrameBufferError::UnsupportedFormat));
    assert_eq!(w.cursor(), (14, 5));
}

#[test]
fn strings_are_written_character_by_character() {
    let mut a = writer(40, 40);
    let mut b = writer(40, 40);
    assert_eq!(a.write_str("Ab\nB?\r\u{e9}"), Ok(()));
    for c in "Ab\nB?\r\u{e9}".chars() {
        assert_eq!(b.write_char(c), Ok(()));
    }
    assert_eq!(a.buffer(), b.buffer());
    assert_eq!(a.cursor(), b.cursor());
    assert_eq!(a.cursor(), (14, 10));
    let mut c = writer(40, 40);
    assert_eq!(c.write_str(""), Ok(()));
    assert_eq!(c.cursor(), (5, 5));
}

#[test]
fn string_stops_at_the_first_refusal() {
    let unknown = info(40, 40, PixelFormat::U8, 1);
    let mut w = writer_on(unknown, unknown.byte_len);
    assert_eq!(w.write_str(" \n A\nB"), Err(FrameBufferError::UnsupportedFormat));
    // Space, line feed and space were written; `A` and what follows were not.
    assert_eq!(w.cursor(), (14, 10));
    assert!(w.buffer().iter().all(|b| *b == 0));
}
