use fb_console::color::Rgb;
use fb_console::font::glyph_rows;
use fb_console::layout::PixelFormat;
use fb_console::layout::SurfaceInfo;
use fb_console::surface::Surface;
use fb_console::writer::TextWriter;
use fb_console::writer::_print;

const WHITE: [u8; 4] = [255, 255, 255, 0];
const BLACK: [u8; 4] = [0, 0, 0, 0];

fn rgb_surface(width: usize, height: usize) -> Surface {
    let info = SurfaceInfo {
        width,
        height,
        stride: width,
        bytes_per_pixel: 4,
        pixel_format: PixelFormat::Rgb,
    };
    Surface::new(info, vec![0x55; width * height * 4]).unwrap()
}

fn console(width: usize, height: usize, cell_w: u32, cell_h: u32) -> TextWriter {
    let mut tw = TextWriter::uninit();
    tw.init(rgb_surface(width, height));
    tw.set_cell_size(cell_w, cell_h);
    tw
}

fn pixel(tw: &TextWriter, x: u32, y: u32) -> Vec<u8> {
    tw.surface().unwrap().pixel_bytes(x, y).unwrap()
}

fn picture(tw: &TextWriter) -> Vec<u8> {
    tw.surface().unwrap().bytes().to_vec()
}

/// Whether the cell shows exactly the glyph of `ch`, white on black, at
/// scale one, and nothing else.
fn cell_shows(tw: &TextWriter, col: u32, row: u32, cell_w: u32, cell_h: u32, ch: char) -> bool {
    let rows = glyph_rows(ch);
    for dy in 0..cell_h {
        for dx in 0..cell_w {
            let on = dx < 8 && dy < 8 && (rows[dy as usize] >> dx) & 1 != 0;
            let want = if on { WHITE } else { BLACK };
            if pixel(tw, col * cell_w + dx, row * cell_h + dy) != want {
                return false;
            }
        }
    }
    true
}

fn cell_is_black(tw: &TextWriter, col: u32, row: u32, cell_w: u32, cell_h: u32) -> bool {
    cell_shows(tw, col, row, cell_w, cell_h, ' ')
}

#[test]
fn a_new_console_is_unbound() {
    let tw = TextWriter::uninit();
    assert!(!tw.is_init());
    assert!(tw.surface().is_none());
    assert_eq!(tw.cursor(), (0, 0));
    assert_eq!(tw.cols(), 0);
    assert_eq!(tw.rows(), 0);
}

#[test]
fn an_unbound_console_ignores_writes() {
    let mut tw = TextWriter::uninit();
    tw.set_cursor(3, 4);
    tw.put_char('A');
    tw.put_char('\n');
    tw.put_char('\r');
    tw.newline();
    tw.put_glyph(&[0xFF; 8]);
    tw.clear(Rgb { r: 1, g: 2, b: 3 });
    tw.scroll_up(1);
    tw.write_str_raw("hello\r\n");
    tw.write_bytes(b"hello\r\n");
    tw.write_str("hello\r\n");
    _print(&mut tw, "hello\r\n");
    assert!(!tw.is_init());
    assert_eq!(tw.cursor(), (3, 4));
}

#[test]
fn init_binds_and_clears_to_black() {
    let mut tw = TextWriter::uninit();
    tw.set_cursor(7, 7);
    tw.init(rgb_surface(16, 8));
    assert!(tw.is_init());
    assert_eq!(tw.cursor(), (0, 0));
    assert_eq!(picture(&tw), BLACK.repeat(16 * 8));
    assert_eq!(tw.cols(), 2);
    assert_eq!(tw.rows(), 1);
}

#[test]
fn init_again_binds_the_new_surface() {
    let mut tw = console(16, 8, 8, 8);
    tw.put_char('A');
    tw.init(rgb_surface(24, 16));
    assert_eq!(tw.cursor(), (0, 0));
    assert_eq!(tw.cols(), 3);
    assert_eq!(tw.rows(), 2);
    assert_eq!(picture(&tw), BLACK.repeat(24 * 16));
}

#[test]
fn the_grid_is_the_surface_in_whole_cells() {
    let tw = console(800, 200, 10, 8);
    assert_eq!((tw.cols(), tw.rows()), (80, 25));
    let tw = console(805, 207, 10, 8);
    assert_eq!((tw.cols(), tw.rows()), (80, 25));
    let tw = console(7, 7, 8, 8);
    assert_eq!((tw.cols(), tw.rows()), (0, 0));
}

#[test]
fn a_cell_size_with_a_zero_is_ignored() {
    let mut tw = console(64, 64, 16, 8);
    tw.set_cell_size(0, 4);
    assert_eq!((tw.cols(), tw.rows()), (4, 8));
    tw.set_cell_size(4, 0);
    assert_eq!((tw.cols(), tw.rows()), (4, 8));
    tw.set_cell_size(0, 0);
    assert_eq!((tw.cols(), tw.rows()), (4, 8));
    tw.set_cell_size(1, 1);
    assert_eq!((tw.cols(), tw.rows()), (64, 64));
}

#[test]
fn writing_ab_and_a_line_feed() {
    let mut tw = console(800, 200, 10, 8);
    tw.write_str_raw("AB\n");
    assert!(cell_shows(&tw, 0, 0, 10, 8, 'A'));
    assert!(cell_shows(&tw, 1, 0, 10, 8, 'B'));
    assert!(cell_is_black(&tw, 2, 0, 10, 8));
    assert!(cell_is_black(&tw, 0, 1, 10, 8));
    assert_eq!(tw.cursor(), (0, 1));
}

#[test]
fn eighty_one_characters_wrap_once() {
    let mut tw = console(800, 200, 10, 8);
    for _ in 0..80 {
        tw.put_char('x');
    }
    // The row is full and the cursor waits behind its last cell.
    assert_eq!(tw.cursor(), (80, 0));
    tw.put_char('x');
    assert_eq!(tw.cursor(), (1, 1));
    for col in 0..80 {
        assert!(cell_shows(&tw, col, 0, 10, 8, 'x'));
    }
    assert!(cell_shows(&tw, 0, 1, 10, 8, 'x'));
    for col in 1..80 {
        assert!(cell_is_black(&tw, col, 1, 10, 8));
    }
    for col in 0..80 {
        assert!(cell_is_black(&tw, col, 2, 10, 8));
    }
}

#[test]
fn eighty_one_characters_in_the_last_row_scroll_once() {
    let mut tw = console(800, 16, 10, 8);
    tw.write_str_raw("top");
    tw.set_cursor(0, 1);
    for _ in 0..80 {
        tw.put_char('x');
    }
    assert_eq!(tw.cursor(), (80, 1));
    assert!(cell_shows(&tw, 0, 0, 10, 8, 't'));
    tw.put_char('x');
    assert_eq!(tw.cursor(), (1, 1));
    // One scroll: the full row is now row 0, and row 1 holds only the
    // character that wrapped.
    for col in 0..80 {
        assert!(cell_shows(&tw, col, 0, 10, 8, 'x'));
    }
    assert!(cell_shows(&tw, 0, 1, 10, 8, 'x'));
    for col in 1..80 {
        assert!(cell_is_black(&tw, col, 1, 10, 8));
    }
}

#[test]
fn a_wrap_lands_where_a_line_feed_would() {
    let mut wrapped = console(40, 32, 8, 8);
    let mut fed = console(40, 32, 8, 8);
    for ch in "abcde".chars() {
        wrapped.put_char(ch);
        fed.put_char(ch);
    }
    wrapped.put_char('Z');
    fed.put_char('\n');
    fed.put_char('Z');
    assert_eq!(wrapped.cursor(), (1, 1));
    assert_eq!(fed.cursor(), (1, 1));
    assert!(cell_shows(&wrapped, 0, 1, 8, 8, 'Z'));
    assert_eq!(picture(&wrapped), picture(&fed));
}

#[test]
fn the_cursor_stays_by_the_grid() {
    let mut tw = console(40, 24, 8, 8);
    let text = "The quick brown fox\njumps over\rthe lazy dog\n\n\n0123456789";
    for ch in text.chars() {
        tw.put_char(ch);
        let (cx, cy) = tw.cursor();
        assert!(cx <= tw.cols());
        assert!(cy < tw.rows());
        if ch == '\n' || ch == '\r' {
            assert_eq!(cx, 0);
        }
    }
}

#[test]
fn the_cursor_is_in_the_grid_unless_the_last_column_was_drawn() {
    let mut tw = console(40, 24, 8, 8);
    for (n, ch) in "abcdefghijklmnopqrstuvwxyz".chars().enumerate() {
        tw.put_char(ch);
        let (cx, cy) = tw.cursor();
        if n % 5 == 4 {
            assert_eq!(cx, 5);
        } else {
            assert!(cx < 5);
        }
        assert!(cy < 3);
    }
}

#[test]
fn a_carriage_return_goes_back_to_column_zero() {
    let mut tw = console(40, 24, 8, 8);
    tw.write_str_raw("ab\rc");
    assert_eq!(tw.cursor(), (1, 0));
    assert!(cell_shows(&tw, 0, 0, 8, 8, 'c'));
    assert!(cell_shows(&tw, 1, 0, 8, 8, 'b'));
}

#[test]
fn put_char_dispatches_on_control_characters() {
    let mut tw = console(40, 24, 8, 8);
    tw.put_char('a');
    tw.put_char('\n');
    assert_eq!(tw.cursor(), (0, 1));
    tw.put_char('b');
    tw.put_char('b');
    tw.put_char('\r');
    assert_eq!(tw.cursor(), (0, 1));
    assert!(cell_shows(&tw, 0, 0, 8, 8, 'a'));
    assert!(cell_shows(&tw, 1, 1, 8, 8, 'b'));
}

#[test]
fn a_line_feed_in_the_last_row_scrolls_by_one_cell_row() {
    let mut tw = console(16, 24, 8, 8);
    tw.write_str_raw("ab\ncd\nef");
    assert_eq!(tw.cursor(), (2, 2));
    let before = picture(&tw);
    tw.newline();
    assert_eq!(tw.cursor(), (0, 2));
    let mut want = before.clone();
    let row = 16 * 4;
    want.copy_within(8 * row..24 * row, 0);
    for b in want[16 * row..].chunks_mut(4) {
        b.copy_from_slice(&BLACK);
    }
    assert_eq!(picture(&tw), want);
    assert!(cell_shows(&tw, 0, 0, 8, 8, 'c'));
    assert!(cell_shows(&tw, 1, 0, 8, 8, 'd'));
    assert!(cell_shows(&tw, 0, 1, 8, 8, 'e'));
    assert!(cell_shows(&tw, 1, 1, 8, 8, 'f'));
    assert!(cell_is_black(&tw, 0, 2, 8, 8));
    assert!(cell_is_black(&tw, 1, 2, 8, 8));
}

#[test]
fn scrolling_fills_with_the_background_colour() {
    let mut tw = console(8, 16, 8, 8);
    tw.set_colors(Rgb { r: 9, g: 9, b: 9 }, Some(Rgb { r: 1, g: 2, b: 3 }));
    tw.scroll_up(1);
    assert_eq!(pixel(&tw, 0, 7), BLACK);
    assert_eq!(pixel(&tw, 0, 8), [1, 2, 3, 0]);
    assert_eq!(pixel(&tw, 7, 15), [1, 2, 3, 0]);
    assert_eq!(tw.cursor(), (0, 0));
}

#[test]
fn scrolling_with_a_transparent_background_fills_with_black() {
    let mut tw = console(8, 16, 8, 8);
    tw.clear(Rgb { r: 7, g: 7, b: 7 });
    tw.set_colors(Rgb { r: 9, g: 9, b: 9 }, None);
    tw.scroll_up(1);
    assert_eq!(pixel(&tw, 0, 7), [7, 7, 7, 0]);
    assert_eq!(pixel(&tw, 0, 8), BLACK);
}

#[test]
fn scrolling_by_more_than_the_height_clears_to_the_fill_colour() {
    let mut tw = console(8, 20, 8, 8);
    tw.write_str_raw("a\nb");
    tw.scroll_up(3);
    assert_eq!(picture(&tw), BLACK.repeat(8 * 20));
    tw.write_str_raw("c");
    tw.scroll_up(u32::MAX);
    assert_eq!(picture(&tw), BLACK.repeat(8 * 20));
}

#[test]
fn scrolling_by_no_lines_changes_nothing() {
    let mut tw = console(16, 16, 8, 8);
    tw.write_str_raw("ab");
    let before = picture(&tw);
    tw.scroll_up(0);
    assert_eq!(picture(&tw), before);
}

#[test]
fn scrolling_moves_the_strip_below_the_grid_too() {
    // 20 pixel rows hold two cell rows and a strip of four pixel rows.
    let mut tw = console(8, 20, 8, 8);
    tw.clear(Rgb { r: 7, g: 7, b: 7 });
    tw.scroll_up(1);
    for y in 0..12 {
        assert_eq!(pixel(&tw, 0, y), [7, 7, 7, 0]);
    }
    for y in 12..20 {
        assert_eq!(pixel(&tw, 0, y), BLACK);
    }
}

#[test]
fn clear_fills_and_resets_the_cursor() {
    let mut tw = console(16, 16, 8, 8);
    tw.write_str_raw("ab\nc");
    tw.clear(Rgb { r: 10, g: 20, b: 30 });
    assert_eq!(tw.cursor(), (0, 0));
    assert_eq!(picture(&tw), [10u8, 20, 30, 0].repeat(16 * 16));
}

#[test]
fn a_solid_glyph_fills_its_cell_with_the_foreground() {
    let mut tw = console(32, 32, 16, 8);
    tw.set_colors(Rgb { r: 4, g: 5, b: 6 }, Some(Rgb { r: 1, g: 2, b: 3 }));
    tw.set_cursor(1, 2);
    tw.put_glyph(&[0xFF; 8]);
    assert_eq!(tw.cursor(), (2, 2));
    for y in 0..32u32 {
        for x in 0..32u32 {
            let inside = (16..32).contains(&x) && (16..24).contains(&y);
            assert_eq!(pixel(&tw, x, y), if inside { [4, 5, 6, 0] } else { BLACK });
        }
    }
}

#[test]
fn a_blank_glyph_fills_its_cell_with_the_background() {
    let mut tw = console(32, 32, 16, 8);
    tw.set_colors(Rgb { r: 4, g: 5, b: 6 }, Some(Rgb { r: 1, g: 2, b: 3 }));
    tw.set_cursor(1, 2);
    tw.put_glyph(&[0x00; 8]);
    for y in 0..32u32 {
        for x in 0..32u32 {
            let inside = (16..32).contains(&x) && (16..24).contains(&y);
            assert_eq!(pixel(&tw, x, y), if inside { [1, 2, 3, 0] } else { BLACK });
        }
    }
}

#[test]
fn a_blank_glyph_on_a_transparent_background_leaves_the_cell() {
    let mut tw = console(32, 32, 16, 8);
    tw.clear(Rgb { r: 7, g: 7, b: 7 });
    tw.set_colors(Rgb { r: 4, g: 5, b: 6 }, None);
    let before = picture(&tw);
    tw.put_glyph(&[0x00; 8]);
    tw.put_char(' ');
    assert_eq!(picture(&tw), before);
    assert_eq!(tw.cursor(), (2, 0));
}

#[test]
fn a_glyph_does_not_cover_a_cell_that_is_no_multiple_of_eight() {
    let mut tw = console(20, 8, 10, 8);
    tw.clear(Rgb { r: 7, g: 7, b: 7 });
    tw.put_glyph(&[0xFF; 8]);
    assert_eq!(pixel(&tw, 7, 0), WHITE);
    assert_eq!(pixel(&tw, 8, 0), [7, 7, 7, 0]);
    assert_eq!(pixel(&tw, 9, 0), [7, 7, 7, 0]);
}

#[test]
fn a_cursor_set_outside_the_grid_is_brought_back_lazily() {
    let mut tw = console(24, 24, 8, 8);
    tw.set_cursor(50, 1);
    assert_eq!(tw.cursor(), (50, 1));
    tw.put_char('a');
    assert_eq!(tw.cursor(), (1, 2));
    assert!(cell_shows(&tw, 0, 2, 8, 8, 'a'));

    tw.set_cursor(0, 50);
    tw.put_char('b');
    // No line break was due: the glyph fell outside the surface.
    assert_eq!(tw.cursor(), (1, 50));
    tw.put_char('\n');
    assert_eq!(tw.cursor(), (0, 2));
}

#[test]
fn a_cursor_at_the_32_bit_limit_does_not_overflow() {
    let mut tw = console(24, 24, 8, 8);
    tw.set_cell_size(u32::MAX, u32::MAX);
    tw.set_cursor(u32::MAX, u32::MAX);
    tw.put_char('a');
    assert_eq!(tw.cursor(), (1, 0));
    tw.set_cell_size(8, 8);
    tw.set_cursor(0, u32::MAX);
    tw.put_char('a');
    assert_eq!(tw.cursor(), (1, u32::MAX));
    tw.newline();
    assert_eq!(tw.cursor(), (0, 2));
}

#[test]
fn a_surface_smaller_than_a_cell_has_no_grid() {
    let mut tw = console(4, 4, 8, 8);
    assert_eq!((tw.cols(), tw.rows()), (0, 0));
    tw.put_char('a');
    // Every glyph wraps first, and the cursor is pinned to row 0.
    assert_eq!(tw.cursor(), (1, 0));
    tw.put_char('\n');
    assert_eq!(tw.cursor(), (0, 0));
}

#[test]
fn write_bytes_takes_each_byte_as_a_character() {
    let mut by_bytes = console(64, 16, 8, 8);
    let mut by_chars = console(64, 16, 8, 8);
    by_bytes.write_bytes(&[b'a', 0xC3, 0xA9, b'\n', b'b', b'\r', 0xFF]);
    for ch in ['a', '\u{c3}', '\u{a9}', '\n', 'b', '\r', '\u{ff}'] {
        by_chars.put_char(ch);
    }
    assert_eq!(by_bytes.cursor(), (1, 1));
    assert_eq!(by_bytes.cursor(), by_chars.cursor());
    assert_eq!(picture(&by_bytes), picture(&by_chars));
}

#[test]
fn write_str_raw_writes_the_bytes_of_the_string() {
    let mut by_str = console(64, 16, 8, 8);
    let mut by_bytes = console(64, 16, 8, 8);
    by_str.write_str_raw("aé\nb");
    by_bytes.write_bytes("aé\nb".as_bytes());
    // The accented letter is two bytes, each drawn as a blank cell.
    assert_eq!(by_str.cursor(), (1, 1));
    assert_eq!(picture(&by_str), picture(&by_bytes));
    assert!(cell_shows(&by_str, 0, 0, 8, 8, 'a'));
    assert!(cell_is_black(&by_str, 1, 0, 8, 8));
    assert!(cell_is_black(&by_str, 2, 0, 8, 8));
    assert!(cell_shows(&by_str, 0, 1, 8, 8, 'b'));
}

#[test]
fn print_writes_like_write_str() {
    let mut printed = console(64, 16, 8, 8);
    let mut written = console(64, 16, 8, 8);
    _print(&mut printed, "Version 0.0.1\n");
    written.write_str("Version 0.0.1\n");
    assert_eq!(printed.cursor(), written.cursor());
    assert_eq!(picture(&printed), picture(&written));
    assert!(cell_shows(&printed, 0, 0, 8, 8, '0'));
}

#[test]
fn print_of_formatted_text() {
    let mut tw = console(64, 16, 8, 8);
    _print(&mut tw, &format!("0x{:x}\n", 255));
    assert_eq!(tw.cursor(), (0, 1));
    assert!(cell_shows(&tw, 0, 0, 8, 8, '0'));
    assert!(cell_shows(&tw, 1, 0, 8, 8, 'x'));
    assert!(cell_shows(&tw, 2, 0, 8, 8, 'f'));
    assert!(cell_shows(&tw, 3, 0, 8, 8, 'f'));
}

#[test]
fn colours_and_scale_of_the_glyphs_follow_the_settings() {
    let mut tw = console(32, 16, 16, 16);
    tw.set_colors(Rgb { r: 0, g: 255, b: 0 }, Some(Rgb { r: 0, g: 0, b: 255 }));
    tw.put_char('A');
    let rows = glyph_rows('A');
    for y in 0..16u32 {
        for x in 0..16u32 {
            let on = (rows[(y / 2) as usize] >> (x / 2)) & 1 != 0;
            assert_eq!(pixel(&tw, x, y), if on { [0, 255, 0, 0] } else { [0, 0, 255, 0] });
        }
    }
}

#[test]
fn the_console_works_on_a_luminance_surface() {
    let info = SurfaceInfo {
        width: 8,
        height: 8,
        stride: 8,
        bytes_per_pixel: 1,
        pixel_format: PixelFormat::U8,
    };
    let mut tw = TextWriter::uninit();
    tw.init(Surface::new(info, vec![9; 64]).unwrap());
    tw.set_colors(Rgb { r: 255, g: 0, b: 0 }, Some(Rgb { r: 0, g: 255, b: 0 }));
    tw.put_char('A');
    let rows = glyph_rows('A');
    for y in 0..8u32 {
        for x in 0..8u32 {
            let on = (rows[y as usize] >> x) & 1 != 0;
            assert_eq!(pixel(&tw, x, y), if on { [76] } else { [150] });
        }
    }
}

#[test]
fn the_cursor_advances_on_an_unknown_layout_and_nothing_is_drawn() {
    let info = SurfaceInfo {
        width: 16,
        height: 8,
        stride: 16,
        bytes_per_pixel: 2,
        pixel_format: PixelFormat::Unknown,
    };
    let mut tw = TextWriter::uninit();
    tw.init(Surface::new(info, vec![9; 256]).unwrap());
    tw.put_char('A');
    assert_eq!(tw.cursor(), (1, 0));
    assert_eq!(picture(&tw), vec![9; 256]);
}

#[test]
fn scrolling_by_one_line_matches_a_reference_shifted_by_hand() {
    // Three cell rows that take up the whole height, each with its own text.
    let mut tw = console(24, 24, 8, 8);
    tw.set_colors(Rgb { r: 200, g: 100, b: 50 }, Some(Rgb { r: 5, g: 6, b: 7 }));
    tw.write_str_raw("abc\ndef\nghi");
    let before = picture(&tw);
    tw.scroll_up(1);
    assert_eq!(tw.cursor(), (3, 2));

    let row = 24 * 4;
    let mut want = vec![0u8; before.len()];
    // Cell rows 1 and 2 move to cell rows 0 and 1.
    want[..16 * row].copy_from_slice(&before[8 * row..24 * row]);
    // The last cell row is filled with the background colour.
    for px in want[16 * row..].chunks_mut(4) {
        px.copy_from_slice(&[5, 6, 7, 0]);
    }
    assert_eq!(picture(&tw), want);
    for y in 0..16u32 {
        for x in 0..24u32 {
            let at = ((y as usize + 8) * 24 + x as usize) * 4;
            assert_eq!(pixel(&tw, x, y), &before[at..at + 4]);
        }
    }
}
