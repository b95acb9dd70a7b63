use co2_monitor::canvas::Canvas;
use co2_monitor::canvas::Screen;
use co2_monitor::error::Error;
use co2_monitor::scd41::MeasureResult;

fn full_points(width: i32, height: i32, sample: u8) -> Vec<(i32, i32, u8)> {
    let mut pts = Vec::new();
    for x in 0..width {
        for y in 0..height {
            pts.push((x, y, sample));
        }
    }
    pts
}

#[test]
fn single_tone_packs_black() {
    // Every draw uses one sample value: the palette has one entry and the
    // fully drawn region packs to 0x00 bytes.
    let mut canvas = Canvas::new(8, 8);
    let skipped = canvas.draw(&full_points(8, 8, 5));
    assert_eq!(skipped, 0);
    assert!(canvas.finalize_quantize().is_ok());
    let data = canvas.render_black_white();
    assert_eq!(data.len(), 8);
    assert!(data.iter().all(|&b| b == 0x00));
}

#[test]
fn undrawn_canvas_packs_white() {
    // An untouched canvas encodes to the panel's all-white clear pattern.
    let canvas = Canvas::new(16, 16);
    let data = canvas.render_black_white();
    assert_eq!(data.len(), 32);
    assert!(data.iter().all(|&b| b == 0xff));
}

#[test]
fn quantize_is_idempotent() {
    let mut canvas = Canvas::new(4, 8);
    let mut pts = Vec::new();
    pts.push((0, 0, 2u8));
    pts.push((1, 3, 9u8));
    pts.push((3, 7, 2u8));
    canvas.draw(&pts);
    assert!(canvas.finalize_quantize().is_ok());
    let once = canvas.render_gray();
    assert!(canvas.finalize_quantize().is_ok());
    let twice = canvas.render_gray();
    assert_eq!(once, twice);
}

#[test]
fn five_tones_overflow_palette() {
    // A fifth distinct tone must be reported, never silently truncated.
    let mut canvas = Canvas::new(8, 8);
    let mut pts = Vec::new();
    for (i, s) in [7u8, 3, 11, 0, 14].iter().enumerate() {
        pts.push((i as i32, 0, *s));
    }
    canvas.draw(&pts);
    match canvas.finalize_quantize() {
        Err(Error::TooManyColors { count, values }) => {
            assert_eq!(count, 5);
            // biased and ascending
            assert_eq!(values, vec![0x10, 0x13, 0x17, 0x1b, 0x1e]);
        }
        other => panic!("expected TooManyColors, got {:?}", other),
    }
}

#[test]
fn four_tones_fit_palette() {
    let mut canvas = Canvas::new(8, 8);
    let mut pts = Vec::new();
    for (i, s) in [7u8, 3, 11, 0].iter().enumerate() {
        pts.push((i as i32, 0, *s));
    }
    canvas.draw(&pts);
    assert!(canvas.finalize_quantize().is_ok());
}

#[test]
fn misaligned_geometry_is_rejected() {
    // A canvas whose height does not pack into whole bytes fails fast.
    let canvas = Canvas::new(3, 3);
    match canvas.try_render_black_white() {
        Err(Error::InvalidGeometry { width, height }) => {
            assert_eq!((width, height), (3, 3));
        }
        other => panic!("expected InvalidGeometry, got {:?}", other),
    }
    assert!(canvas.try_render_gray().is_err());
    let aligned = Canvas::new(3, 8);
    assert!(aligned.try_render_black_white().is_ok());
    assert!(aligned.try_render_gray().is_ok());
}

#[test]
fn four_tone_levels_follow_the_table() {
    // Ascending tones map to black, dark gray, light gray, white.
    let mut canvas = Canvas::new(1, 4);
    let mut pts = Vec::new();
    for y in 0..4 {
        pts.push((0, y, y as u8));
    }
    canvas.draw(&pts);
    assert!(canvas.finalize_quantize().is_ok());
    let data = canvas.render_gray();
    // codes 3, 1, 2, 0 packed most significant pair first
    assert_eq!(data, vec![0b11_01_10_00]);
}

#[test]
fn three_tone_levels_follow_the_table() {
    // With three tones rank 1 is light gray and rank 2 dark gray.
    let mut canvas = Canvas::new(1, 4);
    let mut pts = Vec::new();
    pts.push((0, 0, 0u8));
    pts.push((0, 1, 1u8));
    pts.push((0, 2, 2u8));
    pts.push((0, 3, 0u8));
    canvas.draw(&pts);
    assert!(canvas.finalize_quantize().is_ok());
    let data = canvas.render_gray();
    assert_eq!(data, vec![0b11_10_01_11]);
}

#[test]
fn two_tone_levels_follow_the_table() {
    // With two tones rank 1 is light gray, skipping dark gray.
    let mut canvas = Canvas::new(1, 4);
    let mut pts = Vec::new();
    pts.push((0, 0, 0u8));
    pts.push((0, 1, 9u8));
    pts.push((0, 2, 9u8));
    pts.push((0, 3, 0u8));
    canvas.draw(&pts);
    assert!(canvas.finalize_quantize().is_ok());
    let data = canvas.render_gray();
    assert_eq!(data, vec![0b11_10_10_11]);
}

#[test]
fn drawing_mirrors_the_x_axis() {
    // A pixel drawn at logical x 0 lands in the last physical column.
    let mut canvas = Canvas::new(8, 8);
    let mut pts = Vec::new();
    pts.push((0, 0, 0u8));
    canvas.draw(&pts);
    assert!(canvas.finalize_quantize().is_ok());
    let data = canvas.render_black_white();
    assert_eq!(data.len(), 8);
    assert_eq!(data[7], 0x7f);
    assert!(data[..7].iter().all(|&b| b == 0xff));
}

#[test]
fn out_of_bounds_draws_are_skipped() {
    let mut canvas = Canvas::new(8, 8);
    let mut pts = Vec::new();
    pts.push((-1, 0, 5u8));
    pts.push((8, 0, 5u8));
    pts.push((0, -3, 5u8));
    pts.push((0, 8, 5u8));
    pts.push((2, 2, 5u8));
    let skipped = canvas.draw(&pts);
    assert_eq!(skipped, 4);
    assert!(canvas.finalize_quantize().is_ok());
    let data = canvas.render_black_white();
    // only the single in-bounds pixel went black: (2, 2) mirrors to column 5
    assert_eq!(data[5], 0xff ^ 0x20);
    assert_eq!(data.iter().filter(|&&b| b != 0xff).count(), 1);
}

#[test]
fn draw_at_copies_a_region() {
    let mut small = Canvas::new(2, 8);
    let mut pts = Vec::new();
    for y in 0..8 {
        pts.push((0, y, 0u8));
        pts.push((1, y, 0u8));
    }
    small.draw(&pts);
    let mut big = Canvas::new(4, 16);
    big.draw_at(small, 1, 8);
    // register the tone so the copied cells quantize
    let mut reg = Vec::new();
    reg.push((0, 0, 0u8));
    big.draw(&reg);
    assert!(big.finalize_quantize().is_ok());
    let data = big.render_black_white();
    assert_eq!(data.len(), 8);
    // columns 1 and 2, byte group 1 (rows 8..16) went black
    assert_eq!(data[2 * 2 + 1], 0x00);
    assert_eq!(data[2 * 1 + 1], 0x00);
    assert_eq!(data[2 * 0 + 1], 0xff);
}

#[test]
fn text_draws_black_pixels() {
    let mut canvas = Canvas::new(296, 128);
    canvas.draw_text("Hi", 20, 50);
    assert!(canvas.finalize_quantize().is_ok());
    let data = canvas.render_black_white();
    assert_eq!(data.len(), 4736);
    let black_bytes = data.iter().filter(|&&b| b != 0xff).count();
    assert!(black_bytes > 0);
}

#[test]
fn unmapped_characters_render_the_replacement_glyph() {
    // A character outside the ASCII range renders the question mark, not
    // a blank.
    let mut accented = Canvas::new(296, 128);
    accented.draw_text("\u{e9}", 20, 50);
    assert!(accented.finalize_quantize().is_ok());
    let accented_frame = accented.render_black_white();
    let mut question = Canvas::new(296, 128);
    question.draw_text("?", 20, 50);
    assert!(question.finalize_quantize().is_ok());
    assert_eq!(accented_frame, question.render_black_white());
    assert!(accented_frame.iter().any(|&b| b != 0xff));
}

#[test]
fn rendered_frame_keeps_clear_rows_white() {
    // A full readout on the 296-by-128 panel: exactly 4736 bytes, rows
    // outside the two text bands all white, and some text present.
    let mut screen = Screen::new(296, 128);
    let m = MeasureResult { co2_ppm: 400, temp_tenths: 234, hum_tenths: 567 };
    let data = screen.render(&m);
    assert_eq!(data.len(), 296 * 128 / 8);
    // text bands cover rows 31..=50 and 81..=100, i.e. byte groups 3..=6
    // and 10..=12 of each column
    for x in 0..296usize {
        for j in [0usize, 1, 2, 7, 8, 9, 13, 14, 15] {
            assert_eq!(data[x * 16 + j], 0xff, "column {} group {}", x, j);
        }
    }
    assert!(data.iter().any(|&b| b != 0xff));
}

#[test]
fn rendering_identical_readings_is_deterministic() {
    let m = MeasureResult { co2_ppm: 1024, temp_tenths: -45, hum_tenths: 1000 };
    let mut s1 = Screen::new(296, 128);
    let mut s2 = Screen::new(296, 128);
    assert_eq!(s1.render(&m), s2.render(&m));
    assert_eq!(m, m.clone());
}
