use co2_monitor::canvas::Canvas;

use embedded_graphics::mono_font::ascii::FONT_10X20;
use embedded_graphics::mono_font::MonoTextStyleBuilder;
use embedded_graphics::draw_target::DrawTarget;
use embedded_graphics::geometry::Dimensions;
use embedded_graphics::geometry::Point;
use embedded_graphics::geometry::Size;
use embedded_graphics::pixelcolor::Gray4;
use embedded_graphics::pixelcolor::GrayColor;
use embedded_graphics::primitives::Rectangle;
use embedded_graphics::text::renderer::TextRenderer;
use embedded_graphics::text::Baseline;
use embedded_graphics::Pixel;

/// Records every pixel the font renderer emits.
struct Collector {
    pts: Vec<(i32, i32)>,
}

impl Dimensions for Collector {
    fn bounding_box(&self) -> Rectangle {
        Rectangle::new(Point::zero(), Size::new(296, 128))
    }
}

impl DrawTarget for Collector {
    type Color = Gray4;
    type Error = core::convert::Infallible;

    fn draw_iter<I>(&mut self, pixels: I) -> Result<(), Self::Error>
    where
        I: IntoIterator<Item = Pixel<Gray4>>,
    {
        for Pixel(p, _) in pixels {
            self.pts.push((p.x, p.y));
        }
        Ok(())
    }
}

#[test]
fn text_matches_the_font_renderer() {
    // The canvas must blacken exactly the pixels the font crate's own
    // renderer emits for the same text, anchor and baseline.
    let text = "CO2: 400 ppm \u{b5}g?";
    let style = MonoTextStyleBuilder::new()
        .text_color(Gray4::BLACK)
        .font(&FONT_10X20)
        .build();
    let mut collector = Collector { pts: Vec::new() };
    style
        .draw_string(text, Point::new(20, 50), Baseline::Bottom, &mut collector)
        .unwrap();
    assert!(!collector.pts.is_empty());

    let mut canvas = Canvas::new(296, 128);
    canvas.draw_text(text, 20, 50);
    canvas.finalize_quantize().unwrap();
    let data = canvas.render_black_white();

    let mut expected = vec![0xffu8; 296 * 128 / 8];
    for (x, y) in collector.pts {
        let px = 295 - x as usize;
        expected[px * 16 + (y as usize) / 8] &= !(0x80 >> (y as usize % 8));
    }
    assert_eq!(data, expected);
}
