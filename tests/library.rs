use moonray::ansi::Rgb;
use moonray::canvas::Canvas;
use moonray::cli::{ConfigError, Options, Size2, SizeError};
use moonray::march::{March, StepKind, MAX_STEPS};
use moonray::raster::{rasterize, sample_pattern, RasterizerOutput, ShaderInput};
use std::str::FromStr;

fn options(multi: i32, w: usize, h: usize) -> Options {
    Options::from_args(multi, Size2(w, h)).unwrap()
}

#[test]
fn size_parses_width_and_height() {
    assert_eq!(Size2::parse("10x10"), Ok(Size2(10, 10)));
    assert_eq!(Size2::parse("3x7"), Ok(Size2(3, 7)));
    assert_eq!(Size2::parse("+3x0"), Ok(Size2(3, 0)));
}

#[test]
fn size_errors() {
    assert_eq!(Size2::parse("3x4x5"), Err(SizeError::Format));
    assert_eq!(Size2::parse("34"), Err(SizeError::Format));
    assert_eq!(Size2::parse("3X4"), Err(SizeError::Format));
    assert_eq!(Size2::parse("3x"), Err(SizeError::Empty));
    assert_eq!(Size2::parse("x"), Err(SizeError::Empty));
    assert_eq!(Size2::parse("ax3"), Err(SizeError::InvalidDigit));
    assert_eq!(Size2::parse("+x3"), Err(SizeError::InvalidDigit));
    assert_eq!(Size2::parse("-3x3"), Err(SizeError::InvalidDigit));
    assert_eq!(
        Size2::parse("99999999999999999999999x1"),
        Err(SizeError::Overflow)
    );
    assert_eq!(Size2::parse("1x99999999999999999999999a"), Err(SizeError::Overflow));
    assert_eq!(Size2::parse("1x9a9999999999999999999999"), Err(SizeError::InvalidDigit));
}

#[test]
fn size_from_str_messages() {
    assert_eq!(Size2::from_str("4x2"), Ok(Size2(4, 2)));
    assert_eq!(
        Size2::from_str("10x10x1"),
        Err("invalid Size2 format".to_string())
    );
    assert_eq!(Size2::from_str("4"), Err("invalid Size2 format".to_string()));
    assert_eq!(
        Size2::from_str("4x"),
        Err("cannot parse integer from empty string".to_string())
    );
    assert_eq!(
        Size2::from_str("4xq"),
        Err("invalid digit found in string".to_string())
    );
    assert_eq!(
        SizeError::Overflow.message(),
        "number too large to fit in target type".to_string()
    );
}

#[test]
fn size_text_round_trip() {
    assert_eq!(Size2(10, 3).to_text(), "10x3");
    assert_eq!(Size2(0, 1234).to_text(), "0x1234");
    let s = Size2(usize::MAX, 7);
    assert_eq!(Size2::parse(&s.to_text()), Ok(s));
}

#[test]
fn options_accept_pattern_counts_only() {
    for n in [1, 2, 4, 8] {
        let o = options(n, 5, 6);
        assert_eq!(o.samples(), n);
        assert_eq!(o.width(), 5);
        assert_eq!(o.height(), 6);
    }
    for n in [0, 3, 5, 6, 7, 9, 16, -1] {
        assert_eq!(
            Options::from_args(n, Size2(3, 3)).map(|o| o.samples()),
            Err(ConfigError::UnsupportedSamples)
        );
    }
}

#[test]
fn options_refuse_empty_images() {
    for size in [Size2(0, 0), Size2(0, 3), Size2(3, 0)] {
        assert_eq!(
            Options::from_args(1, size).map(|o| o.samples()),
            Err(ConfigError::EmptyImage)
        );
    }
    assert_eq!(
        Options::from_args(3, Size2(0, 0)).map(|o| o.samples()),
        Err(ConfigError::UnsupportedSamples)
    );
    assert_eq!(options(1, 1, 1).width(), 1);
}

#[test]
fn rasterize_single_sample_centres() {
    let r = rasterize(&options(1, 4, 3));
    assert_eq!(r.len(), 12);
    // pixel (3, 2): x = (3 - 2) / 2, y = -(2 - 1) / 1.5
    assert_eq!(r[3 * 3 + 2], item(16, 32, -16, 24, 3, 2));
}

#[test]
fn sample_patterns() {
    assert_eq!(sample_pattern(1), Ok(vec![(0, 0)]));
    assert_eq!(sample_pattern(2), Ok(vec![(-4, -4), (4, 4)]));
    for n in [2usize, 4, 8] {
        let p = sample_pattern(n as i32).unwrap();
        assert_eq!(p.len(), n);
        for i in 0..n {
            for j in 0..i {
                assert_ne!(p[i], p[j]);
            }
        }
    }
    assert_eq!(sample_pattern(8).unwrap()[7], (7, 7));
    for n in [0, 3, 5, 6, 7, 9, -2] {
        assert_eq!(sample_pattern(n), Err(ConfigError::UnsupportedSamples));
    }
}

fn item(x_num: i64, x_den: i64, y_num: i64, y_den: i64, px: usize, py: usize) -> RasterizerOutput {
    RasterizerOutput {
        shader_input: ShaderInput { x_num, x_den, y_num, y_den },
        pixel_x: px,
        pixel_y: py,
    }
}

#[test]
fn rasterize_two_by_two() {
    let r = rasterize(&options(1, 2, 2));
    assert_eq!(
        r,
        vec![
            item(-16, 16, 16, 16, 0, 0),
            item(-16, 16, 0, 16, 0, 1),
            item(0, 16, 16, 16, 1, 0),
            item(0, 16, 0, 16, 1, 1),
        ]
    );
}

#[test]
fn rasterize_with_offsets() {
    let r = rasterize(&options(2, 3, 1));
    assert_eq!(r.len(), 6);
    // pixel (2, 0), second offset (4, 4): x = (1 + 4/16) / 1.5, y = -(0 + 4/16) / 0.5
    assert_eq!(r[5], item(20, 24, -4, 8, 2, 0));
    assert_eq!(r[0], item(-20, 24, 4, 8, 0, 0));
}

#[test]
fn rasterize_counts() {
    assert_eq!(rasterize(&options(1, 10, 10)).len(), 100);
    assert_eq!(rasterize(&options(8, 3, 3)).len(), 72);
    let r = rasterize(&options(4, 4, 3));
    for x in 0..4usize {
        for y in 0..3usize {
            let n = r.iter().filter(|o| o.pixel_x == x && o.pixel_y == y).count();
            assert_eq!(n, 4);
        }
    }
}

#[test]
fn rasterize_is_deterministic() {
    let a = rasterize(&options(1, 10, 10));
    let b = rasterize(&options(1, 10, 10));
    assert_eq!(a, b);
}

#[test]
fn march_runs_whole_budget_without_hit() {
    let mut m = March::new();
    let mut steps = 0;
    while m.running() {
        m.record(StepKind::Continue);
        steps += 1;
    }
    assert_eq!(steps, 50);
    assert_eq!(m.steps(), MAX_STEPS);
    assert!(!m.hit());
}

#[test]
fn march_stops_after_hit() {
    let mut m = March::new();
    for _ in 0..3 {
        m.record(StepKind::Continue);
    }
    assert!(m.running());
    m.record(StepKind::Hit);
    assert!(!m.running());
    assert!(m.hit());
    assert_eq!(m.steps(), 4);
}

#[test]
fn canvas_get_set() {
    let mut c = Canvas::new(3, 2, 0u32);
    assert_eq!(c.width(), 3);
    assert_eq!(c.height(), 2);
    c.set(2, 1, 7);
    assert_eq!(c.get(2, 1), 7);
    assert_eq!(c.get(1, 1), 0);
    assert_eq!(c.get(2, 0), 0);
    *c.get_mut(0, 1) += 5;
    *c.get_mut(0, 1) += 5;
    assert_eq!(c.get(0, 1), 10);
    assert_eq!(c.get(0, 0), 0);
}

#[test]
fn canvas_tall_set() {
    let mut c = Canvas::new(1, 3, 0u8);
    c.set(0, 2, 9);
    assert_eq!(c.get(0, 2), 9);
    assert_eq!(c.get(0, 1), 0);
}

fn rgb(r: u32, g: u32, b: u32) -> Rgb {
    Rgb { r, g, b }
}

#[test]
fn ansi_spaces() {
    let mut c = Canvas::new(2, 1, rgb(1, 2, 3));
    c.set(1, 0, rgb(256, 0, 10));
    assert_eq!(
        c.print_ansi_rgb_spaces(),
        "\x1b[48;2;1;2;3m \x1b[48;2;256;0;10m \x1b[0m\n"
    );
    let e: Canvas<Rgb> = Canvas::new(0, 0, rgb(0, 0, 0));
    assert_eq!(e.print_ansi_rgb_spaces(), "");
}

#[test]
fn ansi_halfblock() {
    let mut c = Canvas::new(1, 3, rgb(1, 2, 3));
    c.set(0, 1, rgb(4, 5, 6));
    c.set(0, 2, rgb(255, 255, 255));
    assert_eq!(
        c.print_ansi_rgb_halfblock(),
        "\x1b[0m\x1b[38;2;1;2;3m\x1b[48;2;4;5;6m\u{2580}\x1b[0m\n\x1b[38;2;255;255;255m\u{2580}\x1b[0m\n"
    );
    let e: Canvas<Rgb> = Canvas::new(4, 0, rgb(0, 0, 0));
    assert_eq!(e.print_ansi_rgb_halfblock(), "\x1b[0m");
}
