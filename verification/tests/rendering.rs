use oxibrowser::render::config::{ColorScheme, OutputFormat, RenderConfig, MIN_DIMENSION};
use oxibrowser::render::document::{
    capture_viewport, content_size, CaptureOpts, RenderError as CaptureError, Viewport,
};
use oxibrowser::render::error::RenderError;
use oxibrowser::render::paint::{capture_png, encode_png, painted_size};
use oxibrowser::render::pdf::{
    border_edge, draw_glyphs, gradient_line, gradient_spread, gradient_stops, page_background,
    render_node, rounded_rect_path, Along, BorderPoint, BorderRadii, BoxShadow, Cluster, Corner,
    Direction, Edge, EdgeBorder, FontCache, GradientItem, Horizontal, PaintBox, PaintOp, PathStep,
    Rgb, Spread, StopPlace, Vertical,
};
use oxibrowser::render::single::{ceil_u32, is_at_most_zero, is_nonzero, is_positive};

const PNG_SIG: [u8; 8] = [0x89, 0x50, 0x4E, 0x47, 0x0D, 0x0A, 0x1A, 0x0A];

#[test]
fn test_default_config() {
    let config = RenderConfig::default();
    assert_eq!(config.width, 1280);
    assert_eq!(config.height, 720);
    assert_eq!(f32::from_bits(config.scale), 1.0);
}

#[test]
fn test_config_validation_rejects_zero_width() {
    let config = RenderConfig::new().width(0);
    assert!(config.validate().is_err());
}

#[test]
fn test_config_validation_rejects_zero_height() {
    let config = RenderConfig::new().height(0);
    assert!(config.validate().is_err());
}

#[test]
fn test_config_builder() {
    let config = RenderConfig::new()
        .width(1920)
        .height(1080)
        .scale(2.0f32.to_bits())
        .format(OutputFormat::Pdf);

    assert_eq!(config.width, 1920);
    assert_eq!(config.height, 1080);
    assert_eq!(f32::from_bits(config.scale), 2.0);
    assert_eq!(config.format, OutputFormat::Pdf);
}

#[test]
fn every_setting_is_set() {
    let c = RenderConfig::new()
        .size(100, 200)
        .color_scheme(ColorScheme::Dark)
        .auto_height(true)
        .background([1, 2, 3, 4]);
    assert_eq!((c.width, c.height), (100, 200));
    assert_eq!(c.color_scheme, ColorScheme::Dark);
    assert!(c.auto_height);
    assert_eq!(c.background, [1, 2, 3, 4]);
    assert_eq!(page_background(c.background), Rgb { r: 1, g: 2, b: 3 });
    assert_eq!(OutputFormat::default().name(), "png");
    assert_eq!(OutputFormat::Pdf.name(), "pdf");
    assert_eq!(ColorScheme::default(), ColorScheme::Light);
}

#[test]
fn complaints_name_what_is_wrong() {
    let message = |c: RenderConfig| c.validate().unwrap_err().message();
    let c = RenderConfig::new();
    assert_eq!(
        message(c.size(15, 15)),
        "invalid config: width must be at least 16 pixels"
    );
    assert_eq!(
        message(c.height(MIN_DIMENSION - 1)),
        "invalid config: height must be at least 16 pixels"
    );
    for s in [0.0, -0.0, -1.0, f32::INFINITY, f32::NEG_INFINITY, f32::NAN] {
        assert_eq!(
            message(c.scale(s.to_bits())),
            "invalid config: scale must be a positive finite number"
        );
    }
    for s in [f32::MIN_POSITIVE, 1e-45, f32::MAX] {
        assert!(c.scale(s.to_bits()).validate().is_ok());
    }
    assert!(matches!(
        c.format(OutputFormat::Pdf).checked_format(),
        Ok(OutputFormat::Pdf)
    ));
    assert!(c.width(0).checked_format().is_err());
}

#[test]
fn errors_have_messages() {
    assert_eq!(
        RenderError::FormatNotEnabled("pdf").message(),
        "output format 'pdf' is not enabled; enable the 'pdf' feature flag"
    );
    assert_eq!(RenderError::PngRender("x".to_string()).message(), "PNG rendering failed: x");
    assert_eq!(RenderError::PngEncode("x".to_string()).message(), "PNG encoding failed: x");
    assert_eq!(RenderError::PdfCreate("x".to_string()).message(), "PDF creation failed: x");
    assert_eq!(RenderError::PdfRender("x".to_string()).message(), "PDF rendering failed: x");
    assert_eq!(RenderError::Font("x".to_string()).message(), "font error: x");
    let io = RenderError::from(std::io::Error::new(std::io::ErrorKind::Other, "disk"));
    assert_eq!(io.message(), "I/O error: disk");
    assert_eq!(CaptureError::Render("x".to_string()).message(), "render error: x");
    assert_eq!(CaptureError::Encode("x".to_string()).message(), "png encode error: x");
}

#[test]
fn singles_are_told_apart_by_their_bits() {
    for v in [0.0, -0.0, 1.0, -1.0, 1e-45, f32::INFINITY, f32::NEG_INFINITY, f32::NAN, -f32::NAN] {
        let bits = v.to_bits();
        assert_eq!(is_nonzero(bits), v != 0.0);
        assert_eq!(is_positive(bits), v > 0.0);
        assert_eq!(is_at_most_zero(bits), v <= 0.0);
    }
    for v in [1e-45, 0.5, 1.0, 1.1, 399.5, 8388607.5, 16777216.0, 4294967040.0, 4294967296.0, 1e38] {
        let v: f32 = v;
        assert_eq!(ceil_u32(v.to_bits()), v.ceil() as u32);
    }
}

#[test]
fn content_is_measured_or_as_large_as_the_viewport() {
    let v = Viewport { width: 400, height: 200, scale: 1.0f64.to_bits() };
    assert_eq!(content_size(399.5f32.to_bits(), 1000.0f32.to_bits(), v), (400, 1000));
    assert_eq!(content_size(0.0f32.to_bits(), f32::NAN.to_bits(), v), (400, 200));
    assert_eq!(content_size(f32::INFINITY.to_bits(), (-3.0f32).to_bits(), v), (400, 200));
    assert_eq!(Viewport::default().scale, 1.0f64.to_bits());
}

#[test]
fn captures_use_the_viewport_asked_for() {
    let own = Viewport::default();
    let other = Viewport { width: 50, height: 60, scale: own.scale };
    assert_eq!(capture_viewport(&CaptureOpts::default(), own, 9000), own);
    let opts = CaptureOpts { viewport: Some(other), full_page: true };
    let v = capture_viewport(&opts, own, 9000);
    assert_eq!((v.width, v.height), (50, 9000));
}

#[test]
fn pixels_become_a_png() {
    let v = Viewport { width: 4, height: 2, scale: 1.0f64.to_bits() };
    let mut pixels = vec![255u8; 32];
    pixels[0] = 7;
    let png = capture_png(&pixels, v).unwrap();
    assert_eq!(&png[0..8], &PNG_SIG);
    let decoder = png::Decoder::new(std::io::Cursor::new(&png));
    let mut reader = decoder.read_info().expect("decode png");
    assert_eq!((reader.info().width, reader.info().height), (4, 2));
    let mut buf = vec![0u8; reader.output_buffer_size().expect("buffer size")];
    reader.next_frame(&mut buf).expect("read frame");
    assert_eq!(buf, pixels);
}

#[test]
fn what_is_no_image_is_refused() {
    assert!(encode_png(&[], 0, 1).is_err());
    assert!(encode_png(&[], 1, 0).is_err());
    match encode_png(&[1, 2, 3], 1, 1) {
        Err(CaptureError::Encode(m)) => assert!(!m.is_empty()),
        _ => panic!("encoded"),
    }
    let none = Viewport { width: 0, height: 0, scale: 0 };
    assert_eq!(painted_size(none), (1, 1));
    assert!(capture_png(&[0, 0, 0, 0], none).is_ok());
    assert!(capture_png(&[], none).is_err());
}

fn one() -> u32 {
    1.0f32.to_bits()
}

fn plain(id: u64, children: Vec<PaintBox>) -> PaintBox {
    let none = EdgeBorder { width: 0, styled: false, alpha: 0 };
    PaintBox {
        id,
        width: one(),
        height: one(),
        radii: BorderRadii {
            top_left: (0, 0),
            top_right: (0, 0),
            bottom_right: (0, 0),
            bottom_left: (0, 0),
        },
        has_outline: true,
        shadows: Vec::new(),
        background_alpha: None,
        gradients: Vec::new(),
        top: none,
        right: none,
        bottom: none,
        left: none,
        text: false,
        children,
    }
}

#[test]
fn boxes_are_painted_from_the_outside_in() {
    let edge = EdgeBorder { width: one(), styled: true, alpha: one() };
    let child = PaintBox { text: true, ..plain(2, Vec::new()) };
    let mut b = PaintBox {
        shadows: vec![
            BoxShadow { inset: true, alpha: one() },
            BoxShadow { inset: false, alpha: one() },
            BoxShadow { inset: false, alpha: 0 },
        ],
        background_alpha: Some(one()),
        gradients: vec![false, true],
        top: edge,
        left: edge,
        text: true,
        ..plain(1, vec![child])
    };
    b.radii.top_left = (0, one());
    assert!(b.radii.has_any_radius());
    let mut ops = Vec::new();
    render_node(&mut ops, &b);
    assert_eq!(
        ops,
        vec![
            PaintOp::OutsetShadow { id: 1, index: 1 },
            PaintOp::PushClip { id: 1 },
            PaintOp::Background { id: 1 },
            PaintOp::Gradient { id: 1, index: 1 },
            PaintOp::PushClip { id: 1 },
            PaintOp::InsetShadow { id: 1, index: 0 },
            PaintOp::PopClip { id: 1 },
            PaintOp::Border { id: 1, edge: Edge::Top },
            PaintOp::Border { id: 1, edge: Edge::Left },
            PaintOp::Text { id: 1 },
            PaintOp::Text { id: 2 },
            PaintOp::PopClip { id: 1 },
        ]
    );
}

#[test]
fn a_box_without_an_area_paints_only_its_children() {
    let child = PaintBox { text: true, ..plain(2, Vec::new()) };
    let b = PaintBox {
        width: 0,
        text: true,
        background_alpha: Some(one()),
        ..plain(1, vec![child])
    };
    let mut ops = Vec::new();
    render_node(&mut ops, &b);
    assert_eq!(ops, vec![PaintOp::Text { id: 2 }]);
}

#[test]
fn outlines_have_curves_only_at_round_corners() {
    assert_eq!(
        rounded_rect_path(false, true, false, false),
        vec![
            PathStep::MoveBehind(Corner::TopLeft),
            PathStep::LineBefore(Corner::TopRight),
            PathStep::CurveRound(Corner::TopRight),
            PathStep::LineBefore(Corner::BottomRight),
            PathStep::LineBefore(Corner::BottomLeft),
            PathStep::LineBefore(Corner::TopLeft),
            PathStep::Close,
        ]
    );
    assert_eq!(rounded_rect_path(true, true, true, true).len(), 10);
}

#[test]
fn borders_of_neighbours_meet() {
    let top = border_edge(Edge::Top);
    let right = border_edge(Edge::Right);
    assert_eq!(top[0], BorderPoint::Outer(Corner::TopLeft));
    assert_eq!(top[1], right[0]);
    assert_eq!(top[2], right[3]);
}

#[test]
fn gradients_run_along_their_direction() {
    let l = gradient_line(Direction::Horizontal(Horizontal::Left));
    assert_eq!(l.from, (Along::End, Along::Middle));
    assert_eq!(l.to, (Along::Start, Along::Middle));
    let l = gradient_line(Direction::Vertical(Vertical::Bottom));
    assert_eq!((l.from, l.to), ((Along::Middle, Along::Start), (Along::Middle, Along::End)));
    let l = gradient_line(Direction::Corner(Horizontal::Right, Vertical::Top));
    assert_eq!((l.from, l.to), ((Along::Start, Along::End), (Along::End, Along::Start)));
}

#[test]
fn colors_are_spread_evenly() {
    let stops = gradient_stops(&[
        GradientItem::Simple,
        GradientItem::Hint,
        GradientItem::Placed(false),
        GradientItem::Placed(true),
        GradientItem::Simple,
    ]);
    let places: Vec<(usize, StopPlace)> = stops.iter().map(|s| (s.item, s.place)).collect();
    assert_eq!(
        places,
        vec![
            (0, StopPlace::Part { index: 0, parts: 3 }),
            (3, StopPlace::Given),
            (4, StopPlace::Part { index: 2, parts: 3 }),
        ]
    );
    assert_eq!(gradient_stops(&[GradientItem::Simple])[0].place, StopPlace::Start);
    assert!(gradient_stops(&[GradientItem::Hint]).is_empty());
}

#[test]
fn a_gradient_repeats_pads_or_is_left_out() {
    assert_eq!(gradient_spread(0, true), None);
    assert_eq!(gradient_spread(0, false), None);
    assert_eq!(gradient_spread(2, true), Some(Spread::Repeat));
    assert_eq!(gradient_spread(1, false), Some(Spread::Pad));
}

#[test]
fn ligatures_show_the_text_of_all_their_clusters() {
    let c = |continues: bool, start: usize, end: usize, glyphs: usize| Cluster {
        continues,
        start,
        end,
        glyphs,
    };
    let g = draw_glyphs(&[
        c(true, 0, 1, 1),
        c(false, 1, 2, 2),
        c(true, 2, 3, 0),
        c(false, 3, 4, 1),
    ]);
    let spans: Vec<(usize, usize, usize, usize)> =
        g.iter().map(|d| (d.cluster, d.index, d.start, d.end)).collect();
    assert_eq!(spans, vec![(1, 0, 1, 2), (1, 1, 1, 3), (3, 0, 3, 4)]);
}

#[test]
fn fonts_are_loaded_once() {
    let mut f = FontCache::new();
    assert_eq!(f.find(9), None);
    assert_eq!(f.add(9), 0);
    assert_eq!(f.add(4), 1);
    assert_eq!(f.find(9), Some(0));
    assert_eq!(f.find(4), Some(1));
}
