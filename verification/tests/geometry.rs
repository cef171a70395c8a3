//! Regions of images, traces, masks, sign texts and gaps between events.
use chronoscope_core::evidence::{MaskDimensions, PixelPoint, Polyline, PolylineError};
use chronoscope_core::facts::event::{Days, GapBounds, GapBoundsError, OrderableEvent};
use chronoscope_core::facts::features::{SignText, SIGN_TEXT_MAX_LEN};
use chronoscope_core::facts::geometry::{ImageRegion, ProportionalRect, ProportionalRectError};
use chronoscope_core::facts::ids::ValidatedStringError;
use chronoscope_core::facts::lifecycle::LifetimeEventKind;

fn bbox(x: f32, y: f32, width: f32, height: f32) -> Result<ImageRegion, ProportionalRectError> {
    ImageRegion::bbox(
        x.to_bits(),
        y.to_bits(),
        width.to_bits(),
        height.to_bits(),
        (x + width).to_bits(),
        (y + height).to_bits(),
    )
}

fn rect(x: f32, y: f32, width: f32, height: f32) -> ProportionalRect {
    match bbox(x, y, width, height).unwrap() {
        ImageRegion::BBox { rect } => rect,
        ImageRegion::Mask { .. } => panic!("not a box"),
    }
}

#[test]
fn image_region_bbox_rejects_out_of_bounds() {
    assert!(matches!(bbox(0.6, 0.0, 0.5, 0.5), Err(ProportionalRectError::OutOfBounds { .. })));
}

#[test]
fn image_region_bbox_rejects_zero_extent() {
    assert!(matches!(
        bbox(0.0, 0.0, 0.0, 0.5),
        Err(ProportionalRectError::NonPositiveExtent { .. })
    ));
}

#[test]
fn image_region_bbox_rejects_nan() {
    assert!(matches!(bbox(f32::NAN, 0.0, 0.5, 0.5), Err(ProportionalRectError::NotFinite)));
}

#[test]
fn boxes_reject_what_the_comparisons_of_floats_reject() {
    let samples = [
        0.0f32,
        -0.0,
        0.25,
        0.5,
        0.75,
        1.0,
        1.5,
        -0.5,
        f32::MIN_POSITIVE,
        f32::INFINITY,
        f32::NEG_INFINITY,
        f32::NAN,
        f32::MAX,
    ];
    for x in samples {
        for y in samples {
            for width in samples {
                for height in samples {
                    let expected = if !(x.is_finite()
                        && y.is_finite()
                        && width.is_finite()
                        && height.is_finite())
                    {
                        Some(0)
                    } else if x < 0.0 || y < 0.0 {
                        Some(1)
                    } else if width <= 0.0 || height <= 0.0 {
                        Some(2)
                    } else if x + width > 1.0 || y + height > 1.0 {
                        Some(3)
                    } else {
                        None
                    };
                    let got = match bbox(x, y, width, height) {
                        Err(ProportionalRectError::NotFinite) => Some(0),
                        Err(ProportionalRectError::NegativeOrigin { .. }) => Some(1),
                        Err(ProportionalRectError::NonPositiveExtent { .. }) => Some(2),
                        Err(ProportionalRectError::OutOfBounds { .. }) => Some(3),
                        Ok(_) => None,
                    };
                    assert_eq!(got, expected, "{x} {y} {width} {height}");
                }
            }
        }
    }
}

#[test]
fn boxes_keep_all_components() {
    let r = rect(0.1, 0.2, 0.3, 0.4);
    assert_eq!(f32::from_bits(r.x()), 0.1);
    assert_eq!(f32::from_bits(r.y()), 0.2);
    assert_eq!(f32::from_bits(r.width()), 0.3);
    assert_eq!(f32::from_bits(r.height()), 0.4);
}

#[test]
fn negative_zero_is_invisible() {
    let neg = rect(-0.0, -0.0, 0.5, 0.5);
    let pos = rect(0.0, 0.0, 0.5, 0.5);
    assert_eq!(neg, pos);
    assert!(!(neg < pos) && !(pos < neg));
    assert!(rect(0.1, 0.0, 0.5, 0.5) < rect(0.25, 0.0, 0.5, 0.5));
}

#[test]
fn traces_have_two_points_or_more() {
    let point = |x: f64, y: f64| PixelPoint { x: x.to_bits(), y: y.to_bits() };
    assert_eq!(Polyline::new(vec![]), Err(PolylineError::TooFewPoints { count: 0 }));
    assert_eq!(
        Polyline::new(vec![point(1.0, 2.0)]),
        Err(PolylineError::TooFewPoints { count: 1 })
    );
    let line = Polyline::new(vec![point(1.0, 2.0), point(3.0, 4.0)]).unwrap();
    assert_eq!(line.points().len(), 2);
    assert_eq!(f64::from_bits(line.points()[1].x), 3.0);
}

#[test]
fn traces_compare_as_the_numbers_in_them_do() {
    let samples = [0.0f64, -0.0, 1.5, -1.5, f64::MIN_POSITIVE, f64::INFINITY, f64::NAN];
    let line = |x: f64| {
        let point = |x: f64, y: f64| PixelPoint { x: x.to_bits(), y: y.to_bits() };
        Polyline::new(vec![point(1.0, 2.0), point(3.0, x)]).unwrap()
    };
    for a in samples {
        for b in samples {
            assert_eq!(line(a) == line(b), a == b, "{a} and {b}");
        }
    }
    let short = line(1.5);
    let long = Polyline::new([short.points(), short.points()].concat()).unwrap();
    assert_ne!(short, long);
    assert_eq!(long.clone(), long);
}

#[test]
fn box_errors_compare_as_the_numbers_in_them_do() {
    assert_eq!(bbox(0.0, -1.0, 0.5, 0.5), bbox(-0.0, -1.0, 0.5, 0.5));
    assert_ne!(bbox(0.0, -1.0, 0.5, 0.5), bbox(0.0, -2.0, 0.5, 0.5));
    assert_eq!(bbox(0.1, 0.1, 0.0, 0.5), bbox(0.1, 0.1, -0.0, 0.5));
    assert_eq!(bbox(f32::NAN, 0.0, 0.5, 0.5), bbox(0.0, f32::INFINITY, 0.5, 0.5));
    let nan = f32::NAN.to_bits();
    let odd = ProportionalRectError::NegativeOrigin { x: nan, y: 0 };
    assert_ne!(odd, odd);
    assert_ne!(odd, ProportionalRectError::NotFinite);
}

#[test]
fn masks_have_an_extent() {
    assert!(MaskDimensions::new(0, 5).is_none());
    assert!(MaskDimensions::new(5, 0).is_none());
    let dims = MaskDimensions::new(3, 4).unwrap();
    assert_eq!((dims.height(), dims.width()), (3, 4));
}

#[test]
fn sign_text_rejects_whitespace_only() {
    assert!(matches!(SignText::new("   "), Err(ValidatedStringError::TooShort { .. })));
}

#[test]
fn sign_text_rejects_oversized() {
    let s = "x".repeat(SIGN_TEXT_MAX_LEN + 1);
    assert!(matches!(SignText::new(&s), Err(ValidatedStringError::TooLong { .. })));
}

#[test]
fn sign_text_stores_the_trimmed_form() {
    let s = SignText::new("  POST OFFICE  ").unwrap();
    assert_eq!(s.as_str(), "POST OFFICE");
    assert_eq!(SignText::new("\u{a0}\tX\n").unwrap().as_str(), "X");
}

fn anchor() -> OrderableEvent<u64, u64> {
    OrderableEvent::ConstructionCompletion { entity: 1 }
}

fn other() -> OrderableEvent<u64, u64> {
    OrderableEvent::DemolitionStart { entity: 2 }
}

#[test]
fn gap_bounds_rejects_both_open() {
    assert_eq!(
        GapBounds::new(anchor(), other(), None, None).unwrap_err(),
        GapBoundsError::Unconstrained
    );
}

#[test]
fn gap_bounds_rejects_min_exceeds_max() {
    assert_eq!(
        GapBounds::new(anchor(), other(), Some(Days::new(10)), Some(Days::new(5))).unwrap_err(),
        GapBoundsError::MinExceedsMax { min_days: 10, max_days: 5 }
    );
    assert!(GapBounds::new(anchor(), other(), Some(Days::new(5)), Some(Days::new(5))).is_ok());
    assert!(GapBounds::new(anchor(), other(), None, Some(Days::new(5))).is_ok());
}

#[test]
fn days_saturate() {
    assert_eq!(Days::new(3).saturating_add(Days::new(4)).as_u64(), 7);
    assert_eq!(Days::new(u64::MAX).saturating_add(Days::new(4)), Days::new(u64::MAX));
    let longest = Days::longest();
    assert_eq!((longest + longest + longest).as_u64(), 3 * (u64::MAX / 4));
    assert_eq!(Days::new(3) - Days::new(4), Days::zero());
    assert_eq!(Days::new(3).saturating_sub(Days::new(4)), Days::zero());
    assert_eq!(Days::new(9).saturating_sub(Days::new(4)).as_u64(), 5);
}

#[test]
fn lifetime_event_kinds_have_names() {
    let mut names: Vec<String> = Vec::new();
    for kind in LifetimeEventKind::durational_kinds() {
        names.push(kind.to_string());
    }
    for kind in LifetimeEventKind::point_kinds() {
        names.push(kind.to_string());
    }
    assert_eq!(
        names,
        vec!["modified", "damaged", "repaired", "moved", "usage_changed", "designated"]
    );
}

#[test]
fn shape_and_gap_errors_say_what_is_wrong() {
    assert_eq!(
        PolylineError::TooFewPoints { count: 1 }.to_string(),
        "polyline requires at least 2 points, got 1"
    );
    assert_eq!(
        GapBoundsError::Unconstrained.to_string(),
        "event gap must constrain at least one of min_days / max_days"
    );
    assert_eq!(
        GapBoundsError::MinExceedsMax { min_days: 10, max_days: 5 }.to_string(),
        "min_days (10) must not exceed max_days (5)"
    );
}
