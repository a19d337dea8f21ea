use yapl::codegen::{codegen_stylesheet, fnplot_params, path_commands, symbolic_tick_tex, tick_points, PathCommand, TickPoint};
use yapl::elements::axis::{
    write_axis_default_style_class, write_tick_default_style_class, AxisDefaultStyleClass, SymbolicTickLabel,
    TickDefaultStyleClass,
};
use yapl::elements::function::{
    write_function_default_style_class, FunctionDefaultStyleClass, FunctionKind, DEFAULT_ERROR_TOLERANCE_FACTOR,
    DEFAULT_ZERO_TOLERANCE_FACTOR,
};
use yapl::math::{BoundingRect, ClosedInterval, NonDecreasing, OpenInterval, Real, Vec2D, UNIT};
use yapl::misc::{read_u32_le, Push, SegVec, SegVecRoot};
use yapl::plotfn::{Anchor, Node};
use yapl::style::{DefaultGlobalStyleClasses, Stylesheet};
use yapl::typography::{conversion_request, shutdown_request, stylesheet_request};

fn nd(a: i64, b: i64) -> NonDecreasing {
    NonDecreasing::new(Real::Finite(a), Real::Finite(b))
}

fn closed(a: i64, b: i64) -> ClosedInterval {
    ClosedInterval::new(nd(a, b))
}

fn open(a: Real, b: Real) -> OpenInterval {
    OpenInterval::new(NonDecreasing::new(a, b))
}

fn text(bytes: Vec<u8>) -> String {
    String::from_utf8(bytes).unwrap()
}

#[test]
fn minmax_orders_its_arguments() {
    let i = NonDecreasing::minmax(Real::Finite(3), Real::Finite(-2));
    assert_eq!(i.begin(), Real::Finite(-2));
    assert_eq!(i.end(), Real::Finite(3));
    let j = NonDecreasing::minmax(Real::PosInfinity, Real::Finite(1));
    assert_eq!(j.begin(), Real::Finite(1));
    assert_eq!(j.end(), Real::PosInfinity);
}

#[test]
fn reflect_mirrors_in_zero() {
    let mut i = NonDecreasing::new(Real::NegInfinity, Real::Finite(4));
    i.reflect();
    assert_eq!(i.begin(), Real::Finite(-4));
    assert_eq!(i.end(), Real::PosInfinity);
}

#[test]
fn closed_interval_measures_and_includes() {
    let c = closed(-5, 7);
    assert_eq!(c.len(), 12);
    assert!(c.includes(Real::Finite(-5)));
    assert!(c.includes(Real::Finite(7)));
    assert!(!c.includes(Real::Finite(8)));
    assert!(!c.includes(Real::PosInfinity));
    assert!(!c.includes(Real::NaN));
    assert!(c.covers(nd(-5, 0)));
    assert!(!c.covers(nd(-6, 0)));
    assert_eq!(closed(i64::MIN, i64::MAX).len(), u64::MAX);
}

#[test]
fn open_intervals_overlap_symmetrically() {
    let a = open(Real::Finite(0), Real::Finite(10));
    let b = open(Real::Finite(10), Real::PosInfinity);
    let c = open(Real::Finite(5), Real::Finite(15));
    let point = open(Real::Finite(3), Real::Finite(3));
    assert!(!a.overlaps(b) && !b.overlaps(a));
    assert!(a.overlaps(c) && c.overlaps(a));
    assert!(!a.overlaps(point) && !point.overlaps(a));
    assert!(a.is_disjoint_with(b));
    assert!(point.is_empty());
    assert!(open(Real::PosInfinity, Real::PosInfinity).is_empty());
    assert!(a.includes(Real::Finite(5)));
    assert!(a.excludes(Real::Finite(0)));
    assert!(b.includes(Real::Finite(11)));
    assert!(!b.includes(Real::PosInfinity));
}

#[test]
fn bounding_rect_area_corner_and_points() {
    let r = BoundingRect { x: closed(0, 4), y: closed(-1, 2) };
    assert_eq!(r.area(), 12);
    assert_eq!(r.top_right(), Vec2D { x: 4, y: -1 });
    assert!(r.includes(&Vec2D { x: 4, y: 2 }));
    assert!(!r.includes(&Vec2D { x: 5, y: 0 }));
    let wide = BoundingRect { x: closed(i64::MIN, i64::MAX), y: closed(i64::MIN, i64::MAX) };
    assert_eq!(wide.area(), (u64::MAX as u128) * (u64::MAX as u128));
}

#[test]
fn real_order_leaves_nan_unordered() {
    assert!(Real::NegInfinity.lt(Real::Finite(i64::MIN)));
    assert!(Real::Finite(i64::MAX).lt(Real::PosInfinity));
    assert!(!Real::NaN.le(Real::NaN));
    assert!(!Real::NaN.lt(Real::Finite(0)));
    assert!(Real::PosInfinity.le(Real::PosInfinity));
    assert_eq!(Real::Finite(5).neg(), Real::Finite(-5));
    assert_eq!(UNIT, 1i64 << 32);
}

#[test]
fn nested_segment_leaves_outer_untouched() {
    let mut root: SegVecRoot<u32> = SegVecRoot::new();
    let mut outer = root.extend();
    outer.push(1);
    outer.push(2);
    let before = outer.as_slice().to_vec();
    let mut inner = outer.extend();
    inner.push(3);
    inner.push(4);
    inner.as_mut_slice()[0] = 9;
    assert_eq!(inner.as_slice(), &[9, 4]);
    assert_eq!(inner.swap_remove(0), 9);
    assert_eq!(inner.pop(), Some(4));
    assert_eq!(inner.pop(), None);
    inner.push(5);
    outer.release(inner);
    assert_eq!(outer.as_slice(), &before[..]);
    assert_eq!(outer.len(), 2);
    root.release(outer);
}

#[test]
fn segment_pop_stops_at_its_start() {
    let mut seg = SegVec::new(vec![1u8, 2]);
    assert!(seg.is_empty());
    assert_eq!(seg.pop(), None);
    Push::push(&mut seg, 3);
    assert_eq!(seg.len(), 1);
    assert_eq!(seg.pop(), Some(3));
    assert_eq!(seg.close(), vec![1, 2]);
    let mut v: Vec<u8> = Vec::new();
    Push::push(&mut v, 7);
    assert_eq!(v, vec![7]);
}

#[test]
fn reads_little_endian_u32() {
    assert_eq!(read_u32_le(&[0x78, 0x56, 0x34, 0x12]), Some(0x1234_5678));
    assert_eq!(read_u32_le(&[0xff, 0xff, 0xff, 0xff, 0]), Some(u32::MAX));
    assert_eq!(read_u32_le(&[1, 2, 3]), None);
}

#[test]
fn default_classes_write_their_rules() {
    let mut out = Vec::new();
    write_function_default_style_class(&mut out, &FunctionDefaultStyleClass::enabled());
    assert_eq!(
        text(out),
        ".yapl-def-fn {stroke-width: 0.0025;stroke-linecap: round;stroke-linejoin: round;fill: none;stroke: black;}"
    );
    let mut out = Vec::new();
    write_axis_default_style_class(&mut out, &AxisDefaultStyleClass::enabled());
    assert_eq!(text(out), ".yapl-def-axis {stroke-width: 0.001;stroke: black;}");
    let mut out = Vec::new();
    write_tick_default_style_class(&mut out, &TickDefaultStyleClass { apply_stroke_width: false, apply_stroke: true });
    assert_eq!(text(out), ".yapl-def-tick {stroke: black;}");
    let mut out = Vec::new();
    write_function_default_style_class(&mut out, &FunctionDefaultStyleClass::disabled());
    assert!(out.is_empty());
}

#[test]
fn stylesheet_holds_the_classes_in_use() {
    let s = Stylesheet::new_default();
    assert_eq!(
        text(codegen_stylesheet(&s, &[true], &[false], &[])),
        "<style><![CDATA[.yapl-def-fn {stroke-width: 0.0025;stroke-linecap: round;stroke-linejoin: round;fill: none;stroke: black;}]]></style>"
    );
    assert!(codegen_stylesheet(&s, &[false], &[], &[false]).is_empty());
    let custom = Stylesheet { defaults: DefaultGlobalStyleClasses::disabled(), custom: Some(".a {}") };
    assert_eq!(text(codegen_stylesheet(&custom, &[true], &[true], &[true])), "<style><![CDATA[.a {}]]></style>");
    let mut some = DefaultGlobalStyleClasses::enabled();
    some.function = FunctionDefaultStyleClass::disabled();
    let s = Stylesheet { defaults: some, custom: None };
    assert_eq!(
        text(codegen_stylesheet(&s, &[true], &[true], &[true])),
        "<style><![CDATA[.yapl-def-axis {stroke-width: 0.001;stroke: black;}.yapl-def-tick {stroke-width: 0.001;stroke: black;}]]></style>"
    );
}

#[test]
fn path_moves_after_breaks_and_lines_otherwise() {
    let a = |x: i64| Node::Anchor(Anchor { input: x });
    let nodes = [Node::Break, a(1), a(2), a(3), Node::Break, a(7), a(8)];
    assert_eq!(
        path_commands(&nodes),
        vec![
            PathCommand::MoveTo(1),
            PathCommand::LineTo(2),
            PathCommand::LineTo(3),
            PathCommand::MoveTo(7),
            PathCommand::LineTo(8)
        ]
    );
    assert_eq!(path_commands(&[a(4)]), vec![PathCommand::MoveTo(4)]);
    assert!(path_commands(&[]).is_empty());
}

#[test]
fn plot_params_follow_the_kind() {
    let x = closed(0, 4000);
    let y = closed(-100, 100);
    let unit = UNIT as u64;
    let p = fnplot_params(x, y, FunctionKind::OfX, 4, 2000 * unit, 2000 * unit);
    assert_eq!(p.domain.begin(), 0);
    assert_eq!(p.codomain.end(), 100);
    assert_eq!(p.error_tolerance, 0);
    assert_eq!(p.zero_tolerance, 2);
    let q = fnplot_params(x, y, FunctionKind::OfY, 3, 10 * unit, 100 * unit);
    assert_eq!(q.domain.end(), 100);
    assert_eq!(q.codomain.end(), 4000);
    assert_eq!(q.min_depth, 3);
    assert_eq!(q.error_tolerance, 400);
    assert_eq!(q.zero_tolerance, 2);
    // A factor of one half doubles the length; a tiny one saturates.
    let r = fnplot_params(x, y, FunctionKind::OfX, 0, unit / 2, 1);
    assert_eq!(r.error_tolerance, 400);
    assert_eq!(r.zero_tolerance, 4000 * unit);
    let wide = closed(i64::MIN, i64::MAX);
    assert_eq!(fnplot_params(wide, y, FunctionKind::OfX, 0, unit, 1).zero_tolerance, u64::MAX);
}

#[test]
fn default_factors_are_two_thousand() {
    assert_eq!(DEFAULT_ERROR_TOLERANCE_FACTOR, 2000 * UNIT as u64);
    assert_eq!(DEFAULT_ZERO_TOLERANCE_FACTOR, 2000 * UNIT as u64);
}

#[test]
fn ticks_stop_at_the_end_of_the_view() {
    for t in tick_points(closed(-7, 9), -2, 4) {
        assert!(-7 <= t.position && t.position <= 9);
    }
    let last = tick_points(closed(0, 10), 0, 5);
    assert_eq!(last.iter().map(|t| t.position).collect::<Vec<_>>(), vec![0, 5, 10]);
}

#[test]
fn lent_segment_is_marked_until_release() {
    let mut root: SegVecRoot<u8> = SegVecRoot::new();
    let mut outer = root.extend();
    outer.push(1);
    let inner = outer.extend();
    assert_eq!(inner.len(), 0);
    outer.release(inner);
    assert_eq!(outer.as_slice(), &[1]);
    root.release(outer);
    let again = root.extend();
    assert!(again.is_empty());
    root.release(again);
}

#[test]
fn ticks_are_the_multiples_in_view() {
    let t = tick_points(closed(-5, 5), 0, 2);
    assert_eq!(
        t,
        vec![
            TickPoint { multiple: -2, position: -4 },
            TickPoint { multiple: -1, position: -2 },
            TickPoint { multiple: 0, position: 0 },
            TickPoint { multiple: 1, position: 2 },
            TickPoint { multiple: 2, position: 4 }
        ]
    );
    let shifted = tick_points(closed(-5, 5), 1, 3);
    assert_eq!(shifted.iter().map(|t| t.position).collect::<Vec<_>>(), vec![-5, -2, 1, 4]);
    assert_eq!(shifted[0].multiple, -2);
    assert!(tick_points(closed(-5, 5), 0, 0).is_empty());
    assert!(tick_points(closed(1, 2), 0, 10).is_empty());
}

#[test]
fn symbolic_labels_read_as_multiples() {
    let pi = SymbolicTickLabel { offset_symbol_tex: None, stride_symbol_tex: "\\pi" };
    assert_eq!(text(symbolic_tick_tex(&pi, 1)), " \\pi");
    assert_eq!(text(symbolic_tick_tex(&pi, -1)), "- \\pi");
    assert_eq!(text(symbolic_tick_tex(&pi, 0)), "0 ");
    assert_eq!(text(symbolic_tick_tex(&pi, -12)), "-12 \\pi");
    let shifted = SymbolicTickLabel { offset_symbol_tex: Some("a"), stride_symbol_tex: "b" };
    assert_eq!(text(symbolic_tick_tex(&shifted, 2)), "a \\plus 2 b");
    assert_eq!(text(symbolic_tick_tex(&shifted, -3)), "a -3 b");
}

#[test]
fn renderer_requests_are_length_prefixed() {
    assert_eq!(
        conversion_request(Some("xMinYMin"), "x^2"),
        [vec![0, 0, 0, 0, 8, 0, 0, 0], b"xMinYMin".to_vec(), vec![3, 0, 0, 0], b"x^2".to_vec()].concat()
    );
    assert_eq!(conversion_request(None, "1"), vec![0, 0, 0, 0, 0, 0, 0, 0, 1, 0, 0, 0, b'1']);
    assert_eq!(stylesheet_request(), vec![1, 0, 0, 0]);
    assert_eq!(shutdown_request(), vec![2, 0, 0, 0]);
}
