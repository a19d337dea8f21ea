//! Axes: the default style of their lines and ticks, and their tick labels.
use vstd::prelude::*;

use crate::elements::function::{css_class, css_rule, lemma_append_twice, lemma_class, write_class_open, write_rule};
use crate::misc::push_str;

verus! {

/// The rules of the default CSS class of axis lines.
#[derive(Clone, Copy, PartialEq, Eq, Debug, Structural)]
pub struct AxisDefaultStyleClass {
    pub apply_stroke_width: bool,
    pub apply_stroke: bool,
}

/// The stroke width of an axis, a fraction of the plane's longer side
/// (1/1000), as CSS writes it.
pub const DEFAULT_AXIS_STROKE_WIDTH: &'static str = "0.001";

pub const DEFAULT_AXIS_STROKE: &'static str = "black";

impl AxisDefaultStyleClass {
    pub const NAME: &'static str = "yapl-def-axis";

    pub fn enabled() -> (r: AxisDefaultStyleClass)
        ensures
            r == (AxisDefaultStyleClass { apply_stroke_width: true, apply_stroke: true }),
    {
        AxisDefaultStyleClass { apply_stroke_width: true, apply_stroke: true }
    }

    pub fn disabled() -> (r: AxisDefaultStyleClass)
        ensures
            r == (AxisDefaultStyleClass { apply_stroke_width: false, apply_stroke: false }),
    {
        AxisDefaultStyleClass { apply_stroke_width: false, apply_stroke: false }
    }
}

/// The text of the default axis class; nothing when every rule is off.
pub open spec fn axis_class_css(c: AxisDefaultStyleClass) -> Seq<u8> {
    if !c.apply_stroke_width && !c.apply_stroke {
        Seq::empty()
    } else {
        css_class(
            AxisDefaultStyleClass::NAME,
            css_rule(c.apply_stroke_width, "stroke-width", DEFAULT_AXIS_STROKE_WIDTH) + css_rule(
                c.apply_stroke,
                "stroke",
                DEFAULT_AXIS_STROKE,
            ),
        )
    }
}

pub fn write_axis_default_style_class(out: &mut Vec<u8>, class: &AxisDefaultStyleClass)
    ensures
        final(out)@ == old(out)@ + axis_class_css(*class),
{
    if *class == AxisDefaultStyleClass::disabled() {
        assert(out@ =~= old(out)@ + axis_class_css(*class));
        return;
    }
    write_class_open(out, AxisDefaultStyleClass::NAME);
    let ghost head = out@;
    let ghost r1 = css_rule(class.apply_stroke_width, "stroke-width", DEFAULT_AXIS_STROKE_WIDTH);
    let ghost r2 = css_rule(class.apply_stroke, "stroke", DEFAULT_AXIS_STROKE);
    write_rule(out, class.apply_stroke_width, "stroke-width", DEFAULT_AXIS_STROKE_WIDTH);
    write_rule(out, class.apply_stroke, "stroke", DEFAULT_AXIS_STROKE);
    proof {
        lemma_append_twice(head, r1, r2);
    }
    push_str(out, "}");
    proof {
        lemma_class(old(out)@, AxisDefaultStyleClass::NAME, r1 + r2);
    }
}

/// The rules of the default CSS class of tick marks.
#[derive(Clone, Copy, PartialEq, Eq, Debug, Structural)]
pub struct TickDefaultStyleClass {
    pub apply_stroke_width: bool,
    pub apply_stroke: bool,
}

/// The stroke width of a tick mark: that of an axis.
pub const DEFAULT_TICK_STROKE_WIDTH: &'static str = DEFAULT_AXIS_STROKE_WIDTH;

pub const DEFAULT_TICK_STROKE: &'static str = "black";

impl TickDefaultStyleClass {
    pub const NAME: &'static str = "yapl-def-tick";

    pub fn enabled() -> (r: TickDefaultStyleClass)
        ensures
            r == (TickDefaultStyleClass { apply_stroke_width: true, apply_stroke: true }),
    {
        TickDefaultStyleClass { apply_stroke_width: true, apply_stroke: true }
    }

    pub fn disabled() -> (r: TickDefaultStyleClass)
        ensures
            r == (TickDefaultStyleClass { apply_stroke_width: false, apply_stroke: false }),
    {
        TickDefaultStyleClass { apply_stroke_width: false, apply_stroke: false }
    }
}

/// The text of the default tick class; nothing when every rule is off.
pub open spec fn tick_class_css(c: TickDefaultStyleClass) -> Seq<u8> {
    if !c.apply_stroke_width && !c.apply_stroke {
        Seq::empty()
    } else {
        css_class(
            TickDefaultStyleClass::NAME,
            css_rule(c.apply_stroke_width, "stroke-width", DEFAULT_TICK_STROKE_WIDTH) + css_rule(
                c.apply_stroke,
                "stroke",
                DEFAULT_TICK_STROKE,
            ),
        )
    }
}

pub fn write_tick_default_style_class(out: &mut Vec<u8>, class: &TickDefaultStyleClass)
    ensures
        final(out)@ == old(out)@ + tick_class_css(*class),
{
    if *class == TickDefaultStyleClass::disabled() {
        assert(out@ =~= old(out)@ + tick_class_css(*class));
        return;
    }
    write_class_open(out, TickDefaultStyleClass::NAME);
    let ghost head = out@;
    let ghost r1 = css_rule(class.apply_stroke_width, "stroke-width", DEFAULT_TICK_STROKE_WIDTH);
    let ghost r2 = css_rule(class.apply_stroke, "stroke", DEFAULT_TICK_STROKE);
    write_rule(out, class.apply_stroke_width, "stroke-width", DEFAULT_TICK_STROKE_WIDTH);
    write_rule(out, class.apply_stroke, "stroke", DEFAULT_TICK_STROKE);
    proof {
        lemma_append_twice(head, r1, r2);
    }
    push_str(out, "}");
    proof {
        lemma_class(old(out)@, TickDefaultStyleClass::NAME, r1 + r2);
    }
}

/// How tick labels read: as decimals, or as multiples of a symbol.
#[derive(Clone, Copy, Debug)]
pub enum TickLabelKind<'a> {
    Decimal,
    Symbolic(SymbolicTickLabel<'a>),
}

/// Labels of the form `offset + k stride`, written in TeX.
#[derive(Clone, Copy, Debug)]
pub struct SymbolicTickLabel<'a> {
    /// The symbol for the axis's offset, if it is labelled.
    pub offset_symbol_tex: Option<&'a str>,
    /// The symbol for the axis's stride.
    pub stride_symbol_tex: &'a str,
}

} // verus!
