//! Plotted functions: their orientation, default parameters and default style.
use vstd::prelude::*;
use vstd::string::StringSliceAdditionalSpecFns;

use crate::misc::push_str;

verus! {

/// Which coordinate is the independent one: `OfX` plots `(t, f(t))` for `t`
/// along the horizontal extent, `OfY` plots `(f(t), t)` for `t` along the
/// vertical one.
#[derive(Clone, Copy, PartialEq, Eq, Debug, Structural)]
pub enum FunctionKind {
    OfX,
    OfY,
}

/// The bisections every part of the domain gets before a chord may be accepted.
pub const DEFAULT_MIN_DEPTH: usize = 4;

/// The codomain's length over the error tolerance: about a display's width in
/// pixels (2000, in fixed point).
pub const DEFAULT_ERROR_TOLERANCE_FACTOR: u64 = 2000 * 4294967296;

/// The domain's length over the zero tolerance: about a display's width in
/// pixels (2000, in fixed point).
pub const DEFAULT_ZERO_TOLERANCE_FACTOR: u64 = 2000 * 4294967296;

pub const DEFAULT_KIND: FunctionKind = FunctionKind::OfX;

/// The rules of the default CSS class of function plots, each of which can be
/// left out.
#[derive(Clone, Copy, PartialEq, Eq, Debug, Structural)]
pub struct FunctionDefaultStyleClass {
    pub apply_stroke_width: bool,
    pub apply_linecap: bool,
    pub apply_linejoin: bool,
    pub apply_fill: bool,
    pub apply_stroke: bool,
}

/// The stroke width of a function plot, a fraction of the plane's longer side
/// (1/400), as CSS writes it.
pub const DEFAULT_FUNCTION_STROKE_WIDTH: &'static str = "0.0025";

pub const DEFAULT_FUNCTION_LINECAP: &'static str = "round";

pub const DEFAULT_FUNCTION_LINEJOIN: &'static str = "round";

pub const DEFAULT_FUNCTION_FILL: &'static str = "none";

pub const DEFAULT_FUNCTION_STROKE: &'static str = "black";

impl FunctionDefaultStyleClass {
    pub const NAME: &'static str = "yapl-def-fn";

    pub open spec fn all(on: bool) -> FunctionDefaultStyleClass {
        FunctionDefaultStyleClass {
            apply_stroke_width: on,
            apply_linecap: on,
            apply_linejoin: on,
            apply_fill: on,
            apply_stroke: on,
        }
    }

    /// Every rule applied.
    pub fn enabled() -> (r: FunctionDefaultStyleClass)
        ensures
            r == FunctionDefaultStyleClass::all(true),
    {
        FunctionDefaultStyleClass {
            apply_stroke_width: true,
            apply_linecap: true,
            apply_linejoin: true,
            apply_fill: true,
            apply_stroke: true,
        }
    }

    /// No rule applied: the class is not written at all.
    pub fn disabled() -> (r: FunctionDefaultStyleClass)
        ensures
            r == FunctionDefaultStyleClass::all(false),
    {
        FunctionDefaultStyleClass {
            apply_stroke_width: false,
            apply_linecap: false,
            apply_linejoin: false,
            apply_fill: false,
            apply_stroke: false,
        }
    }
}

/// The CSS declaration `property: value;` where `on` holds, else nothing.
pub open spec fn css_rule(on: bool, property: &str, value: &str) -> Seq<u8> {
    if on {
        property.spec_bytes() + ": ".spec_bytes() + value.spec_bytes() + ";".spec_bytes()
    } else {
        Seq::empty()
    }
}

/// The start of the CSS class `name`: `.name {`.
pub open spec fn class_open(name: &str) -> Seq<u8> {
    ".".spec_bytes() + name.spec_bytes() + " {".spec_bytes()
}

/// The CSS class `name` with the given declarations: `.name {...}`.
pub open spec fn css_class(name: &str, body: Seq<u8>) -> Seq<u8> {
    class_open(name) + body + "}".spec_bytes()
}

/// Appending `a` and then `b` appends `a + b`.
pub proof fn lemma_append_twice(s: Seq<u8>, a: Seq<u8>, b: Seq<u8>)
    ensures
        s + a + b == s + (a + b),
{
    vstd::seq_lib::lemma_concat_associative(s, a, b);
}

/// Closes the class whose start is at the end of `before` and whose body follows.
pub proof fn lemma_class(before: Seq<u8>, name: &str, body: Seq<u8>)
    ensures
        before + class_open(name) + body + "}".spec_bytes() == before + css_class(name, body),
{
    lemma_append_twice(before, class_open(name), body);
    lemma_append_twice(before, class_open(name) + body, "}".spec_bytes());
}

/// Writes `css_rule(on, property, value)`.
pub fn write_rule(out: &mut Vec<u8>, on: bool, property: &str, value: &str)
    ensures
        final(out)@ == old(out)@ + css_rule(on, property, value),
{
    if on {
        push_str(out, property);
        push_str(out, ": ");
        push_str(out, value);
        push_str(out, ";");
        assert(out@ =~= old(out)@ + css_rule(on, property, value));
    } else {
        assert(out@ =~= old(out)@ + css_rule(on, property, value));
    }
}

/// Writes `.name {` before a class body.
pub fn write_class_open(out: &mut Vec<u8>, name: &str)
    ensures
        final(out)@ == old(out)@ + class_open(name),
{
    push_str(out, ".");
    push_str(out, name);
    push_str(out, " {");
    proof {
        lemma_append_twice(old(out)@, ".".spec_bytes(), name.spec_bytes());
        lemma_append_twice(old(out)@, ".".spec_bytes() + name.spec_bytes(), " {".spec_bytes());
    }
}

/// The text of the default function class; nothing when every rule is off.
pub open spec fn function_class_css(c: FunctionDefaultStyleClass) -> Seq<u8> {
    if c == FunctionDefaultStyleClass::all(false) {
        Seq::empty()
    } else {
        css_class(
            FunctionDefaultStyleClass::NAME,
            css_rule(c.apply_stroke_width, "stroke-width", DEFAULT_FUNCTION_STROKE_WIDTH) + css_rule(
                c.apply_linecap,
                "stroke-linecap",
                DEFAULT_FUNCTION_LINECAP,
            ) + css_rule(c.apply_linejoin, "stroke-linejoin", DEFAULT_FUNCTION_LINEJOIN) + css_rule(
                c.apply_fill,
                "fill",
                DEFAULT_FUNCTION_FILL,
            ) + css_rule(c.apply_stroke, "stroke", DEFAULT_FUNCTION_STROKE),
        )
    }
}

/// Writes the default function class as the stylesheet holds it.
pub fn write_function_default_style_class(out: &mut Vec<u8>, class: &FunctionDefaultStyleClass)
    ensures
        final(out)@ == old(out)@ + function_class_css(*class),
{
    if *class == FunctionDefaultStyleClass::disabled() {
        assert(out@ =~= old(out)@ + function_class_css(*class));
        return;
    }
    write_class_open(out, FunctionDefaultStyleClass::NAME);
    let ghost head = out@;
    let ghost r1 = css_rule(class.apply_stroke_width, "stroke-width", DEFAULT_FUNCTION_STROKE_WIDTH);
    let ghost r2 = css_rule(class.apply_linecap, "stroke-linecap", DEFAULT_FUNCTION_LINECAP);
    let ghost r3 = css_rule(class.apply_linejoin, "stroke-linejoin", DEFAULT_FUNCTION_LINEJOIN);
    let ghost r4 = css_rule(class.apply_fill, "fill", DEFAULT_FUNCTION_FILL);
    let ghost r5 = css_rule(class.apply_stroke, "stroke", DEFAULT_FUNCTION_STROKE);
    write_rule(out, class.apply_stroke_width, "stroke-width", DEFAULT_FUNCTION_STROKE_WIDTH);
    write_rule(out, class.apply_linecap, "stroke-linecap", DEFAULT_FUNCTION_LINECAP);
    proof {
        lemma_append_twice(head, r1, r2);
    }
    write_rule(out, class.apply_linejoin, "stroke-linejoin", DEFAULT_FUNCTION_LINEJOIN);
    proof {
        lemma_append_twice(head, r1 + r2, r3);
    }
    write_rule(out, class.apply_fill, "fill", DEFAULT_FUNCTION_FILL);
    proof {
        lemma_append_twice(head, r1 + r2 + r3, r4);
    }
    write_rule(out, class.apply_stroke, "stroke", DEFAULT_FUNCTION_STROKE);
    proof {
        lemma_append_twice(head, r1 + r2 + r3 + r4, r5);
    }
    push_str(out, "}");
    proof {
        lemma_class(old(out)@, FunctionDefaultStyleClass::NAME, r1 + r2 + r3 + r4 + r5);
    }
}

} // verus!
