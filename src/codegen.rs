//! What the SVG emitter decides before it writes: the sampler's parameters for
//! each function, the path commands for a node list, the stylesheet's text, the
//! ticks along an axis and the text of their labels.
use vstd::prelude::*;
use vstd::string::StringSliceAdditionalSpecFns;

use crate::elements::axis::{SymbolicTickLabel, axis_class_css, tick_class_css, write_axis_default_style_class, write_tick_default_style_class};
use crate::elements::function::{function_class_css, write_function_default_style_class, FunctionKind};
use crate::math::{ClosedInterval, UNIT};
use crate::misc::push_str;
use crate::plotfn::{Node, PlotFnParams};
use crate::style::Stylesheet;

verus! {

/// The tolerance for an interval of length `len` and a factor that is the
/// fixed-point real `factor / UNIT`: `len / (factor / UNIT)`, rounded down and
/// capped at the largest `u64`.
pub open spec fn tolerance(len: int, factor: int) -> int {
    let t = (len * UNIT) / factor;
    if t > u64::MAX {
        u64::MAX as int
    } else {
        t
    }
}

fn tolerance_of(len: u64, factor: u64) -> (r: u64)
    requires
        factor > 0,
    ensures
        r == tolerance(len as int, factor as int),
{
    proof {
        vstd::arithmetic::mul::lemma_mul_upper_bound(len as int, u64::MAX as int, UNIT as int, UNIT as int);
    }
    let t = (len as u128 * UNIT as u128) / (factor as u128);
    if t > u64::MAX as u128 {
        u64::MAX
    } else {
        t as u64
    }
}

/// The sampler's parameters for a function of kind `kind` over the rectangle
/// `x` by `y`: the independent coordinate's interval is the domain, the other
/// the codomain, and each tolerance is its interval's length over its factor.
/// The factors are positive fixed-point reals (`factor / UNIT`).
pub fn fnplot_params(
    x: ClosedInterval,
    y: ClosedInterval,
    kind: FunctionKind,
    min_depth: usize,
    error_tolerance_factor: u64,
    zero_tolerance_factor: u64,
) -> (r: PlotFnParams)
    requires
        error_tolerance_factor > 0,
        zero_tolerance_factor > 0,
    ensures
        kind == FunctionKind::OfX ==> r.domain == x && r.codomain == y,
        kind == FunctionKind::OfY ==> r.domain == y && r.codomain == x,
        r.min_depth == min_depth,
        r.error_tolerance == tolerance(r.codomain.hi() - r.codomain.lo(), error_tolerance_factor as int),
        r.zero_tolerance == tolerance(r.domain.hi() - r.domain.lo(), zero_tolerance_factor as int),
{
    let (domain, codomain) = match kind {
        FunctionKind::OfX => (x, y),
        FunctionKind::OfY => (y, x),
    };
    let error_tolerance = tolerance_of(codomain.len(), error_tolerance_factor);
    let zero_tolerance = tolerance_of(domain.len(), zero_tolerance_factor);
    PlotFnParams { domain, codomain, min_depth, error_tolerance, zero_tolerance }
}

/// A step of an SVG path along the independent coordinate: `M` starts a new
/// polyline, `L` continues the current one.
#[derive(Clone, Copy, PartialEq, Eq, Debug, Structural)]
pub enum PathCommand {
    MoveTo(i64),
    LineTo(i64),
}

/// An anchor starts a polyline when nothing, or a break, comes before it.
pub open spec fn starts_run(before: Seq<Node>) -> bool {
    before.len() == 0 || before.last() is Break
}

/// The path commands for `nodes`: one per anchor, `M` where it starts a
/// polyline and `L` elsewhere; breaks give none.
pub open spec fn path_spec(nodes: Seq<Node>) -> Seq<PathCommand>
    decreases nodes.len(),
{
    if nodes.len() == 0 {
        Seq::empty()
    } else {
        let prev = path_spec(nodes.drop_last());
        match nodes.last() {
            Node::Break => prev,
            Node::Anchor(a) => prev.push(
                if starts_run(nodes.drop_last()) {
                    PathCommand::MoveTo(a.input)
                } else {
                    PathCommand::LineTo(a.input)
                },
            ),
        }
    }
}

/// Turns the sampler's nodes into path commands.
pub fn path_commands(nodes: &[Node]) -> (r: Vec<PathCommand>)
    ensures
        r@ == path_spec(nodes@),
{
    let mut out: Vec<PathCommand> = Vec::new();
    let mut broken = true;
    let mut i: usize = 0;
    while i < nodes.len()
        invariant
            i <= nodes@.len(),
            out@ == path_spec(nodes@.subrange(0, i as int)),
            broken == starts_run(nodes@.subrange(0, i as int)),
        decreases nodes@.len() - i,
    {
        let ghost prefix = nodes@.subrange(0, i as int);
        let ghost next = nodes@.subrange(0, i as int + 1);
        assert(next.drop_last() =~= prefix);
        match nodes[i] {
            Node::Break => {
                broken = true;
            },
            Node::Anchor(a) => {
                if broken {
                    out.push(PathCommand::MoveTo(a.input));
                } else {
                    out.push(PathCommand::LineTo(a.input));
                }
                broken = false;
            },
        }
        i = i + 1;
    }
    assert(nodes@.subrange(0, i as int) =~= nodes@);
    out
}

/// Some flag is set.
pub open spec fn any_set(flags: Seq<bool>) -> bool {
    exists|i: int| 0 <= i < flags.len() && flags[i]
}

fn any(flags: &[bool]) -> (r: bool)
    ensures
        r == any_set(flags@),
{
    let mut i: usize = 0;
    while i < flags.len()
        invariant
            i <= flags@.len(),
            forall|j: int| 0 <= j < i ==> !flags@[j],
        decreases flags@.len() - i,
    {
        if flags[i] {
            return true;
        }
        i = i + 1;
    }
    false
}

pub open spec fn when(on: bool, text: Seq<u8>) -> Seq<u8> {
    if on {
        text
    } else {
        Seq::empty()
    }
}

/// The `<style>` element for a plot whose elements use the default function,
/// axis and tick classes as the flags say; nothing when no default class is
/// used and there is no custom CSS.
pub open spec fn stylesheet_spec(s: Stylesheet, functions: bool, axes: bool, ticks: bool) -> Seq<u8> {
    if !functions && !axes && !ticks && s.custom is None {
        Seq::empty()
    } else {
        "<style>".spec_bytes() + "<![CDATA[".spec_bytes() + when(
            functions,
            function_class_css(s.defaults.function),
        ) + when(axes, axis_class_css(s.defaults.axis)) + when(ticks, tick_class_css(s.defaults.tick))
            + match s.custom {
            Some(c) => c.spec_bytes(),
            None => Seq::empty(),
        } + "]]>".spec_bytes() + "</style>".spec_bytes()
    }
}

/// The stylesheet of a plot. Each flag of `function_defaults` says whether a
/// function's path carries the default class; `axis_defaults` and
/// `tick_defaults` say the same of each axis line and of each axis's ticks.
pub fn codegen_stylesheet(
    stylesheet: &Stylesheet,
    function_defaults: &[bool],
    axis_defaults: &[bool],
    tick_defaults: &[bool],
) -> (r: Vec<u8>)
    ensures
        r@ == stylesheet_spec(
            *stylesheet,
            any_set(function_defaults@),
            any_set(axis_defaults@),
            any_set(tick_defaults@),
        ),
{
    let functions = any(function_defaults);
    let axes = any(axis_defaults);
    let ticks = any(tick_defaults);
    let mut out: Vec<u8> = Vec::new();
    if !functions && !axes && !ticks && stylesheet.custom.is_none() {
        assert(out@ =~= Seq::<u8>::empty());
        return out;
    }
    push_str(&mut out, "<style>");
    push_str(&mut out, "<![CDATA[");
    if functions {
        write_function_default_style_class(&mut out, &stylesheet.defaults.function);
    }
    if axes {
        write_axis_default_style_class(&mut out, &stylesheet.defaults.axis);
    }
    if ticks {
        write_tick_default_style_class(&mut out, &stylesheet.defaults.tick);
    }
    match stylesheet.custom {
        Some(c) => push_str(&mut out, c),
        None => {},
    }
    push_str(&mut out, "]]>");
    push_str(&mut out, "</style>");
    assert(out@ =~= stylesheet_spec(*stylesheet, functions, axes, ticks));
    out
}

/// A tick on an axis: at `position = offset + multiple * stride`.
#[derive(Clone, Copy, PartialEq, Eq, Debug, Structural)]
pub struct TickPoint {
    pub multiple: i128,
    pub position: i64,
}

/// `a / s` rounded up, for `s > 0`.
pub open spec fn ceil_div(a: int, s: int) -> int {
    if a >= 0 {
        (a + s - 1) / s
    } else {
        -((-a) / s)
    }
}

proof fn lemma_ceil_div(a: int, s: int)
    requires
        s > 0,
    ensures
        ceil_div(a, s) * s >= a,
        (ceil_div(a, s) - 1) * s < a,
{
    let c = ceil_div(a, s);
    if a >= 0 {
        vstd::arithmetic::div_mod::lemma_fundamental_div_mod(a + s - 1, s);
        vstd::arithmetic::div_mod::lemma_mod_bound(a + s - 1, s);
        assert(c * s == (a + s - 1) - (a + s - 1) % s) by (nonlinear_arith)
            requires
                a + s - 1 == s * ((a + s - 1) / s) + (a + s - 1) % s,
                c == (a + s - 1) / s,
        ;
    } else {
        vstd::arithmetic::div_mod::lemma_fundamental_div_mod(-a, s);
        vstd::arithmetic::div_mod::lemma_mod_bound(-a, s);
        assert(c * s == a + (-a) % s) by (nonlinear_arith)
            requires
                -a == s * ((-a) / s) + (-a) % s,
                c == -((-a) / s),
        ;
    }
    assert((c - 1) * s == c * s - s) by (nonlinear_arith);
}

/// The ticks of an axis over the visible interval: `offset + k * stride` for
/// each integer `k` from `ceil((begin - offset) / stride)` up while the
/// position stays at most `end`. A stride of zero has no ticks.
pub fn tick_points(visible: ClosedInterval, offset: i64, stride: i64) -> (r: Vec<TickPoint>)
    requires
        stride >= 0,
    ensures
        stride == 0 ==> r@.len() == 0,
        stride > 0 ==> {
            let first = ceil_div(visible.lo() - offset, stride as int);
            &&& offset + first * stride >= visible.lo()
            &&& offset + (first - 1) * stride < visible.lo()
            &&& offset + (first + r@.len()) * stride > visible.hi()
            &&& forall|j: int|
                0 <= j < r@.len() ==> #[trigger] r@[j].multiple == first + j && r@[j].position == offset
                    + (first + j) * stride
            &&& forall|j: int|
                0 <= j < r@.len() ==> visible.lo() <= #[trigger] r@[j].position <= visible.hi()
        },
{
    let mut out: Vec<TickPoint> = Vec::new();
    if stride == 0 {
        return out;
    }
    let _ = visible.len();
    let begin = visible.begin();
    let end = visible.end();
    let s = stride as i128;
    let a = begin as i128 - offset as i128;
    let first: i128 = if a >= 0 {
        ((a + s - 1) as u128 / s as u128) as i128
    } else {
        -(((-a) as u128 / s as u128) as i128)
    };
    proof {
        lemma_ceil_div(a as int, s as int);
        assert(first == ceil_div(a as int, s as int));
        assert(first * s <= a + s) by (nonlinear_arith)
            requires
                (first - 1) * s < a,
        ;
    }
    let mut k: i128 = first;
    let mut pos: i128 = offset as i128 + first * s;
    while pos <= end as i128
        invariant
            s == stride > 0,
            k == first + out@.len(),
            pos == offset + k * s,
            begin <= pos <= end + s,
            forall|j: int|
                0 <= j < out@.len() ==> #[trigger] out@[j].multiple == first + j && out@[j].position
                    == offset + (first + j) * stride,
            forall|j: int| 0 <= j < out@.len() ==> begin <= #[trigger] out@[j].position <= end,
        decreases end + s - pos,
    {
        out.push(TickPoint { multiple: k, position: pos as i64 });
        proof {
            assert((k + 1) * s == k * s + s) by (nonlinear_arith);
            assert(-0x4_0000_0000_0000_0000 <= k <= 0x4_0000_0000_0000_0000) by (nonlinear_arith)
                requires
                    pos - offset == k * s,
                    s >= 1,
                    -0x4_0000_0000_0000_0000 <= pos - offset <= 0x4_0000_0000_0000_0000,
            ;
        }
        k = k + 1;
        pos = pos + s;
    }
    assert forall|j: int| 0 <= j < out@.len() implies visible.lo() <= #[trigger] out@[j].position
        <= visible.hi() by {
        assert(begin <= out@[j].position <= end);
    }
    out
}

/// The decimal digits of `n`.
pub open spec fn digits(n: nat) -> Seq<u8>
    decreases n,
{
    if n < 10 {
        seq![(48 + n) as u8]
    } else {
        digits(n / 10).push((48 + n % 10) as u8)
    }
}

/// `n` in decimal, with a leading `-` when it is negative.
pub open spec fn decimal(n: int) -> Seq<u8> {
    if n < 0 {
        seq![45u8] + digits((-n) as nat)
    } else {
        digits(n as nat)
    }
}

fn push_digits(out: &mut Vec<u8>, n: u128)
    ensures
        final(out)@ == old(out)@ + digits(n as nat),
    decreases n,
{
    if n >= 10 {
        push_digits(out, n / 10);
    }
    let d = (n % 10) as u8;
    out.push(48 + d);
    proof {
        if n < 10 {
            assert(out@ =~= old(out)@ + digits(n as nat));
        } else {
            assert(out@ =~= old(out)@ + digits(n as nat));
        }
    }
}

/// Writes `n` in decimal.
pub fn push_decimal(out: &mut Vec<u8>, n: i128)
    ensures
        final(out)@ == old(out)@ + decimal(n as int),
{
    if n < 0 {
        out.push(45);
        let m: u128 = if n == i128::MIN {
            (i128::MAX as u128) + 1
        } else {
            (-n) as u128
        };
        push_digits(out, m);
        assert(out@ =~= old(out)@ + decimal(n as int));
    } else {
        push_digits(out, n as u128);
    }
}

/// The TeX of a symbolic tick label for the `multiple`-th stride: the offset
/// symbol and a `\plus` where there is one, then the multiple (`-` for -1,
/// nothing for 1), a space, and the stride symbol unless the multiple is 0.
pub open spec fn symbolic_tex_spec(offset_symbol: Option<&str>, stride_symbol: &str, multiple: int) -> Seq<u8> {
    let prefix = match offset_symbol {
        Some(o) => o.spec_bytes() + " ".spec_bytes() + when(multiple >= 0, "\\plus ".spec_bytes()),
        None => Seq::empty(),
    };
    let factor = if multiple == -1 {
        "-".spec_bytes()
    } else if multiple != 1 {
        decimal(multiple)
    } else {
        Seq::empty()
    };
    prefix + factor + " ".spec_bytes() + when(multiple != 0, stride_symbol.spec_bytes())
}

/// The TeX of the label of the tick at `multiple` strides from the offset.
pub fn symbolic_tick_tex(label: &SymbolicTickLabel, multiple: i128) -> (r: Vec<u8>)
    ensures
        r@ == symbolic_tex_spec(label.offset_symbol_tex, label.stride_symbol_tex, multiple as int),
{
    let mut s: Vec<u8> = Vec::new();
    match label.offset_symbol_tex {
        Some(o) => {
            push_str(&mut s, o);
            push_str(&mut s, " ");
            if multiple >= 0 {
                push_str(&mut s, "\\plus ");
            }
        },
        None => {},
    }
    if multiple == -1 {
        push_str(&mut s, "-");
    } else if multiple != 1 {
        push_decimal(&mut s, multiple);
    }
    push_str(&mut s, " ");
    if multiple != 0 {
        push_str(&mut s, label.stride_symbol_tex);
    }
    assert(s@ =~= symbolic_tex_spec(label.offset_symbol_tex, label.stride_symbol_tex, multiple as int));
    s
}

} // verus!
