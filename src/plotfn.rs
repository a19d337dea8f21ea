//! The adaptive sampler: bisects the domain of a function and emits the
//! vertices of the polylines that approximate its graph inside a viewport.
use vstd::prelude::*;
use vstd::arithmetic::power2::pow2;

use crate::math::{open_overlap, ClosedInterval, NonDecreasing, OpenInterval, Real};
use crate::misc::SegVec;

verus! {

/// What the sampler is asked to do.
#[derive(Clone, Copy)]
pub struct PlotFnParams {
    /// The interval of the independent coordinate to plot.
    pub domain: ClosedInterval,
    /// The visible interval of the dependent coordinate.
    pub codomain: ClosedInterval,
    /// The number of bisections a state must be below the whole domain before
    /// it may be accepted.
    pub min_depth: usize,
    /// The greatest distance, along the codomain, between a chord's midpoint and
    /// the function's value there at which the chord is good enough.
    pub error_tolerance: u64,
    /// States narrower than this are dropped without further bisection.
    pub zero_tolerance: u64,
}

impl PlotFnParams {
    /// The domain is a valid interval, as every `ClosedInterval` value is.
    pub open spec fn valid(&self) -> bool {
        self.domain.lo() <= self.domain.hi()
    }
}

/// A vertex of a polyline, given by its independent coordinate.
#[derive(Clone, Copy, PartialEq, Eq, Debug, Structural)]
pub struct Anchor {
    pub input: i64,
}

/// One element of the sampler's output: a vertex, or the end of a polyline.
#[derive(Clone, Copy, PartialEq, Eq, Debug, Structural)]
pub enum Node {
    Break,
    Anchor(Anchor),
}

/// How often each outcome came about during one run of the sampler.
#[derive(Clone, Copy, Debug)]
pub struct Stats {
    pub accept: u64,
    pub prune_outside_viewport_finite: u64,
    pub prune_outside_viewport_infinite: u64,
    pub prune_zero_tolerance: u64,
    pub breaks: u64,
}

/// The outcome for one bisection state.
#[derive(Clone, Copy, PartialEq, Eq, Debug, Structural)]
pub enum Verdict {
    /// The chord is drawn.
    Accept,
    /// The chord lies wholly outside the viewport.
    PruneFinite,
    /// One end is infinite and the other lies outside the viewport.
    PruneInfinite,
    /// The state is too narrow to bisect.
    PruneZero,
    /// The state is bisected.
    Split,
}

#[derive(Clone, Copy)]
struct State {
    domain: ClosedInterval,
    /// The bisection depth, counted no further than `min_depth`.
    depth: usize,
}

/// A bisection state of the model: the interval `[lo, hi]`, reached after
/// `depth` bisections of the domain.
pub struct Cell {
    pub lo: int,
    pub hi: int,
    pub depth: nat,
}

/// What the sampler has produced so far: the nodes, the states it accepted in
/// order, and its counts.
pub struct Trace {
    pub nodes: Seq<Node>,
    pub accepted: Seq<Cell>,
    pub accept: nat,
    pub prune_finite: nat,
    pub prune_infinite: nat,
    pub prune_zero: nat,
    pub breaks: nat,
    /// The number of states that were bisected.
    pub splits: nat,
}

/// `f` evaluates the function `g`: whatever it returns at `x` is `g(x)`.
pub open spec fn computes<F: Fn(i64) -> Real>(f: F, g: spec_fn(i64) -> Real) -> bool {
    forall|x: i64, y: Real| #[trigger] f.ensures((x,), y) ==> y == g(x)
}

/// The point at which `[lo, hi]` is split.
pub open spec fn midpoint(lo: int, hi: int) -> int {
    lo + (hi - lo) / 2
}

/// The lesser of the values at the ends of a chord.
pub open spec fn chord_lo(yl: Real, yr: Real) -> Real {
    if yl.le_spec(yr) {
        yl
    } else {
        yr
    }
}

/// The greater of the values at the ends of a chord.
pub open spec fn chord_hi(yl: Real, yr: Real) -> Real {
    if yl.le_spec(yr) {
        yr
    } else {
        yl
    }
}

/// `v` lies strictly inside the interval `c`.
pub open spec fn strictly_inside(c: ClosedInterval, v: Real) -> bool {
    c.lo_real().lt_spec(v) && v.lt_spec(c.hi_real())
}

/// The chord's midpoint is within the error tolerance of the value `ym`:
/// `|(yl + yr) / 2 - ym| <= error_tolerance`.
pub open spec fn within_tolerance(p: PlotFnParams, yl: Real, yr: Real, ym: Real) -> bool {
    match (yl, yr, ym) {
        (Real::Finite(a), Real::Finite(b), Real::Finite(m)) => {
            let e = a + b - 2 * m;
            -2 * p.error_tolerance <= e <= 2 * p.error_tolerance
        },
        _ => false,
    }
}

/// The chord lies in the viewport and is close enough to the function, or the
/// state is too narrow to be worth bisecting.
pub open spec fn accepts(p: PlotFnParams, lo: int, hi: int, yl: Real, yr: Real, ym: Real) -> bool {
    &&& !ym.is_nan_spec()
    &&& p.codomain.includes_spec(chord_lo(yl, yr))
    &&& p.codomain.includes_spec(chord_hi(yl, yr))
    &&& (within_tolerance(p, yl, yr, ym) || hi - lo <= 2 * p.zero_tolerance)
}

/// One end is infinite, the other finite and outside the open viewport.
pub open spec fn infinite_outside(p: PlotFnParams, yl: Real, yr: Real) -> bool {
    ||| yl.is_infinite_spec() && yr.is_finite_spec() && !strictly_inside(p.codomain, yr)
    ||| yl.is_finite_spec() && yr.is_infinite_spec() && !strictly_inside(p.codomain, yl)
}

/// The outcome for the state `[lo, hi]`; `deep` says whether it lies at least
/// `min_depth` bisections down.
pub open spec fn verdict(g: spec_fn(i64) -> Real, p: PlotFnParams, lo: int, hi: int, deep: bool) -> Verdict {
    let yl = g(lo as i64);
    let yr = g(hi as i64);
    let ym = g(midpoint(lo, hi) as i64);
    let defined = !yl.is_nan_spec() && !yr.is_nan_spec();
    let outside = !open_overlap(p.codomain.lo_real(), p.codomain.hi_real(), chord_lo(yl, yr), chord_hi(yl, yr));
    if deep && defined && outside {
        Verdict::PruneFinite
    } else if deep && defined && accepts(p, lo, hi, yl, yr, ym) {
        Verdict::Accept
    } else if deep && infinite_outside(p, yl, yr) {
        Verdict::PruneInfinite
    } else if hi - lo < p.zero_tolerance || hi - lo < 2 {
        Verdict::PruneZero
    } else {
        Verdict::Split
    }
}

pub open spec fn left_half(c: Cell) -> Cell {
    Cell { lo: c.lo, hi: midpoint(c.lo, c.hi), depth: c.depth + 1 }
}

pub open spec fn right_half(c: Cell) -> Cell {
    Cell { lo: midpoint(c.lo, c.hi), hi: c.hi, depth: c.depth + 1 }
}

/// Appends the chord `[a, b]`: only `Anchor{b}` where the nodes end in
/// `Anchor{a}`, else `Break, Anchor{a}, Anchor{b}`.
pub open spec fn emit_nodes(nodes: Seq<Node>, a: i64, b: i64) -> Seq<Node> {
    if nodes.len() > 0 && nodes.last() == Node::Anchor(Anchor { input: a }) {
        nodes.push(Node::Anchor(Anchor { input: b }))
    } else {
        nodes.push(Node::Break).push(Node::Anchor(Anchor { input: a })).push(
            Node::Anchor(Anchor { input: b }),
        )
    }
}

pub open spec fn accept_cell(t: Trace, c: Cell) -> Trace {
    let chained = t.nodes.len() > 0 && t.nodes.last() == Node::Anchor(Anchor { input: c.lo as i64 });
    Trace {
        nodes: emit_nodes(t.nodes, c.lo as i64, c.hi as i64),
        accepted: t.accepted.push(c),
        accept: t.accept + 1,
        breaks: if chained { t.breaks } else { t.breaks + 1 },
        ..t
    }
}

pub open spec fn weight(c: Cell) -> nat {
    if c.hi - c.lo <= 0 {
        1
    } else {
        (2 * (c.hi - c.lo) - 1) as nat
    }
}

/// `t` with one more bisection counted.
pub open spec fn count_split(t: Trace) -> Trace {
    Trace { splits: t.splits + 1, ..t }
}

/// Runs the sampler on the state `c`, its left half before its right half,
/// after it has produced `t`.
pub open spec fn process(g: spec_fn(i64) -> Real, p: PlotFnParams, c: Cell, t: Trace) -> Trace
    decreases weight(c),
{
    match verdict(g, p, c.lo, c.hi, c.depth >= p.min_depth) {
        Verdict::Accept => accept_cell(t, c),
        Verdict::PruneFinite => Trace { prune_finite: t.prune_finite + 1, ..t },
        Verdict::PruneInfinite => Trace { prune_infinite: t.prune_infinite + 1, ..t },
        Verdict::PruneZero => Trace { prune_zero: t.prune_zero + 1, ..t },
        Verdict::Split => process(g, p, right_half(c), process(g, p, left_half(c), count_split(t))),
    }
}

/// Runs the sampler on a stack of states, the last one first.
pub open spec fn process_all(g: spec_fn(i64) -> Real, p: PlotFnParams, cells: Seq<Cell>, t: Trace) -> Trace
    decreases cells.len(),
{
    if cells.len() == 0 {
        t
    } else {
        process_all(g, p, cells.drop_last(), process(g, p, cells.last(), t))
    }
}

pub open spec fn root_cell(p: PlotFnParams) -> Cell {
    Cell { lo: p.domain.lo(), hi: p.domain.hi(), depth: 0 }
}

pub open spec fn start_trace(nodes: Seq<Node>) -> Trace {
    Trace {
        nodes,
        accepted: Seq::empty(),
        accept: 0,
        prune_finite: 0,
        prune_infinite: 0,
        prune_zero: 0,
        breaks: 0,
        splits: 0,
    }
}

/// What the sampler produces for the function `g` after the nodes `start`.
pub open spec fn plot_trace(g: spec_fn(i64) -> Real, p: PlotFnParams, start: Seq<Node>) -> Trace {
    process(g, p, root_cell(p), start_trace(start))
}

/// What the sampler produces for the function `g` into an empty segment.
pub open spec fn plot_spec(g: spec_fn(i64) -> Real, p: PlotFnParams) -> Trace {
    plot_trace(g, p, Seq::empty())
}

/// `nodes` and `stats` are what the trace `t` holds.
pub open spec fn reports(nodes: Seq<Node>, stats: Stats, t: Trace) -> bool {
    &&& nodes == t.nodes
    &&& stats.accept == t.accept
    &&& stats.prune_outside_viewport_finite == t.prune_finite
    &&& stats.prune_outside_viewport_infinite == t.prune_infinite
    &&& stats.prune_zero_tolerance == t.prune_zero
    &&& stats.breaks == t.breaks
}

pub open spec fn snapshot(nodes: Seq<Node>, accepted: Seq<Cell>, stats: Stats, splits: nat) -> Trace {
    Trace {
        nodes,
        accepted,
        accept: stats.accept as nat,
        prune_finite: stats.prune_outside_viewport_finite as nat,
        prune_infinite: stats.prune_outside_viewport_infinite as nat,
        prune_zero: stats.prune_zero_tolerance as nat,
        breaks: stats.breaks as nat,
        splits,
    }
}

pub open spec fn total_weight(cells: Seq<Cell>) -> nat
    decreases cells.len(),
{
    if cells.len() == 0 {
        0
    } else {
        total_weight(cells.drop_last()) + weight(cells.last())
    }
}

/// The number of leaves a state can still produce, at most.
pub open spec fn leaf_room(c: Cell) -> nat {
    if c.hi - c.lo <= 1 {
        1
    } else {
        (c.hi - c.lo) as nat
    }
}

pub open spec fn total_leaf_room(cells: Seq<Cell>) -> nat
    decreases cells.len(),
{
    if cells.len() == 0 {
        0
    } else {
        total_leaf_room(cells.drop_last()) + leaf_room(cells.last())
    }
}

pub open spec fn leaves(stats: Stats) -> int {
    stats.accept + stats.prune_outside_viewport_finite + stats.prune_outside_viewport_infinite
        + stats.prune_zero_tolerance
}

spec fn tracks(s: State, c: Cell, min_depth: usize, whole: ClosedInterval) -> bool {
    &&& s.domain.lo() == c.lo
    &&& s.domain.hi() == c.hi
    &&& whole.lo() <= c.lo <= c.hi <= whole.hi()
    &&& s.depth <= min_depth
    &&& (s.depth == c.depth || (s.depth == min_depth && c.depth >= min_depth))
}

/// Decides the outcome for the state over `domain`, evaluating `f` at its ends
/// and midpoint as far as the decision needs.
fn decide<F: Fn(i64) -> Real>(f: &F, params: &PlotFnParams, domain: ClosedInterval, deep: bool) -> (r: Verdict)
    requires
        forall|x: i64| domain.lo() <= x <= domain.hi() ==> f.requires((x,)),
    ensures
        forall|g: spec_fn(i64) -> Real| #[trigger] computes(*f, g) ==> r == verdict(g, *params, domain.lo(), domain.hi(), deep),
        r == Verdict::Split ==> domain.hi() - domain.lo() >= 2 && domain.hi() - domain.lo() >= params.zero_tolerance,
{
    let lo = domain.begin();
    let hi = domain.end();
    let len = domain.len();
    let mid = (lo as i128 + (len / 2) as i128) as i64;
    if deep {
        let yl = f(lo);
        let yr = f(hi);
        if !yl.is_nan() && !yr.is_nan() {
            let interpolant = OpenInterval::new(NonDecreasing::minmax(yl, yr));
            if params.codomain.open().is_disjoint_with(interpolant) {
                return Verdict::PruneFinite;
            }
            let ym = f(mid);
            if !ym.is_nan() {
                let is_within_error_tolerance = match (yl, yr, ym) {
                    (Real::Finite(a), Real::Finite(b), Real::Finite(m)) => {
                        let e = a as i128 + b as i128 - 2 * (m as i128);
                        let t = 2 * (params.error_tolerance as i128);
                        -t <= e && e <= t
                    },
                    _ => false,
                };
                let is_framed = params.codomain.covers(interpolant.bounds);
                let will_disappear = (len as u128) <= 2 * (params.zero_tolerance as u128);
                if (is_within_error_tolerance || will_disappear) && is_framed {
                    return Verdict::Accept;
                }
            }
        }
        if yl.is_infinite() && yr.is_finite() && params.codomain.open().excludes(yr) {
            return Verdict::PruneInfinite;
        }
        if yl.is_finite() && yr.is_infinite() && params.codomain.open().excludes(yl) {
            return Verdict::PruneInfinite;
        }
    }
    if len < params.zero_tolerance || len < 2 {
        return Verdict::PruneZero;
    }
    Verdict::Split
}

proof fn lemma_pop(g: spec_fn(i64) -> Real, p: PlotFnParams, cells: Seq<Cell>, t: Trace)
    requires
        cells.len() > 0,
    ensures
        process_all(g, p, cells, t) == process_all(g, p, cells.drop_last(), process(g, p, cells.last(), t)),
        total_weight(cells) == total_weight(cells.drop_last()) + weight(cells.last()),
        total_leaf_room(cells) == total_leaf_room(cells.drop_last()) + leaf_room(cells.last()),
{
}

proof fn lemma_push(g: spec_fn(i64) -> Real, p: PlotFnParams, cells: Seq<Cell>, c: Cell, t: Trace)
    ensures
        process_all(g, p, cells.push(c), t) == process_all(g, p, cells, process(g, p, c, t)),
        total_weight(cells.push(c)) == total_weight(cells) + weight(c),
        total_leaf_room(cells.push(c)) == total_leaf_room(cells) + leaf_room(c),
{
    assert(cells.push(c).drop_last() =~= cells);
}

/// Samples `f` over `params.domain` and appends the polyline nodes to `nodes`.
///
/// `f` is only called inside the domain, so it need accept no other input.
/// Whatever `f` returns, the call ends, only appends to the segment, and leaves
/// the enclosing segments alone. Where `f` evaluates a function `g`, the nodes
/// appended and the counts are exactly those of the bisection that
/// `plot_trace` describes; the laws below state what that output satisfies.
pub fn plotfn<F: Fn(i64) -> Real>(f: &F, nodes: &mut SegVec<Node>, params: PlotFnParams) -> (stats: Stats)
    requires
        old(nodes).wf(),
        forall|x: i64| params.domain.lo() <= x <= params.domain.hi() ==> f.requires((x,)),
    ensures
        params.valid(),
        final(nodes).wf(),
        final(nodes).below() == old(nodes).below(),
        final(nodes).start() == old(nodes).start(),
        old(nodes)@.len() <= final(nodes)@.len(),
        final(nodes)@.subrange(0, old(nodes)@.len() as int) == old(nodes)@,
        forall|g: spec_fn(i64) -> Real| #[trigger] computes(*f, g) ==> reports(
            final(nodes)@,
            stats,
            plot_trace(g, params, old(nodes)@),
        ),
{
    bisect(f, params, nodes)
}

fn bisect<F: Fn(i64) -> Real>(f: &F, params: PlotFnParams, nodes: &mut SegVec<Node>) -> (stats: Stats)
    requires
        old(nodes).wf(),
        forall|x: i64| params.domain.lo() <= x <= params.domain.hi() ==> f.requires((x,)),
    ensures
        params.valid(),
        final(nodes).wf(),
        final(nodes).below() == old(nodes).below(),
        final(nodes).start() == old(nodes).start(),
        old(nodes)@.len() <= final(nodes)@.len(),
        final(nodes)@.subrange(0, old(nodes)@.len() as int) == old(nodes)@,
        forall|g: spec_fn(i64) -> Real| #[trigger] computes(*f, g) ==> reports(
            final(nodes)@,
            stats,
            plot_trace(g, params, old(nodes)@),
        ),
{
    let ghost start = nodes@;
    let ghost root = root_cell(params);
    let mut stack: Vec<State> = Vec::new();
    stack.push(State { domain: params.domain, depth: 0 });
    let ghost mut cells: Seq<Cell> = seq![root];
    let ghost mut accepted: Seq<Cell> = Seq::empty();
    let ghost mut splits: nat = 0;
    let mut stats = Stats {
        accept: 0,
        prune_outside_viewport_finite: 0,
        prune_outside_viewport_infinite: 0,
        prune_zero_tolerance: 0,
        breaks: 0,
    };
    let ghost budget: int = if root.hi - root.lo <= 1 { 1 } else { root.hi - root.lo };
    let _ = params.domain.len();
    proof {
        lemma_push(arbitrary(), params, Seq::empty(), root, start_trace(start));
        assert(seq![root] =~= Seq::<Cell>::empty().push(root));
        assert forall|g: spec_fn(i64) -> Real| #[trigger] computes(*f, g) implies process_all(
            g,
            params,
            cells,
            snapshot(nodes@, accepted, stats, splits),
        ) == plot_trace(g, params, start) by {
            lemma_push(g, params, Seq::empty(), root, start_trace(start));
            assert(snapshot(nodes@, accepted, stats, splits) == start_trace(start));
        }
    }
    while stack.len() > 0
        invariant
            nodes.wf(),
            nodes.below() == old(nodes).below(),
            nodes.start() == old(nodes).start(),
            start == old(nodes)@,
            start.len() <= nodes@.len(),
            nodes@.subrange(0, start.len() as int) == start,
            forall|x: i64| params.domain.lo() <= x <= params.domain.hi() ==> f.requires((x,)),
            stack@.len() == cells.len(),
            forall|i: int| 0 <= i < cells.len() ==> tracks(#[trigger] stack@[i], cells[i], params.min_depth, params.domain),
            forall|g: spec_fn(i64) -> Real| #[trigger] computes(*f, g) ==> process_all(
                g,
                params,
                cells,
                snapshot(nodes@, accepted, stats, splits),
            ) == plot_trace(g, params, start),
            leaves(stats) + total_leaf_room(cells) <= budget,
            budget <= u64::MAX,
            stats.breaks <= stats.accept,
        decreases total_weight(cells),
    {
        let ghost stack_before = stack@;
        let ghost cells_before = cells;
        let state = stack.pop().unwrap();
        let ghost c = cells.last();
        let ghost rest = cells.drop_last();
        let ghost before = snapshot(nodes@, accepted, stats, splits);
        proof {
            assert(state == stack_before[stack_before.len() - 1]);
            assert(tracks(stack_before[stack_before.len() - 1], c, params.min_depth, params.domain));
            assert forall|i: int| 0 <= i < rest.len() implies tracks(#[trigger] stack@[i], rest[i], params.min_depth, params.domain) by {
                assert(stack@[i] == stack_before[i]);
                assert(rest[i] == cells[i]);
                assert(tracks(stack_before[i], cells[i], params.min_depth, params.domain));
            }
            lemma_pop(arbitrary(), params, cells, before);
        }
        let deep = state.depth >= params.min_depth;
        let verdict = decide(f, &params, state.domain, deep);
        match verdict {
            Verdict::Accept => {
                let lo = state.domain.begin();
                let hi = state.domain.end();
                let left = Node::Anchor(Anchor { input: lo });
                let chained = match nodes.as_slice().last() {
                    Some(n) => *n == left,
                    None => false,
                };
                if !chained {
                    nodes.push(Node::Break);
                    nodes.push(left);
                    stats.breaks = stats.breaks + 1;
                }
                nodes.push(Node::Anchor(Anchor { input: hi }));
                stats.accept = stats.accept + 1;
                proof {
                    accepted = accepted.push(c);
                    assert(snapshot(nodes@, accepted, stats, splits) == accept_cell(before, c));
                }
            },
            Verdict::PruneFinite => {
                stats.prune_outside_viewport_finite = stats.prune_outside_viewport_finite + 1;
            },
            Verdict::PruneInfinite => {
                stats.prune_outside_viewport_infinite = stats.prune_outside_viewport_infinite + 1;
            },
            Verdict::PruneZero => {
                stats.prune_zero_tolerance = stats.prune_zero_tolerance + 1;
            },
            Verdict::Split => {
                let lo = state.domain.begin();
                let hi = state.domain.end();
                let len = state.domain.len();
                let mid = (lo as i128 + (len / 2) as i128) as i64;
                let depth = if state.depth < params.min_depth {
                    state.depth + 1
                } else {
                    state.depth
                };
                let right = State {
                    domain: ClosedInterval::new(NonDecreasing::new(Real::Finite(mid), Real::Finite(hi))),
                    depth,
                };
                let left = State {
                    domain: ClosedInterval::new(NonDecreasing::new(Real::Finite(lo), Real::Finite(mid))),
                    depth,
                };
                stack.push(right);
                stack.push(left);
                proof {
                    let cr = right_half(c);
                    let cl = left_half(c);
                    cells = rest.push(cr).push(cl);
                    assert(leaf_room(cr) + leaf_room(cl) == leaf_room(c));
                    assert(weight(cr) + weight(cl) < weight(c));
                    let bisected = count_split(before);
                    splits = splits + 1;
                    assert(snapshot(nodes@, accepted, stats, splits) == bisected);
                    lemma_push(arbitrary(), params, rest, cr, bisected);
                    lemma_push(arbitrary(), params, rest.push(cr), cl, bisected);
                    assert forall|i: int| 0 <= i < cells.len() implies tracks(#[trigger] stack@[i], cells[i], params.min_depth, params.domain) by {
                        if i < rest.len() {
                            assert(stack@[i] == stack_before[i]);
                            assert(tracks(stack_before[i], cells_before[i], params.min_depth, params.domain));
                        }
                    }
                    assert forall|g: spec_fn(i64) -> Real| #[trigger] computes(*f, g) implies process_all(
                        g,
                        params,
                        cells,
                        snapshot(nodes@, accepted, stats, splits),
                    ) == plot_trace(g, params, start) by {
                        lemma_pop(g, params, cells_before, before);
                        assert(process(g, params, c, before) == process(g, params, cr, process(g, params, cl, bisected)));
                        lemma_push(g, params, rest.push(cr), cl, bisected);
                        lemma_push(g, params, rest, cr, process(g, params, cl, bisected));
                    }
                }
            },
        }
        proof {
            if verdict != Verdict::Split {
                cells = rest;
                assert forall|g: spec_fn(i64) -> Real| #[trigger] computes(*f, g) implies process_all(
                    g,
                    params,
                    cells,
                    snapshot(nodes@, accepted, stats, splits),
                ) == plot_trace(g, params, start) by {
                    lemma_pop(g, params, cells_before, before);
                }
            }
        }
    }
    proof {
        assert(cells =~= Seq::<Cell>::empty());
    }
    stats
}

/// No two consecutive breaks, and each anchor that follows an anchor has a
/// greater input.
pub open spec fn consecutive_ok(nodes: Seq<Node>) -> bool {
    &&& forall|i: int| 0 <= i < nodes.len() - 1 ==> !(#[trigger] nodes[i] is Break && nodes[i + 1] is Break)
    &&& forall|i: int|
        0 <= i < nodes.len() - 1 && #[trigger] nodes[i] is Anchor && nodes[i + 1] is Anchor
            ==> nodes[i]->Anchor_0.input < nodes[i + 1]->Anchor_0.input
}

/// No break lies between the positions `i` and `j`, both included.
pub open spec fn same_run(nodes: Seq<Node>, i: int, j: int) -> bool {
    forall|k: int| i <= k <= j ==> #[trigger] nodes[k] is Anchor
}

/// Applies `emit_nodes` for each of `cells`, in order, after `nodes`.
pub open spec fn emit_all(nodes: Seq<Node>, cells: Seq<Cell>) -> Seq<Node>
    decreases cells.len(),
{
    if cells.len() == 0 {
        nodes
    } else {
        let prev = emit_all(nodes, cells.drop_last());
        emit_nodes(prev, cells.last().lo as i64, cells.last().hi as i64)
    }
}

pub open spec fn ends_in_anchor(nodes: Seq<Node>) -> bool {
    nodes.len() == 0 || nodes.last() is Anchor
}

pub open spec fn in_domain(p: PlotFnParams, c: Cell) -> bool {
    p.domain.lo() <= c.lo <= c.hi <= p.domain.hi()
}

/// What holds of a trace the sampler builds from nothing.
pub open spec fn trace_ok(p: PlotFnParams, t: Trace) -> bool {
    &&& consecutive_ok(t.nodes)
    &&& ends_in_anchor(t.nodes)
    &&& t.nodes == emit_all(Seq::empty(), t.accepted)
    &&& forall|i: int| 0 <= i < t.accepted.len() ==> (#[trigger] t.accepted[i]).depth >= p.min_depth
}

proof fn lemma_emit_ok(nodes: Seq<Node>, a: i64, b: i64)
    requires
        consecutive_ok(nodes),
        ends_in_anchor(nodes),
        a < b,
    ensures
        consecutive_ok(emit_nodes(nodes, a, b)),
        ends_in_anchor(emit_nodes(nodes, a, b)),
{
    let r = emit_nodes(nodes, a, b);
    let n = nodes.len() as int;
    assert forall|i: int| 0 <= i < r.len() - 1 implies !(#[trigger] r[i] is Break && r[i + 1] is Break) by {
        if i < n - 1 {
            assert(r[i] == nodes[i] && r[i + 1] == nodes[i + 1]);
        }
    }
    assert forall|i: int| 0 <= i < r.len() - 1 && #[trigger] r[i] is Anchor && r[i + 1] is Anchor
        implies r[i]->Anchor_0.input < r[i + 1]->Anchor_0.input by {
        if i < n - 1 {
            assert(r[i] == nodes[i] && r[i + 1] == nodes[i + 1]);
        }
    }
}

proof fn lemma_process_ok(g: spec_fn(i64) -> Real, p: PlotFnParams, c: Cell, t: Trace)
    requires
        in_domain(p, c),
        trace_ok(p, t),
    ensures
        trace_ok(p, process(g, p, c, t)),
    decreases weight(c),
{
    match verdict(g, p, c.lo, c.hi, c.depth >= p.min_depth) {
        Verdict::Accept => {
            let yl = g(c.lo as i64);
            let yr = g(c.hi as i64);
            assert(chord_lo(yl, yr) != chord_hi(yl, yr));
            assert(c.lo != c.hi);
            lemma_emit_ok(t.nodes, c.lo as i64, c.hi as i64);
            let r = accept_cell(t, c);
            assert(r.accepted.drop_last() =~= t.accepted);
            assert forall|i: int| 0 <= i < r.accepted.len() implies (#[trigger] r.accepted[i]).depth >= p.min_depth by {
                if i < t.accepted.len() {
                    assert(r.accepted[i] == t.accepted[i]);
                }
            }
        },
        Verdict::Split => {
            lemma_process_ok(g, p, left_half(c), count_split(t));
            lemma_process_ok(g, p, right_half(c), process(g, p, left_half(c), count_split(t)));
        },
        _ => {},
    }
}

proof fn lemma_plot_ok(g: spec_fn(i64) -> Real, p: PlotFnParams)
    requires
        p.valid(),
    ensures
        trace_ok(p, plot_spec(g, p)),
{
    let t = start_trace(Seq::empty());
    assert(emit_all(Seq::empty(), t.accepted) == t.nodes);
    lemma_process_ok(g, p, root_cell(p), t);
}

proof fn lemma_runs_increase(nodes: Seq<Node>, i: int, j: int)
    requires
        consecutive_ok(nodes),
        0 <= i < j < nodes.len(),
        same_run(nodes, i, j),
    ensures
        nodes[i]->Anchor_0.input < nodes[j]->Anchor_0.input,
    decreases j - i,
{
    assert(nodes[i] is Anchor && nodes[i + 1] is Anchor);
    if i + 1 < j {
        lemma_runs_increase(nodes, i + 1, j);
    }
}

/// Between two breaks the anchors' inputs strictly increase: for positions
/// `i < j` with no break from `i` to `j`, the input at `i` is less than the
/// input at `j`.
pub proof fn lemma_monotone_anchors(g: spec_fn(i64) -> Real, p: PlotFnParams, i: int, j: int)
    requires
        p.valid(),
        0 <= i < j < plot_spec(g, p).nodes.len(),
        same_run(plot_spec(g, p).nodes, i, j),
    ensures
        plot_spec(g, p).nodes[i]->Anchor_0.input < plot_spec(g, p).nodes[j]->Anchor_0.input,
{
    lemma_plot_ok(g, p);
    lemma_runs_increase(plot_spec(g, p).nodes, i, j);
}

/// No two consecutive anchors share an input, and no two breaks are
/// consecutive.
pub proof fn lemma_no_adjacent_duplicates(g: spec_fn(i64) -> Real, p: PlotFnParams)
    requires
        p.valid(),
    ensures
        forall|i: int|
            0 <= i < plot_spec(g, p).nodes.len() - 1 ==> !(#[trigger] plot_spec(g, p).nodes[i] is Break
                && plot_spec(g, p).nodes[i + 1] is Break),
        forall|i: int|
            0 <= i < plot_spec(g, p).nodes.len() - 1 && #[trigger] plot_spec(g, p).nodes[i] is Anchor
                && plot_spec(g, p).nodes[i + 1] is Anchor ==> plot_spec(g, p).nodes[i] != plot_spec(
                g,
                p,
            ).nodes[i + 1],
{
    lemma_plot_ok(g, p);
}

/// The nodes are the accepted intervals, emitted in order: an interval
/// `[a, b]` that follows `Anchor{a}` adds only `Anchor{b}`; any other adds
/// `Break, Anchor{a}, Anchor{b}`.
pub proof fn lemma_prefix_chaining(g: spec_fn(i64) -> Real, p: PlotFnParams)
    requires
        p.valid(),
    ensures
        plot_spec(g, p).nodes == emit_all(Seq::empty(), plot_spec(g, p).accepted),
        forall|nodes: Seq<Node>, a: i64, b: i64|
            #[trigger] emit_nodes(nodes, a, b) == if nodes.len() > 0 && nodes.last() == Node::Anchor(
                Anchor { input: a },
            ) {
                nodes.push(Node::Anchor(Anchor { input: b }))
            } else {
                nodes + seq![Node::Break, Node::Anchor(Anchor { input: a }), Node::Anchor(Anchor { input: b })]
            },
{
    assert(plot_spec(g, p).nodes == emit_all(Seq::empty(), plot_spec(g, p).accepted)) by {
        lemma_plot_ok(g, p);
    }
    assert forall|nodes: Seq<Node>, a: i64, b: i64|
        #[trigger] emit_nodes(nodes, a, b) == if nodes.len() > 0 && nodes.last() == Node::Anchor(
            Anchor { input: a },
        ) {
            nodes.push(Node::Anchor(Anchor { input: b }))
        } else {
            nodes + seq![Node::Break, Node::Anchor(Anchor { input: a }), Node::Anchor(Anchor { input: b })]
        } by {
        assert(nodes.push(Node::Break).push(Node::Anchor(Anchor { input: a })).push(
            Node::Anchor(Anchor { input: b }),
        ) =~= nodes + seq![Node::Break, Node::Anchor(Anchor { input: a }), Node::Anchor(Anchor { input: b })]);
    }
}

/// Every accepted interval lies at least `min_depth` bisections below the
/// domain.
pub proof fn lemma_depth_floor(g: spec_fn(i64) -> Real, p: PlotFnParams, i: int)
    requires
        p.valid(),
        0 <= i < plot_spec(g, p).accepted.len(),
    ensures
        plot_spec(g, p).accepted[i].depth >= p.min_depth,
{
    lemma_plot_ok(g, p);
}

proof fn lemma_no_accept(g: spec_fn(i64) -> Real, p: PlotFnParams, v: Real, c: Cell, t: Trace)
    requires
        forall|x: i64| #[trigger] g(x) == v,
        !p.codomain.includes_spec(v),
    ensures
        process(g, p, c, t).nodes == t.nodes,
    decreases weight(c),
{
    match verdict(g, p, c.lo, c.hi, c.depth >= p.min_depth) {
        Verdict::Accept => {
            assert(g(c.lo as i64) == v && g(c.hi as i64) == v);
            assert(false);
        },
        Verdict::Split => {
            lemma_no_accept(g, p, v, left_half(c), count_split(t));
            lemma_no_accept(g, p, v, right_half(c), process(g, p, left_half(c), count_split(t)));
        },
        _ => {},
    }
}

/// A function that is constant at a value outside the viewport yields no
/// nodes.
pub proof fn lemma_constant_outside_is_empty(g: spec_fn(i64) -> Real, p: PlotFnParams, v: Real)
    requires
        forall|x: i64| #[trigger] g(x) == v,
        !p.codomain.includes_spec(v),
    ensures
        plot_spec(g, p).nodes == Seq::<Node>::empty(),
{
    lemma_no_accept(g, p, v, root_cell(p), start_trace(Seq::empty()));
}

/// Every anchor of `nodes` has an input at most `b`.
pub open spec fn anchors_at_most(nodes: Seq<Node>, b: int) -> bool {
    forall|i: int| 0 <= i < nodes.len() && #[trigger] nodes[i] is Anchor ==> nodes[i]->Anchor_0.input <= b
}

/// Anchors, wherever they stand, have strictly increasing inputs.
pub open spec fn anchors_increase(nodes: Seq<Node>) -> bool {
    forall|i: int, j: int|
        0 <= i < j < nodes.len() && #[trigger] nodes[i] is Anchor && #[trigger] nodes[j] is Anchor
            ==> nodes[i]->Anchor_0.input < nodes[j]->Anchor_0.input
}

proof fn lemma_emit_order(nodes: Seq<Node>, a: i64, b: i64)
    requires
        anchors_increase(nodes),
        anchors_at_most(nodes, a as int),
        ends_in_anchor(nodes),
        a < b,
    ensures
        anchors_increase(emit_nodes(nodes, a, b)),
        anchors_at_most(emit_nodes(nodes, a, b), b as int),
{
    let r = emit_nodes(nodes, a, b);
    let n = nodes.len() as int;
    let chained = n > 0 && nodes.last() == Node::Anchor(Anchor { input: a });
    if !chained {
        assert forall|k: int| 0 <= k < n && #[trigger] nodes[k] is Anchor implies nodes[k]->Anchor_0.input < a by {
            if k < n - 1 {
                assert(nodes[n - 1] is Anchor);
                assert(nodes[k]->Anchor_0.input < nodes[n - 1]->Anchor_0.input);
            }
        }
    }
    assert forall|i: int| 0 <= i < r.len() && #[trigger] r[i] is Anchor implies r[i]->Anchor_0.input <= b by {
        if i < n {
            assert(r[i] == nodes[i]);
        }
    }
    assert forall|i: int, j: int|
        0 <= i < j < r.len() && #[trigger] r[i] is Anchor && #[trigger] r[j] is Anchor implies r[i]->Anchor_0.input
        < r[j]->Anchor_0.input by {
        if j < n {
            assert(r[i] == nodes[i] && r[j] == nodes[j]);
        } else if i < n {
            assert(r[i] == nodes[i]);
        }
    }
}

proof fn lemma_process_order(g: spec_fn(i64) -> Real, p: PlotFnParams, c: Cell, t: Trace)
    requires
        in_domain(p, c),
        trace_ok(p, t),
        anchors_increase(t.nodes),
        anchors_at_most(t.nodes, c.lo),
    ensures
        anchors_increase(process(g, p, c, t).nodes),
        anchors_at_most(process(g, p, c, t).nodes, c.hi),
    decreases weight(c),
{
    match verdict(g, p, c.lo, c.hi, c.depth >= p.min_depth) {
        Verdict::Accept => {
            let yl = g(c.lo as i64);
            let yr = g(c.hi as i64);
            assert(chord_lo(yl, yr) != chord_hi(yl, yr));
            assert(c.lo != c.hi);
            lemma_emit_order(t.nodes, c.lo as i64, c.hi as i64);
        },
        Verdict::Split => {
            let cl = left_half(c);
            let cr = right_half(c);
            let t1 = count_split(t);
            assert(t1.nodes == t.nodes && t1.accepted == t.accepted);
            assert(trace_ok(p, t1));
            lemma_process_order(g, p, cl, t1);
            lemma_process_ok(g, p, cl, t1);
            lemma_process_order(g, p, cr, process(g, p, cl, t1));
        },
        _ => {},
    }
}

/// Across the whole output, breaks included, the anchors' inputs strictly
/// increase: the polylines come left to right.
pub proof fn lemma_anchors_left_to_right(g: spec_fn(i64) -> Real, p: PlotFnParams)
    requires
        p.valid(),
    ensures
        anchors_increase(plot_spec(g, p).nodes),
{
    let t = start_trace(Seq::empty());
    assert(emit_all(Seq::empty(), t.accepted) == t.nodes);
    lemma_process_order(g, p, root_cell(p), t);
}

/// The cell is no wider than its depth allows: each bisection halves the
/// width, rounding up, so one unit less than the width, times `2^depth`, is at
/// most one unit less than the domain's width.
pub open spec fn width_fits(p: PlotFnParams, c: Cell) -> bool {
    (c.hi - c.lo - 1) * pow2(c.depth) <= p.domain.hi() - p.domain.lo() - 1
}

pub open spec fn accepted_fit(p: PlotFnParams, t: Trace) -> bool {
    forall|i: int|
        0 <= i < t.accepted.len() ==> width_fits(p, #[trigger] t.accepted[i]) && t.accepted[i].lo
            < t.accepted[i].hi
}

proof fn lemma_half_fits(p: PlotFnParams, c: Cell, h: Cell)
    requires
        width_fits(p, c),
        c.hi - c.lo >= 2,
        h == left_half(c) || h == right_half(c),
    ensures
        width_fits(p, h),
{
    let len = c.hi - c.lo;
    let l = h.hi - h.lo;
    assert(2 * (l - 1) <= len - 1);
    vstd::arithmetic::power2::lemma_pow2_unfold(h.depth);
    assert(pow2(h.depth) == 2 * pow2(c.depth));
    vstd::arithmetic::power2::lemma_pow2_pos(c.depth);
    assert((l - 1) * pow2(h.depth) == (2 * (l - 1)) * pow2(c.depth)) by (nonlinear_arith)
        requires
            pow2(h.depth) == 2 * pow2(c.depth),
    ;
    vstd::arithmetic::mul::lemma_mul_inequality(2 * (l - 1), len - 1, pow2(c.depth) as int);
}

proof fn lemma_process_widths(g: spec_fn(i64) -> Real, p: PlotFnParams, c: Cell, t: Trace)
    requires
        in_domain(p, c),
        width_fits(p, c),
        accepted_fit(p, t),
    ensures
        accepted_fit(p, process(g, p, c, t)),
    decreases weight(c),
{
    match verdict(g, p, c.lo, c.hi, c.depth >= p.min_depth) {
        Verdict::Accept => {
            let yl = g(c.lo as i64);
            let yr = g(c.hi as i64);
            assert(chord_lo(yl, yr) != chord_hi(yl, yr));
            let r = accept_cell(t, c);
            assert forall|i: int| 0 <= i < r.accepted.len() implies width_fits(p, #[trigger] r.accepted[i])
                && r.accepted[i].lo < r.accepted[i].hi by {
                if i < t.accepted.len() {
                    assert(r.accepted[i] == t.accepted[i]);
                }
            }
        },
        Verdict::Split => {
            lemma_half_fits(p, c, left_half(c));
            lemma_half_fits(p, c, right_half(c));
            lemma_process_widths(g, p, left_half(c), count_split(t));
            lemma_process_widths(g, p, right_half(c), process(g, p, left_half(c), count_split(t)));
        },
        _ => {},
    }
}

/// No interval is accepted wider than `min_depth` bisections leave: with
/// `len` the domain's width, an accepted `[a, b]` has
/// `(b - a - 1) * 2^min_depth <= len - 1`, so `b - a` is at most
/// `len / 2^min_depth` rounded up.
pub proof fn lemma_depth_floor_width(g: spec_fn(i64) -> Real, p: PlotFnParams, i: int)
    requires
        p.valid(),
        0 <= i < plot_spec(g, p).accepted.len(),
    ensures
        (plot_spec(g, p).accepted[i].hi - plot_spec(g, p).accepted[i].lo - 1) * pow2(p.min_depth as nat)
            <= p.domain.hi() - p.domain.lo() - 1,
{
    let t = start_trace(Seq::empty());
    let root = root_cell(p);
    assert(pow2(0) == 1) by {
        vstd::arithmetic::power2::lemma2_to64();
    }
    assert(width_fits(p, root));
    lemma_process_widths(g, p, root, t);
    lemma_plot_ok(g, p);
    let c = plot_spec(g, p).accepted[i];
    assert(c.depth >= p.min_depth);
    assert(width_fits(p, c) && c.lo < c.hi);
    if c.depth > p.min_depth {
        vstd::arithmetic::power2::lemma_pow2_strictly_increases(p.min_depth as nat, c.depth);
    }
    vstd::arithmetic::mul::lemma_mul_inequality(
        pow2(p.min_depth as nat) as int,
        pow2(c.depth) as int,
        c.hi - c.lo - 1,
    );
    assert((c.hi - c.lo - 1) * pow2(p.min_depth as nat) == pow2(p.min_depth as nat) * (c.hi - c.lo - 1)) by (nonlinear_arith);
    assert((c.hi - c.lo - 1) * pow2(c.depth) == pow2(c.depth) * (c.hi - c.lo - 1)) by (nonlinear_arith);
}

/// The number of states in which the bisection ended: accepted or pruned.
pub open spec fn ends(t: Trace) -> int {
    (t.accept + t.prune_finite + t.prune_infinite + t.prune_zero) as int
}

/// The narrowest width that is still bisected: the zero tolerance, and never
/// less than two units.
pub open spec fn narrowest(p: PlotFnParams) -> int {
    if p.zero_tolerance < 2 {
        2
    } else {
        p.zero_tolerance as int
    }
}

proof fn lemma_ends(g: spec_fn(i64) -> Real, p: PlotFnParams, c: Cell, t: Trace)
    requires
        c.lo <= c.hi,
    ensures
        c.hi - c.lo < narrowest(p) ==> ends(process(g, p, c, t)) - ends(t) == 1,
        c.hi - c.lo >= narrowest(p) ==> (ends(process(g, p, c, t)) - ends(t)) * narrowest(p) <= 4 * (
        c.hi - c.lo) - narrowest(p),
    decreases weight(c),
{
    let z = narrowest(p);
    let len = c.hi - c.lo;
    match verdict(g, p, c.lo, c.hi, c.depth >= p.min_depth) {
        Verdict::Split => {
            let cl = left_half(c);
            let cr = right_half(c);
            let tl = process(g, p, cl, count_split(t));
            lemma_ends(g, p, cl, count_split(t));
            lemma_ends(g, p, cr, tl);
            let dl = ends(tl) - ends(count_split(t));
            let dr = ends(process(g, p, cr, tl)) - ends(tl);
            let a = cl.hi - cl.lo;
            let b = cr.hi - cr.lo;
            assert(a + b == len && a == len / 2 && a <= b);
            assert((dl + dr) * z == dl * z + dr * z) by (nonlinear_arith);
            if a < z && b < z {
                assert(dl == 1 && dr == 1);
            } else if a < z {
                assert(dl == 1);
                assert(dl * z == z);
            }
        },
        _ => {
            if len >= z {
                assert(1 * z == z);
            }
        },
    }
}

/// The sampler's work is bounded by the domain's width over the zero
/// tolerance: with `z` the narrowest width that is still bisected, a domain
/// narrower than `z` ends in a single state, and a wider one in at most
/// `(4 * len - z) / z` states. Each bisection adds one state that ends, so the
/// states processed are fewer than twice that many.
pub proof fn lemma_work_bound(g: spec_fn(i64) -> Real, p: PlotFnParams)
    requires
        p.valid(),
    ensures
        p.domain.hi() - p.domain.lo() < narrowest(p) ==> ends(plot_spec(g, p)) == 1,
        p.domain.hi() - p.domain.lo() >= narrowest(p) ==> ends(plot_spec(g, p)) * narrowest(p) <= 4 * (
        p.domain.hi() - p.domain.lo()) - narrowest(p),
{
    lemma_ends(g, p, root_cell(p), start_trace(Seq::empty()));
}


proof fn lemma_full_tree(g: spec_fn(i64) -> Real, p: PlotFnParams, c: Cell, t: Trace)
    ensures
        ends(process(g, p, c, t)) - ends(t) == process(g, p, c, t).splits - t.splits + 1,
    decreases weight(c),
{
    match verdict(g, p, c.lo, c.hi, c.depth >= p.min_depth) {
        Verdict::Split => {
            let t1 = count_split(t);
            lemma_full_tree(g, p, left_half(c), t1);
            lemma_full_tree(g, p, right_half(c), process(g, p, left_half(c), t1));
        },
        _ => {},
    }
}

/// The states the sampler processes form a full binary tree: one more of them
/// ends (accepted or pruned) than is bisected. So with `z` the narrowest
/// width that is still bisected, a domain at least `z` wide takes at most
/// `(8 * len - 3 * z) / z` states, and each state evaluates the function at
/// most three times (its ends and its midpoint).
pub proof fn lemma_states_processed(g: spec_fn(i64) -> Real, p: PlotFnParams)
    requires
        p.valid(),
    ensures
        ends(plot_spec(g, p)) == plot_spec(g, p).splits + 1,
        p.domain.hi() - p.domain.lo() >= narrowest(p) ==> (ends(plot_spec(g, p)) + plot_spec(g, p).splits)
            * narrowest(p) <= 8 * (p.domain.hi() - p.domain.lo()) - 3 * narrowest(p),
{
    lemma_full_tree(g, p, root_cell(p), start_trace(Seq::empty()));
    lemma_work_bound(g, p);
    let e = ends(plot_spec(g, p));
    let z = narrowest(p);
    assert((e + (e - 1)) * z == 2 * (e * z) - z) by (nonlinear_arith);
}

} // verus!
