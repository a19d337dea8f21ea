use yapl::math::{ClosedInterval, NonDecreasing, Real, UNIT};
use yapl::misc::SegVecRoot;
use yapl::plotfn::{plotfn, Node, PlotFnParams, Stats};

fn fixed(v: f64) -> i64 {
    (v * UNIT as f64).round() as i64
}

fn real_of(y: f64) -> Real {
    if y.is_nan() {
        Real::NaN
    } else if y == f64::INFINITY {
        Real::PosInfinity
    } else if y == f64::NEG_INFINITY {
        Real::NegInfinity
    } else {
        let scaled = y * UNIT as f64;
        if scaled >= i64::MAX as f64 {
            Real::Finite(i64::MAX)
        } else if scaled <= i64::MIN as f64 {
            Real::Finite(i64::MIN)
        } else {
            Real::Finite(scaled.round() as i64)
        }
    }
}

fn to_f64(x: i64) -> f64 {
    x as f64 / UNIT as f64
}

fn interval(a: f64, b: f64) -> ClosedInterval {
    ClosedInterval::new(NonDecreasing::new(Real::Finite(fixed(a)), Real::Finite(fixed(b))))
}

fn params(domain: (f64, f64), codomain: (f64, f64), min_depth: usize, zero_factor: u64) -> PlotFnParams {
    let domain = interval(domain.0, domain.1);
    let codomain = interval(codomain.0, codomain.1);
    PlotFnParams {
        domain,
        codomain,
        min_depth,
        error_tolerance: codomain.len() / 2000,
        zero_tolerance: domain.len() / zero_factor,
    }
}

fn run(f: impl Fn(f64) -> f64, p: PlotFnParams) -> (Vec<Node>, Stats) {
    let eval = move |x: i64| real_of(f(to_f64(x)));
    let mut root: SegVecRoot<Node> = SegVecRoot::new();
    let mut seg = root.extend();
    let stats = plotfn(&eval, &mut seg, p);
    let nodes = seg.as_slice().to_vec();
    root.release(seg);
    (nodes, stats)
}

fn inputs(nodes: &[Node]) -> Vec<i64> {
    nodes
        .iter()
        .filter_map(|n| match n {
            Node::Anchor(a) => Some(a.input),
            Node::Break => None,
        })
        .collect()
}

fn breaks(nodes: &[Node]) -> usize {
    nodes.iter().filter(|n| matches!(n, Node::Break)).count()
}

fn assert_runs_well_formed(nodes: &[Node]) {
    for w in nodes.windows(2) {
        match (w[0], w[1]) {
            (Node::Break, Node::Break) => panic!("two consecutive breaks"),
            (Node::Anchor(a), Node::Anchor(b)) => assert!(a.input < b.input),
            _ => {}
        }
    }
}

#[test]
fn identity_is_one_run_across_the_domain() {
    let p = params((-5.0, 5.0), (-5.0, 5.0), 4, 2000);
    let (nodes, stats) = run(|x| x, p);
    assert_eq!(breaks(&nodes), 1);
    assert!(matches!(nodes[0], Node::Break));
    let xs = inputs(&nodes);
    assert_eq!(xs[0], fixed(-5.0));
    assert_eq!(*xs.last().unwrap(), fixed(5.0));
    assert_runs_well_formed(&nodes);
    assert_eq!(xs.len(), 17);
    assert_eq!(stats.accept, 16);
    assert_eq!(stats.breaks, 1);
}

#[test]
fn reciprocal_breaks_at_zero() {
    let p = params((-5.0, 5.0), (-5.0, 5.0), 4, 2000);
    let zt = p.zero_tolerance as i64;
    let (nodes, stats) = run(|x| 1.0 / x, p);
    assert!(breaks(&nodes) >= 2);
    assert_runs_well_formed(&nodes);
    for x in inputs(&nodes) {
        assert!(!(-zt < x && x < zt));
    }
    // Some break separates an anchor left of zero from one right of it.
    let mut straddles = false;
    for i in 1..nodes.len() - 1 {
        if let (Node::Anchor(a), Node::Break, Node::Anchor(b)) = (nodes[i - 1], nodes[i], nodes[i + 1]) {
            if a.input < 0 && b.input > 0 {
                straddles = true;
            }
        }
    }
    assert!(straddles);
    assert_eq!(stats.breaks as usize, breaks(&nodes));
}

#[test]
fn sin_of_reciprocal_halts_with_zero_tolerance_prunes() {
    let p = params((-0.5, 0.5), (-1.1, 1.1), 4, 10_000_000);
    let (nodes, stats) = run(|x| (1.0 / x).sin(), p);
    assert!(stats.prune_zero_tolerance > 0);
    assert_runs_well_formed(&nodes);
    let len = p.domain.len() as u128;
    let z = std::cmp::max(p.zero_tolerance, 2) as u128;
    let ends = (stats.accept
        + stats.prune_outside_viewport_finite
        + stats.prune_outside_viewport_infinite
        + stats.prune_zero_tolerance) as u128;
    assert!(ends * z <= 4 * len - z);
}

#[test]
fn sine_is_one_run_that_changes_sign() {
    let pi = std::f64::consts::PI;
    let p = params((-2.0 * pi - 1.0, 2.0 * pi + 1.0), (-1.5, 1.5), 4, 2000);
    let (nodes, _) = run(|x| x.sin(), p);
    assert_eq!(breaks(&nodes), 1);
    assert_runs_well_formed(&nodes);
    let xs = inputs(&nodes);
    assert!(xs.len() >= 17);
    let signs: Vec<bool> = xs.iter().map(|&x| to_f64(x).sin() >= 0.0).collect();
    let changes = signs.windows(2).filter(|w| w[0] != w[1]).count();
    assert!(changes >= 4);
}

#[test]
fn nowhere_defined_function_gives_nothing() {
    let p = params((-5.0, 5.0), (-5.0, 5.0), 4, 2000);
    let (nodes, stats) = run(|x| (-x * x - 1.0).sqrt(), p);
    assert!(nodes.is_empty());
    assert_eq!(stats.accept, 0);
    assert_eq!(stats.breaks, 0);
}

#[test]
fn logarithm_starts_right_of_zero() {
    let p = params((-5.0, 5.0), (-5.0, 5.0), 4, 2000);
    let zt = p.zero_tolerance as i64;
    let (nodes, _) = run(|x| x.ln(), p);
    assert_runs_well_formed(&nodes);
    let xs = inputs(&nodes);
    assert!(!xs.is_empty());
    for &x in &xs {
        assert!(x > 0);
        assert!(!to_f64(x).ln().is_nan());
    }
    assert!(xs[0] <= 2 * zt);
}

#[test]
fn constant_outside_viewport_gives_nothing() {
    let p = params((-5.0, 5.0), (-5.0, 5.0), 4, 2000);
    let (nodes, stats) = run(|_| 7.0, p);
    assert!(nodes.is_empty());
    assert!(stats.prune_outside_viewport_finite > 0);
}

#[test]
fn no_acceptance_above_min_depth() {
    for min_depth in 0..7usize {
        let p = params((-5.0, 5.0), (-5.0, 5.0), min_depth, 2000);
        let (nodes, stats) = run(|x| x, p);
        let xs = inputs(&nodes);
        assert_eq!(stats.accept, 1u64 << min_depth);
        let widest = p.domain.len() >> min_depth;
        for w in xs.windows(2) {
            assert!(((w[1] - w[0]) as u64) <= widest + 1);
        }
    }
}

#[test]
fn chained_intervals_share_anchors() {
    let pi = std::f64::consts::PI;
    let p = params((-2.0 * pi, 2.0 * pi), (-0.5, 0.5), 4, 2000);
    let (nodes, stats) = run(|x| x.sin(), p);
    assert_runs_well_formed(&nodes);
    // Each accepted interval adds one anchor, plus a break and an anchor for
    // each new run.
    assert_eq!(inputs(&nodes).len() as u64, stats.accept + stats.breaks);
    assert_eq!(breaks(&nodes) as u64, stats.breaks);
    assert!(stats.breaks >= 2);
}

#[test]
fn infinite_end_with_outside_partner_is_pruned() {
    let p = params((-5.0, 5.0), (-1.0, 1.0), 0, 2000);
    let (_, stats) = run(|x| if x < 0.0 { f64::NEG_INFINITY } else { 3.0 }, p);
    assert!(stats.prune_outside_viewport_infinite > 0);
}

#[test]
fn appends_after_what_the_segment_holds() {
    let p = params((-5.0, 5.0), (-5.0, 5.0), 4, 2000);
    let eval = |x: i64| Real::Finite(x);
    let mut root: SegVecRoot<Node> = SegVecRoot::new();
    let mut seg = root.extend();
    seg.push(Node::Break);
    let before = seg.len();
    plotfn(&eval, &mut seg, p);
    assert_eq!(seg.as_slice()[0], Node::Break);
    assert_eq!(seg.len(), before + 18);
    root.release(seg);
}

#[test]
fn anchors_increase_across_breaks() {
    let p = params((-5.0, 5.0), (-5.0, 5.0), 4, 2000);
    let (nodes, _) = run(|x| 1.0 / x, p);
    let xs = inputs(&nodes);
    for w in xs.windows(2) {
        assert!(w[0] < w[1]);
    }
}

#[test]
fn evaluates_only_inside_the_domain() {
    let p = params((-0.5, 2.0), (-1.0, 1.0), 3, 2000);
    let lo = p.domain.begin();
    let hi = p.domain.end();
    let seen = std::cell::Cell::new((i64::MAX, i64::MIN));
    let eval = |x: i64| {
        let (a, b) = seen.get();
        seen.set((a.min(x), b.max(x)));
        real_of((to_f64(x) * 3.0).sin())
    };
    let mut root: SegVecRoot<Node> = SegVecRoot::new();
    let mut seg = root.extend();
    plotfn(&eval, &mut seg, p);
    root.release(seg);
    let (a, b) = seen.get();
    assert!(lo <= a && b <= hi);
}
