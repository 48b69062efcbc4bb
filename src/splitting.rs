use vstd::prelude::*;

verus! {

/// A span and a step, both in scan units.
pub type SpanStep = (usize, usize);

/// How one scan range is cut into smaller, possibly overlapping, scan ranges.
///
/// For a window from scan 50 to scan 500:
/// * `Unsplit` keeps the window as it is;
/// * `Even(n)` makes `n` windows of width `2w`, with `w = (500 - 50) / (n + 1)`,
///   each overlapping the next by `w`;
/// * `Uniform((span, step))` makes windows of width `span` whose starts are
///   `step` apart, the last one ending at the window's end.
#[derive(Debug, Copy, Clone)]
pub enum QuadWindowExpansionStrategy {
    Unsplit,
    Even(usize),
    Uniform(SpanStep),
}

/// Which unit a splitting strategy is applied to: each quadrupole sub-window
/// on its own, or the whole scan span of a window group.
#[derive(Debug, Clone, Copy)]
pub enum FrameWindowSplittingStrategy {
    Quadrupole(QuadWindowExpansionStrategy),
    Window(QuadWindowExpansionStrategy),
}

impl Default for FrameWindowSplittingStrategy {
    fn default() -> (r: Self)
        ensures
            r == FrameWindowSplittingStrategy::Quadrupole(QuadWindowExpansionStrategy::Even(1)),
    {
        FrameWindowSplittingStrategy::Quadrupole(QuadWindowExpansionStrategy::Even(1))
    }
}

/// Scan ranges as pairs of mathematical integers.
pub open spec fn pairs_int(v: Seq<(usize, usize)>) -> Seq<(int, int)> {
    v.map_values(|p: (usize, usize)| (p.0 as int, p.1 as int))
}

/// Windows of a uniform split: the window `(cs, ce)` is kept while `ce < end`,
/// then the next one starts `step` further; the first window that reaches
/// `end` is cut at `end`, unless it starts at or after `end`.
pub open spec fn uniform_windows(cs: int, ce: int, end: int, step: int) -> Seq<(int, int)>
    decreases (if ce < end { end - ce } else { 0 }),
    when step > 0
{
    if ce < end {
        seq![(cs, ce)] + uniform_windows(cs + step, ce + step, end, step)
    } else if cs < end {
        seq![(cs, end)]
    } else {
        Seq::empty()
    }
}

/// Width of the unit of an even split into `n` windows.
pub open spec fn even_width(start: int, end: int, n: int) -> int {
    (end - start) / (n + 1)
}

/// The scan ranges that a strategy makes of the range from `start` to `end`.
pub open spec fn subsplit(start: int, end: int, strategy: QuadWindowExpansionStrategy) -> Seq<
    (int, int),
> {
    match strategy {
        QuadWindowExpansionStrategy::Unsplit => seq![(start, end)],
        QuadWindowExpansionStrategy::Even(n) => {
            let w = even_width(start, end, n as int);
            Seq::new(n as nat, |k: int| (start + w * k, start + w * (k + 2)))
        },
        QuadWindowExpansionStrategy::Uniform((span, step)) => uniform_windows(
            start,
            start + span,
            end,
            step as int,
        ),
    }
}

/// What a split needs of its arguments so that every part is non-empty and
/// no step overflows or loops forever: an even split into `n >= 1` windows
/// needs a range at least `n + 1` scans wide, a uniform split a positive
/// span and step.
pub open spec fn subsplit_requires(
    start: usize,
    end: usize,
    strategy: QuadWindowExpansionStrategy,
) -> bool {
    match strategy {
        QuadWindowExpansionStrategy::Unsplit => true,
        QuadWindowExpansionStrategy::Even(n) => start <= end && n < usize::MAX && (n == 0 || end
            - start >= n + 1),
        QuadWindowExpansionStrategy::Uniform((span, step)) => span > 0 && step > 0 && start + span
            <= usize::MAX && end + step <= usize::MAX,
    }
}

proof fn lemma_even_fits(start: int, end: int, n: int, k: int)
    requires
        0 <= start <= end,
        0 <= k < n,
    ensures
        0 <= even_width(start, end, n) * k <= even_width(start, end, n) * (k + 2) <= end - start,
{
    let w = even_width(start, end, n);
    assert(w >= 0);
    assert(w * (n + 1) <= end - start) by (nonlinear_arith)
        requires
            w == (end - start) / (n + 1),
            n + 1 > 0,
            end - start >= 0,
    ;
    assert(0 <= w * k <= w * (k + 2) <= w * (n + 1)) by (nonlinear_arith)
        requires
            w >= 0,
            0 <= k < n,
    ;
}

/// Leaving a range unsplit gives back exactly that range.
pub proof fn lemma_unsplit_is_identity(start: usize, end: usize)
    ensures
        subsplit(start as int, end as int, QuadWindowExpansionStrategy::Unsplit) == seq![
            (start as int, end as int),
        ],
{
}

/// An even split into `n` windows gives exactly `n` windows, each non-empty
/// and inside the range, as long as the range is at least `n + 1` scans wide
/// (a narrower range gives windows of width zero).
pub proof fn lemma_even_split_bounds(start: usize, end: usize, n: usize)
    requires
        start < end,
        n >= 1,
        end - start >= n + 1,
    ensures
        subsplit(start as int, end as int, QuadWindowExpansionStrategy::Even(n)).len() == n,
        forall|i: int|
            0 <= i < n ==> {
                let p = #[trigger] subsplit(
                    start as int,
                    end as int,
                    QuadWindowExpansionStrategy::Even(n),
                )[i];
                &&& p.0 < p.1
                &&& start <= p.0
                &&& p.1 <= end
            },
{
    let w = even_width(start as int, end as int, n as int);
    assert(w >= 1) by (nonlinear_arith)
        requires
            w == (end - start) / (n + 1),
            end - start >= n + 1,
            n + 1 > 0,
    ;
    assert forall|i: int| 0 <= i < n implies {
        let p = #[trigger] subsplit(start as int, end as int, QuadWindowExpansionStrategy::Even(n))[i];
        &&& p.0 < p.1
        &&& start <= p.0
        &&& p.1 <= end
    } by {
        lemma_even_fits(start as int, end as int, n as int, i);
        assert(w * i < w * (i + 2)) by (nonlinear_arith)
            requires
                w >= 1,
                i >= 0,
        ;
    }
}

proof fn lemma_uniform_windows_bounds(cs: int, span: int, end: int, step: int)
    requires
        span > 0,
        step > 0,
    ensures
        forall|i: int|
            0 <= i < uniform_windows(cs, cs + span, end, step).len() ==> {
                let p = #[trigger] uniform_windows(cs, cs + span, end, step)[i];
                &&& p.0 == cs + i * step
                &&& p.0 < p.1
                &&& p.1 <= end
            },
    decreases (if cs + span < end { end - (cs + span) } else { 0 }),
{
    let ws = uniform_windows(cs, cs + span, end, step);
    if cs + span < end {
        lemma_uniform_windows_bounds(cs + step, span, end, step);
        let rest = uniform_windows(cs + step, cs + step + span, end, step);
        assert(ws == seq![(cs, cs + span)] + rest);
        assert forall|i: int| 0 <= i < ws.len() implies {
            let p = #[trigger] ws[i];
            &&& p.0 == cs + i * step
            &&& p.0 < p.1
            &&& p.1 <= end
        } by {
            if i > 0 {
                assert(ws[i] == rest[i - 1]);
                assert(cs + step + (i - 1) * step == cs + i * step) by (nonlinear_arith);
            }
        }
    }
}

/// Every window of a uniform split with a positive span and step is
/// non-empty and inside the range, and the `i`-th window starts `i` steps
/// after the range's start (the last window may be shorter than the span).
pub proof fn lemma_uniform_split_bounds(start: usize, end: usize, span: usize, step: usize)
    requires
        start < end,
        span > 0,
        step > 0,
    ensures
        forall|i: int|
            0 <= i < subsplit(
                start as int,
                end as int,
                QuadWindowExpansionStrategy::Uniform((span, step)),
            ).len() ==> {
                let p = #[trigger] subsplit(
                    start as int,
                    end as int,
                    QuadWindowExpansionStrategy::Uniform((span, step)),
                )[i];
                &&& p.0 < p.1
                &&& start <= p.0
                &&& p.1 <= end
                &&& p.0 == start + i * step
            },
{
    lemma_uniform_windows_bounds(start as int, span as int, end as int, step as int);
    assert forall|i: int| 0 <= i implies start <= start + #[trigger] (i * step) by {
        assert(0 <= i * step) by (nonlinear_arith)
            requires
                i >= 0,
                step > 0,
        ;
    }
}

proof fn lemma_subsplit_parts_in_range(
    start: usize,
    end: usize,
    strategy: QuadWindowExpansionStrategy,
)
    requires
        subsplit_requires(start, end, strategy),
    ensures
        start < end ==> forall|k: int|
            0 <= k < subsplit(start as int, end as int, strategy).len() ==> {
                let p = #[trigger] subsplit(start as int, end as int, strategy)[k];
                &&& p.0 < p.1
                &&& start <= p.0
                &&& p.1 <= end
            },
{
    if start < end {
        match strategy {
            QuadWindowExpansionStrategy::Unsplit => {},
            QuadWindowExpansionStrategy::Even(n) => {
                if n >= 1 {
                    lemma_even_split_bounds(start, end, n);
                }
            },
            QuadWindowExpansionStrategy::Uniform((span, step)) => {
                lemma_uniform_split_bounds(start, end, span, step);
            },
        }
    }
}

/// Whether `scan_range_subsplit` can split the range from `start` to `end`
/// with `strategy`.
pub fn can_subsplit(start: usize, end: usize, strategy: &QuadWindowExpansionStrategy) -> (r: bool)
    ensures
        r == subsplit_requires(start, end, *strategy),
{
    match strategy {
        QuadWindowExpansionStrategy::Unsplit => true,
        QuadWindowExpansionStrategy::Even(n) => {
            start <= end && *n < usize::MAX && (*n == 0 || end - start >= *n + 1)
        },
        QuadWindowExpansionStrategy::Uniform(span_step) => {
            span_step.0 > 0 && span_step.1 > 0 && span_step.0 <= usize::MAX - start && span_step.1
                <= usize::MAX - end
        },
    }
}

/// Cuts the scan range from `start` to `end` as `strategy` says.
pub fn scan_range_subsplit(
    start: usize,
    end: usize,
    strategy: &QuadWindowExpansionStrategy,
) -> (r: Vec<(usize, usize)>)
    requires
        subsplit_requires(start, end, *strategy),
    ensures
        pairs_int(r@) == subsplit(start as int, end as int, *strategy),
        start < end ==> forall|k: int|
            0 <= k < r@.len() ==> {
                let p = #[trigger] pairs_int(r@)[k];
                &&& p.0 < p.1
                &&& start <= p.0
                &&& p.1 <= end
            },
{
    proof {
        lemma_subsplit_parts_in_range(start, end, *strategy);
    }
    match strategy {
        QuadWindowExpansionStrategy::Unsplit => {
            let out = vec![(start, end)];
            assert(pairs_int(out@) =~= subsplit(start as int, end as int, *strategy));
            out
        },
        QuadWindowExpansionStrategy::Even(num_splits) => {
            let n: usize = *num_splits;
            let width: usize = (end - start) / (n + 1);
            let ghost target = subsplit(start as int, end as int, *strategy);
            let ghost w = width as int;
            assert(target == Seq::new(
                n as nat,
                |j: int| (start as int + w * j, start as int + w * (j + 2)),
            ));
            let mut out: Vec<(usize, usize)> = Vec::new();
            let mut k: usize = 0;
            while k < n
                invariant
                    k <= n,
                    n == *num_splits,
                    start <= end,
                    n < usize::MAX,
                    width == even_width(start as int, end as int, n as int),
                    target == subsplit(start as int, end as int, *strategy),
                    w == width as int,
                    target == Seq::new(
                        n as nat,
                        |j: int| (start as int + w * j, start as int + w * (j + 2)),
                    ),
                    pairs_int(out@) =~= target.subrange(0, k as int),
                decreases n - k,
            {
                proof {
                    lemma_even_fits(start as int, end as int, n as int, k as int);
                }
                let s: usize = start + width * k;
                let e: usize = start + width * (k + 2);
                let ghost before = out@;
                out.push((s, e));
                assert(target[k as int] == (s as int, e as int));
                assert(target.subrange(0, k + 1) =~= target.subrange(0, k as int).push(
                    target[k as int],
                ));
                assert(pairs_int(out@) =~= pairs_int(before).push((s as int, e as int)));
                k += 1;
            }
            assert(target.subrange(0, n as int) =~= target);
            out
        },
        QuadWindowExpansionStrategy::Uniform(span_step) => {
            let span: usize = span_step.0;
            let step: usize = span_step.1;
            let ghost target = subsplit(start as int, end as int, *strategy);
            let mut curr_start: usize = start;
            let mut curr_end: usize = start + span;
            let mut out: Vec<(usize, usize)> = Vec::new();
            while curr_end < end
                invariant
                    step > 0,
                    end + step <= usize::MAX,
                    curr_start <= curr_end,
                    target == uniform_windows(start as int, start + span, end as int, step as int),
                    pairs_int(out@) + uniform_windows(
                        curr_start as int,
                        curr_end as int,
                        end as int,
                        step as int,
                    ) == target,
                decreases (if curr_end < end { end - curr_end } else { 0 }),
            {
                let ghost before = out@;
                let ghost rest = uniform_windows(
                    curr_start + step,
                    curr_end + step,
                    end as int,
                    step as int,
                );
                out.push((curr_start, curr_end));
                assert(pairs_int(out@) =~= pairs_int(before).push(
                    (curr_start as int, curr_end as int),
                ));
                assert(pairs_int(before) + (seq![(curr_start as int, curr_end as int)] + rest)
                    =~= pairs_int(out@) + rest);
                curr_start += step;
                curr_end += step;
            }
            if curr_start < end {
                let ghost before = out@;
                out.push((curr_start, end));
                assert(pairs_int(out@) =~= pairs_int(before).push((curr_start as int, end as int)));
                assert(pairs_int(before) + seq![(curr_start as int, end as int)]
                    =~= pairs_int(out@));
            } else {
                assert(pairs_int(out@) + Seq::<(int, int)>::empty() =~= pairs_int(out@));
            }
            out
        },
    }
}

} // verus!
