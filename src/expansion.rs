use vstd::prelude::*;

use crate::quad_settings::{
    group_settings_from, has_group_zero, settings_built, Entry, QuadrupoleSettings,
    QuadrupoleSettingsReader, QuadrupoleSettingsReaderError, SqlQuadSettings, SqlWindowGroup,
};
use crate::splitting::{
    can_subsplit, pairs_int, scan_range_subsplit, subsplit, subsplit_requires,
    FrameWindowSplittingStrategy, QuadWindowExpansionStrategy,
};

verus! {

/// The result of splitting the window groups: settings per derived
/// sub-window; or the settings of each window group with the scan ranges cut
/// from whole window groups, whose members are sub-windows of those settings.
#[derive(Debug)]
pub enum SplitSettings<T> {
    Quadrupole(Vec<QuadrupoleSettings<T>>),
    Window(Vec<QuadrupoleSettings<T>>, Vec<WindowSubRange>),
}

/// What `from_splitting` gives for the built settings `s`.
pub open spec fn split_outcome<T>(
    r: Result<SplitSettings<T>, QuadrupoleSettingsReaderError>,
    s: Seq<QuadrupoleSettings<T>>,
    window_groups: Seq<SqlWindowGroup>,
    strategy: FrameWindowSplittingStrategy,
) -> bool {
    if !groups_exist(window_groups, s) {
        r == Err::<SplitSettings<T>, _>(QuadrupoleSettingsReaderError::UnknownWindowGroup)
    } else {
        match strategy {
            FrameWindowSplittingStrategy::Quadrupole(x) => if sub_windows_splittable(
                window_groups,
                s,
                x,
            ) {
                r matches Ok(SplitSettings::Quadrupole(v)) && (forall|k: int|
                    0 <= k < v@.len() ==> is_single(#[trigger] v@[k]))
                    && records(v@) == quadrupole_expansion(window_groups, s, x, window_groups.len() as int)
            } else {
                r == Err::<SplitSettings<T>, _>(QuadrupoleSettingsReaderError::InvalidScanRange)
            },
            FrameWindowSplittingStrategy::Window(x) => if !groups_nonempty(window_groups, s) {
                r == Err::<SplitSettings<T>, _>(QuadrupoleSettingsReaderError::UnknownWindowGroup)
            } else if spans_splittable(window_groups, s, x) {
                r matches Ok(SplitSettings::Window(g, v)) && g@ == s
                    && range_records(v@) == window_expansion(window_groups, s, x, window_groups.len() as int)
            } else {
                r == Err::<SplitSettings<T>, _>(QuadrupoleSettingsReaderError::InvalidScanRange)
            },
        }
    }
}

/// A derived window as plain values: frame, scan start, scan end, isolation
/// m/z, isolation width, collision energy.
pub type Record<T> = (usize, int, int, T, T, T);

/// The settings describe exactly one sub-window.
pub open spec fn is_single<T>(q: QuadrupoleSettings<T>) -> bool {
    q.wf() && q.scan_starts@.len() == 1
}

/// The one sub-window of single settings, with their index.
pub open spec fn record_of<T>(q: QuadrupoleSettings<T>) -> Record<T> {
    (
        q.index,
        q.scan_starts@[0] as int,
        q.scan_ends@[0] as int,
        q.isolation_mz@[0],
        q.isolation_width@[0],
        q.collision_energy@[0],
    )
}

pub open spec fn records<T>(v: Seq<QuadrupoleSettings<T>>) -> Seq<Record<T>> {
    v.map_values(|q: QuadrupoleSettings<T>| record_of(q))
}

/// The derived windows of one sub-window: its scan range split, each part
/// keeping the sub-window's m/z, width and energy.
pub open spec fn sub_window_records<T>(
    frame: usize,
    e: Entry<T>,
    strategy: QuadWindowExpansionStrategy,
) -> Seq<Record<T>> {
    subsplit(e.0 as int, e.1 as int, strategy).map_values(
        |p: (int, int)| (frame, p.0, p.1, e.2, e.3, e.4),
    )
}

/// The derived windows of the first `n` sub-windows of a group.
pub open spec fn group_records<T>(
    frame: usize,
    entries: Seq<Entry<T>>,
    strategy: QuadWindowExpansionStrategy,
    n: int,
) -> Seq<Record<T>>
    decreases n,
{
    if n <= 0 {
        Seq::empty()
    } else {
        group_records(frame, entries, strategy, n - 1) + sub_window_records(
            frame,
            entries[n - 1],
            strategy,
        )
    }
}

/// The derived windows of the first `n` frame-to-group rows, each split
/// sub-window by sub-window.
pub open spec fn quadrupole_expansion<T>(
    window_groups: Seq<SqlWindowGroup>,
    settings: Seq<QuadrupoleSettings<T>>,
    strategy: QuadWindowExpansionStrategy,
    n: int,
) -> Seq<Record<T>>
    decreases n,
{
    if n <= 0 {
        Seq::empty()
    } else {
        let wg = window_groups[n - 1];
        let entries = settings[wg.window_group - 1].entries();
        quadrupole_expansion(window_groups, settings, strategy, n - 1) + group_records(
            wg.frame,
            entries,
            strategy,
            entries.len() as int,
        )
    }
}

/// Each frame-to-group row names an existing group.
pub open spec fn groups_exist<T>(
    window_groups: Seq<SqlWindowGroup>,
    settings: Seq<QuadrupoleSettings<T>>,
) -> bool {
    forall|k: int|
        0 <= k < window_groups.len() ==> 1 <= (#[trigger] window_groups[k]).window_group
            <= settings.len()
}

/// Every group is well formed.
pub open spec fn all_wf<T>(settings: Seq<QuadrupoleSettings<T>>) -> bool {
    forall|g: int| 0 <= g < settings.len() ==> (#[trigger] settings[g]).wf()
}

/// The strategy can split the scan range of each sub-window of `q`.
pub open spec fn group_sub_windows_splittable<T>(
    q: QuadrupoleSettings<T>,
    strategy: QuadWindowExpansionStrategy,
) -> bool {
    forall|i: int|
        0 <= i < q.entries().len() ==> subsplit_requires(
            (#[trigger] q.entries()[i]).0,
            q.entries()[i].1,
            strategy,
        )
}

/// The strategy can split each sub-window of the group of each
/// frame-to-group row.
pub open spec fn sub_windows_splittable<T>(
    window_groups: Seq<SqlWindowGroup>,
    settings: Seq<QuadrupoleSettings<T>>,
    strategy: QuadWindowExpansionStrategy,
) -> bool {
    forall|k: int|
        0 <= k < window_groups.len() ==> group_sub_windows_splittable(
            #[trigger] settings[window_groups[k].window_group - 1],
            strategy,
        )
}

/// Splits the scan range of every sub-window of the group of each
/// frame-to-group row; each part becomes single settings indexed by the
/// frame, with the sub-window's m/z, width and energy unchanged.
pub fn expand_quadrupole_settings<T: Copy>(
    window_groups: &Vec<SqlWindowGroup>,
    quadrupole_settings: &Vec<QuadrupoleSettings<T>>,
    strategy: &QuadWindowExpansionStrategy,
) -> (r: Vec<QuadrupoleSettings<T>>)
    requires
        groups_exist(window_groups@, quadrupole_settings@),
        all_wf(quadrupole_settings@),
        sub_windows_splittable(window_groups@, quadrupole_settings@, *strategy),
    ensures
        forall|k: int| 0 <= k < r@.len() ==> is_single(#[trigger] r@[k]),
        records(r@) == quadrupole_expansion(
            window_groups@,
            quadrupole_settings@,
            *strategy,
            window_groups@.len() as int,
        ),
{
    let mut expanded: Vec<QuadrupoleSettings<T>> = Vec::new();
    let mut k: usize = 0;
    while k < window_groups.len()
        invariant
            k <= window_groups@.len(),
            groups_exist(window_groups@, quadrupole_settings@),
            all_wf(quadrupole_settings@),
            sub_windows_splittable(window_groups@, quadrupole_settings@, *strategy),
            forall|x: int| 0 <= x < expanded@.len() ==> is_single(#[trigger] expanded@[x]),
            records(expanded@) == quadrupole_expansion(
                window_groups@,
                quadrupole_settings@,
                *strategy,
                k as int,
            ),
        decreases window_groups@.len() - k,
    {
        let frame = window_groups[k].frame;
        let group = &quadrupole_settings[window_groups[k].window_group - 1];
        let ghost entries = group.entries();
        let ghost done = records(expanded@);
        assert(group_sub_windows_splittable(
            quadrupole_settings@[window_groups@[k as int].window_group - 1],
            *strategy,
        ));
        let mut sub_window: usize = 0;
        while sub_window < group.len()
            invariant
                group.wf(),
                entries == group.entries(),
                sub_window <= entries.len(),
                forall|i: int|
                    0 <= i < entries.len() ==> subsplit_requires(
                        (#[trigger] entries[i]).0,
                        entries[i].1,
                        *strategy,
                    ),
                forall|x: int| 0 <= x < expanded@.len() ==> is_single(#[trigger] expanded@[x]),
                records(expanded@) == done + group_records(
                    frame,
                    entries,
                    *strategy,
                    sub_window as int,
                ),
            decreases entries.len() - sub_window,
        {
            let scan_start = group.scan_starts[sub_window];
            let scan_end = group.scan_ends[sub_window];
            let mz = group.isolation_mz[sub_window];
            let width = group.isolation_width[sub_window];
            let energy = group.collision_energy[sub_window];
            assert(entries[sub_window as int] == (scan_start, scan_end, mz, width, energy));
            let parts = scan_range_subsplit(scan_start, scan_end, strategy);
            let ghost these = sub_window_records(frame, entries[sub_window as int], *strategy);
            let ghost before = records(expanded@);
            let mut j: usize = 0;
            while j < parts.len()
                invariant
                    j <= parts@.len(),
                    pairs_int(parts@) == subsplit(scan_start as int, scan_end as int, *strategy),
                    these == sub_window_records(frame, (scan_start, scan_end, mz, width, energy), *strategy),
                    forall|x: int| 0 <= x < expanded@.len() ==> is_single(#[trigger] expanded@[x]),
                    records(expanded@) == before + these.take(j as int),
                decreases parts@.len() - j,
            {
                let (sws, swe) = parts[j];
                let ghost prev = expanded@;
                expanded.push(
                    QuadrupoleSettings {
                        index: frame,
                        scan_starts: vec![sws],
                        scan_ends: vec![swe],
                        isolation_mz: vec![mz],
                        isolation_width: vec![width],
                        collision_energy: vec![energy],
                    },
                );
                proof {
                    assert(pairs_int(parts@)[j as int] == (sws as int, swe as int));
                    assert(records(expanded@) =~= records(prev).push(record_of(expanded@.last())));
                    assert(these.take(j + 1) =~= these.take(j as int).push(these[j as int]));
                    assert(records(expanded@) =~= before + these.take(j + 1));
                }
                j += 1;
            }
            assert(these.take(parts@.len() as int) =~= these);
            assert(done + group_records(frame, entries, *strategy, sub_window + 1) =~= done
                + group_records(frame, entries, *strategy, sub_window as int) + these);
            sub_window += 1;
        }
        assert(done + group_records(frame, entries, *strategy, entries.len() as int) =~= quadrupole_expansion(
            window_groups@,
            quadrupole_settings@,
            *strategy,
            k + 1,
        ));
        k += 1;
    }
    expanded
}

/// One scan range cut from the whole scan span of a window group, with the
/// sub-windows of the group that contribute to it.
///
/// `members` holds, in sub-window order, the position of each contributing
/// sub-window and the length of its scan overlap with the range. A
/// sub-window contributes unless the range ends at or before the
/// sub-window's end, or the sub-window starts at or before the range's
/// start. The m/z bounds and the overlap-weighted energy of the derived
/// window are folded from these members by the caller.
#[derive(Debug, Clone, PartialEq, Eq)]
pub struct WindowSubRange {
    pub index: usize,
    pub window_group: usize,
    pub scan_start: usize,
    pub scan_end: usize,
    pub members: Vec<(usize, usize)>,
}

/// A derived window range as plain values: frame, window group, scan start,
/// scan end, members.
pub type RangeRecord = (usize, usize, int, int, Seq<(int, int)>);

pub open spec fn range_record(w: WindowSubRange) -> RangeRecord {
    (w.index, w.window_group, w.scan_start as int, w.scan_end as int, pairs_int(w.members@))
}

pub open spec fn range_records(v: Seq<WindowSubRange>) -> Seq<RangeRecord> {
    v.map_values(|w: WindowSubRange| range_record(w))
}

/// The smallest scan start of the first `n` sub-windows.
pub open spec fn span_start<T>(entries: Seq<Entry<T>>, n: int) -> int
    decreases n,
{
    if n <= 1 {
        entries[0].0 as int
    } else {
        let prev = span_start(entries, n - 1);
        if (entries[n - 1].0 as int) < prev {
            entries[n - 1].0 as int
        } else {
            prev
        }
    }
}

/// The largest scan end of the first `n` sub-windows.
pub open spec fn span_end<T>(entries: Seq<Entry<T>>, n: int) -> int
    decreases n,
{
    if n <= 1 {
        entries[0].1 as int
    } else {
        let prev = span_end(entries, n - 1);
        if (entries[n - 1].1 as int) > prev {
            entries[n - 1].1 as int
        } else {
            prev
        }
    }
}

/// Whether a sub-window from `gss` to `gse` is left out of the range from
/// `sws` to `swe`.
pub open spec fn left_out(gss: int, gse: int, sws: int, swe: int) -> bool {
    swe <= gse || gss <= sws
}

/// The members among the first `n` sub-windows for the range from `sws` to
/// `swe`: position and scan overlap.
pub open spec fn members_of<T>(entries: Seq<Entry<T>>, sws: int, swe: int, n: int) -> Seq<(int, int)>
    decreases n,
{
    if n <= 0 {
        Seq::empty()
    } else {
        let prev = members_of(entries, sws, swe, n - 1);
        let e = entries[n - 1];
        if left_out(e.0 as int, e.1 as int, sws, swe) {
            prev
        } else {
            let lo = if (e.0 as int) > sws { e.0 as int } else { sws };
            let hi = if (e.1 as int) < swe { e.1 as int } else { swe };
            prev.push((n - 1, hi - lo))
        }
    }
}

/// The derived ranges of one frame-to-group row: the group's whole scan span
/// split, each part with its members.
pub open spec fn window_records<T>(
    frame: usize,
    group: usize,
    entries: Seq<Entry<T>>,
    strategy: QuadWindowExpansionStrategy,
) -> Seq<RangeRecord> {
    subsplit(
        span_start(entries, entries.len() as int),
        span_end(entries, entries.len() as int),
        strategy,
    ).map_values(
        |p: (int, int)| (frame, group, p.0, p.1, members_of(entries, p.0, p.1, entries.len() as int)),
    )
}

/// The derived ranges of the first `n` frame-to-group rows.
pub open spec fn window_expansion<T>(
    window_groups: Seq<SqlWindowGroup>,
    settings: Seq<QuadrupoleSettings<T>>,
    strategy: QuadWindowExpansionStrategy,
    n: int,
) -> Seq<RangeRecord>
    decreases n,
{
    if n <= 0 {
        Seq::empty()
    } else {
        let wg = window_groups[n - 1];
        window_expansion(window_groups, settings, strategy, n - 1) + window_records(
            wg.frame,
            wg.window_group,
            settings[wg.window_group - 1].entries(),
            strategy,
        )
    }
}

/// The group of each frame-to-group row has a sub-window.
pub open spec fn groups_nonempty<T>(
    window_groups: Seq<SqlWindowGroup>,
    settings: Seq<QuadrupoleSettings<T>>,
) -> bool {
    forall|k: int|
        0 <= k < window_groups.len() ==> (#[trigger] settings[window_groups[k].window_group
            - 1]).entries().len() > 0
}

/// Each sub-window of `q` starts no later than it ends, and, where `q` has a
/// sub-window, the strategy can split its whole span.
pub open spec fn group_span_splittable<T>(
    q: QuadrupoleSettings<T>,
    strategy: QuadWindowExpansionStrategy,
) -> bool {
    let entries = q.entries();
    &&& forall|i: int| 0 <= i < entries.len() ==> (#[trigger] entries[i]).0 <= entries[i].1
    &&& entries.len() > 0 ==> subsplit_requires(
        span_start(entries, entries.len() as int) as usize,
        span_end(entries, entries.len() as int) as usize,
        strategy,
    )
}

/// The group of each frame-to-group row can have its whole span split.
pub open spec fn spans_splittable<T>(
    window_groups: Seq<SqlWindowGroup>,
    settings: Seq<QuadrupoleSettings<T>>,
    strategy: QuadWindowExpansionStrategy,
) -> bool {
    forall|k: int|
        0 <= k < window_groups.len() ==> group_span_splittable(
            #[trigger] settings[window_groups[k].window_group - 1],
            strategy,
        )
}

fn members_for_range<T: Copy>(group: &QuadrupoleSettings<T>, sws: usize, swe: usize) -> (r: Vec<
    (usize, usize),
>)
    requires
        group.wf(),
        forall|i: int|
            0 <= i < group.entries().len() ==> (#[trigger] group.entries()[i]).0
                <= group.entries()[i].1,
    ensures
        pairs_int(r@) == members_of(group.entries(), sws as int, swe as int, group.entries().len() as int),
{
    let ghost entries = group.entries();
    let mut members: Vec<(usize, usize)> = Vec::new();
    let mut i: usize = 0;
    while i < group.len()
        invariant
            group.wf(),
            entries == group.entries(),
            i <= entries.len(),
            forall|x: int| 0 <= x < entries.len() ==> (#[trigger] entries[x]).0 <= entries[x].1,
            pairs_int(members@) == members_of(entries, sws as int, swe as int, i as int),
        decreases entries.len() - i,
    {
        let gss = group.scan_starts[i];
        let gse = group.scan_ends[i];
        assert(entries[i as int].0 == gss && entries[i as int].1 == gse);
        if !((swe <= gse) || (gss <= sws)) {
            let lo = if gss > sws { gss } else { sws };
            let hi = if gse < swe { gse } else { swe };
            let ghost prev = members@;
            members.push((i, hi - lo));
            assert(pairs_int(members@) =~= pairs_int(prev).push((i as int, hi - lo)));
        }
        i += 1;
    }
    members
}

/// For each frame-to-group row, splits the whole scan span of its group
/// (smallest scan start to largest scan end) and lists, for each part, the
/// sub-windows that contribute to it.
pub fn expand_window_settings<T: Copy>(
    window_groups: &Vec<SqlWindowGroup>,
    quadrupole_settings: &Vec<QuadrupoleSettings<T>>,
    strategy: &QuadWindowExpansionStrategy,
) -> (r: Vec<WindowSubRange>)
    requires
        groups_exist(window_groups@, quadrupole_settings@),
        groups_nonempty(window_groups@, quadrupole_settings@),
        all_wf(quadrupole_settings@),
        spans_splittable(window_groups@, quadrupole_settings@, *strategy),
    ensures
        range_records(r@) == window_expansion(
            window_groups@,
            quadrupole_settings@,
            *strategy,
            window_groups@.len() as int,
        ),
{
    let mut expanded: Vec<WindowSubRange> = Vec::new();
    let mut k: usize = 0;
    while k < window_groups.len()
        invariant
            k <= window_groups@.len(),
            groups_exist(window_groups@, quadrupole_settings@),
            groups_nonempty(window_groups@, quadrupole_settings@),
            all_wf(quadrupole_settings@),
            spans_splittable(window_groups@, quadrupole_settings@, *strategy),
            range_records(expanded@) == window_expansion(
                window_groups@,
                quadrupole_settings@,
                *strategy,
                k as int,
            ),
        decreases window_groups@.len() - k,
    {
        let frame = window_groups[k].frame;
        let window = window_groups[k].window_group;
        let group = &quadrupole_settings[window - 1];
        let ghost entries = group.entries();
        assert(group_span_splittable(
            quadrupole_settings@[window_groups@[k as int].window_group - 1],
            *strategy,
        ));
        assert(quadrupole_settings@[window_groups@[k as int].window_group - 1].entries().len() > 0);
        let n = group.len();
        let mut window_group_start: usize = group.scan_starts[0];
        let mut window_group_end: usize = group.scan_ends[0];
        let mut i: usize = 1;
        while i < n
            invariant
                group.wf(),
                entries == group.entries(),
                n == entries.len(),
                1 <= i <= n,
                window_group_start == span_start(entries, i as int),
                window_group_end == span_end(entries, i as int),
            decreases n - i,
        {
            if group.scan_starts[i] < window_group_start {
                window_group_start = group.scan_starts[i];
            }
            if group.scan_ends[i] > window_group_end {
                window_group_end = group.scan_ends[i];
            }
            i += 1;
        }
        let parts = scan_range_subsplit(window_group_start, window_group_end, strategy);
        let ghost these = window_records(frame, window, entries, *strategy);
        let ghost before = range_records(expanded@);
        let mut j: usize = 0;
        while j < parts.len()
            invariant
                group.wf(),
                entries == group.entries(),
                forall|x: int| 0 <= x < entries.len() ==> (#[trigger] entries[x]).0 <= entries[x].1,
                j <= parts@.len(),
                pairs_int(parts@) == subsplit(window_group_start as int, window_group_end as int, *strategy),
                window_group_start == span_start(entries, entries.len() as int),
                window_group_end == span_end(entries, entries.len() as int),
                these == window_records(frame, window, entries, *strategy),
                range_records(expanded@) == before + these.take(j as int),
            decreases parts@.len() - j,
        {
            let (sws, swe) = parts[j];
            let members = members_for_range(group, sws, swe);
            let ghost prev = expanded@;
            expanded.push(
                WindowSubRange {
                    index: frame,
                    window_group: window,
                    scan_start: sws,
                    scan_end: swe,
                    members,
                },
            );
            proof {
                assert(pairs_int(parts@)[j as int] == (sws as int, swe as int));
                assert(range_records(expanded@) =~= range_records(prev).push(range_record(expanded@.last())));
                assert(these.take(j + 1) =~= these.take(j as int).push(these[j as int]));
            }
            j += 1;
        }
        assert(these.take(parts@.len() as int) =~= these);
        k += 1;
    }
    expanded
}

fn check_groups_exist<T>(
    window_groups: &Vec<SqlWindowGroup>,
    settings: &Vec<QuadrupoleSettings<T>>,
) -> (r: bool)
    ensures
        r == groups_exist(window_groups@, settings@),
{
    let mut k: usize = 0;
    while k < window_groups.len()
        invariant
            k <= window_groups@.len(),
            forall|x: int|
                0 <= x < k ==> 1 <= (#[trigger] window_groups@[x]).window_group <= settings@.len(),
        decreases window_groups@.len() - k,
    {
        let g = window_groups[k].window_group;
        if g == 0 || g > settings.len() {
            return false;
        }
        k += 1;
    }
    true
}

fn check_groups_nonempty<T>(
    window_groups: &Vec<SqlWindowGroup>,
    settings: &Vec<QuadrupoleSettings<T>>,
) -> (r: bool)
    requires
        groups_exist(window_groups@, settings@),
        all_wf(settings@),
    ensures
        r == groups_nonempty(window_groups@, settings@),
{
    let mut k: usize = 0;
    while k < window_groups.len()
        invariant
            k <= window_groups@.len(),
            groups_exist(window_groups@, settings@),
            all_wf(settings@),
            forall|x: int|
                0 <= x < k ==> (#[trigger] settings@[window_groups@[x].window_group
                    - 1]).entries().len() > 0,
        decreases window_groups@.len() - k,
    {
        let g = window_groups[k].window_group;
        assert(settings@[window_groups@[k as int].window_group - 1].wf());
        if settings[g - 1].len() == 0 {
            return false;
        }
        k += 1;
    }
    true
}

fn check_sub_windows<T>(
    window_groups: &Vec<SqlWindowGroup>,
    settings: &Vec<QuadrupoleSettings<T>>,
    strategy: &QuadWindowExpansionStrategy,
) -> (r: bool)
    requires
        groups_exist(window_groups@, settings@),
        all_wf(settings@),
    ensures
        r == sub_windows_splittable(window_groups@, settings@, *strategy),
{
    let mut k: usize = 0;
    while k < window_groups.len()
        invariant
            k <= window_groups@.len(),
            groups_exist(window_groups@, settings@),
            all_wf(settings@),
            forall|x: int|
                0 <= x < k ==> group_sub_windows_splittable(
                    #[trigger] settings@[window_groups@[x].window_group - 1],
                    *strategy,
                ),
        decreases window_groups@.len() - k,
    {
        let group = &settings[window_groups[k].window_group - 1];
        assert(group == settings@[window_groups@[k as int].window_group - 1]);
        let mut i: usize = 0;
        while i < group.len()
            invariant
                group.wf(),
                k < window_groups@.len(),
                group == settings@[window_groups@[k as int].window_group - 1],
                i <= group.entries().len(),
                forall|y: int|
                    0 <= y < i ==> subsplit_requires(
                        (#[trigger] group.entries()[y]).0,
                        group.entries()[y].1,
                        *strategy,
                    ),
            decreases group.entries().len() - i,
        {
            let start = group.scan_starts[i];
            let end = group.scan_ends[i];
            assert(group.entries()[i as int].0 == start && group.entries()[i as int].1 == end);
            if !can_subsplit(start, end, strategy) {
                assert(!group_sub_windows_splittable(*group, *strategy));
                return false;
            }
            i += 1;
        }
        k += 1;
    }
    true
}

fn check_spans<T>(
    window_groups: &Vec<SqlWindowGroup>,
    settings: &Vec<QuadrupoleSettings<T>>,
    strategy: &QuadWindowExpansionStrategy,
) -> (r: bool)
    requires
        groups_exist(window_groups@, settings@),
        all_wf(settings@),
    ensures
        r == spans_splittable(window_groups@, settings@, *strategy),
{
    let mut k: usize = 0;
    while k < window_groups.len()
        invariant
            k <= window_groups@.len(),
            groups_exist(window_groups@, settings@),
            all_wf(settings@),
            forall|x: int|
                0 <= x < k ==> group_span_splittable(
                    #[trigger] settings@[window_groups@[x].window_group - 1],
                    *strategy,
                ),
        decreases window_groups@.len() - k,
    {
        let group = &settings[window_groups[k].window_group - 1];
        assert(group == settings@[window_groups@[k as int].window_group - 1]);
        let ghost entries = group.entries();
        let n = group.len();
        if n > 0 {
            let mut start: usize = group.scan_starts[0];
            let mut end: usize = group.scan_ends[0];
            let mut i: usize = 0;
            while i < n
                invariant
                    group.wf(),
                    k < window_groups@.len(),
                    group == settings@[window_groups@[k as int].window_group - 1],
                    entries == group.entries(),
                    n == entries.len(),
                    n > 0,
                    i <= n,
                    i >= 1 ==> start == span_start(entries, i as int),
                    i >= 1 ==> end == span_end(entries, i as int),
                    i == 0 ==> start == entries[0].0 && end == entries[0].1,
                    forall|y: int| 0 <= y < i ==> (#[trigger] entries[y]).0 <= entries[y].1,
                decreases n - i,
            {
                let s = group.scan_starts[i];
                let e = group.scan_ends[i];
                assert(entries[i as int].0 == s && entries[i as int].1 == e);
                if s > e {
                    assert(!group_span_splittable(*group, *strategy));
                    return false;
                }
                if i > 0 {
                    if s < start {
                        start = s;
                    }
                    if e > end {
                        end = e;
                    }
                }
                i += 1;
            }
            if !can_subsplit(start, end, strategy) {
                return false;
            }
        }
        k += 1;
    }
    true
}

impl<T: Copy> QuadrupoleSettingsReader<T> {
    /// Builds the settings of each window group from `rows`, then splits,
    /// for each frame-to-group row, either every sub-window of its group or
    /// the group's whole scan span, as `splitting_strat` says.
    pub fn from_splitting(
        rows: Vec<SqlQuadSettings<T>>,
        window_groups: &Vec<SqlWindowGroup>,
        splitting_strat: FrameWindowSplittingStrategy,
    ) -> (r: Result<SplitSettings<T>, QuadrupoleSettingsReaderError>)
        ensures
            rows@.len() == 0 ==> r == Err::<SplitSettings<T>, _>(
                QuadrupoleSettingsReaderError::NoWindowGroups,
            ),
            rows@.len() > 0 && has_group_zero(rows@) ==> r == Err::<SplitSettings<T>, _>(
                QuadrupoleSettingsReaderError::WindowGroupZero,
            ),
            rows@.len() > 0 && !has_group_zero(rows@) ==> exists|s: Seq<QuadrupoleSettings<T>>|
                settings_built(s, rows@) && #[trigger] split_outcome(
                    r,
                    s,
                    window_groups@,
                    splitting_strat,
                ),
    {
        let ghost rows_view = rows@;
        let quadrupole_settings = match Self::from_sql_settings(rows) {
            Ok(q) => q,
            Err(e) => return Err(e),
        };
        let ghost s = quadrupole_settings@;
        assert(settings_built(s, rows_view));
        assert(all_wf(s)) by {
            assert forall|g: int| 0 <= g < s.len() implies (#[trigger] s[g]).wf() by {
                assert(group_settings_from(s[g], rows_view, g));
            }
        }
        if !check_groups_exist(window_groups, &quadrupole_settings) {
            let r = Err(QuadrupoleSettingsReaderError::UnknownWindowGroup);
            assert(split_outcome(r, s, window_groups@, splitting_strat));
            return r;
        }
        match splitting_strat {
            FrameWindowSplittingStrategy::Quadrupole(x) => {
                if !check_sub_windows(window_groups, &quadrupole_settings, &x) {
                    let r = Err(QuadrupoleSettingsReaderError::InvalidScanRange);
                    assert(split_outcome(r, s, window_groups@, splitting_strat));
                    return r;
                }
                let v = expand_quadrupole_settings(window_groups, &quadrupole_settings, &x);
                let r = Ok(SplitSettings::Quadrupole(v));
                assert(split_outcome(r, s, window_groups@, splitting_strat));
                r
            },
            FrameWindowSplittingStrategy::Window(x) => {
                if !check_groups_nonempty(window_groups, &quadrupole_settings) {
                    let r = Err(QuadrupoleSettingsReaderError::UnknownWindowGroup);
                    assert(split_outcome(r, s, window_groups@, splitting_strat));
                    return r;
                }
                if !check_spans(window_groups, &quadrupole_settings, &x) {
                    let r = Err(QuadrupoleSettingsReaderError::InvalidScanRange);
                    assert(split_outcome(r, s, window_groups@, splitting_strat));
                    return r;
                }
                let v = expand_window_settings(window_groups, &quadrupole_settings, &x);
                let r = Ok(SplitSettings::Window(quadrupole_settings, v));
                assert(split_outcome(r, s, window_groups@, splitting_strat));
                r
            },
        }
    }
}

proof fn lemma_group_records_keep_values<T>(
    frame: usize,
    entries: Seq<Entry<T>>,
    strategy: QuadWindowExpansionStrategy,
    m: int,
)
    requires
        0 <= m <= entries.len(),
    ensures
        forall|k: int|
            0 <= k < group_records(frame, entries, strategy, m).len() ==> keeps_values_of_some(
                #[trigger] group_records(frame, entries, strategy, m)[k],
                frame,
                entries,
                m,
            ),
    decreases m,
{
    if m > 0 {
        lemma_group_records_keep_values(frame, entries, strategy, m - 1);
        let prev = group_records(frame, entries, strategy, m - 1);
        let these = sub_window_records(frame, entries[m - 1], strategy);
        let all = group_records(frame, entries, strategy, m);
        assert(all == prev + these);
        assert forall|k: int| 0 <= k < all.len() implies keeps_values_of_some(
            #[trigger] all[k],
            frame,
            entries,
            m,
        ) by {
            if k < prev.len() {
                assert(all[k] == prev[k]);
            } else {
                assert(all[k] == these[k - prev.len()]);
                assert(keeps_values(all[k], frame, entries[m - 1]));
            }
        }
    }
}

/// A derived window carries the frame and the values of one of the first
/// `m` sub-windows.
pub open spec fn keeps_values_of_some<T>(
    rec: Record<T>,
    frame: usize,
    entries: Seq<Entry<T>>,
    m: int,
) -> bool {
    exists|i: int| 0 <= i < m && #[trigger] keeps_values(rec, frame, entries[i])
}

/// A derived window carries the frame of one of the first `n`
/// frame-to-group rows and the values of one sub-window of its group.
pub open spec fn keeps_values_of_some_row<T>(
    rec: Record<T>,
    window_groups: Seq<SqlWindowGroup>,
    settings: Seq<QuadrupoleSettings<T>>,
    n: int,
) -> bool {
    exists|j: int, i: int|
        0 <= j < n && 0 <= i < settings[window_groups[j].window_group - 1].entries().len()
            && #[trigger] keeps_values(
            rec,
            window_groups[j].frame,
            settings[window_groups[j].window_group - 1].entries()[i],
        )
}

/// A derived window carries the frame and the m/z, width and energy of a
/// sub-window.
pub open spec fn keeps_values<T>(rec: Record<T>, frame: usize, e: Entry<T>) -> bool {
    rec.0 == frame && rec.3 == e.2 && rec.4 == e.3 && rec.5 == e.4
}

/// Splitting sub-windows changes only scan ranges: each derived window has
/// the frame of a frame-to-group row and the isolation m/z, isolation width
/// and collision energy of one sub-window of that row's group.
pub proof fn lemma_quadrupole_expansion_keeps_values<T>(
    window_groups: Seq<SqlWindowGroup>,
    settings: Seq<QuadrupoleSettings<T>>,
    strategy: QuadWindowExpansionStrategy,
    n: int,
)
    requires
        groups_exist(window_groups, settings),
        0 <= n <= window_groups.len(),
    ensures
        forall|k: int|
            0 <= k < quadrupole_expansion(window_groups, settings, strategy, n).len()
                ==> keeps_values_of_some_row(
                #[trigger] quadrupole_expansion(window_groups, settings, strategy, n)[k],
                window_groups,
                settings,
                n,
            ),
    decreases n,
{
    if n > 0 {
        lemma_quadrupole_expansion_keeps_values(window_groups, settings, strategy, n - 1);
        let wg = window_groups[n - 1];
        let entries = settings[wg.window_group - 1].entries();
        lemma_group_records_keep_values(wg.frame, entries, strategy, entries.len() as int);
        let prev = quadrupole_expansion(window_groups, settings, strategy, n - 1);
        let these = group_records(wg.frame, entries, strategy, entries.len() as int);
        let all = quadrupole_expansion(window_groups, settings, strategy, n);
        assert(all == prev + these);
        assert forall|k: int| 0 <= k < all.len() implies keeps_values_of_some_row(
            #[trigger] all[k],
            window_groups,
            settings,
            n,
        ) by {
            if k < prev.len() {
                assert(all[k] == prev[k]);
            } else {
                assert(all[k] == these[k - prev.len()]);
                let i = choose|i: int|
                    0 <= i < entries.len() && #[trigger] keeps_values(
                        these[k - prev.len()],
                        wg.frame,
                        entries[i],
                    );
                assert(keeps_values(
                    all[k],
                    window_groups[n - 1].frame,
                    settings[window_groups[n - 1].window_group - 1].entries()[i],
                ));
            }
        }
    }
}

} // verus!
