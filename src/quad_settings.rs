use vstd::prelude::*;


verus! {

/// One sub-window of a window group: scan start, scan end, isolation m/z,
/// isolation width and collision energy.
pub type Entry<T> = (usize, usize, T, T, T);

/// The quadrupole settings of one window group (or of one derived window):
/// position `i` of the five sequences describes one sub-window.
///
/// The m/z, width and energy values are carried as they are and never
/// inspected, so their type is left open.
#[derive(Debug, Clone, PartialEq)]
pub struct QuadrupoleSettings<T> {
    pub index: usize,
    pub scan_starts: Vec<usize>,
    pub scan_ends: Vec<usize>,
    pub isolation_mz: Vec<T>,
    pub isolation_width: Vec<T>,
    pub collision_energy: Vec<T>,
}

/// One row of the isolation-window table of the metadata store.
/// `window_group` counts from 1.
#[derive(Debug, Clone, Copy, PartialEq)]
pub struct SqlQuadSettings<T> {
    pub window_group: usize,
    pub scan_start: usize,
    pub scan_end: usize,
    pub collision_energy: T,
    pub mz_center: T,
    pub mz_width: T,
}

/// One row of the table that ties a frame to the window group it was
/// acquired with. `window_group` counts from 1.
#[derive(Debug, Clone, Copy)]
pub struct SqlWindowGroup {
    pub frame: usize,
    pub window_group: usize,
}

impl<T> QuadrupoleSettings<T> {
    /// The five sequences have one element per sub-window.
    pub open spec fn wf(&self) -> bool {
        &&& self.scan_ends@.len() == self.scan_starts@.len()
        &&& self.isolation_mz@.len() == self.scan_starts@.len()
        &&& self.isolation_width@.len() == self.scan_starts@.len()
        &&& self.collision_energy@.len() == self.scan_starts@.len()
    }

    /// The sub-windows, one tuple each.
    pub open spec fn entries(&self) -> Seq<Entry<T>> {
        Seq::new(
            self.scan_starts@.len(),
            |i: int|
                (
                    self.scan_starts@[i],
                    self.scan_ends@[i],
                    self.isolation_mz@[i],
                    self.isolation_width@[i],
                    self.collision_energy@[i],
                ),
        )
    }

    /// Number of sub-windows.
    pub fn len(&self) -> (r: usize)
        requires
            self.wf(),
        ensures
            r == self.entries().len(),
    {
        self.scan_starts.len()
    }

    /// Settings with the given index and no sub-window.
    pub fn empty(index: usize) -> (r: Self)
        ensures
            r.wf(),
            r.index == index,
            r.entries().len() == 0,
    {
        QuadrupoleSettings {
            index,
            scan_starts: Vec::new(),
            scan_ends: Vec::new(),
            isolation_mz: Vec::new(),
            isolation_width: Vec::new(),
            collision_energy: Vec::new(),
        }
    }
}

impl<T: Copy> QuadrupoleSettings<T> {
    /// Appends one sub-window.
    pub fn push_entry(&mut self, scan_start: usize, scan_end: usize, mz: T, width: T, energy: T)
        requires
            old(self).wf(),
        ensures
            final(self).wf(),
            final(self).index == old(self).index,
            final(self).entries() == old(self).entries().push(
                (scan_start, scan_end, mz, width, energy),
            ),
    {
        self.scan_starts.push(scan_start);
        self.scan_ends.push(scan_end);
        self.isolation_mz.push(mz);
        self.isolation_width.push(width);
        self.collision_energy.push(energy);
        assert(self.entries() =~= old(self).entries().push(
            (scan_start, scan_end, mz, width, energy),
        ));
    }

    fn swap_entries(&mut self, a: usize, b: usize)
        requires
            old(self).wf(),
            a < old(self).entries().len(),
            b < old(self).entries().len(),
        ensures
            final(self).wf(),
            final(self).index == old(self).index,
            final(self).entries() == old(self).entries().update(
                a as int,
                old(self).entries()[b as int],
            ).update(b as int, old(self).entries()[a as int]),
    {
        let s_a = self.scan_starts[a];
        let s_b = self.scan_starts[b];
        self.scan_starts[a] = s_b;
        self.scan_starts[b] = s_a;
        let e_a = self.scan_ends[a];
        let e_b = self.scan_ends[b];
        self.scan_ends[a] = e_b;
        self.scan_ends[b] = e_a;
        let m_a = self.isolation_mz[a];
        let m_b = self.isolation_mz[b];
        self.isolation_mz[a] = m_b;
        self.isolation_mz[b] = m_a;
        let w_a = self.isolation_width[a];
        let w_b = self.isolation_width[b];
        self.isolation_width[a] = w_b;
        self.isolation_width[b] = w_a;
        let c_a = self.collision_energy[a];
        let c_b = self.collision_energy[b];
        self.collision_energy[a] = c_b;
        self.collision_energy[b] = c_a;
        assert(self.entries() =~= old(self).entries().update(
            a as int,
            old(self).entries()[b as int],
        ).update(b as int, old(self).entries()[a as int]));
    }
}

/// `p` lists each position below `n` exactly once.
pub open spec fn is_permutation(p: Seq<int>, n: int) -> bool {
    &&& p.len() == n
    &&& forall|i: int| 0 <= i < n ==> 0 <= #[trigger] p[i] < n
    &&& forall|i: int, j: int| 0 <= i < j < n ==> p[i] != p[j]
}

/// `new` is `old` with its elements moved as `p` says: element `i` of `new`
/// is element `p[i]` of `old`.
pub open spec fn permuted_by<A>(new: Seq<A>, old: Seq<A>, p: Seq<int>) -> bool {
    &&& new.len() == old.len()
    &&& is_permutation(p, old.len() as int)
    &&& forall|i: int| 0 <= i < new.len() ==> new[i] == old[#[trigger] p[i]]
}

/// Under `p`, sub-windows with equal scan starts keep the order they had.
pub open spec fn keeps_tie_order<T>(e: Seq<Entry<T>>, p: Seq<int>) -> bool {
    forall|a: int, b: int|
        0 <= a < b < e.len() && (#[trigger] e[a]).0 == (#[trigger] e[b]).0 ==> p[a] < p[b]
}

/// `new` is `old` sorted by scan start, sub-windows with equal scan starts
/// in the order they had in `old`.
pub open spec fn stably_sorted_from<T>(new: Seq<Entry<T>>, old: Seq<Entry<T>>) -> bool {
    &&& sorted_by_start(new)
    &&& exists|p: Seq<int>| #[trigger] permuted_by(new, old, p) && keeps_tie_order(new, p)
}

/// Sub-windows in ascending order of scan start.
pub open spec fn sorted_by_start<T>(e: Seq<Entry<T>>) -> bool {
    forall|a: int, b: int| 0 <= a < b < e.len() ==> (#[trigger] e[a]).0 <= (#[trigger] e[b]).0
}

/// Sorts the sub-windows by scan start, moving the five sequences together;
/// sub-windows with equal scan starts keep their order.
fn sort_by_scan_start<T: Copy>(q: &mut QuadrupoleSettings<T>)
    requires
        old(q).wf(),
    ensures
        final(q).wf(),
        final(q).index == old(q).index,
        stably_sorted_from(final(q).entries(), old(q).entries()),
{
    let n = q.len();
    let ghost orig = q.entries();
    let ghost mut perm = Seq::new(n as nat, |i: int| i);
    let mut i: usize = 0;
    while i < n
        invariant
            q.wf(),
            q.index == old(q).index,
            orig == old(q).entries(),
            n == orig.len(),
            i <= n,
            permuted_by(q.entries(), orig, perm),
            forall|a: int, b: int|
                0 <= a < b < i ==> (#[trigger] q.entries()[a]).0 <= (#[trigger] q.entries()[b]).0,
            forall|x: int| i <= x < n ==> #[trigger] perm[x] == x,
            forall|x: int| 0 <= x < i ==> #[trigger] perm[x] < i,
            forall|a: int, b: int|
                0 <= a < b < i && (#[trigger] q.entries()[a]).0 == (#[trigger] q.entries()[b]).0
                    ==> perm[a] < perm[b],
        decreases n - i,
    {
        let mut j: usize = i;
        while j > 0 && q.scan_starts[j - 1] > q.scan_starts[j]
            invariant
                q.wf(),
                q.index == old(q).index,
                orig == old(q).entries(),
                n == orig.len(),
                i < n,
                j <= i,
                permuted_by(q.entries(), orig, perm),
                forall|a: int, b: int|
                    0 <= a < b <= i && a != j && b != j ==> (#[trigger] q.entries()[a]).0 <= (
                    #[trigger] q.entries()[b]).0,
                forall|b: int| j < b <= i ==> q.entries()[j as int].0 < (#[trigger] q.entries()[b]).0,
                perm[j as int] == i,
                forall|x: int| i < x < n ==> #[trigger] perm[x] == x,
                forall|x: int| 0 <= x <= i && x != j ==> #[trigger] perm[x] < i,
                forall|a: int, b: int|
                    0 <= a < b <= i && a != j && b != j && (#[trigger] q.entries()[a]).0 == (
                    #[trigger] q.entries()[b]).0 ==> perm[a] < perm[b],
            decreases j,
        {
            let ghost before = q.entries();
            q.swap_entries(j - 1, j);
            proof {
                let pj = perm[j as int];
                let pj1 = perm[j - 1];
                perm = perm.update(j - 1, pj).update(j as int, pj1);
                assert(is_permutation(perm, n as int)) by {
                    assert forall|x: int, y: int| 0 <= x < y < n implies perm[x] != perm[y] by {
                        let old_perm = perm.update(j - 1, pj1).update(j as int, pj);
                        assert(old_perm.len() == n);
                    }
                }
            }
            j -= 1;
        }
        proof {
            let e = q.entries();
            assert(j == 0 || e[j - 1].0 <= e[j as int].0);
            assert forall|a: int, b: int| 0 <= a < b <= i implies (#[trigger] e[a]).0 <= (
            #[trigger] e[b]).0 by {
                if b == j && a < j - 1 {
                    assert(e[a].0 <= e[j - 1].0);
                }
            }
            assert forall|a: int, b: int| 0 <= a < b <= i && (#[trigger] e[a]).0 == (
            #[trigger] e[b]).0 implies perm[a] < perm[b] by {
                if b == j {
                    assert(perm[a] < i);
                } else if a == j {
                    assert(e[j as int].0 < e[b].0);
                }
            }
        }
        i += 1;
    }
    assert(permuted_by(q.entries(), orig, perm) && keeps_tie_order(q.entries(), perm));
}

/// The sub-window that a row of the isolation-window table describes.
pub open spec fn row_entry<T>(r: SqlQuadSettings<T>) -> Entry<T> {
    (r.scan_start, r.scan_end, r.mz_center, r.mz_width, r.collision_energy)
}

/// The sub-windows of window group `g`, in the order of the rows.
pub open spec fn group_entries<T>(rows: Seq<SqlQuadSettings<T>>, g: int) -> Seq<Entry<T>>
    decreases rows.len(),
{
    if rows.len() == 0 {
        Seq::empty()
    } else {
        let prev = group_entries(rows.drop_last(), g);
        if rows.last().window_group == g {
            prev.push(row_entry(rows.last()))
        } else {
            prev
        }
    }
}

/// The largest window group of the rows (0 when there is none).
pub open spec fn max_group<T>(rows: Seq<SqlQuadSettings<T>>) -> int
    decreases rows.len(),
{
    if rows.len() == 0 {
        0
    } else {
        let prev = max_group(rows.drop_last());
        if rows.last().window_group > prev {
            rows.last().window_group as int
        } else {
            prev
        }
    }
}

/// Some row names window group 0, which does not exist.
pub open spec fn has_group_zero<T>(rows: Seq<SqlQuadSettings<T>>) -> bool {
    exists|i: int| 0 <= i < rows.len() && (#[trigger] rows[i]).window_group == 0
}

/// The settings of window group `g + 1` at position `g`: its sub-windows are
/// those of the rows of that group, sorted by scan start, rows with equal
/// scan starts in table order.
pub open spec fn group_settings_from<T>(
    q: QuadrupoleSettings<T>,
    rows: Seq<SqlQuadSettings<T>>,
    g: int,
) -> bool {
    &&& q.wf()
    &&& q.index == g + 1
    &&& stably_sorted_from(q.entries(), group_entries(rows, g + 1))
}

/// `s` is what `from_sql_settings` builds from `rows`.
pub open spec fn settings_built<T>(s: Seq<QuadrupoleSettings<T>>, rows: Seq<SqlQuadSettings<T>>) -> bool {
    &&& s.len() == max_group(rows)
    &&& forall|g: int| 0 <= g < s.len() ==> group_settings_from(#[trigger] s[g], rows, g)
}

/// What building the window groups from `rows` gives: `NoWindowGroups`
/// where there is no row, `WindowGroupZero` where a row names group 0, and
/// the settings built otherwise.
pub open spec fn build_outcome<T>(
    r: Result<Vec<QuadrupoleSettings<T>>, QuadrupoleSettingsReaderError>,
    rows: Seq<SqlQuadSettings<T>>,
) -> bool {
    if rows.len() == 0 {
        r == Err::<Vec<QuadrupoleSettings<T>>, _>(QuadrupoleSettingsReaderError::NoWindowGroups)
    } else if has_group_zero(rows) {
        r == Err::<Vec<QuadrupoleSettings<T>>, _>(QuadrupoleSettingsReaderError::WindowGroupZero)
    } else {
        r is Ok && settings_built(r->Ok_0@, rows)
    }
}

/// Why the window groups could not be built.
#[derive(Debug, Clone, Copy, PartialEq, Eq)]
pub enum QuadrupoleSettingsReaderError {
    /// The isolation-window table holds no row.
    NoWindowGroups,
    /// A row names window group 0; groups count from 1.
    WindowGroupZero,
    /// A frame is tied to a window group that has no sub-window.
    UnknownWindowGroup,
    /// A sub-window ends before it starts, or the strategy cannot split a
    /// scan range without leaving the range of `usize`.
    InvalidScanRange,
}

/// Builds the quadrupole settings of each window group from the rows of the
/// isolation-window table.
pub struct QuadrupoleSettingsReader<T> {
    quadrupole_settings: Vec<QuadrupoleSettings<T>>,
    sql_quadrupole_settings: Vec<SqlQuadSettings<T>>,
}

proof fn lemma_max_group_bounds<T>(rows: Seq<SqlQuadSettings<T>>)
    ensures
        0 <= max_group(rows) <= usize::MAX,
        forall|i: int| 0 <= i < rows.len() ==> (#[trigger] rows[i]).window_group <= max_group(rows),
        rows.len() > 0 ==> exists|i: int|
            0 <= i < rows.len() && (#[trigger] rows[i]).window_group == max_group(rows),
    decreases rows.len(),
{
    if rows.len() > 0 {
        let prev = rows.drop_last();
        lemma_max_group_bounds(prev);
        assert forall|i: int| 0 <= i < prev.len() implies #[trigger] rows[i] == prev[i] by {}
        if prev.len() > 0 && rows.last().window_group <= max_group(prev) {
            let i = choose|i: int|
                0 <= i < prev.len() && (#[trigger] prev[i]).window_group == max_group(prev);
            assert(rows[i] == prev[i]);
        }
    }
}

impl<T: Copy> QuadrupoleSettingsReader<T> {
    /// The settings of each window group, built from the rows of the
    /// isolation-window table; see `from_sql_settings`.
    pub fn new(rows: Vec<SqlQuadSettings<T>>) -> (r: Result<
        Vec<QuadrupoleSettings<T>>,
        QuadrupoleSettingsReaderError,
    >)
        ensures
            build_outcome(r, rows@),
    {
        Self::from_sql_settings(rows)
    }

    /// The settings of each window group: one entry per group from 1 to the
    /// largest group named, at position `group - 1`, each with the
    /// sub-windows of its rows sorted by scan start.
    pub fn from_sql_settings(rows: Vec<SqlQuadSettings<T>>) -> (r: Result<
        Vec<QuadrupoleSettings<T>>,
        QuadrupoleSettingsReaderError,
    >)
        ensures
            build_outcome(r, rows@),
    {
        if rows.len() == 0 {
            return Err(QuadrupoleSettingsReaderError::NoWindowGroups);
        }
        let mut window_group_count: usize = 0;
        let mut i: usize = 0;
        while i < rows.len()
            invariant
                i <= rows@.len(),
                window_group_count == max_group(rows@.take(i as int)),
                forall|k: int| 0 <= k < i ==> (#[trigger] rows@[k]).window_group != 0,
            decreases rows@.len() - i,
        {
            assert(rows@.take(i + 1).drop_last() =~= rows@.take(i as int));
            if rows[i].window_group == 0 {
                return Err(QuadrupoleSettingsReaderError::WindowGroupZero);
            }
            if rows[i].window_group > window_group_count {
                window_group_count = rows[i].window_group;
            }
            i += 1;
        }
        assert(rows@.take(rows@.len() as int) =~= rows@);
        proof {
            lemma_max_group_bounds(rows@);
        }
        let mut quadrupole_settings: Vec<QuadrupoleSettings<T>> = Vec::new();
        let mut g: usize = 0;
        while g < window_group_count
            invariant
                g <= window_group_count,
                quadrupole_settings@.len() == g,
                forall|k: int| 0 <= k < g ==> {
                    &&& (#[trigger] quadrupole_settings@[k]).wf()
                    &&& quadrupole_settings@[k].index == k + 1
                    &&& quadrupole_settings@[k].entries().len() == 0
                },
            decreases window_group_count - g,
        {
            quadrupole_settings.push(QuadrupoleSettings::empty(g + 1));
            g += 1;
        }
        let mut quad_reader = QuadrupoleSettingsReader {
            quadrupole_settings,
            sql_quadrupole_settings: rows,
        };
        quad_reader.update_from_sql_quadrupole_settings();
        assert forall|g: int| 0 <= g < window_group_count implies (
        #[trigger] quad_reader.quadrupole_settings@[g]).entries() =~= group_entries(
            quad_reader.sql_quadrupole_settings@,
            g + 1,
        ) by {
            assert(quad_reader.quadrupole_settings@[g].entries() == Seq::<Entry<T>>::empty()
                + group_entries(quad_reader.sql_quadrupole_settings@, g + 1));
        }
        quad_reader.resort_groups();
        Ok(quad_reader.quadrupole_settings)
    }

    fn update_from_sql_quadrupole_settings(&mut self)
        requires
            forall|g: int|
                0 <= g < old(self).quadrupole_settings@.len() ==> (#[trigger] old(
                    self,
                ).quadrupole_settings@[g]).wf(),
            forall|k: int| 0 <= k < old(self).sql_quadrupole_settings@.len() ==> 1 <= (
            #[trigger] old(self).sql_quadrupole_settings@[k]).window_group
                <= old(self).quadrupole_settings@.len(),
        ensures
            final(self).sql_quadrupole_settings@ == old(self).sql_quadrupole_settings@,
            final(self).quadrupole_settings@.len() == old(self).quadrupole_settings@.len(),
            forall|g: int| 0 <= g < final(self).quadrupole_settings@.len() ==> {
                &&& (#[trigger] final(self).quadrupole_settings@[g]).wf()
                &&& final(self).quadrupole_settings@[g].index == old(
                    self,
                ).quadrupole_settings@[g].index
                &&& final(self).quadrupole_settings@[g].entries() == old(
                    self,
                ).quadrupole_settings@[g].entries() + group_entries(
                    final(self).sql_quadrupole_settings@,
                    g + 1,
                )
            },
    {
        let ghost rows = self.sql_quadrupole_settings@;
        let ghost count = self.quadrupole_settings@.len();
        let ghost start = self.quadrupole_settings@;
        assert forall|g: int| 0 <= g < count implies (#[trigger] start[g]).entries()
            =~= start[g].entries() + group_entries(rows.take(0), g + 1) by {}
        let mut i: usize = 0;
        while i < self.sql_quadrupole_settings.len()
            invariant
                self.sql_quadrupole_settings@ == rows,
                self.quadrupole_settings@.len() == count,
                i <= rows.len(),
                forall|k: int| 0 <= k < rows.len() ==> 1 <= (#[trigger] rows[k]).window_group <= count,
                forall|g: int| 0 <= g < count ==> {
                    &&& (#[trigger] self.quadrupole_settings@[g]).wf()
                    &&& self.quadrupole_settings@[g].index == start[g].index
                    &&& self.quadrupole_settings@[g].entries() == start[g].entries()
                        + group_entries(rows.take(i as int), g + 1)
                },
            decreases rows.len() - i,
        {
            let ghost before = self.quadrupole_settings@;
            let row = &self.sql_quadrupole_settings[i];
            let group = row.window_group - 1;
            let scan_start = row.scan_start;
            let scan_end = row.scan_end;
            let mz = row.mz_center;
            let width = row.mz_width;
            let energy = row.collision_energy;
            let mut quad = self.quadrupole_settings.remove(group);
            quad.push_entry(scan_start, scan_end, mz, width, energy);
            self.quadrupole_settings.insert(group, quad);
            proof {
                assert(rows.take(i + 1).drop_last() =~= rows.take(i as int));
                assert(rows.take(i + 1).last() == rows[i as int]);
                assert(self.quadrupole_settings@ =~= before.update(group as int, quad));
                let g = group as int;
                assert(start[g].entries() + group_entries(rows.take(i + 1), g + 1) =~= (
                start[g].entries() + group_entries(rows.take(i as int), g + 1)).push(
                    row_entry(rows[i as int]),
                ));
            }
            i += 1;
        }
        assert(rows.take(rows.len() as int) =~= rows);
    }

    fn resort_groups(&mut self)
        requires
            forall|g: int|
                0 <= g < old(self).quadrupole_settings@.len() ==> (#[trigger] old(
                    self,
                ).quadrupole_settings@[g]).wf(),
        ensures
            final(self).sql_quadrupole_settings@ == old(self).sql_quadrupole_settings@,
            final(self).quadrupole_settings@.len() == old(self).quadrupole_settings@.len(),
            forall|g: int| 0 <= g < final(self).quadrupole_settings@.len() ==> {
                let q = #[trigger] final(self).quadrupole_settings@[g];
                &&& q.wf()
                &&& q.index == old(self).quadrupole_settings@[g].index
                &&& stably_sorted_from(q.entries(), old(self).quadrupole_settings@[g].entries())
            },
    {
        let ghost orig = self.quadrupole_settings@;
        let mut g: usize = 0;
        while g < self.quadrupole_settings.len()
            invariant
                self.sql_quadrupole_settings@ == old(self).sql_quadrupole_settings@,
                orig == old(self).quadrupole_settings@,
                self.quadrupole_settings@.len() == orig.len(),
                g <= orig.len(),
                forall|k: int| g <= k < orig.len() ==> #[trigger] self.quadrupole_settings@[k] == orig[k],
                forall|k: int| 0 <= k < orig.len() ==> (#[trigger] orig[k]).wf(),
                forall|k: int| 0 <= k < g ==> {
                    let q = #[trigger] self.quadrupole_settings@[k];
                    &&& q.wf()
                    &&& q.index == orig[k].index
                    &&& stably_sorted_from(q.entries(), orig[k].entries())
                },
            decreases orig.len() - g,
        {
            let ghost before = self.quadrupole_settings@;
            let mut quad = self.quadrupole_settings.remove(g);
            sort_by_scan_start(&mut quad);
            self.quadrupole_settings.insert(g, quad);
            assert(self.quadrupole_settings@ =~= before.update(g as int, quad));
            g += 1;
        }
    }
}

/// Every window group built from the rows has its five sequences of one
/// length.
pub proof fn lemma_built_groups_have_equal_lengths<T>(
    s: Seq<QuadrupoleSettings<T>>,
    rows: Seq<SqlQuadSettings<T>>,
)
    requires
        settings_built(s, rows),
    ensures
        forall|g: int|
            0 <= g < s.len() ==> {
                let q = #[trigger] s[g];
                &&& q.scan_ends@.len() == q.scan_starts@.len()
                &&& q.isolation_mz@.len() == q.scan_starts@.len()
                &&& q.isolation_width@.len() == q.scan_starts@.len()
                &&& q.collision_energy@.len() == q.scan_starts@.len()
            },
{
    assert forall|g: int| 0 <= g < s.len() implies (#[trigger] s[g]).wf() by {
        assert(group_settings_from(s[g], rows, g));
    }
}

/// The five sequences of `q` are the sub-windows `src` moved as `p` says,
/// the same move for each sequence, sub-windows with equal scan starts
/// keeping their order.
pub open spec fn columns_reordered<T>(q: QuadrupoleSettings<T>, src: Seq<Entry<T>>, p: Seq<int>) -> bool {
    &&& is_permutation(p, src.len() as int)
    &&& q.scan_starts@.len() == src.len()
    &&& forall|i: int|
        0 <= i < src.len() ==> {
            &&& q.scan_starts@[i] == src[#[trigger] p[i]].0
            &&& q.scan_ends@[i] == src[p[i]].1
            &&& q.isolation_mz@[i] == src[p[i]].2
            &&& q.isolation_width@[i] == src[p[i]].3
            &&& q.collision_energy@[i] == src[p[i]].4
        }
    &&& forall|a: int, b: int|
        0 <= a < b < src.len() && q.scan_starts@[a] == q.scan_starts@[b] ==> #[trigger] p[a]
            < #[trigger] p[b]
}

/// The five sequences of `q` are the sub-windows `src` under one reordering.
pub open spec fn reordered_rows_of<T>(q: QuadrupoleSettings<T>, src: Seq<Entry<T>>) -> bool {
    exists|p: Seq<int>| #[trigger] columns_reordered(q, src, p)
}

/// Every window group built from the rows lists its sub-windows by
/// ascending scan start, and its five sequences are the group's rows under
/// one and the same reordering, which keeps rows with equal scan starts in
/// table order.
pub proof fn lemma_built_groups_sorted_together<T>(
    s: Seq<QuadrupoleSettings<T>>,
    rows: Seq<SqlQuadSettings<T>>,
)
    requires
        settings_built(s, rows),
    ensures
        forall|g: int|
            0 <= g < s.len() ==> forall|a: int, b: int|
                0 <= a < b < (#[trigger] s[g]).scan_starts@.len() ==> s[g].scan_starts@[a]
                    <= s[g].scan_starts@[b],
        forall|g: int|
            0 <= g < s.len() ==> reordered_rows_of(#[trigger] s[g], group_entries(rows, g + 1)),
{
    assert forall|g: int| 0 <= g < s.len() implies forall|a: int, b: int|
        0 <= a < b < (#[trigger] s[g]).scan_starts@.len() ==> s[g].scan_starts@[a]
            <= s[g].scan_starts@[b] by {
        assert(group_settings_from(s[g], rows, g));
        assert forall|a: int, b: int| 0 <= a < b < s[g].scan_starts@.len() implies s[g].scan_starts@[a]
            <= s[g].scan_starts@[b] by {
            assert(s[g].entries()[a].0 <= s[g].entries()[b].0);
        }
    }
    assert forall|g: int| 0 <= g < s.len() implies reordered_rows_of(
        #[trigger] s[g],
        group_entries(rows, g + 1),
    ) by {
        assert(group_settings_from(s[g], rows, g));
        let src = group_entries(rows, g + 1);
        let p = choose|p: Seq<int>|
            #[trigger] permuted_by(s[g].entries(), src, p) && keeps_tie_order(s[g].entries(), p);
        assert forall|a: int, b: int|
            0 <= a < b < src.len() && s[g].scan_starts@[a] == s[g].scan_starts@[b] implies #[trigger] p[a]
                < #[trigger] p[b] by {
            assert(s[g].entries()[a].0 == s[g].entries()[b].0);
        }
        assert forall|i: int| 0 <= i < src.len() implies {
            &&& s[g].scan_starts@[i] == src[#[trigger] p[i]].0
            &&& s[g].scan_ends@[i] == src[p[i]].1
            &&& s[g].isolation_mz@[i] == src[p[i]].2
            &&& s[g].isolation_width@[i] == src[p[i]].3
            &&& s[g].collision_energy@[i] == src[p[i]].4
        } by {
            assert(s[g].entries()[i] == src[p[i]]);
        }
        assert(columns_reordered(s[g], src, p));
    }
}


} // verus!
