//! The integer side of progressive previews: grid sizes per subdivision level,
//! reuse of the samples of the previous level, and when to start a new preview.

use vstd::prelude::*;

verus! {

/// The coarsest subdivision level a preview starts with.
pub const MIN_SUBDIVISIONS: u8 = 3;

/// The finest subdivision level a preview can be refined to.
pub const MAX_SUBDIVISIONS: u8 = 12;

/// The least time between the starts of two preview computations, in nanoseconds.
pub const PREVIEW_TIME_BETWEEN_NANOS: u128 = 100_000_000;

/// `2` to the power `n`.
pub open spec fn two_pow(n: nat) -> nat
    decreases n,
{
    if n == 0 {
        1
    } else {
        2 * two_pow((n - 1) as nat)
    }
}

/// The number of vertices in a row (and in a column) of a grid with `s` subdivisions.
pub open spec fn row_vertices(s: nat) -> nat {
    two_pow(s) + 1
}

/// The number of vertices of a grid with `s` subdivisions.
pub open spec fn grid_vertices(s: nat) -> nat {
    row_vertices(s) * row_vertices(s)
}

proof fn lemma_two_pow_positive(n: nat)
    ensures
        two_pow(n) >= 1,
    decreases n,
{
    if n > 0 {
        lemma_two_pow_positive((n - 1) as nat);
    }
}

proof fn lemma_two_pow_monotone(a: nat, b: nat)
    requires
        a <= b,
    ensures
        1 <= two_pow(a) <= two_pow(b),
    decreases b,
{
    lemma_two_pow_positive(a);
    if a < b {
        lemma_two_pow_monotone(a, (b - 1) as nat);
    }
}

proof fn lemma_two_pow_strict(a: nat, b: nat)
    requires
        a < b,
    ensures
        two_pow(a) < two_pow(b),
    decreases b,
{
    if a < b - 1 {
        lemma_two_pow_strict(a, (b - 1) as nat);
    }
    lemma_two_pow_monotone(0, (b - 1) as nat);
}

proof fn lemma_two_pow_max()
    ensures
        two_pow(12) == 4096,
{
    reveal_with_fuel(two_pow, 13);
}

/// Finer grids have strictly more vertices, so a vertex count determines its
/// subdivision level.
pub proof fn lemma_grid_vertices_strictly_increasing(a: nat, b: nat)
    requires
        a < b,
    ensures
        row_vertices(a) < row_vertices(b),
        grid_vertices(a) < grid_vertices(b),
{
    lemma_two_pow_strict(a, b);
    let ra = row_vertices(a);
    let rb = row_vertices(b);
    assert(ra * ra < rb * rb) by (nonlinear_arith)
        requires
            1 <= ra < rb,
    ;
}

/// Each row of a grid has one vertex less than twice the row of the level below.
pub proof fn lemma_row_vertices_doubling(s: nat)
    requires
        s >= 1,
    ensures
        row_vertices(s) == 2 * row_vertices((s - 1) as nat) - 1,
{
}

/// The number of vertices in a row of a grid with `subdivisions` subdivisions.
pub fn row_vertex_count(subdivisions: u8) -> (r: u32)
    requires
        subdivisions <= MAX_SUBDIVISIONS,
    ensures
        r == row_vertices(subdivisions as nat),
        r <= 4097,
{
    let mut p: u32 = 1;
    let mut i: u8 = 0;
    while i < subdivisions
        invariant
            i <= subdivisions <= 12,
            p == two_pow(i as nat),
        decreases subdivisions - i,
    {
        proof {
            lemma_two_pow_monotone(i as nat, 11);
            reveal_with_fuel(two_pow, 12);
        }
        p = p * 2;
        i = i + 1;
    }
    proof {
        lemma_two_pow_monotone(subdivisions as nat, 12);
        lemma_two_pow_max();
    }
    p + 1
}

/// The number of vertices of a grid with `subdivisions` subdivisions.
pub fn vertex_count(subdivisions: u8) -> (r: u32)
    requires
        subdivisions <= MAX_SUBDIVISIONS,
    ensures
        r == grid_vertices(subdivisions as nat),
{
    let k = row_vertex_count(subdivisions);
    assert(k * k <= 4097 * 4097) by (nonlinear_arith)
        requires
            k <= 4097,
    ;
    k * k
}

/// The subdivision level of a grid with `count` vertices, if it is one of the
/// levels `0..=MAX_SUBDIVISIONS`.
pub fn subdivisions_for_vertex_count(count: u32) -> (r: Option<u8>)
    ensures
        match r {
            Some(s) => s <= MAX_SUBDIVISIONS && grid_vertices(s as nat) == count,
            None => forall|s: nat| s <= MAX_SUBDIVISIONS ==> grid_vertices(s) != count,
        },
{
    let mut s: u8 = 0;
    while s <= MAX_SUBDIVISIONS
        invariant
            s <= MAX_SUBDIVISIONS + 1,
            forall|t: nat| t < s ==> grid_vertices(t) != count,
        decreases MAX_SUBDIVISIONS + 1 - s,
    {
        if vertex_count(s) == count {
            return Some(s);
        }
        s = s + 1;
    }
    None
}

/// The subdivision levels a preview computation goes through, coarsest first,
/// for a region with `target` subdivisions: `MIN_SUBDIVISIONS` up to `target`
/// (none when `target` is below the minimum).
pub fn preview_levels(target: u8) -> (r: Vec<u8>)
    requires
        target <= MAX_SUBDIVISIONS,
    ensures
        r.len() == if target >= MIN_SUBDIVISIONS {
            target - MIN_SUBDIVISIONS + 1
        } else {
            0
        },
        forall|i: int| 0 <= i < r.len() ==> r[i] == MIN_SUBDIVISIONS + i,
{
    let mut r: Vec<u8> = Vec::new();
    let mut s: u8 = MIN_SUBDIVISIONS;
    while s <= target
        invariant
            target <= MAX_SUBDIVISIONS,
            MIN_SUBDIVISIONS <= s,
            s <= target + 1 || s == MIN_SUBDIVISIONS,
            r.len() == s - MIN_SUBDIVISIONS,
            forall|i: int| 0 <= i < r.len() ==> r[i] == MIN_SUBDIVISIONS + i,
        decreases MAX_SUBDIVISIONS + 1 - s,
    {
        r.push(s);
        s = s + 1;
    }
    r
}

/// The sample of the previous, coarser preview that the grid point `(x, y)` of a
/// preview with `subdivisions` subdivisions can take over: points with both
/// coordinates even lie on the coarser grid.
pub open spec fn reused_index(subdivisions: nat, x: int, y: int) -> Option<int> {
    if x % 2 == 0 && y % 2 == 0 {
        Some((y / 2) * row_vertices((subdivisions - 1) as nat) + x / 2)
    } else {
        None
    }
}

/// The index, in the previous preview's samples, of the sample that the grid
/// point `(x, y)` takes over, or `None` when it has to be computed.
pub fn reused_sample_index(subdivisions: u8, x: u32, y: u32) -> (r: Option<usize>)
    requires
        MIN_SUBDIVISIONS <= subdivisions <= MAX_SUBDIVISIONS,
        x < row_vertices(subdivisions as nat),
        y < row_vertices(subdivisions as nat),
    ensures
        match r {
            Some(i) => reused_index(subdivisions as nat, x as int, y as int) == Some(i as int),
            None => reused_index(subdivisions as nat, x as int, y as int) is None,
        },
{
    if x % 2 == 0 && y % 2 == 0 {
        let kp = row_vertex_count(subdivisions - 1);
        proof {
            lemma_row_vertices_doubling(subdivisions as nat);
            lemma_reused_index_in_range(subdivisions as nat, x as int, y as int);
        }
        let yy = (y / 2) as usize;
        let xx = (x / 2) as usize;
        let kpu = kp as usize;
        assert(yy * kpu + xx < kpu * kpu <= 4097 * 4097) by (nonlinear_arith)
            requires
                yy < kpu,
                xx < kpu,
                kpu <= 4097,
        ;
        Some(yy * kpu + xx)
    } else {
        None
    }
}

/// A reused sample index always points into the previous preview's samples.
pub proof fn lemma_reused_index_in_range(s: nat, x: int, y: int)
    requires
        s >= 1,
        0 <= x < row_vertices(s),
        0 <= y < row_vertices(s),
    ensures
        match reused_index(s, x, y) {
            Some(i) => 0 <= i < grid_vertices((s - 1) as nat),
            None => true,
        },
        x % 2 == 0 ==> x / 2 < row_vertices((s - 1) as nat),
        y % 2 == 0 ==> y / 2 < row_vertices((s - 1) as nat),
{
    lemma_row_vertices_doubling(s);
    let kp = row_vertices((s - 1) as nat);
    if x % 2 == 0 && y % 2 == 0 {
        let a = y / 2;
        let b = x / 2;
        assert(0 <= a * kp + b < kp * kp) by (nonlinear_arith)
            requires
                0 <= a < kp,
                0 <= b < kp,
        ;
    }
}

/// Two different grid points never take over the same sample.
pub proof fn lemma_reused_index_injective(s: nat, x1: int, y1: int, x2: int, y2: int)
    requires
        s >= 1,
        0 <= x1 < row_vertices(s),
        0 <= y1 < row_vertices(s),
        0 <= x2 < row_vertices(s),
        0 <= y2 < row_vertices(s),
        reused_index(s, x1, y1) is Some,
        reused_index(s, x1, y1) == reused_index(s, x2, y2),
    ensures
        x1 == x2,
        y1 == y2,
{
    lemma_reused_index_in_range(s, x1, y1);
    lemma_reused_index_in_range(s, x2, y2);
    let kp = row_vertices((s - 1) as nat);
    let a1 = y1 / 2;
    let b1 = x1 / 2;
    let a2 = y2 / 2;
    let b2 = x2 / 2;
    assert(a1 == a2 && b1 == b2) by (nonlinear_arith)
        requires
            0 <= b1 < kp,
            0 <= b2 < kp,
            0 <= a1,
            0 <= a2,
            a1 * kp + b1 == a2 * kp + b2,
    ;
}

/// Every sample of the previous preview is taken over by some grid point.
pub proof fn lemma_reused_index_covers_previous(s: nat, i: int)
    requires
        s >= 1,
        0 <= i < grid_vertices((s - 1) as nat),
    ensures
        ({
            let kp = row_vertices((s - 1) as nat) as int;
            let x = 2 * (i % kp);
            let y = 2 * (i / kp);
            &&& 0 <= x < row_vertices(s)
            &&& 0 <= y < row_vertices(s)
            &&& reused_index(s, x, y) == Some(i)
        }),
{
    lemma_row_vertices_doubling(s);
    let kp = row_vertices((s - 1) as nat) as int;
    assert(kp >= 2) by {
        lemma_two_pow_monotone(0, (s - 1) as nat);
    }
    let q = i / kp;
    let m = i % kp;
    assert(0 <= m < kp && 0 <= q < kp && q * kp + m == i) by (nonlinear_arith)
        requires
            kp >= 2,
            0 <= i < kp * kp,
            q == i / kp,
            m == i % kp,
    ;
    assert((2 * m) % 2 == 0 && (2 * m) / 2 == m);
    assert((2 * q) % 2 == 0 && (2 * q) / 2 == q);
}

/// The times that decide when a new preview computation starts, in nanoseconds
/// since the application started.
#[derive(Clone, Copy, Debug, PartialEq, Eq, Structural)]
pub struct PreviewSchedule {
    pub last_project_changed: u128,
    pub last_preview_initiated: u128,
    pub last_preview_updated: Option<u128>,
}

impl PreviewSchedule {
    /// Whether the project changed after the last preview was shown.
    pub open spec fn project_has_changed(self) -> bool {
        match self.last_preview_updated {
            Some(updated) => updated < self.last_project_changed,
            None => true,
        }
    }

    /// Whether enough time passed since the last start.
    pub open spec fn ready_to_trigger(self, now: u128) -> bool {
        now - self.last_preview_initiated > PREVIEW_TIME_BETWEEN_NANOS
    }

    /// The schedule after a frame at `now`, with `project_changed` telling whether
    /// the project or the preview region changed during the frame.
    pub open spec fn after_tick(self, now: u128, project_changed: bool) -> PreviewSchedule {
        let changed = if project_changed {
            PreviewSchedule { last_project_changed: now, ..self }
        } else {
            self
        };
        if changed.project_has_changed() && changed.ready_to_trigger(now) {
            PreviewSchedule { last_preview_initiated: now, ..changed }
        } else {
            changed
        }
    }

    /// Whether the frame at `now` starts a new preview computation.
    pub open spec fn starts(self, now: u128, project_changed: bool) -> bool {
        let changed = if project_changed {
            PreviewSchedule { last_project_changed: now, ..self }
        } else {
            self
        };
        changed.project_has_changed() && changed.ready_to_trigger(now)
    }

    /// Nothing changed, nothing computed, nothing started yet.
    pub fn new() -> (r: Self)
        ensures
            r == (PreviewSchedule {
                last_project_changed: 0,
                last_preview_initiated: 0,
                last_preview_updated: None,
            }),
    {
        PreviewSchedule { last_project_changed: 0, last_preview_initiated: 0, last_preview_updated: None }
    }

    /// Note the frame at `now`: record a change of the project when there was one,
    /// and tell whether a new preview computation should start now.  A computation
    /// starts when the project changed since the last preview was shown (or none
    /// was shown yet) and more than `PREVIEW_TIME_BETWEEN_NANOS` passed since the
    /// last start.
    pub fn tick(&mut self, now: u128, project_changed: bool) -> (start: bool)
        requires
            old(self).last_preview_initiated <= now,
        ensures
            start == old(self).starts(now, project_changed),
            *final(self) == old(self).after_tick(now, project_changed),
    {
        if project_changed {
            self.last_project_changed = now;
        }
        let project_has_changed = match self.last_preview_updated {
            Some(updated) => updated < self.last_project_changed,
            None => true,
        };
        let ready_to_trigger = now - self.last_preview_initiated > PREVIEW_TIME_BETWEEN_NANOS;
        if project_has_changed && ready_to_trigger {
            self.last_preview_initiated = now;
            true
        } else {
            false
        }
    }

    /// Note that a preview result was shown at `now`.
    pub fn record_result(&mut self, now: u128)
        ensures
            *final(self) == (PreviewSchedule { last_preview_updated: Some(now), ..*old(self) }),
    {
        self.last_preview_updated = Some(now);
    }
}

/// Two preview computations never start less than `PREVIEW_TIME_BETWEEN_NANOS`
/// apart: right after a start, no frame within that time starts another one.
pub proof fn lemma_starts_are_spaced(
    s: PreviewSchedule,
    now: u128,
    changed: bool,
    later: u128,
    changed_later: bool,
)
    requires
        s.last_preview_initiated <= now <= later,
        s.starts(now, changed),
        later - now <= PREVIEW_TIME_BETWEEN_NANOS,
    ensures
        !s.after_tick(now, changed).starts(later, changed_later),
{
}

/// Once a preview was shown after the last change, no computation starts until the
/// project changes again.
pub proof fn lemma_no_start_without_change(s: PreviewSchedule, now: u128)
    requires
        s.last_preview_updated matches Some(updated) && updated >= s.last_project_changed,
    ensures
        !s.starts(now, false),
        s.after_tick(now, false) == s,
{
}

/// A change of the project starts a computation as soon as enough time passed
/// since the last start, unless a preview was already shown at that very moment.
pub proof fn lemma_change_starts_when_ready(s: PreviewSchedule, now: u128)
    requires
        s.last_preview_initiated <= now,
        now - s.last_preview_initiated > PREVIEW_TIME_BETWEEN_NANOS,
        s.last_preview_updated matches Some(updated) ==> updated < now,
    ensures
        s.starts(now, true),
{
}

/// Why the receiver of a running computation could not be read.
#[derive(Clone, Copy, Debug, PartialEq, Eq, Structural)]
pub enum ReceiverLockError {
    WouldBlock,
    Poisoned,
}

/// What polling a running preview computation gives.
#[derive(Debug, PartialEq, Eq)]
pub enum ComputePreviewResult<G> {
    /// Given after the last result was read and the computation ended.
    Finished,
    /// The computation runs and no result is waiting.
    Computing,
    /// A result for the preview entity `target`.
    Result(u64, G),
}

/// Classify a poll of a running computation for the preview entity `target`:
/// `received` is the newest result waiting in the receiver (or why the receiver
/// could not be read) and `task_finished` whether the computation ended.
pub fn poll_result<G>(
    target: u64,
    received: Result<Option<G>, ReceiverLockError>,
    task_finished: bool,
) -> (r: ComputePreviewResult<G>)
    ensures
        match received {
            Ok(Some(g)) => r == ComputePreviewResult::Result(target, g),
            Ok(None) => if task_finished {
                r is Finished
            } else {
                r is Computing
            },
            Err(_) => r is Computing,
        },
{
    match received {
        Ok(Some(grid)) => ComputePreviewResult::Result(target, grid),
        Err(_) => ComputePreviewResult::Computing,
        Ok(None) => {
            if task_finished {
                ComputePreviewResult::Finished
            } else {
                ComputePreviewResult::Computing
            }
        },
    }
}

} // verus!
