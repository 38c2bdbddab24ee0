//! The deadlock detector: a ledger of what every thread holds and asks for,
//! and the Banker's safety check that is run on it before a thread may block
//! on a resource.

use vstd::prelude::*;

verus! {

/// One pass of the safety simulation over the threads `i..`: every thread
/// that has not finished and asks for no more than `work` finishes and hands
/// back what it holds.
pub open spec fn scan_from(
    work: int,
    finish: Seq<bool>,
    alloc: Seq<int>,
    need: Seq<int>,
    i: int,
) -> (int, Seq<bool>)
    decreases finish.len() - i,
{
    if i < 0 || i >= finish.len() {
        (work, finish)
    } else if !finish[i] && need[i] <= work {
        scan_from(work + alloc[i], finish.update(i, true), alloc, need, i + 1)
    } else {
        scan_from(work, finish, alloc, need, i + 1)
    }
}

/// Number of threads that have not finished.
pub open spec fn unfinished(finish: Seq<bool>) -> nat
    decreases finish.len(),
{
    if finish.len() == 0 {
        0
    } else {
        unfinished(finish.drop_last()) + if finish.last() {
            0nat
        } else {
            1nat
        }
    }
}

/// The safety simulation: passes over all threads are repeated for as long
/// as a pass lets another thread finish.
pub open spec fn simulate(work: int, finish: Seq<bool>, alloc: Seq<int>, need: Seq<int>) -> Seq<
    bool,
>
    decreases unfinished(finish),
{
    let (w, f) = scan_from(work, finish, alloc, need, 0);
    if unfinished(f) < unfinished(finish) {
        simulate(w, f, alloc, need)
    } else {
        f
    }
}

/// Before the simulation a thread counts as finished if it holds nothing.
pub open spec fn initial_finish(alloc: Seq<int>) -> Seq<bool> {
    Seq::new(alloc.len(), |t: int| alloc[t] == 0)
}

/// Every thread has finished.
pub open spec fn all_finished(finish: Seq<bool>) -> bool {
    forall|t: int| 0 <= t < finish.len() ==> finish[t]
}

/// Whether the simulation, started with `available` free units, ends with
/// every thread finished.
pub open spec fn safe_state(available: int, alloc: Seq<int>, need: Seq<int>) -> bool {
    all_finished(simulate(available, initial_finish(alloc), alloc, need))
}

/// The sum of a column.
pub open spec fn col_sum(col: Seq<int>) -> int
    decreases col.len(),
{
    if col.len() == 0 {
        0
    } else {
        col_sum(col.drop_last()) + col.last()
    }
}

/// The ledger as plain sequences: `allocation[t][r]` and `need[t][r]` for
/// thread `t` and resource `r`.
#[verifier::ext_equal]
pub struct LedgerView {
    /// Free units of each resource.
    pub available: Seq<usize>,
    /// Units of each resource that each thread holds.
    pub allocation: Seq<Seq<usize>>,
    /// Units of each resource that each thread waits for.
    pub need: Seq<Seq<usize>>,
    /// Whether the detector watches each resource.
    pub watched: Seq<bool>,
}

impl LedgerView {
    /// Number of threads.
    pub open spec fn threads(self) -> int {
        self.allocation.len() as int
    }

    /// Number of resources.
    pub open spec fn resources(self) -> int {
        self.available.len() as int
    }

    /// What each thread holds of resource `r`.
    pub open spec fn alloc_col(self, r: int) -> Seq<int> {
        Seq::new(self.allocation.len(), |t: int| self.allocation[t][r] as int)
    }

    /// What each thread waits for of resource `r`.
    pub open spec fn need_col(self, r: int) -> Seq<int> {
        Seq::new(self.need.len(), |t: int| self.need[t][r] as int)
    }

    /// All units of resource `r`, free or held.
    pub open spec fn column_total(self, r: int) -> int {
        self.available[r] + col_sum(self.alloc_col(r))
    }

    /// Every thread has an entry for every resource, and the units of a
    /// resource can be counted.
    pub open spec fn wf(self) -> bool {
        &&& self.need.len() == self.allocation.len()
        &&& self.watched.len() == self.available.len()
        &&& forall|t: int|
            0 <= t < self.allocation.len() ==> (#[trigger] self.allocation[t]).len()
                == self.available.len()
        &&& forall|t: int|
            0 <= t < self.need.len() ==> (#[trigger] self.need[t]).len() == self.available.len()
        &&& forall|r: int|
            0 <= r < self.available.len() ==> #[trigger] self.column_total(r) <= usize::MAX
    }

    /// Whether thread `t` may wait for one more unit of resource `r`: the
    /// state with that request recorded is safe.
    pub open spec fn safe_request(self, t: int, r: int) -> bool {
        safe_state(
            self.available[r] as int,
            self.alloc_col(r),
            self.need_col(r).update(t, self.need[t][r] + 1),
        )
    }

    /// The ledger after thread `t` asked for one more unit of resource `r`.
    /// A refused request leaves no trace. A granted one is booked as held if
    /// a unit is free, and as waited for if none is.
    pub open spec fn after_request(self, t: int, r: int) -> LedgerView {
        if !self.safe_request(t, r) {
            self
        } else if self.available[r] > 0 {
            LedgerView {
                available: self.available.update(r, (self.available[r] - 1) as usize),
                allocation: self.allocation.update(
                    t,
                    self.allocation[t].update(r, (self.allocation[t][r] + 1) as usize),
                ),
                ..self
            }
        } else {
            LedgerView {
                need: self.need.update(t, self.need[t].update(r, (self.need[t][r] + 1) as usize)),
                ..self
            }
        }
    }

    /// Whether the unit that thread `t` gives up goes to waiting thread `w`.
    pub open spec fn hands_over(self, r: int, woken: Option<usize>) -> bool {
        woken is Some && woken->0 < self.threads() && self.need[woken->0 as int][r] > 0
    }

    /// The ledger after thread `t` gave up one unit of resource `r`, while
    /// the primitive woke `woken`. A thread that holds nothing on the ledger
    /// changes nothing. The unit goes to the woken thread if that one waits
    /// for it on the ledger, and becomes free otherwise.
    pub open spec fn after_release(self, t: int, r: int, woken: Option<usize>) -> LedgerView {
        if self.allocation[t][r] == 0 {
            self
        } else {
            let held = self.allocation.update(
                t,
                self.allocation[t].update(r, (self.allocation[t][r] - 1) as usize),
            );
            if self.hands_over(r, woken) {
                let w = woken->0 as int;
                LedgerView {
                    allocation: held.update(w, held[w].update(r, (held[w][r] + 1) as usize)),
                    need: self.need.update(w, self.need[w].update(r,
                        (self.need[w][r] - 1) as usize)),
                    ..self
                }
            } else {
                LedgerView {
                    available: self.available.update(r, (self.available[r] + 1) as usize),
                    allocation: held,
                    ..self
                }
            }
        }
    }

    /// The ledger with one more thread, which holds and waits for nothing.
    pub open spec fn with_thread(self) -> LedgerView {
        LedgerView {
            allocation: self.allocation.push(Seq::new(self.available.len(), |r: int| 0usize)),
            need: self.need.push(Seq::new(self.available.len(), |r: int| 0usize)),
            ..self
        }
    }

    /// The ledger with resource `r` started afresh with `units` free units:
    /// a new last column if `r` is the number of resources, a column
    /// overwritten if it is less.
    pub open spec fn with_resource(self, r: int, units: usize, watched: bool) -> LedgerView {
        if r == self.resources() {
            LedgerView {
                available: self.available.push(units),
                allocation: Seq::new(self.allocation.len(), |t: int| self.allocation[t].push(0)),
                need: Seq::new(self.need.len(), |t: int| self.need[t].push(0)),
                watched: self.watched.push(watched),
            }
        } else {
            LedgerView {
                available: self.available.update(r, units),
                allocation: Seq::new(
                    self.allocation.len(),
                    |t: int| self.allocation[t].update(r, 0),
                ),
                need: Seq::new(self.need.len(), |t: int| self.need[t].update(r, 0)),
                watched: self.watched.update(r, watched),
            }
        }
    }
}

/// Letting a thread finish lowers the number of unfinished threads by one.
pub proof fn lemma_unfinished_update(finish: Seq<bool>, i: int)
    requires
        0 <= i < finish.len(),
        !finish[i],
    ensures
        unfinished(finish.update(i, true)) == unfinished(finish) - 1,
    decreases finish.len(),
{
    let g = finish.update(i, true);
    if i == finish.len() - 1 {
        assert(g.drop_last() =~= finish.drop_last());
    } else {
        lemma_unfinished_update(finish.drop_last(), i);
        assert(g.drop_last() =~= finish.drop_last().update(i, true));
    }
}

/// Changing one entry of a column changes its sum by the difference.
pub proof fn lemma_col_sum_update(col: Seq<int>, i: int, v: int)
    requires
        0 <= i < col.len(),
    ensures
        col_sum(col.update(i, v)) == col_sum(col) - col[i] + v,
    decreases col.len(),
{
    let c = col.update(i, v);
    if i == col.len() - 1 {
        assert(c.drop_last() =~= col.drop_last());
    } else {
        lemma_col_sum_update(col.drop_last(), i, v);
        assert(c.drop_last() =~= col.drop_last().update(i, v));
    }
}

/// No entry of a column without negative entries exceeds the sum.
pub proof fn lemma_col_sum_bounds(col: Seq<int>, i: int)
    requires
        0 <= i < col.len(),
        forall|j: int| 0 <= j < col.len() ==> col[j] >= 0,
    ensures
        0 <= col[i] <= col_sum(col),
    decreases col.len(),
{
    lemma_col_sum_nonnegative(col.drop_last());
    if i < col.len() - 1 {
        lemma_col_sum_bounds(col.drop_last(), i);
    }
}

/// The sum of a column without negative entries is not negative.
pub proof fn lemma_col_sum_nonnegative(col: Seq<int>)
    requires
        forall|j: int| 0 <= j < col.len() ==> col[j] >= 0,
    ensures
        col_sum(col) >= 0,
    decreases col.len(),
{
    if col.len() > 0 {
        lemma_col_sum_nonnegative(col.drop_last());
    }
}

/// A column of zeros sums to zero.
pub proof fn lemma_col_sum_zeros(col: Seq<int>)
    requires
        forall|j: int| 0 <= j < col.len() ==> col[j] == 0,
    ensures
        col_sum(col) == 0,
    decreases col.len(),
{
    if col.len() > 0 {
        lemma_col_sum_zeros(col.drop_last());
    }
}

/// A request, granted or refused, leaves the total of every resource as it
/// was, and the ledger well formed.
pub proof fn lemma_request_preserves_capacity(l: LedgerView, t: int, r: int, r2: int)
    requires
        l.wf(),
        0 <= t < l.threads(),
        0 <= r < l.resources(),
        0 <= r2 < l.resources(),
        l.need[t][r] < usize::MAX,
    ensures
        l.after_request(t, r).column_total(r2) == l.column_total(r2),
        l.after_request(t, r).wf(),
{
    let n = l.after_request(t, r);
    assert forall|q: int| 0 <= q < l.resources() implies #[trigger] n.column_total(q)
        == l.column_total(q) by {
        lemma_request_column(l, t, r, q);
    }
    assert(n.wf()) by {
        assert forall|q: int| 0 <= q < n.available.len() implies #[trigger] n.column_total(q)
            <= usize::MAX by {
            assert(l.column_total(q) <= usize::MAX);
        }
    }
}

/// A request leaves the total of resource `q` as it was, and books a unit as
/// held only where there is room to count it.
proof fn lemma_request_column(l: LedgerView, t: int, r: int, q: int)
    requires
        l.wf(),
        0 <= t < l.threads(),
        0 <= r < l.resources(),
        0 <= q < l.resources(),
    ensures
        l.after_request(t, r).column_total(q) == l.column_total(q),
        l.after_request(t, r).threads() == l.threads(),
        l.after_request(t, r).resources() == l.resources(),
        l.safe_request(t, r) && l.available[r] > 0 ==> l.allocation[t][r] + 1 <= usize::MAX,
{
    let n = l.after_request(t, r);
    if l.safe_request(t, r) && l.available[r] > 0 {
        assert(l.column_total(r) <= usize::MAX);
        lemma_col_sum_bounds(l.alloc_col(r), t);
        if q == r {
            assert(n.alloc_col(q) =~= l.alloc_col(q).update(t, l.allocation[t][r] + 1));
            lemma_col_sum_update(l.alloc_col(q), t, l.allocation[t][r] + 1);
        } else {
            assert(n.alloc_col(q) =~= l.alloc_col(q));
        }
    } else {
        assert(n.alloc_col(q) =~= l.alloc_col(q));
    }
}

/// A release leaves the total of every resource as it was, and the ledger
/// well formed.
pub proof fn lemma_release_preserves_capacity(
    l: LedgerView,
    t: int,
    r: int,
    woken: Option<usize>,
    r2: int,
)
    requires
        l.wf(),
        0 <= t < l.threads(),
        0 <= r < l.resources(),
        0 <= r2 < l.resources(),
    ensures
        l.after_release(t, r, woken).column_total(r2) == l.column_total(r2),
        l.after_release(t, r, woken).wf(),
{
    let n = l.after_release(t, r, woken);
    assert forall|q: int| 0 <= q < l.resources() implies #[trigger] n.column_total(q)
        == l.column_total(q) by {
        lemma_release_column(l, t, r, woken, q);
    }
    lemma_release_column(l, t, r, woken, r);
    assert(n.wf()) by {
        assert forall|q: int| 0 <= q < n.available.len() implies #[trigger] n.column_total(q)
            <= usize::MAX by {
            assert(l.column_total(q) <= usize::MAX);
        }
    }
}

/// A release leaves the total of resource `q` as it was, and counts a unit
/// as free or as held only where there is room to count it.
proof fn lemma_release_column(l: LedgerView, t: int, r: int, woken: Option<usize>, q: int)
    requires
        l.wf(),
        0 <= t < l.threads(),
        0 <= r < l.resources(),
        0 <= q < l.resources(),
    ensures
        l.after_release(t, r, woken).column_total(q) == l.column_total(q),
        l.after_release(t, r, woken).threads() == l.threads(),
        l.after_release(t, r, woken).resources() == l.resources(),
        l.allocation[t][r] > 0 && !l.hands_over(r, woken) ==> l.available[r] + 1 <= usize::MAX,
        l.allocation[t][r] > 0 && l.hands_over(r, woken) && woken->0 != t
            ==> l.allocation[woken->0 as int][r]
            + 1 <= usize::MAX,
{
    let n = l.after_release(t, r, woken);
    if l.allocation[t][r] > 0 {
        assert(l.column_total(r) <= usize::MAX);
        lemma_col_sum_bounds(l.alloc_col(r), t);
        let c0 = l.alloc_col(r);
        let c1 = c0.update(t, l.allocation[t][r] - 1);
        lemma_col_sum_update(c0, t, l.allocation[t][r] - 1);
        if l.hands_over(r, woken) {
            let w = woken->0 as int;
            lemma_col_sum_bounds(c1, w);
            lemma_col_sum_update(c1, w, c1[w] + 1);
            if q == r {
                assert(n.alloc_col(q) =~= c1.update(w, c1[w] + 1));
            } else {
                assert(n.alloc_col(q) =~= l.alloc_col(q));
            }
        } else {
            if q == r {
                assert(n.alloc_col(q) =~= c1);
            } else {
                assert(n.alloc_col(q) =~= l.alloc_col(q));
            }
        }
    } else {
        assert(n.alloc_col(q) =~= l.alloc_col(q));
    }
}

/// A new thread leaves the total of every resource as it was.
pub proof fn lemma_with_thread_wf(l: LedgerView)
    requires
        l.wf(),
    ensures
        l.with_thread().wf(),
        forall|q: int| 0 <= q < l.resources()
            ==> #[trigger] l.with_thread().column_total(q) == l.column_total(q),
{
    let n = l.with_thread();
    assert forall|q: int| 0 <= q < l.resources() implies #[trigger] n.column_total(q)
        == l.column_total(q) by {
        assert(n.alloc_col(q).drop_last() =~= l.alloc_col(q));
        assert(n.alloc_col(q).last() == 0);
    }
    assert forall|q: int| 0 <= q < n.available.len() implies #[trigger] n.column_total(q)
        <= usize::MAX by {
        assert(l.column_total(q) <= usize::MAX);
    }
}

/// A resource started afresh has as many units as it was given, and the
/// other resources keep theirs.
pub proof fn lemma_with_resource_wf(l: LedgerView, r: int, units: usize, watched: bool)
    requires
        l.wf(),
        0 <= r <= l.resources(),
    ensures
        l.with_resource(r, units, watched).wf(),
        l.with_resource(r, units, watched).column_total(r) == units,
        forall|q: int|
            0 <= q < l.resources() && q != r ==> #[trigger] l.with_resource(
                r,
                units,
                watched,
            ).column_total(q) == l.column_total(q),
{
    let n = l.with_resource(r, units, watched);
    lemma_col_sum_zeros(n.alloc_col(r));
    assert forall|q: int| 0 <= q < l.resources() && q != r implies #[trigger] n.column_total(q)
        == l.column_total(q) by {
        assert(n.alloc_col(q) =~= l.alloc_col(q));
    }
    assert forall|q: int| 0 <= q < n.available.len() implies #[trigger] n.column_total(q)
        <= usize::MAX by {
        if q != r {
            assert(l.column_total(q) <= usize::MAX);
        }
    }
}

/// The ledger of one kind of resource in one process.
pub struct DeadlockLedger {
    /// Free units of each resource.
    pub available: Vec<usize>,
    /// Units of each resource that each thread holds.
    pub allocation: Vec<Vec<usize>>,
    /// Units of each resource that each thread waits for.
    pub need: Vec<Vec<usize>>,
    /// Whether the detector watches each resource: whether detection was
    /// enabled when the resource was created.
    pub watched: Vec<bool>,
}

impl View for DeadlockLedger {
    type V = LedgerView;

    open spec fn view(&self) -> LedgerView {
        LedgerView {
            available: self.available@,
            allocation: Seq::new(self.allocation.len() as nat, |t: int| self.allocation[t]@),
            need: Seq::new(self.need.len() as nat, |t: int| self.need[t]@),
            watched: self.watched@,
        }
    }
}

/// A row of `n` zeros.
fn zero_row(n: usize) -> (row: Vec<usize>)
    ensures
        row@ == Seq::new(n as nat, |r: int| 0usize),
{
    let mut row: Vec<usize> = Vec::new();
    let mut i: usize = 0;
    while i < n
        invariant
            i <= n,
            row@ == Seq::new(i as nat, |r: int| 0usize),
        decreases n - i,
    {
        row.push(0);
        assert(row@ =~= Seq::new((i + 1) as nat, |r: int| 0usize));
        i = i + 1;
    }
    row
}

impl DeadlockLedger {
    /// A ledger without threads and resources.
    pub fn new() -> (l: DeadlockLedger)
        ensures
            l@.wf(),
            l@.threads() == 0,
            l@.resources() == 0,
    {
        DeadlockLedger {
            available: Vec::new(),
            allocation: Vec::new(),
            need: Vec::new(),
            watched: Vec::new(),
        }
    }

    /// Number of threads on the ledger.
    pub fn threads(&self) -> (n: usize)
        ensures
            n == self@.threads(),
    {
        self.allocation.len()
    }

    /// Number of resources on the ledger.
    pub fn resources(&self) -> (n: usize)
        ensures
            n == self@.resources(),
    {
        self.available.len()
    }

    /// Whether the detector watches resource `r`.
    pub fn is_watched(&self, r: usize) -> (b: bool)
        requires
            self@.wf(),
        ensures
            b == (r < self@.resources() && self@.watched[r as int]),
    {
        r < self.watched.len() && self.watched[r]
    }

    /// Whether one more request of thread `t` for resource `r` can be put on
    /// the ledger.
    pub fn can_record(&self, t: usize, r: usize) -> (b: bool)
        requires
            self@.wf(),
        ensures
            b == (t < self@.threads() && r < self@.resources() && self@.need[t as int][r as int]
                < usize::MAX),
    {
        if t < self.need.len() && r < self.available.len() {
            assert(self@.need[t as int].len() == self@.resources());
            self.need[t][r] < usize::MAX
        } else {
            false
        }
    }

    /// Puts one more thread on the ledger. It holds and waits for nothing.
    pub fn add_thread(&mut self)
        requires
            old(self)@.wf(),
        ensures
            final(self)@ == old(self)@.with_thread(),
            final(self)@.wf(),
    {
        let n = self.available.len();
        let held = zero_row(n);
        let wanted = zero_row(n);
        self.allocation.push(held);
        self.need.push(wanted);
        proof {
            lemma_with_thread_wf(old(self)@);
            assert(self@ =~~= old(self)@.with_thread());
        }
    }

    /// Starts resource `r` afresh with `units` free units: as a new resource
    /// if `r` is the number of resources so far, in place of an old one if
    /// it is less. Afterwards no thread holds or waits for it.
    pub fn set_resource(&mut self, r: usize, units: usize, watched: bool)
        requires
            old(self)@.wf(),
            r <= old(self)@.resources(),
        ensures
            final(self)@ == old(self)@.with_resource(r as int, units, watched),
            final(self)@.wf(),
    {
        let fresh = r == self.available.len();
        if fresh {
            self.available.push(units);
            self.watched.push(watched);
        } else {
            self.available[r] = units;
            self.watched[r] = watched;
        }
        let n = self.allocation.len();
        let mut t: usize = 0;
        while t < n
            invariant
                t <= n,
                old(self)@.wf(),
                r <= old(self)@.resources(),
                fresh == (r == old(self)@.resources()),
                n == old(self).allocation.len(),
                self.allocation.len() == n,
                self.need.len() == n,
                self.available@ == old(self)@.with_resource(r as int, units, watched).available,
                self.watched@ == old(self)@.with_resource(r as int, units, watched).watched,
                forall|u: int|
                    0 <= u < t ==> (#[trigger] self.allocation[u])@ == old(self)@.with_resource(
                        r as int,
                        units,
                        watched,
                    ).allocation[u],
                forall|u: int|
                    0 <= u < t ==> (#[trigger] self.need[u])@ == old(self)@.with_resource(
                        r as int,
                        units,
                        watched,
                    ).need[u],
                forall|u: int| t <= u < n
                    ==> (#[trigger] self.allocation[u])@ == old(self).allocation[u]@,
                forall|u: int| t <= u < n ==> (#[trigger] self.need[u])@ == old(self).need[u]@,
            decreases n - t,
        {
            assert(old(self)@.allocation[t as int].len() == old(self)@.resources());
            assert(old(self)@.need[t as int].len() == old(self)@.resources());
            if fresh {
                self.allocation[t].push(0);
                self.need[t].push(0);
            } else {
                self.allocation[t][r] = 0;
                self.need[t][r] = 0;
            }
            t = t + 1;
        }
        proof {
            lemma_with_resource_wf(old(self)@, r as int, units, watched);
            assert(self@ =~~= old(self)@.with_resource(r as int, units, watched));
        }
    }

    /// Runs the safety simulation for one more request of thread `t` for
    /// resource `r`.
    pub fn safe_request(&self, t: usize, r: usize) -> (safe: bool)
        requires
            self@.wf(),
            t < self@.threads(),
            r < self@.resources(),
            self@.need[t as int][r as int] < usize::MAX,
        ensures
            safe == self@.safe_request(t as int, r as int),
    {
        let n = self.allocation.len();
        let ghost alloc = self@.alloc_col(r as int);
        let ghost need = self@.need_col(r as int).update(
            t as int,
            self@.need[t as int][r as int] + 1,
        );
        let mut finish: Vec<bool> = Vec::new();
        let mut i: usize = 0;
        while i < n
            invariant
                i <= n,
                n == self.allocation.len(),
                self@.wf(),
                r < self@.resources(),
                alloc == self@.alloc_col(r as int),
                finish@ == initial_finish(alloc).take(i as int),
            decreases n - i,
        {
            assert(self@.allocation[i as int].len() == self@.resources());
            finish.push(self.allocation[i][r] == 0);
            assert(finish@ =~= initial_finish(alloc).take(i + 1));
            i = i + 1;
        }
        assert(finish@ =~= initial_finish(alloc));
        let mut work: usize = self.available[r];
        let ghost mut w: int = work as int;
        let ghost w0 = w;
        let ghost f0 = finish@;
        let mut progress = true;
        while progress
            invariant
                n == self.allocation.len(),
                self@.wf(),
                t < n,
                r < self@.resources(),
                self@.need[t as int][r as int] < usize::MAX,
                alloc == self@.alloc_col(r as int),
                need == self@.need_col(r as int).update(
                    t as int,
                    self@.need[t as int][r as int] + 1,
                ),
                finish.len() == n,
                w >= 0,
                work == if w <= usize::MAX { w } else { usize::MAX as int },
                progress ==> simulate(w0, f0, alloc, need) == simulate(w, finish@, alloc, need),
                !progress ==> simulate(w0, f0, alloc, need) == finish@,
            decreases unfinished(finish@) + if progress { 1nat } else { 0nat },
        {
            let ghost ws = w;
            let ghost fs = finish@;
            let mut marked = false;
            let mut i: usize = 0;
            while i < n
                invariant
                    i <= n,
                    n == self.allocation.len(),
                    self@.wf(),
                    t < n,
                    r < self@.resources(),
                    self@.need[t as int][r as int] < usize::MAX,
                    alloc == self@.alloc_col(r as int),
                    need == self@.need_col(r as int).update(
                        t as int,
                        self@.need[t as int][r as int] + 1,
                    ),
                    finish.len() == n,
                    fs.len() == n,
                    w >= 0,
                    work == if w <= usize::MAX { w } else { usize::MAX as int },
                    scan_from(ws, fs, alloc, need, 0)
                        == scan_from(w, finish@, alloc, need, i as int),
                    unfinished(finish@) <= unfinished(fs),
                    marked <==> unfinished(finish@) < unfinished(fs),
                decreases n - i,
            {
                assert(self@.allocation[i as int].len() == self@.resources());
                assert(self@.need[i as int].len() == self@.resources());
                let wanted: usize = if i == t {
                    self.need[i][r] + 1
                } else {
                    self.need[i][r]
                };
                assert(wanted == need[i as int]);
                assert(alloc[i as int] == self.allocation[i as int][r as int]);
                if !finish[i] && wanted <= work {
                    proof {
                        lemma_unfinished_update(finish@, i as int);
                        w = w + alloc[i as int];
                    }
                    work = work.saturating_add(self.allocation[i][r]);
                    finish[i] = true;
                    marked = true;
                }
                i = i + 1;
            }
            progress = marked;
        }
        let mut safe = true;
        let mut i: usize = 0;
        while i < n
            invariant
                i <= n,
                finish.len() == n,
                safe <==> forall|u: int| 0 <= u < i ==> finish@[u],
            decreases n - i,
        {
            if !finish[i] {
                safe = false;
            }
            i = i + 1;
        }
        safe
    }

    /// Thread `t` asks for one more unit of resource `r`. The request is
    /// granted exactly if the state with the request recorded is safe. A
    /// refused request leaves the ledger as it was. A granted one is booked
    /// as held if a unit is free, and as waited for if none is.
    pub fn request(&mut self, t: usize, r: usize) -> (granted: bool)
        requires
            old(self)@.wf(),
            t < old(self)@.threads(),
            r < old(self)@.resources(),
            old(self)@.need[t as int][r as int] < usize::MAX,
        ensures
            granted == old(self)@.safe_request(t as int, r as int),
            final(self)@ == old(self)@.after_request(t as int, r as int),
            final(self)@.wf(),
            !granted ==> *final(self) == *old(self),
    {
        let granted = self.safe_request(t, r);
        proof {
            lemma_request_preserves_capacity(old(self)@, t as int, r as int, r as int);
            lemma_request_column(old(self)@, t as int, r as int, r as int);
            assert(old(self)@.allocation[t as int].len() == old(self)@.resources());
            assert(old(self)@.need[t as int].len() == old(self)@.resources());
        }
        if granted {
            if self.available[r] > 0 {
                self.available[r] -= 1;
                self.allocation[t][r] += 1;
            } else {
                self.need[t][r] += 1;
            }
            assert(self@ =~~= old(self)@.after_request(t as int, r as int));
        }
        granted
    }

    /// Thread `t` gives up one unit of resource `r`, and the primitive woke
    /// `woken`. If the ledger does not show `t` as holding a unit, nothing
    /// changes. Otherwise the unit goes to the woken thread if that one is
    /// booked as waiting, and becomes free if not.
    pub fn release(&mut self, t: usize, r: usize, woken: Option<usize>)
        requires
            old(self)@.wf(),
            t < old(self)@.threads(),
            r < old(self)@.resources(),
        ensures
            final(self)@ == old(self)@.after_release(t as int, r as int, woken),
            final(self)@.wf(),
    {
        proof {
            lemma_release_preserves_capacity(old(self)@, t as int, r as int, woken, r as int);
            lemma_release_column(old(self)@, t as int, r as int, woken, r as int);
            assert(old(self)@.allocation[t as int].len() == old(self)@.resources());
        }
        if self.allocation[t][r] == 0 {
            return ;
        }
        self.allocation[t][r] -= 1;
        let hand_over = match woken {
            Some(w) => {
                if w < self.need.len() {
                    assert(old(self)@.need[w as int].len() == old(self)@.resources());
                    self.need[w][r] > 0
                } else {
                    false
                }
            },
            None => false,
        };
        if hand_over {
            let w = woken.unwrap();
            assert(old(self)@.allocation[w as int].len() == old(self)@.resources());
            self.allocation[w][r] += 1;
            self.need[w][r] -= 1;
        } else {
            self.available[r] += 1;
        }
        assert(self@ =~~= old(self)@.after_release(t as int, r as int, woken));
    }
}

} // verus!
