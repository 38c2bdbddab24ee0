//! What the safety simulation decides: a state is safe exactly if the
//! threads that hold something can finish one after another, each finding
//! what it waits for in what is free and what those before it gave back.

use vstd::prelude::*;
use crate::sync::deadlock::{
    initial_finish, lemma_unfinished_update, safe_state, scan_from, simulate, unfinished,
    LedgerView,
};

verus! {

/// What the threads listed in `order` hold together.
pub open spec fn held_by(alloc: Seq<int>, order: Seq<int>) -> int
    decreases order.len(),
{
    if order.len() == 0 {
        0
    } else {
        held_by(alloc, order.drop_last()) + alloc[order.last()]
    }
}

/// Whether the threads can finish in the order `order`: it lists every
/// thread that holds something, none twice, and each thread in it waits for
/// no more than what is free once the threads before it have given back
/// what they hold.
pub open spec fn is_finishing_order(
    available: int,
    alloc: Seq<int>,
    need: Seq<int>,
    order: Seq<int>,
) -> bool {
    &&& order.no_duplicates()
    &&& forall|k: int| 0 <= k < order.len() ==> 0 <= #[trigger] order[k] < alloc.len()
    &&& forall|t: int| 0 <= t < alloc.len() && alloc[t] != 0 ==> order.contains(t)
    &&& forall|k: int|
        0 <= k < order.len() ==> need[#[trigger] order[k]] <= available + held_by(
            alloc,
            order.take(k),
        )
}

/// What the finished threads among the first `n` hold together.
pub open spec fn held_finished(alloc: Seq<int>, finish: Seq<bool>, n: int) -> int
    decreases n,
{
    if n <= 0 {
        0
    } else {
        held_finished(alloc, finish, n - 1) + if finish[n - 1] {
            alloc[n - 1]
        } else {
            0
        }
    }
}

/// The free units at the end of the simulation.
pub open spec fn simulate_work(work: int, finish: Seq<bool>, alloc: Seq<int>, need: Seq<int>) -> int
    decreases unfinished(finish),
{
    let (w, f) = scan_from(work, finish, alloc, need, 0);
    if unfinished(f) < unfinished(finish) {
        simulate_work(w, f, alloc, need)
    } else {
        w
    }
}

/// The threads that one pass over the threads `i..` lets finish, in the
/// order in which they finish.
pub open spec fn scan_marks(
    work: int,
    finish: Seq<bool>,
    alloc: Seq<int>,
    need: Seq<int>,
    i: int,
) -> Seq<int>
    decreases finish.len() - i,
{
    if i < 0 || i >= finish.len() {
        Seq::empty()
    } else if !finish[i] && need[i] <= work {
        seq![i] + scan_marks(work + alloc[i], finish.update(i, true), alloc, need, i + 1)
    } else {
        scan_marks(work, finish, alloc, need, i + 1)
    }
}

/// The threads that the simulation lets finish, in the order in which they
/// finish.
pub open spec fn simulate_marks(
    work: int,
    finish: Seq<bool>,
    alloc: Seq<int>,
    need: Seq<int>,
) -> Seq<int>
    decreases unfinished(finish),
{
    let (w, f) = scan_from(work, finish, alloc, need, 0);
    if unfinished(f) < unfinished(finish) {
        scan_marks(work, finish, alloc, need, 0) + simulate_marks(w, f, alloc, need)
    } else {
        scan_marks(work, finish, alloc, need, 0)
    }
}

/// Whether the columns describe the same threads and nobody holds less than
/// nothing.
pub open spec fn columns_ok(alloc: Seq<int>, need: Seq<int>) -> bool {
    &&& alloc.len() == need.len()
    &&& forall|t: int| 0 <= t < alloc.len() ==> alloc[t] >= 0
}

/// A thread that finishes adds what it holds to what the finished threads
/// hold.
proof fn lemma_held_finished_update(alloc: Seq<int>, finish: Seq<bool>, i: int, n: int)
    requires
        0 <= i < finish.len(),
        !finish[i],
        0 <= n <= finish.len(),
    ensures
        held_finished(alloc, finish.update(i, true), n) == held_finished(alloc, finish, n) + if i
            < n {
            alloc[i]
        } else {
            0
        },
    decreases n,
{
    if n > 0 {
        lemma_held_finished_update(alloc, finish, i, n - 1);
    }
}

/// The threads that count as finished at the start hold nothing.
proof fn lemma_held_finished_initial(alloc: Seq<int>, n: int)
    requires
        0 <= n <= alloc.len(),
    ensures
        held_finished(alloc, initial_finish(alloc), n) == 0,
    decreases n,
{
    if n > 0 {
        lemma_held_finished_initial(alloc, n - 1);
    }
}

/// What the finished threads hold is not negative and does not shrink with
/// more threads counted.
proof fn lemma_held_finished_grows(alloc: Seq<int>, finish: Seq<bool>, n: int)
    requires
        0 <= n <= finish.len(),
        finish.len() == alloc.len(),
        forall|t: int| 0 <= t < alloc.len() ==> alloc[t] >= 0,
    ensures
        0 <= held_finished(alloc, finish, n),
        n > 0 ==> held_finished(alloc, finish, n - 1) <= held_finished(alloc, finish, n),
    decreases n,
{
    if n > 0 {
        lemma_held_finished_grows(alloc, finish, n - 1);
    }
}

/// What one pass does: no thread is un-finished, the free units grow by
/// what the threads that finish hold, and a pass that lets no thread finish
/// shows that every unfinished thread waits for more than is free.
proof fn lemma_scan(work: int, finish: Seq<bool>, alloc: Seq<int>, need: Seq<int>, i: int)
    requires
        columns_ok(alloc, need),
        finish.len() == alloc.len(),
        0 <= i <= finish.len(),
    ensures
        ({
            let r = scan_from(work, finish, alloc, need, i);
            let n = finish.len() as int;
            &&& r.1.len() == finish.len()
            &&& forall|t: int| 0 <= t < n && finish[t] ==> r.1[t]
            &&& r.0 == work + held_finished(alloc, r.1, n) - held_finished(alloc, finish, n)
            &&& unfinished(r.1) <= unfinished(finish)
            &&& unfinished(r.1) == unfinished(finish) ==> r.1 == finish && forall|t: int|
                i <= t < n && !finish[t] ==> need[t] > work
        }),
    decreases finish.len() - i,
{
    if i < finish.len() {
        if !finish[i] && need[i] <= work {
            let f2 = finish.update(i, true);
            lemma_scan(work + alloc[i], f2, alloc, need, i + 1);
            lemma_unfinished_update(finish, i);
            lemma_held_finished_update(alloc, finish, i, finish.len() as int);
            let r = scan_from(work, finish, alloc, need, i);
            assert forall|t: int| 0 <= t < finish.len() && finish[t] implies r.1[t] by {
                assert(f2[t]);
            }
        } else {
            lemma_scan(work, finish, alloc, need, i + 1);
        }
    }
}

/// What the simulation ends with: no thread was un-finished, the free units
/// have grown by what the threads that finished hold, and every thread that
/// has not finished waits for more than is free.
proof fn lemma_simulate(work: int, finish: Seq<bool>, alloc: Seq<int>, need: Seq<int>)
    requires
        columns_ok(alloc, need),
        finish.len() == alloc.len(),
    ensures
        ({
            let r = simulate(work, finish, alloc, need);
            let w = simulate_work(work, finish, alloc, need);
            let n = finish.len() as int;
            &&& r.len() == finish.len()
            &&& forall|t: int| 0 <= t < n && finish[t] ==> r[t]
            &&& w == work + held_finished(alloc, r, n) - held_finished(alloc, finish, n)
            &&& forall|t: int| 0 <= t < n && !r[t] ==> need[t] > w
        }),
    decreases unfinished(finish),
{
    lemma_scan(work, finish, alloc, need, 0);
    let (w, f) = scan_from(work, finish, alloc, need, 0);
    if unfinished(f) < unfinished(finish) {
        lemma_simulate(w, f, alloc, need);
        let r = simulate(work, finish, alloc, need);
        assert forall|t: int| 0 <= t < finish.len() && finish[t] implies r[t] by {
            assert(f[t]);
        }
    }
}

/// Taking a thread off a list takes what it holds off the sum.
proof fn lemma_held_by_remove(alloc: Seq<int>, order: Seq<int>, p: int)
    requires
        0 <= p < order.len(),
    ensures
        held_by(alloc, order.remove(p)) == held_by(alloc, order) - alloc[order[p]],
    decreases order.len(),
{
    if p == order.len() - 1 {
        assert(order.remove(p) =~= order.drop_last());
    } else {
        lemma_held_by_remove(alloc, order.drop_last(), p);
        assert(order.remove(p).drop_last() =~= order.drop_last().remove(p));
        assert(order.remove(p).last() == order.last());
    }
}

/// Distinct finished threads hold no more together than all finished
/// threads do.
proof fn lemma_held_by_bound(alloc: Seq<int>, finish: Seq<bool>, order: Seq<int>, n: int)
    requires
        finish.len() == alloc.len(),
        forall|t: int| 0 <= t < alloc.len() ==> alloc[t] >= 0,
        0 <= n <= finish.len(),
        order.no_duplicates(),
        forall|k: int| 0 <= k < order.len() ==> 0 <= #[trigger] order[k] < n && finish[order[k]],
    ensures
        held_by(alloc, order) <= held_finished(alloc, finish, n),
    decreases n,
{
    if n == 0 {
        if order.len() > 0 {
            let first = order[0];
            assert(0 <= first < n);
        }
        assert(order =~= Seq::<int>::empty());
    } else {
        lemma_held_finished_grows(alloc, finish, n);
        if order.contains(n - 1) {
            let p = choose|p: int| 0 <= p < order.len() && order[p] == n - 1;
            let rest = order.remove(p);
            lemma_held_by_remove(alloc, order, p);
            assert forall|k: int| 0 <= k < rest.len() implies 0 <= #[trigger] rest[k] < n - 1
                && finish[rest[k]] by {
                let k2 = if k < p { k } else { k + 1 };
                assert(rest[k] == order[k2]);
                assert(order[k2] != order[p]);
            }
            assert(rest.no_duplicates()) by {
                assert forall|a: int, b: int| 0 <= a < rest.len() && 0 <= b < rest.len() && a
                    != b implies rest[a] != rest[b] by {
                    let a2 = if a < p { a } else { a + 1 };
                    let b2 = if b < p { b } else { b + 1 };
                    assert(rest[a] == order[a2] && rest[b] == order[b2]);
                }
            }
            lemma_held_by_bound(alloc, finish, rest, n - 1);
        } else {
            assert forall|k: int| 0 <= k < order.len() implies 0 <= #[trigger] order[k] < n - 1
                && finish[order[k]] by {
                assert(order.contains(order[k]));
            }
            lemma_held_by_bound(alloc, finish, order, n - 1);
        }
    }
}

/// The simulation lets the first `k` threads of a finishing order finish.
proof fn lemma_order_prefix_finishes(
    available: int,
    alloc: Seq<int>,
    need: Seq<int>,
    order: Seq<int>,
    k: int,
)
    requires
        columns_ok(alloc, need),
        is_finishing_order(available, alloc, need, order),
        0 <= k <= order.len(),
    ensures
        forall|j: int|
            0 <= j < k
                ==> simulate(available, initial_finish(alloc), alloc, need)[#[trigger] order[j]],
    decreases k,
{
    if k > 0 {
        lemma_order_prefix_finishes(available, alloc, need, order, k - 1);
        let init = initial_finish(alloc);
        let r = simulate(available, init, alloc, need);
        let w = simulate_work(available, init, alloc, need);
        lemma_simulate(available, init, alloc, need);
        lemma_held_finished_initial(alloc, alloc.len() as int);
        let before = order.take(k - 1);
        assert(before.no_duplicates());
        assert forall|j: int| 0 <= j < before.len() implies 0 <= #[trigger] before[j] < alloc.len()
            && r[before[j]] by {
            assert(before[j] == order[j]);
        }
        lemma_held_by_bound(alloc, r, before, alloc.len() as int);
        let t = order[k - 1];
        assert(need[t] <= available + held_by(alloc, before));
        assert(need[t] <= w);
    }
}

/// The threads that a pass lets finish, added to a list of threads that
/// finished before, keep the list a record of the simulation: it names the
/// threads that finished since the start, none twice, and each found what
/// it waited for in what was free when its turn came.
proof fn lemma_scan_marks(
    available: int,
    init: Seq<bool>,
    done: Seq<int>,
    work: int,
    finish: Seq<bool>,
    alloc: Seq<int>,
    need: Seq<int>,
    i: int,
)
    requires
        columns_ok(alloc, need),
        finish.len() == alloc.len(),
        init.len() == alloc.len(),
        0 <= i <= finish.len(),
        is_record(available, init, done, work, finish, alloc, need),
    ensures
        ({
            let r = scan_from(work, finish, alloc, need, i);
            is_record(
                available,
                init,
                done + scan_marks(work, finish, alloc, need, i),
                r.0,
                r.1,
                alloc,
                need,
            )
        }),
    decreases finish.len() - i,
{
    if i < finish.len() {
        if !finish[i] && need[i] <= work {
            let f2 = finish.update(i, true);
            let d2 = done.push(i);
            assert(d2.drop_last() =~= done);
            assert(is_record(available, init, d2, work + alloc[i], f2, alloc, need)) by {
                assert forall|t: int| 0 <= t < alloc.len() implies (f2[t] <==> (init[t]
                    || d2.contains(t))) by {
                    if t == i {
                        assert(d2[done.len() as int] == i);
                    } else {
                        if done.contains(t) {
                            let p = choose|p: int| 0 <= p < done.len() && done[p] == t;
                            assert(d2[p] == t);
                        }
                        if d2.contains(t) {
                            let p = choose|p: int| 0 <= p < d2.len() && d2[p] == t;
                            assert(done[p] == t);
                        }
                    }
                }
                assert forall|k: int| 0 <= k < d2.len() implies need[#[trigger] d2[k]]
                    <= available + held_by(alloc, d2.take(k)) by {
                    if k < done.len() {
                        assert(d2.take(k) =~= done.take(k));
                        assert(d2[k] == done[k]);
                    } else {
                        assert(d2.take(k) =~= done);
                    }
                }
                assert(d2.no_duplicates()) by {
                    assert(!done.contains(i));
                    assert forall|a: int, b: int| 0 <= a < d2.len() && 0 <= b < d2.len() && a
                        != b implies d2[a] != d2[b] by {
                        if a < done.len() && b < done.len() {
                            assert(done[a] != done[b]);
                        } else if a < done.len() {
                            assert(done.contains(done[a]));
                        } else {
                            assert(done.contains(done[b]));
                        }
                    }
                }
            }
            lemma_scan_marks(available, init, d2, work + alloc[i], f2, alloc, need, i + 1);
            assert(d2 + scan_marks(work + alloc[i], f2, alloc, need, i + 1) =~= done + scan_marks(
                work,
                finish,
                alloc,
                need,
                i,
            ));
        } else {
            lemma_scan_marks(available, init, done, work, finish, alloc, need, i + 1);
        }
    } else {
        assert(done + scan_marks(work, finish, alloc, need, i) =~= done);
    }
}

/// Whether `done` records how the simulation came from `init` and
/// `available` free units to `finish` and `work`: a thread has finished
/// exactly if it had at the start or is listed, no thread is listed twice,
/// the listed threads gave back what makes `work` of `available`, and each
/// found what it waited for when its turn came.
pub open spec fn is_record(
    available: int,
    init: Seq<bool>,
    done: Seq<int>,
    work: int,
    finish: Seq<bool>,
    alloc: Seq<int>,
    need: Seq<int>,
) -> bool {
    &&& done.no_duplicates()
    &&& forall|k: int| 0 <= k < done.len() ==> 0 <= #[trigger] done[k] < alloc.len()
    &&& forall|t: int| 0 <= t < alloc.len()
        ==> (#[trigger] finish[t] <==> (init[t] || done.contains(t)))
    &&& work == available + held_by(alloc, done)
    &&& forall|k: int|
        0 <= k < done.len() ==> need[#[trigger] done[k]] <= available + held_by(alloc, done.take(k))
}

/// The threads that the simulation lets finish, added to a record, make a
/// record of the whole simulation.
proof fn lemma_simulate_marks(
    available: int,
    init: Seq<bool>,
    done: Seq<int>,
    work: int,
    finish: Seq<bool>,
    alloc: Seq<int>,
    need: Seq<int>,
)
    requires
        columns_ok(alloc, need),
        finish.len() == alloc.len(),
        init.len() == alloc.len(),
        is_record(available, init, done, work, finish, alloc, need),
    ensures
        is_record(
            available,
            init,
            done + simulate_marks(work, finish, alloc, need),
            simulate_work(work, finish, alloc, need),
            simulate(work, finish, alloc, need),
            alloc,
            need,
        ),
    decreases unfinished(finish),
{
    lemma_scan(work, finish, alloc, need, 0);
    lemma_scan_marks(available, init, done, work, finish, alloc, need, 0);
    let (w, f) = scan_from(work, finish, alloc, need, 0);
    if unfinished(f) < unfinished(finish) {
        let d2 = done + scan_marks(work, finish, alloc, need, 0);
        lemma_simulate_marks(available, init, d2, w, f, alloc, need);
        assert(d2 + simulate_marks(w, f, alloc, need) =~= done + simulate_marks(
            work,
            finish,
            alloc,
            need,
        ));
    }
}

/// A state is safe exactly if its threads have a finishing order.
pub proof fn lemma_safe_iff_finishing_order(available: int, alloc: Seq<int>, need: Seq<int>)
    requires
        columns_ok(alloc, need),
    ensures
        safe_state(available, alloc, need) <==> exists|order: Seq<int>|
            is_finishing_order(available, alloc, need, order),
{
    let init = initial_finish(alloc);
    let r = simulate(available, init, alloc, need);
    lemma_simulate(available, init, alloc, need);
    if safe_state(available, alloc, need) {
        let empty = Seq::<int>::empty();
        assert(is_record(available, init, empty, available, init, alloc, need));
        lemma_simulate_marks(available, init, empty, available, init, alloc, need);
        let order = simulate_marks(available, init, alloc, need);
        assert(empty + order =~= order);
        assert(is_finishing_order(available, alloc, need, order)) by {
            assert forall|t: int| 0 <= t < alloc.len() && alloc[t] != 0 implies order.contains(
                t,
            ) by {
                assert(r[t]);
                assert(!init[t]);
            }
        }
    }
    if exists|order: Seq<int>| is_finishing_order(available, alloc, need, order) {
        let order = choose|order: Seq<int>| is_finishing_order(available, alloc, need, order);
        lemma_order_prefix_finishes(available, alloc, need, order, order.len() as int);
        lemma_simulate(available, init, alloc, need);
        assert forall|t: int| 0 <= t < r.len() implies r[t] by {
            if alloc[t] != 0 {
                assert(order.contains(t));
                let p = choose|p: int| 0 <= p < order.len() && order[p] == t;
                assert(r[order[p]]);
            } else {
                assert(init[t]);
            }
        }
    }
}

/// What each thread waits for of resource `r` once thread `t` asked for one
/// more unit.
pub open spec fn need_with_request(l: LedgerView, t: int, r: int) -> Seq<int> {
    l.need_col(r).update(t, l.need[t][r] + 1)
}

/// The detector grants the request of thread `t` for one more unit of
/// resource `r` exactly if, with that request recorded, the threads that
/// hold units of the resource have a finishing order.
pub proof fn lemma_granted_iff_finishing_order(l: LedgerView, t: int, r: int)
    requires
        l.wf(),
        0 <= t < l.threads(),
        0 <= r < l.resources(),
    ensures
        l.safe_request(t, r) <==> exists|order: Seq<int>|
            is_finishing_order(
                l.available[r] as int,
                l.alloc_col(r),
                need_with_request(l, t, r),
                order,
            ),
{
    lemma_safe_iff_finishing_order(
        l.available[r] as int,
        l.alloc_col(r),
        need_with_request(l, t, r),
    );
}

} // verus!
