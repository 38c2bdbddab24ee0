//! Tables of slots that are handed out by number: the first empty slot is
//! taken before the table grows.

use vstd::prelude::*;

verus! {

/// Whether `i` is the first empty slot of `s`, or its length if no slot is
/// empty.
pub open spec fn is_first_empty<T>(s: Seq<Option<T>>, i: int) -> bool {
    &&& 0 <= i <= s.len()
    &&& forall|j: int| 0 <= j < i ==> (#[trigger] s[j]) is Some
    &&& i < s.len() ==> s[i] is None
}

/// The slot that the next entry of `s` goes to.
pub open spec fn first_empty_slot<T>(s: Seq<Option<T>>) -> int {
    choose|i: int| is_first_empty(s, i)
}

/// A table has one first empty slot.
pub proof fn lemma_first_empty_unique<T>(s: Seq<Option<T>>, i: int)
    requires
        is_first_empty(s, i),
    ensures
        first_empty_slot(s) == i,
{
    let k = first_empty_slot(s);
    assert(is_first_empty(s, k));
    if k < i {
        assert(s[k] is Some);
    } else if i < k {
        assert(s[i] is Some);
    }
}

/// The table `s` with `value` in slot `i`: in place of what was there, or
/// appended if `i` is the length.
pub open spec fn with_slot<T>(s: Seq<Option<T>>, i: int, value: Option<T>) -> Seq<Option<T>> {
    if i == s.len() {
        s.push(value)
    } else {
        s.update(i, value)
    }
}

/// Whether `after` is `before` with another entry in slot `i` and nothing
/// else changed.
pub open spec fn slot_replaced<T>(before: Seq<Option<T>>, after: Seq<Option<T>>, i: int) -> bool {
    &&& 0 <= i < before.len()
    &&& after.len() == before.len()
    &&& after[i] is Some
    &&& forall|j: int| 0 <= j < before.len() && j != i ==> after[j] == before[j]
}

/// Whether `after` is `before` with a new entry in slot `i`, which is the
/// first empty slot of `before`, and nothing else changed.
pub open spec fn slot_filled<T>(before: Seq<Option<T>>, after: Seq<Option<T>>, i: int) -> bool {
    &&& i == first_empty_slot(before)
    &&& 0 <= i < after.len()
    &&& after.len() == if i == before.len() { before.len() + 1 } else { before.len() }
    &&& after[i] is Some
    &&& forall|j: int| 0 <= j < before.len() && j != i ==> after[j] == before[j]
}

/// Finds the slot that the next entry of `table` goes to.
pub fn find_empty_slot<T>(table: &Vec<Option<T>>) -> (i: usize)
    ensures
        is_first_empty(table@, i as int),
        i == first_empty_slot(table@),
{
    let n = table.len();
    let mut i: usize = 0;
    while i < n
        invariant
            i <= n,
            n == table.len(),
            forall|j: int| 0 <= j < i ==> (#[trigger] table@[j]) is Some,
        decreases n - i,
    {
        if table[i].is_none() {
            proof {
                lemma_first_empty_unique(table@, i as int);
            }
            return i;
        }
        i = i + 1;
    }
    proof {
        lemma_first_empty_unique(table@, n as int);
    }
    n
}

/// Puts `value` into slot `i` of `table`, growing the table by one if `i`
/// is its length.
pub fn put_slot<T>(table: &mut Vec<Option<T>>, i: usize, value: T)
    requires
        i <= old(table).len(),
    ensures
        final(table)@ == with_slot(old(table)@, i as int, Some(value)),
{
    if i == table.len() {
        table.push(Some(value));
    } else {
        table[i] = Some(value);
    }
}

} // verus!
