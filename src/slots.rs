use crate::error::DeviceError;
use vstd::prelude::*;

verus! {

/// Issues block ordinals. Released ordinals are kept largest first and are
/// handed out again before any fresh one.
#[derive(Debug)]
pub struct SlotAllocator {
    block_index: u64,
    released_index: Vec<u64>,
}

/// What a [`SlotAllocator`] holds: the next fresh ordinal and the released ones.
pub struct SlotView {
    pub next: u64,
    pub released: Seq<u64>,
}

impl View for SlotAllocator {
    type V = SlotView;

    closed spec fn view(&self) -> SlotView {
        SlotView { next: self.block_index, released: self.released_index@ }
    }
}

/// Ordered from largest to smallest.
pub open spec fn sorted_desc(s: Seq<u64>) -> bool {
    forall|i: int, j: int| 0 <= i < j < s.len() ==> s[i] >= s[j]
}

/// `s` with `x` put before its first element that is not larger than `x`.
pub open spec fn sorted_insert(s: Seq<u64>, x: u64) -> Seq<u64>
    decreases s.len(),
{
    if s.len() == 0 {
        seq![x]
    } else if s[0] <= x {
        seq![x] + s
    } else {
        seq![s[0]] + sorted_insert(s.drop_first(), x)
    }
}

/// Acquiring from `v`: the next state and the ordinal issued.
pub open spec fn acquire_outcome(v: SlotView) -> (SlotView, Result<u64, DeviceError>) {
    if v.released.len() > 0 {
        (SlotView { next: v.next, released: v.released.drop_first() }, Ok(v.released[0]))
    } else if v.next < u64::MAX {
        (SlotView { next: (v.next + 1) as u64, released: v.released }, Ok(v.next))
    } else {
        (v, Err(DeviceError::IndexOverflow))
    }
}

/// Releasing `x` into `v`.
pub open spec fn release_outcome(v: SlotView, x: u64) -> SlotView {
    SlotView { next: v.next, released: sorted_insert(v.released, x) }
}

/// Inserting into a sorted sequence keeps it sorted, adds exactly `x`, and
/// puts the larger of `x` and the old first element in front.
pub proof fn lemma_sorted_insert(s: Seq<u64>, x: u64)
    requires
        sorted_desc(s),
    ensures
        sorted_desc(sorted_insert(s, x)),
        sorted_insert(s, x).len() == s.len() + 1,
        sorted_insert(s, x).to_multiset() == s.to_multiset().insert(x),
        sorted_insert(s, x)[0] == if s.len() > 0 && s[0] > x {
            s[0]
        } else {
            x
        },
    decreases s.len(),
{
    broadcast use vstd::seq_lib::group_to_multiset_ensures;

    if s.len() == 0 {
        assert(sorted_insert(s, x) =~= seq![x]);
        assert(seq![x].to_multiset() =~= s.to_multiset().insert(x)) by {
            assert(seq![x] =~= s.push(x));
        }
    } else if s[0] <= x {
        let t = seq![x] + s;
        assert(t.drop_first() =~= s);
        assert(t =~= sorted_insert(s, x));
        assert(t.to_multiset() =~= s.to_multiset().insert(x)) by {
            vstd::seq_lib::lemma_multiset_commutative(seq![x], s);
            assert(seq![x].to_multiset() =~= Seq::<u64>::empty().push(x).to_multiset()) by {
                assert(seq![x] =~= Seq::<u64>::empty().push(x));
            }
        }
    } else {
        let rest = s.drop_first();
        assert(sorted_desc(rest));
        lemma_sorted_insert(rest, x);
        let u = sorted_insert(rest, x);
        let t = seq![s[0]] + u;
        assert(t =~= sorted_insert(s, x));
        assert forall|i: int, j: int| 0 <= i < j < t.len() implies t[i] >= t[j] by {
            if i == 0 {
                let y = t[j];
                assert(u[j - 1] == y);
                assert(u.to_multiset().count(y) > 0);
                if y != x {
                    assert(rest.to_multiset().count(y) > 0);
                    assert(rest.contains(y));
                    let k = choose|k: int| 0 <= k < rest.len() && rest[k] == y;
                    assert(s[k + 1] == y);
                }
            }
        }
        assert(s =~= seq![s[0]] + rest);
        vstd::seq_lib::lemma_multiset_commutative(seq![s[0]], u);
        vstd::seq_lib::lemma_multiset_commutative(seq![s[0]], rest);
    }
}

/// Strictly ordered from largest to smallest: sorted, and no ordinal twice.
pub open spec fn strictly_desc(s: Seq<u64>) -> bool {
    forall|i: int, j: int| 0 <= i < j < s.len() ==> s[i] > s[j]
}

/// Inserting an ordinal that is not there keeps the order strict.
pub proof fn lemma_sorted_insert_strict(s: Seq<u64>, x: u64)
    requires
        strictly_desc(s),
        !s.contains(x),
    ensures
        strictly_desc(sorted_insert(s, x)),
    decreases s.len(),
{
    broadcast use vstd::seq_lib::group_to_multiset_ensures;

    lemma_sorted_insert(s, x);
    if s.len() > 0 && s[0] > x {
        let rest = s.drop_first();
        assert(!rest.contains(x)) by {
            if rest.contains(x) {
                let k = choose|k: int| 0 <= k < rest.len() && rest[k] == x;
                assert(s[k + 1] == x);
            }
        }
        lemma_sorted_insert_strict(rest, x);
        lemma_sorted_insert(rest, x);
        let u = sorted_insert(rest, x);
        let t = sorted_insert(s, x);
        assert(t =~= seq![s[0]] + u);
        assert forall|i: int, j: int| 0 <= i < j < t.len() implies t[i] > t[j] by {
            if i == 0 {
                let y = t[j];
                assert(u[j - 1] == y);
                assert(u.to_multiset().count(y) > 0);
                if y != x {
                    assert(rest.to_multiset().count(y) > 0);
                    assert(rest.contains(y));
                    let k = choose|k: int| 0 <= k < rest.len() && rest[k] == y;
                    assert(s[k + 1] == y);
                }
            }
        }
    } else if s.len() > 0 {
        assert(s[0] != x) by {
            assert(s[0] == s[0]);
            if s[0] == x {
                assert(s.contains(x));
            }
        }
        let t = sorted_insert(s, x);
        assert(t =~= seq![x] + s);
    } else {
        assert(sorted_insert(s, x) =~= seq![x]);
    }
}

/// Releasing an ordinal and then acquiring one hands back a released ordinal,
/// the largest of those released, and issues no fresh one.
pub proof fn lemma_release_then_acquire(v: SlotView, x: u64)
    requires
        sorted_desc(v.released),
    ensures
        acquire_outcome(release_outcome(v, x)).1 == Ok::<u64, DeviceError>(
            if v.released.len() > 0 && v.released[0] > x {
                v.released[0]
            } else {
                x
            },
        ),
        acquire_outcome(release_outcome(v, x)).0.next == v.next,
        acquire_outcome(release_outcome(v, x)).0.released.to_multiset()
            == release_outcome(v, x).released.to_multiset().remove(
            acquire_outcome(release_outcome(v, x)).1->Ok_0,
        ),
{
    broadcast use vstd::seq_lib::group_to_multiset_ensures;

    lemma_sorted_insert(v.released, x);
    let t = sorted_insert(v.released, x);
    assert(t =~= seq![t[0]] + t.drop_first());
    vstd::seq_lib::lemma_multiset_commutative(seq![t[0]], t.drop_first());
    assert(seq![t[0]].to_multiset() =~= Seq::<u64>::empty().push(t[0]).to_multiset()) by {
        assert(seq![t[0]] =~= Seq::<u64>::empty().push(t[0]));
    }
    assert(t.drop_first().to_multiset() =~= t.to_multiset().remove(t[0]));
}

impl SlotAllocator {
    /// Released ordinals are kept largest first.
    pub closed spec fn wf(&self) -> bool {
        sorted_desc(self.released_index@)
    }

    /// An allocator that has issued nothing.
    pub fn new() -> (r: Self)
        ensures
            r.wf(),
            sorted_desc(r@.released),
            r@ == (SlotView { next: 0, released: Seq::empty() }),
    {
        SlotAllocator { block_index: 0, released_index: Vec::new() }
    }

    /// The next fresh ordinal.
    pub fn block_index(&self) -> (r: u64)
        ensures
            r == self@.next,
    {
        self.block_index
    }

    /// The released ordinals, largest first.
    pub fn released_indices(&self) -> (r: Vec<u64>)
        ensures
            r@ == self@.released,
    {
        self.released_index.clone()
    }

    /// Issues an ordinal: the largest released one if any is, else the next
    /// fresh one. Fails only when every ordinal has been issued.
    pub fn acquire(&mut self) -> (r: Result<u64, DeviceError>)
        requires
            old(self).wf(),
        ensures
            final(self).wf(),
            sorted_desc(final(self)@.released),
            (final(self)@, r) == acquire_outcome(old(self)@),
    {
        if self.released_index.len() > 0 {
            let index = self.released_index.remove(0);
            assert(self.released_index@ =~= old(self)@.released.drop_first());
            Ok(index)
        } else if self.block_index < u64::MAX {
            let index = self.block_index;
            self.block_index = self.block_index + 1;
            Ok(index)
        } else {
            Err(DeviceError::IndexOverflow)
        }
    }

    /// Returns an ordinal to the pool, keeping the pool largest first. Callers
    /// release only what they acquired.
    pub fn release(&mut self, index: u64)
        requires
            old(self).wf(),
        ensures
            final(self).wf(),
            sorted_desc(final(self)@.released),
            final(self)@ == release_outcome(old(self)@, index),
    {
        let ghost s = self.released_index@;
        proof {
            lemma_sorted_insert(s, index);
        }
        let mut i: usize = 0;
        assert(s.subrange(0, s.len() as int) =~= s);
        assert(s.subrange(0, 0) + sorted_insert(s.subrange(0, s.len() as int), index) =~= sorted_insert(s, index));
        while i < self.released_index.len()
            invariant
                self.released_index@ == s,
                s == old(self)@.released,
                self.block_index == old(self)@.next,
                sorted_desc(sorted_insert(s, index)),
                i <= s.len(),
                sorted_insert(s, index) == s.subrange(0, i as int) + sorted_insert(
                    s.subrange(i as int, s.len() as int),
                    index,
                ),
            decreases s.len() - i,
        {
            let ghost rest = s.subrange(i as int, s.len() as int);
            if self.released_index[i] <= index {
                assert(sorted_insert(rest, index) == seq![index] + rest);
                self.released_index.insert(i, index);
                assert(self.released_index@ =~= s.subrange(0, i as int) + sorted_insert(rest, index));
                return;
            }
            assert(rest.drop_first() =~= s.subrange(i + 1, s.len() as int));
            assert(s.subrange(0, i + 1) =~= s.subrange(0, i as int) + seq![rest[0]]);
            i = i + 1;
        }
        assert(s.subrange(i as int, s.len() as int) =~= Seq::<u64>::empty());
        assert(sorted_insert(Seq::<u64>::empty(), index) == seq![index]);
        self.released_index.push(index);
        assert(self.released_index@ =~= s.subrange(0, i as int) + sorted_insert(
            s.subrange(i as int, s.len() as int),
            index,
        ));
    }
}

} // verus!
