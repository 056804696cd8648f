//! Buffer of slices: items are pushed one by one and committed as a slice; slices are
//! carved out of segments that are kept until the buffer is cleared.

use vstd::prelude::*;
use vstd::slice::slice_subrange;

verus! {

/// Buffer that hands out slices of items, allocated from segments of growing size.
pub struct SliceBuf<T> {
    segment_capacity: usize,
    inner: SliceBufInner<T>,
}

/// Segments of a `SliceBuf` and the slice being built.
pub struct SliceBufInner<T> {
    segments: Vec<Segment<T>>,
    current: Option<CurrentState>,
}

/// Segment: committed items first, then the items of the slice being built, if it is
/// built in this segment.
struct Segment<T> {
    data: Vec<T>,
    capacity: usize,
    used: usize,
}

/// Slice being built: its segment and its number of items.
#[derive(Clone, Copy)]
struct CurrentState {
    segment_idx: usize,
    items: usize,
}

/// Smallest of `size`, `2 * size`, `4 * size`, ... that is at least `capacity`.
pub open spec fn grown_size(size: int, capacity: int) -> int
    decreases (if size < capacity {
        capacity - size
    } else {
        0
    }),
{
    if size >= capacity || size <= 0 {
        size
    } else {
        grown_size(2 * size, capacity)
    }
}

impl<T> SliceBufInner<T> {
    /// Capacity of each segment.
    pub closed spec fn capacities(&self) -> Seq<usize> {
        Seq::new(self.segments@.len(), |k: int| self.segments@[k].capacity)
    }

    /// Committed items of each segment.
    pub closed spec fn committed(&self) -> Seq<Seq<T>> {
        Seq::new(self.segments@.len(), |k: int| self.segments@[k].data@.subrange(0, self.segments@[k].used as int))
    }

    /// Segment and items of the slice being built, if one is.
    pub closed spec fn pending(&self) -> Option<(usize, Seq<T>)> {
        match self.current {
            Some(c) => {
                let seg = self.segments@[c.segment_idx as int];
                Some((c.segment_idx, seg.data@.subrange(seg.used as int, seg.data@.len() as int)))
            },
            None => None,
        }
    }

    /// Each segment holds at most its capacity; only the segment of the slice being built
    /// holds items beyond its committed ones.
    pub closed spec fn wf(&self) -> bool {
        &&& forall|k: int|
            0 <= k < self.segments@.len() ==> {
                let seg = #[trigger] self.segments@[k];
                &&& seg.used <= seg.data@.len() <= seg.capacity
                &&& (self.current matches Some(c) && c.segment_idx == k) || seg.data@.len() == seg.used
            }
        &&& self.current matches Some(c) ==> c.segment_idx < self.segments@.len() && self.segments@[c.segment_idx as int].data@.len()
            == self.segments@[c.segment_idx as int].used + c.items
    }

    /// If there is already a partial segment, drop items in it.
    pub fn drop_current(&mut self)
        requires
            old(self).wf(),
        ensures
            final(self).wf(),
            final(self).capacities() == old(self).capacities(),
            final(self).committed() == old(self).committed(),
            final(self).pending() is None,
    {
        match self.current.take() {
            Some(current) => {
                let idx = current.segment_idx;
                let used = self.segments[idx].used;
                let ghost before = self.segments@;
                self.segments[idx].data.truncate(used);
                proof {
                    assert forall|k: int| 0 <= k < self.segments@.len() && k != idx implies #[trigger] self.segments@[k]
                        == before[k] by {}
                    assert(self.committed() =~= old(self).committed()) by {
                        assert forall|k: int| 0 <= k < self.segments@.len() implies #[trigger] self.committed()[k]
                            == old(self).committed()[k] by {
                            if k == idx {
                                assert(self.segments@[k].data@ =~= before[k].data@.subrange(0, used as int));
                            }
                        }
                    }
                    assert(self.capacities() =~= old(self).capacities());
                }
            },
            None => {},
        }
    }
}

impl<T> SliceBuf<T> {
    /// Capacity given to new segments, before growth.
    pub closed spec fn segment_capacity_view(&self) -> usize {
        self.segment_capacity
    }

    /// Capacity of each segment.
    pub closed spec fn capacities(&self) -> Seq<usize> {
        self.inner.capacities()
    }

    /// Committed items of each segment.
    pub closed spec fn committed(&self) -> Seq<Seq<T>> {
        self.inner.committed()
    }

    /// Segment and items of the slice being built, if one is.
    pub closed spec fn pending(&self) -> Option<(usize, Seq<T>)> {
        self.inner.pending()
    }

    /// The segments and the slice being built are consistent.
    pub closed spec fn wf(&self) -> bool {
        self.inner.wf()
    }

    /// Create a buffer whose segments hold 1024 items at least.
    pub fn new() -> (r: Self)
        ensures
            r.wf(),
            r.segment_capacity_view() == 1024,
            r.capacities() == Seq::<usize>::empty(),
            r.committed() == Seq::<Seq<T>>::empty(),
            r.pending() is None,
    {
        SliceBuf::with_segment_capacity(1024)
    }

    /// Create a buffer whose segments hold `segment_capacity` items at least.
    pub fn with_segment_capacity(segment_capacity: usize) -> (r: Self)
        ensures
            r.wf(),
            r.segment_capacity_view() == segment_capacity,
            r.capacities() == Seq::<usize>::empty(),
            r.committed() == Seq::<Seq<T>>::empty(),
            r.pending() is None,
    {
        let r = SliceBuf { segment_capacity, inner: SliceBufInner { segments: Vec::new(), current: None } };
        proof {
            assert(r.capacities() =~= Seq::<usize>::empty());
            assert(r.committed() =~= Seq::<Seq<T>>::empty());
        }
        r
    }

    /// Start building a slice of up to 32 items.
    pub fn start(&mut self)
        requires
            old(self).wf(),
            old(self).segment_capacity_view() > 0,
        ensures
            final(self).started(old(self), 32),
    {
        self.start_with_capacity(32)
    }

    /// `self` is `old` after starting a slice of up to `capacity` items: the items of the
    /// slice `old` was building are dropped, and the slice is built at the end of the last
    /// segment when it has room for `capacity` more items, else in a new segment whose
    /// capacity is the segment capacity doubled until it holds `capacity` items.
    pub open spec fn started(&self, old: &Self, capacity: usize) -> bool {
        let n = old.capacities().len();
        let room = n > 0 && old.capacities()[n - 1] - old.committed()[n - 1].len() >= capacity;
        &&& self.wf()
        &&& self.segment_capacity_view() == old.segment_capacity_view()
        &&& room ==> {
            &&& self.capacities() == old.capacities()
            &&& self.committed() == old.committed()
            &&& self.pending() == Some((sub1(n), Seq::<T>::empty()))
        }
        &&& !room ==> {
            &&& self.capacities() == old.capacities().push(
                grown_size(old.segment_capacity_view() as int, capacity as int) as usize,
            )
            &&& self.committed() == old.committed().push(Seq::<T>::empty())
            &&& self.pending() == Some((n as usize, Seq::<T>::empty()))
        }
    }

    /// Start building a slice of up to `capacity` items.
    pub fn start_with_capacity(&mut self, capacity: usize)
        requires
            old(self).wf(),
            old(self).segment_capacity_view() > 0 || capacity == 0,
            capacity <= usize::MAX / 2 + 1,
        ensures
            final(self).started(old(self), capacity),
    {
        self.inner.drop_current();
        let segments_len = self.inner.segments.len();
        if segments_len > 0 {
            let last = &self.inner.segments[segments_len - 1];
            proof {
                assert(self.inner.committed()[segments_len - 1].len() == last.used);
                assert(self.inner.capacities()[segments_len - 1] == last.capacity);
            }
            if last.capacity - last.used >= capacity {
                self.inner.current = Some(CurrentState { segment_idx: segments_len - 1, items: 0 });
                proof {
                    assert(self.inner.committed() =~= old(self).committed());
                    assert(self.inner.capacities() =~= old(self).capacities());
                    let seg = self.inner.segments@[segments_len - 1];
                    assert(seg.data@.subrange(seg.used as int, seg.data@.len() as int) =~= Seq::<T>::empty());
                }
                return;
            }
        }
        let mut to_create_segment_size = self.segment_capacity;
        while to_create_segment_size < capacity
            invariant
                0 < to_create_segment_size || capacity == 0,
                to_create_segment_size < capacity ==> to_create_segment_size <= capacity - 1,
                capacity <= usize::MAX / 2 + 1,
                grown_size(to_create_segment_size as int, capacity as int) == grown_size(
                    self.segment_capacity as int,
                    capacity as int,
                ),
            decreases (if to_create_segment_size < capacity {
                capacity - to_create_segment_size
            } else {
                0
            }),
        {
            to_create_segment_size = to_create_segment_size * 2;
        }
        let ghost before = self.inner.segments@;
        let ghost mid = self.inner.committed();
        self.inner.segments.push(Segment { data: Vec::new(), capacity: to_create_segment_size, used: 0 });
        self.inner.current = Some(CurrentState { segment_idx: segments_len, items: 0 });
        proof {
            assert forall|k: int| 0 <= k < segments_len implies #[trigger] self.inner.segments@[k] == before[k] by {}
            assert(self.inner.committed() =~= old(self).committed().push(Seq::<T>::empty())) by {
                assert(self.inner.segments@[segments_len as int].data@ =~= Seq::<T>::empty());
                assert forall|k: int| 0 <= k < segments_len implies #[trigger] self.inner.committed()[k] == mid[k] by {}
                assert(self.inner.committed()[segments_len as int] =~= Seq::<T>::empty());
                assert(mid == old(self).committed());
                assert(self.inner.committed().len() == segments_len + 1);
            }
            assert(self.inner.capacities() =~= old(self).capacities().push(to_create_segment_size));
            let seg = self.inner.segments@[segments_len as int];
            assert(seg.data@.subrange(seg.used as int, seg.data@.len() as int) =~= Seq::<T>::empty());
        }
    }

    /// Add an item to the slice being built.
    pub fn push(&mut self, item: T)
        requires
            old(self).wf(),
            old(self).pending() matches Some((k, items)) && old(self).committed()[k as int].len() + items.len()
                < old(self).capacities()[k as int],
        ensures
            final(self).wf(),
            final(self).segment_capacity_view() == old(self).segment_capacity_view(),
            final(self).capacities() == old(self).capacities(),
            final(self).committed() == old(self).committed(),
            final(self).pending() == Some((old(self).pending().unwrap().0, old(self).pending().unwrap().1.push(item))),
    {
        let current = match self.inner.current {
            Some(c) => c,
            None => {
                proof {
                    assert(false);
                }
                return;
            },
        };
        let idx = current.segment_idx;
        let ghost before = self.inner.segments@;
        proof {
            assert(self.inner.committed()[idx as int].len() == before[idx as int].used);
            assert(self.inner.capacities()[idx as int] == before[idx as int].capacity);
        }
        self.inner.segments[idx].data.push(item);
        self.inner.current = Some(CurrentState { segment_idx: idx, items: current.items + 1 });
        proof {
            assert forall|k: int| 0 <= k < before.len() && k != idx implies #[trigger] self.inner.segments@[k] == before[k] by {}
            assert(self.inner.committed() =~= old(self).committed()) by {
                assert forall|k: int| 0 <= k < before.len() implies #[trigger] self.inner.committed()[k]
                    == old(self).committed()[k] by {
                    if k == idx {
                        assert(self.inner.segments@[k].data@.subrange(0, before[k].used as int) =~= before[k].data@.subrange(
                            0,
                            before[k].used as int,
                        ));
                    }
                }
            }
            assert(self.inner.capacities() =~= old(self).capacities());
            let seg = self.inner.segments@[idx as int];
            let old_seg = before[idx as int];
            assert(seg.data@.subrange(seg.used as int, seg.data@.len() as int) =~= old_seg.data@.subrange(
                old_seg.used as int,
                old_seg.data@.len() as int,
            ).push(item));
        }
    }

    /// Finish the slice being built and return it.
    pub fn commit(&mut self) -> (r: &[T])
        requires
            old(self).wf(),
            old(self).pending() is Some,
        ensures
            final(self).wf(),
            final(self).segment_capacity_view() == old(self).segment_capacity_view(),
            final(self).capacities() == old(self).capacities(),
            final(self).pending() is None,
            ({
                let (k, items) = old(self).pending().unwrap();
                &&& final(self).committed() == old(self).committed().update(
                    k as int,
                    old(self).committed()[k as int] + items,
                )
                &&& r@ == items
            }),
    {
        let current = match self.inner.current.take() {
            Some(c) => c,
            None => {
                proof {
                    assert(false);
                }
                return slice_subrange(self.inner.segments[0].data.as_slice(), 0, 0);
            },
        };
        let idx = current.segment_idx;
        let ghost before = self.inner.segments@;
        let start = self.inner.segments[idx].used;
        let end = start + current.items;
        self.inner.segments[idx].used = end;
        proof {
            assert forall|k: int| 0 <= k < before.len() && k != idx implies #[trigger] self.inner.segments@[k] == before[k] by {}
            assert(self.inner.committed() =~= old(self).committed().update(
                idx as int,
                old(self).committed()[idx as int] + old(self).pending().unwrap().1,
            )) by {
                assert forall|k: int| 0 <= k < before.len() implies #[trigger] self.inner.committed()[k]
                    == old(self).committed().update(
                    idx as int,
                    old(self).committed()[idx as int] + old(self).pending().unwrap().1,
                )[k] by {
                    if k == idx {
                        assert(self.inner.segments@[k].data@.subrange(0, end as int) =~= before[k].data@.subrange(
                            0,
                            start as int,
                        ) + before[k].data@.subrange(start as int, before[k].data@.len() as int));
                    }
                }
            }
            assert(self.inner.capacities() =~= old(self).capacities());
        }
        slice_subrange(self.inner.segments[idx].data.as_slice(), start, end)
    }

    /// Drop all items and segments.
    pub fn clear(&mut self)
        ensures
            final(self).wf(),
            final(self).segment_capacity_view() == old(self).segment_capacity_view(),
            final(self).capacities() == Seq::<usize>::empty(),
            final(self).committed() == Seq::<Seq<T>>::empty(),
            final(self).pending() is None,
    {
        self.inner = SliceBufInner { segments: Vec::new(), current: None };
        proof {
            assert(self.inner.capacities() =~= Seq::<usize>::empty());
            assert(self.inner.committed() =~= Seq::<Seq<T>>::empty());
        }
    }
}

/// A well-formed buffer has one committed sequence per segment, each within the segment's
/// capacity, and the slice being built fits in its segment.
pub proof fn lemma_committed_fits<T>(buf: &SliceBuf<T>)
    requires
        buf.wf(),
    ensures
        buf.committed().len() == buf.capacities().len(),
        forall|k: int| 0 <= k < buf.capacities().len() ==> #[trigger] buf.committed()[k].len() <= buf.capacities()[k],
        buf.pending() matches Some((k, items)) ==> k < buf.capacities().len() && buf.committed()[k as int].len()
            + items.len() <= buf.capacities()[k as int],
{
    assert forall|k: int| 0 <= k < buf.capacities().len() implies #[trigger] buf.committed()[k].len()
        <= buf.capacities()[k] by {
        let seg = buf.inner.segments@[k];
        assert(seg.used <= seg.data@.len() <= seg.capacity);
    }
}

/// Growing a positive size by doubling reaches the capacity asked for.
pub proof fn lemma_grown_size_covers(size: int, capacity: int)
    requires
        size > 0,
    ensures
        grown_size(size, capacity) >= capacity,
        grown_size(size, capacity) >= size,
    decreases (if size < capacity {
        capacity - size
    } else {
        0
    }),
{
    if size < capacity {
        lemma_grown_size_covers(2 * size, capacity);
    }
}

/// `n - 1` as an index.
pub open spec fn sub1(n: nat) -> usize {
    (n - 1) as usize
}

} // verus!
