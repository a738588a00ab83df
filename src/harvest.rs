//! Reassembly of chunk results in plan order: results arrive in whatever
//! order their fetches complete and leave in the order the chunks were
//! planned.
use vstd::prelude::*;

verus! {

/// How many results from `next` on are waiting, without a gap.
pub open spec fn ready_len<T>(slots: Seq<Option<T>>, next: int) -> int
    decreases slots.len() - next,
{
    if 0 <= next < slots.len() && slots[next] is Some {
        1 + ready_len(slots, next + 1)
    } else {
        0
    }
}

/// The waiting results from `next` on, in plan order, up to the first gap.
pub open spec fn ready_values<T>(slots: Seq<Option<T>>, next: int) -> Seq<T> {
    Seq::new(ready_len(slots, next) as nat, |j: int| slots[next + j]->Some_0)
}

/// The slots with `from..to` emptied.
pub open spec fn cleared<T>(slots: Seq<Option<T>>, from: int, to: int) -> Seq<Option<T>> {
    Seq::new(slots.len(), |i: int| if from <= i < to { None } else { slots[i] })
}

/// Holds finished chunk results until every earlier chunk's result has
/// arrived, and hands them out in plan order.
pub struct OrderedCollector<T> {
    slots: Vec<Option<T>>,
    next: usize,
}

impl<T> OrderedCollector<T> {
    /// The results that arrived and were not handed out, by chunk index.
    pub closed spec fn slots(&self) -> Seq<Option<T>> {
        self.slots@
    }

    /// The index of the first chunk whose result was not handed out.
    pub closed spec fn next(&self) -> int {
        self.next as int
    }

    /// The collector's invariant: every slot before `next` is empty.
    pub open spec fn wf(&self) -> bool {
        &&& 0 <= self.next() <= self.slots().len()
        &&& forall|i: int| 0 <= i < self.next() ==> #[trigger] self.slots()[i] is None
    }

    /// A collector for `n` chunks, none arrived.
    pub fn new(n: usize) -> (r: Self)
        ensures
            r.wf(),
            r.next() == 0,
            r.slots() == Seq::new(n as nat, |i: int| None::<T>),
    {
        let mut slots: Vec<Option<T>> = Vec::new();
        let mut i: usize = 0;
        while i < n
            invariant
                i <= n,
                slots@ == Seq::new(i as nat, |j: int| None::<T>),
            decreases n - i,
        {
            slots.push(None);
            i = i + 1;
            assert(slots@ =~= Seq::new(i as nat, |j: int| None::<T>));
        }
        OrderedCollector { slots, next: 0 }
    }

    /// The number of chunks.
    pub fn len(&self) -> (r: usize)
        ensures
            r == self.slots().len(),
    {
        self.slots.len()
    }

    /// Whether every chunk's result was handed out.
    pub fn is_complete(&self) -> (r: bool)
        requires
            self.wf(),
        ensures
            r == (self.next() == self.slots().len()),
    {
        self.next == self.slots.len()
    }

    /// Whether the result of chunk `index` may be delivered: the chunk
    /// exists and its result neither waits nor was handed out.
    pub fn accepts(&self, index: usize) -> (r: bool)
        requires
            self.wf(),
        ensures
            r == (self.next() <= index < self.slots().len() && self.slots()[index as int] is None),
    {
        index >= self.next && index < self.slots.len() && self.slots[index].is_none()
    }

    /// Stores the result of chunk `index`.
    pub fn deliver(&mut self, index: usize, value: T)
        requires
            old(self).wf(),
            old(self).next() <= index < old(self).slots().len(),
            old(self).slots()[index as int] is None,
        ensures
            final(self).wf(),
            final(self).next() == old(self).next(),
            final(self).slots() == old(self).slots().update(index as int, Some(value)),
    {
        self.slots.set(index, Some(value));
    }

    /// Hands out, in plan order, the results that wait from the first chunk
    /// not yet handed out up to the first gap.
    pub fn take_ready(&mut self) -> (r: Vec<T>)
        requires
            old(self).wf(),
        ensures
            final(self).wf(),
            r@ == ready_values(old(self).slots(), old(self).next()),
            final(self).next() == old(self).next() + ready_len(old(self).slots(), old(self).next()),
            final(self).slots() == cleared(
                old(self).slots(),
                old(self).next(),
                final(self).next(),
            ),
    {
        let ghost s0 = self.slots@;
        let ghost n0 = self.next as int;
        let mut out: Vec<T> = Vec::new();
        proof {
            lemma_ready_len_bounds(s0, n0);
        }
        while self.next < self.slots.len() && self.slots[self.next].is_some()
            invariant
                self.slots@.len() == s0.len(),
                0 <= n0 <= self.next <= s0.len(),
                ready_len(s0, self.next as int) + self.next == ready_len(s0, n0) + n0,
                self.slots@ == cleared(s0, n0, self.next as int),
                out@ == ready_values(s0, n0).subrange(0, self.next - n0),
                forall|i: int| 0 <= i < n0 ==> #[trigger] s0[i] is None,
            decreases s0.len() - self.next,
        {
            let i = self.next;
            proof {
                lemma_ready_len_bounds(s0, n0);
                lemma_ready_len_bounds(s0, i + 1);
            }
            let mut taken: Option<T> = None;
            std::mem::swap(&mut taken, &mut self.slots[i]);
            match taken {
                Some(v) => {
                    out.push(v);
                },
                None => {},
            }
            self.next = i + 1;
            assert(self.slots@ =~= cleared(s0, n0, self.next as int));
            assert(out@ =~= ready_values(s0, n0).subrange(0, self.next - n0));
        }
        proof {
            lemma_ready_len_bounds(s0, n0);
            assert(ready_len(s0, self.next as int) == 0);
            assert(out@ =~= ready_values(s0, n0));
        }
        out
    }
}

proof fn lemma_ready_len_bounds<T>(slots: Seq<Option<T>>, next: int)
    requires
        0 <= next <= slots.len(),
    ensures
        0 <= ready_len(slots, next) <= slots.len() - next,
        forall|j: int| next <= j < next + ready_len(slots, next) ==> #[trigger] slots[j] is Some,
        next + ready_len(slots, next) < slots.len() ==> slots[next + ready_len(slots, next)] is None,
    decreases slots.len() - next,
{
    if next < slots.len() && slots[next] is Some {
        lemma_ready_len_bounds(slots, next + 1);
    }
}

/// Whether `order` lists each of the chunk indices `0..n` exactly once.
pub open spec fn is_arrival_order(order: Seq<int>, n: int) -> bool {
    &&& order.len() == n
    &&& forall|i: int| 0 <= i < n ==> 0 <= #[trigger] order[i] < n
    &&& forall|i: int, j: int| 0 <= i < n && 0 <= j < n && #[trigger] order[i] == #[trigger] order[j] ==> i == j
}

/// What a collector with `slots`, handing out from `next`, hands out in all
/// when the results arrive in the order `order`, chunk `c` carrying
/// `values[c]`, and what is ready is taken after each arrival.
pub open spec fn collect_run<T>(
    slots: Seq<Option<T>>,
    next: int,
    order: Seq<int>,
    values: Seq<T>,
) -> Seq<T>
    decreases order.len(),
{
    if order.len() == 0 {
        Seq::empty()
    } else {
        let s1 = slots.update(order[0], Some(values[order[0]]));
        let k = ready_len(s1, next);
        ready_values(s1, next) + collect_run(
            cleared(s1, next, next + k),
            next + k,
            order.drop_first(),
            values,
        )
    }
}

/// Output order does not depend on completion order: whatever order the
/// chunk results arrive in, a collector that takes what is ready after each
/// arrival hands out exactly the results in plan order, as it does when they
/// arrive in plan order.
pub proof fn lemma_arrival_order_irrelevant<T>(order: Seq<int>, values: Seq<T>)
    requires
        is_arrival_order(order, values.len() as int),
    ensures
        collect_run(Seq::new(values.len(), |i: int| None::<T>), 0, order, values) == values,
{
    let n = values.len() as int;
    let slots = Seq::new(values.len(), |i: int| None::<T>);
    assert forall|i: int| 0 <= i < n implies order.contains(i) by {
        lemma_permutation_covers(order, n, i);
    }
    lemma_collect_run_from(slots, 0, order, values);
    assert(values.subrange(0, n) =~= values);
}

proof fn lemma_permutation_covers(order: Seq<int>, n: int, v: int)
    requires
        is_arrival_order(order, n),
        0 <= v < n,
    ensures
        order.contains(v),
{
    let image = Set::new(|x: int| exists|i: int| 0 <= i < n && order[i] == x);
    let range = Set::new(|x: int| 0 <= x < n);
    if !order.contains(v) {
        let f = |i: int| order[i];
        let dom = Set::new(|i: int| 0 <= i < n);
        vstd::set_lib::lemma_int_range(0, n);
        assert(dom =~= vstd::set_lib::set_int_range(0, n));
        assert(range =~= vstd::set_lib::set_int_range(0, n));
        let smaller = range.remove(v);
        assert(image.subset_of(smaller)) by {
            assert forall|x: int| image.contains(x) implies smaller.contains(x) by {
                let i = choose|i: int| 0 <= i < n && order[i] == x;
                assert(order.contains(x));
            }
        }
        assert(dom.map(f) =~= image) by {
            assert forall|x: int| image.contains(x) implies dom.map(f).contains(x) by {
                let i = choose|i: int| 0 <= i < n && order[i] == x;
                assert(dom.contains(i) && f(i) == x);
            }
        }
        vstd::set_lib::lemma_map_size(dom, image, f);
        vstd::set_lib::lemma_len_subset(image, smaller);
    }
}

proof fn lemma_collect_run_from<T>(slots: Seq<Option<T>>, next: int, rest: Seq<int>, values: Seq<T>)
    requires
        slots.len() == values.len(),
        0 <= next <= slots.len(),
        forall|i: int| 0 <= i < rest.len() ==> next <= #[trigger] rest[i] < slots.len(),
        forall|i: int, j: int|
            0 <= i < rest.len() && 0 <= j < rest.len() && #[trigger] rest[i] == #[trigger] rest[j] ==> i == j,
        forall|i: int|
            next <= i < slots.len() ==> #[trigger] slots[i] == if rest.contains(i) {
                None
            } else {
                Some(values[i])
            },
        next < slots.len() ==> rest.contains(next),
    ensures
        collect_run(slots, next, rest, values) == values.subrange(next, values.len() as int),
    decreases rest.len(),
{
    let n = slots.len() as int;
    if rest.len() == 0 {
        assert(values.subrange(next, n) =~= Seq::<T>::empty());
    } else {
        let c = rest[0];
        let s1 = slots.update(c, Some(values[c]));
        let k = ready_len(s1, next);
        let next2 = next + k;
        let rest2 = rest.drop_first();
        lemma_ready_len_bounds(s1, next);
        assert forall|i: int| next <= i < n implies #[trigger] s1[i] == if rest2.contains(i) {
            None
        } else {
            Some(values[i])
        } by {
            if i == c {
                if rest2.contains(i) {
                    let j = choose|j: int| 0 <= j < rest2.len() && rest2[j] == i;
                    assert(rest[j + 1] == rest[0]);
                }
            } else {
                if rest.contains(i) {
                    let j = choose|j: int| 0 <= j < rest.len() && rest[j] == i;
                    assert(j != 0);
                    assert(rest2[j - 1] == i);
                } else {
                    if rest2.contains(i) {
                        let j = choose|j: int| 0 <= j < rest2.len() && rest2[j] == i;
                        assert(rest[j + 1] == i);
                    }
                }
            }
        }
        assert(ready_values(s1, next) =~= values.subrange(next, next2));
        let s2 = cleared(s1, next, next2);
        assert forall|i: int| 0 <= i < rest2.len() implies next2 <= #[trigger] rest2[i] < n by {
            assert(rest2[i] == rest[i + 1]);
            assert(rest2.contains(rest2[i]));
            if rest2[i] < next2 {
                assert(s1[rest2[i]] is Some);
            }
        }
        assert forall|i: int, j: int|
            0 <= i < rest2.len() && 0 <= j < rest2.len() && #[trigger] rest2[i] == #[trigger] rest2[j] implies i
            == j by {
            assert(rest[i + 1] == rest[j + 1]);
        }
        assert forall|i: int| next2 <= i < n implies #[trigger] s2[i] == if rest2.contains(i) {
            None
        } else {
            Some(values[i])
        } by {
            assert(s1[i] == if rest2.contains(i) { None } else { Some(values[i]) });
        }
        if next2 < n {
            assert(s1[next2] is None);
        }
        lemma_collect_run_from(s2, next2, rest2, values);
        assert(values.subrange(next, next2) + values.subrange(next2, n) =~= values.subrange(next, n));
    }
}

} // verus!
