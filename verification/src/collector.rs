//! Bounded lists of the best results seen so far.
//!
//! A list keeps at most a fixed number of entries, each a value with its
//! balance, sorted by balance from the highest down. A new entry goes behind
//! the entries whose balance is not lower than its own; what no longer fits
//! drops off the end.

use vstd::prelude::*;

verus! {

/// Whether the balances of `entries` never rise from one entry to the next.
pub open spec fn descending<P>(entries: Seq<(P, i128)>) -> bool {
    forall|i: int, j: int| 0 <= i < j < entries.len() ==> entries[i].1 >= entries[j].1
}

/// The number of entries at the front of `entries` whose balance is at least `balance`.
pub open spec fn rank<P>(entries: Seq<(P, i128)>, balance: i128) -> nat
    decreases entries.len(),
{
    if entries.len() == 0 || entries.first().1 < balance {
        0
    } else {
        1 + rank(entries.drop_first(), balance)
    }
}

/// The mathematical content of a [`TopK`].
pub struct TopKView<P> {
    /// The number of entries that the list keeps at most.
    pub capacity: nat,
    /// The entries kept, best first.
    pub entries: Seq<(P, i128)>,
    /// The number of entries pushed so far.
    pub pushes: nat,
}

impl<P> TopKView<P> {
    /// The list before the first push.
    pub open spec fn empty(capacity: nat) -> TopKView<P> {
        TopKView { capacity, entries: Seq::empty(), pushes: 0 }
    }

    /// The list holds as many entries as were pushed, up to its capacity, and
    /// they are sorted by balance from the highest down.
    pub open spec fn wf(self) -> bool {
        &&& self.entries.len() == if self.pushes < self.capacity {
            self.pushes
        } else {
            self.capacity
        }
        &&& descending(self.entries)
    }

    /// The list after `entry` was pushed: the entry is inserted behind the
    /// entries whose balance is not lower, and the list is cut to its capacity.
    pub open spec fn push(self, entry: (P, i128)) -> TopKView<P> {
        let inserted = self.entries.insert(rank(self.entries, entry.1) as int, entry);
        TopKView {
            capacity: self.capacity,
            entries: if inserted.len() > self.capacity {
                inserted.take(self.capacity as int)
            } else {
                inserted
            },
            pushes: self.pushes + 1,
        }
    }

    /// The empty list after every entry of `entries` was pushed, first to last.
    pub open spec fn push_all(capacity: nat, entries: Seq<(P, i128)>) -> TopKView<P>
        decreases entries.len(),
    {
        if entries.len() == 0 {
            TopKView::empty(capacity)
        } else {
            TopKView::push_all(capacity, entries.drop_last()).push(entries.last())
        }
    }
}

/// The rank of a balance is the index up to which the balances are at least
/// as high and at which, if there is an entry, the balance is lower.
pub proof fn lemma_rank_is<P>(entries: Seq<(P, i128)>, balance: i128, index: int)
    requires
        0 <= index <= entries.len(),
        forall|j: int| 0 <= j < index ==> entries[j].1 >= balance,
        index < entries.len() ==> entries[index].1 < balance,
    ensures
        rank(entries, balance) == index,
    decreases index,
{
    if index > 0 {
        let rest = entries.drop_first();
        assert forall|j: int| 0 <= j < index - 1 implies rest[j].1 >= balance by {
            assert(rest[j] == entries[j + 1]);
        }
        lemma_rank_is(rest, balance, index - 1);
    }
}

/// The rank of a balance lies within the list, with the balances before it at
/// least as high and, in a sorted list, those from it on lower.
pub proof fn lemma_rank_splits<P>(entries: Seq<(P, i128)>, balance: i128)
    ensures
        rank(entries, balance) <= entries.len(),
        forall|j: int| 0 <= j < rank(entries, balance) ==> entries[j].1 >= balance,
        descending(entries) ==> forall|j: int|
            rank(entries, balance) <= j < entries.len() ==> entries[j].1 < balance,
    decreases entries.len(),
{
    if entries.len() > 0 && entries.first().1 >= balance {
        let rest = entries.drop_first();
        lemma_rank_splits(rest, balance);
        assert forall|j: int| 0 <= j < rank(entries, balance) implies entries[j].1
            >= balance by {
            if j > 0 {
                assert(entries[j] == rest[j - 1]);
            }
        }
        if descending(entries) {
            assert forall|i: int, j: int| 0 <= i < j < rest.len() implies rest[i].1
                >= rest[j].1 by {
                assert(rest[i] == entries[i + 1]);
                assert(rest[j] == entries[j + 1]);
            }
            assert forall|j: int| rank(entries, balance) <= j < entries.len() implies entries[j].1
                < balance by {
                assert(entries[j] == rest[j - 1]);
            }
        }
    }
}

/// A push keeps the list within its capacity and sorted, and counts.
pub proof fn lemma_push_keeps_bound<P>(list: TopKView<P>, entry: (P, i128))
    requires
        list.wf(),
    ensures
        list.push(entry).wf(),
        list.push(entry).capacity == list.capacity,
        list.push(entry).pushes == list.pushes + 1,
{
    lemma_rank_splits(list.entries, entry.1);
    let at = rank(list.entries, entry.1) as int;
    let inserted = list.entries.insert(at, entry);
    assert forall|i: int, j: int| 0 <= i < j < inserted.len() implies inserted[i].1
        >= inserted[j].1 by {
        if j < at {
            assert(inserted[i] == list.entries[i] && inserted[j] == list.entries[j]);
        } else if j == at {
            assert(inserted[i] == list.entries[i]);
        } else if i < at {
            assert(inserted[i] == list.entries[i] && inserted[j] == list.entries[j - 1]);
        } else if i == at {
            assert(inserted[j] == list.entries[j - 1]);
        } else {
            assert(inserted[i] == list.entries[i - 1] && inserted[j] == list.entries[j - 1]);
        }
    }
}

/// After any number of pushes a list holds as many entries as were pushed, up
/// to its capacity, sorted by balance from the highest down.
pub proof fn lemma_top_k_bound<P>(capacity: nat, entries: Seq<(P, i128)>)
    ensures
        TopKView::push_all(capacity, entries).wf(),
        TopKView::push_all(capacity, entries).capacity == capacity,
        TopKView::push_all(capacity, entries).pushes == entries.len(),
        TopKView::push_all(capacity, entries).entries.len() == if entries.len() < capacity {
            entries.len()
        } else {
            capacity
        },
        descending(TopKView::push_all(capacity, entries).entries),
    decreases entries.len(),
{
    if entries.len() > 0 {
        lemma_top_k_bound(capacity, entries.drop_last());
        lemma_push_keeps_bound(TopKView::push_all(capacity, entries.drop_last()), entries.last());
    }
}

/// A list of the best entries pushed into it, up to a fixed number.
pub struct TopK<P> {
    capacity: usize,
    entries: Vec<(P, i128)>,
    pushes: Ghost<nat>,
}

impl<P> View for TopK<P> {
    type V = TopKView<P>;

    closed spec fn view(&self) -> TopKView<P> {
        TopKView { capacity: self.capacity as nat, entries: self.entries@, pushes: self.pushes@ }
    }
}

impl<P> TopK<P> {
    /// Every list is within its capacity and sorted.
    #[verifier::type_invariant]
    pub open spec fn inv(self) -> bool {
        self@.wf()
    }

    /// A list that keeps at most `capacity` entries.
    pub fn new(capacity: usize) -> (r: Self)
        ensures
            r@ == TopKView::<P>::empty(capacity as nat),
    {
        TopK { capacity, entries: Vec::new(), pushes: Ghost(0) }
    }

    /// The number of entries that the list keeps at most.
    pub fn capacity(&self) -> (r: usize)
        ensures
            r == self@.capacity,
    {
        self.capacity
    }

    /// The number of entries kept: the number pushed, up to the capacity.
    pub fn len(&self) -> (r: usize)
        ensures
            r == self@.entries.len(),
            r == if self@.pushes < self@.capacity {
                self@.pushes
            } else {
                self@.capacity
            },
    {
        proof {
            use_type_invariant(self);
        }
        self.entries.len()
    }

    /// The entries kept, sorted by balance from the highest down: as many as
    /// were pushed, up to the capacity.
    pub fn entries(&self) -> (r: &Vec<(P, i128)>)
        ensures
            r@ == self@.entries,
            descending(r@),
            r@.len() == if self@.pushes < self@.capacity {
                self@.pushes
            } else {
                self@.capacity
            },
    {
        proof {
            use_type_invariant(self);
        }
        &self.entries
    }

    /// Pushes `entry` into the list.
    pub fn push(&mut self, entry: (P, i128))
        ensures
            final(self)@ == old(self)@.push(entry),
    {
        proof {
            use_type_invariant(&*self);
            lemma_push_keeps_bound(self@, entry);
        }
        let mut list = TopK::new(0);
        core::mem::swap(self, &mut list);
        let TopK { capacity, mut entries, pushes } = list;
        let mut at: usize = 0;
        while at < entries.len() && entries[at].1 >= entry.1
            invariant
                at <= entries@.len(),
                forall|j: int| 0 <= j < at ==> entries@[j].1 >= entry.1,
            decreases entries@.len() - at,
        {
            at += 1;
        }
        proof {
            lemma_rank_is(entries@, entry.1, at as int);
        }
        entries.insert(at, entry);
        let ghost inserted = entries@;
        entries.truncate(capacity);
        proof {
            if inserted.len() <= capacity {
                assert(entries@ =~= inserted);
            }
        }
        *self = TopK { capacity, entries, pushes: Ghost(pushes@ + 1) };
    }
}

/// The mathematical content of a [`Collector`].
pub struct CollectorView<P> {
    /// The best results.
    pub best: TopKView<P>,
    /// The best of the results whose run ended with an error.
    pub errors: TopKView<P>,
    /// The number of combinations counted as processed.
    pub processed: nat,
}

/// The best results and the best failed results of an optimization, with a
/// count of the combinations processed.
pub struct Collector<P> {
    best: TopK<P>,
    errors: TopK<P>,
    processed: u64,
}

impl<P> View for Collector<P> {
    type V = CollectorView<P>;

    closed spec fn view(&self) -> CollectorView<P> {
        CollectorView {
            best: self.best@,
            errors: self.errors@,
            processed: self.processed as nat,
        }
    }
}

impl<P> Collector<P> {
    /// A collector whose two lists keep at most `capacity` entries each.
    pub fn new(capacity: usize) -> (r: Self)
        ensures
            r@ == (CollectorView::<P> {
                best: TopKView::empty(capacity as nat),
                errors: TopKView::empty(capacity as nat),
                processed: 0,
            }),
    {
        Collector { best: TopK::new(capacity), errors: TopK::new(capacity), processed: 0 }
    }

    /// Pushes `entry` into the list of failed results if `is_error`, into the
    /// list of results otherwise. The other list and the count are unchanged.
    pub fn push_result(&mut self, entry: (P, i128), is_error: bool)
        ensures
            final(self)@ == if is_error {
                CollectorView { errors: old(self)@.errors.push(entry), ..old(self)@ }
            } else {
                CollectorView { best: old(self)@.best.push(entry), ..old(self)@ }
            },
    {
        if is_error {
            self.errors.push(entry);
        } else {
            self.best.push(entry);
        }
    }

    /// Counts one more combination as processed and returns the count, which
    /// stops at the largest number that it can hold.
    pub fn increment_iter(&mut self) -> (r: u64)
        ensures
            r == final(self)@.processed,
            final(self)@ == (CollectorView {
                processed: if old(self)@.processed < u64::MAX {
                    old(self)@.processed + 1
                } else {
                    old(self)@.processed
                },
                ..old(self)@
            }),
    {
        if self.processed < u64::MAX {
            self.processed = self.processed + 1;
        }
        self.processed
    }

    /// The number of combinations counted as processed.
    pub fn processed(&self) -> (r: u64)
        ensures
            r == self@.processed,
    {
        self.processed
    }

    /// The best results, sorted by balance from the highest down: as many as
    /// were pushed as results, up to the capacity.
    pub fn total_balances(&self) -> (r: &Vec<(P, i128)>)
        ensures
            r@ == self@.best.entries,
            descending(r@),
            self@.best.wf(),
            r@.len() == if self@.best.pushes < self@.best.capacity {
                self@.best.pushes
            } else {
                self@.best.capacity
            },
    {
        self.best.entries()
    }

    /// The best failed results, sorted by balance from the highest down: as
    /// many as were pushed as failed, up to the capacity.
    pub fn errors(&self) -> (r: &Vec<(P, i128)>)
        ensures
            r@ == self@.errors.entries,
            descending(r@),
            self@.errors.wf(),
            r@.len() == if self@.errors.pushes < self@.errors.capacity {
                self@.errors.pushes
            } else {
                self@.errors.capacity
            },
    {
        self.errors.entries()
    }
}

} // verus!
