//! The registry of live connections.
//!
//! Every connection is entered under an identifier that is never given out
//! again. Two parties take entries out: a worker that has finished removes
//! its own entry, and the shutdown takes all that are left. The embedding
//! program keeps the registry behind one lock, so each operation here is one
//! atomic step; the laws at the end say that, in whichever order the two
//! parties get the lock, an entry is handed out exactly once.

use vstd::prelude::*;

verus! {

/// A live connection: its identifier, the stream that is shut down to cancel
/// it, and the handle by which its worker is joined.
pub struct ActiveConnection<S, W> {
    pub id: u64,
    pub stream: S,
    pub thread: W,
}

/// The live connections, in the order in which they were accepted.
pub struct ActiveConnectionList<S, W> {
    list: Vec<ActiveConnection<S, W>>,
    next_id: u64,
}

/// Whether one of `entries` goes by `id`.
pub open spec fn holds<S, W>(entries: Seq<ActiveConnection<S, W>>, id: u64) -> bool {
    exists|i: int| 0 <= i < entries.len() && #[trigger] entries[i].id == id
}

/// No two of `entries` go by the same identifier.
pub open spec fn distinct_ids<S, W>(entries: Seq<ActiveConnection<S, W>>) -> bool {
    forall|i: int, j: int|
        0 <= i < j < entries.len() ==> #[trigger] entries[i].id != #[trigger] entries[j].id
}

/// Where the entry that goes by `id` stands in `entries`, if one does.
pub open spec fn position<S, W>(entries: Seq<ActiveConnection<S, W>>, id: u64) -> int {
    choose|i: int| 0 <= i < entries.len() && #[trigger] entries[i].id == id
}

/// The entry that a removal of `id` hands out.
pub open spec fn removed<S, W>(entries: Seq<ActiveConnection<S, W>>, id: u64) -> Option<
    ActiveConnection<S, W>,
> {
    if holds(entries, id) {
        Some(entries[position(entries, id)])
    } else {
        None
    }
}

/// The entries that a removal of `id` leaves.
pub open spec fn without<S, W>(entries: Seq<ActiveConnection<S, W>>, id: u64) -> Seq<
    ActiveConnection<S, W>,
> {
    if holds(entries, id) {
        entries.remove(position(entries, id))
    } else {
        entries
    }
}

impl<S, W> ActiveConnectionList<S, W> {
    /// The entries, oldest first.
    pub closed spec fn view(&self) -> Seq<ActiveConnection<S, W>> {
        self.list@
    }

    /// The identifier that the next entry gets.
    pub closed spec fn spec_next_id(&self) -> u64 {
        self.next_id
    }

    /// What holds of every registry: identifiers are distinct, and all of
    /// them were given out before the next one.
    pub open spec fn wf(&self) -> bool {
        &&& distinct_ids(self@)
        &&& forall|i: int| 0 <= i < self@.len() ==> (#[trigger] self@[i]).id < self.spec_next_id()
    }

    #[verifier::type_invariant]
    closed spec fn inv(&self) -> bool {
        self.wf()
    }

    /// An empty registry.
    pub fn new() -> (r: Self)
        ensures
            r@ == Seq::<ActiveConnection<S, W>>::empty(),
            r.spec_next_id() == 0,
            r.wf(),
    {
        ActiveConnectionList { list: Vec::new(), next_id: 0 }
    }

    /// An empty registry whose first entry gets `first_id`, for a registry
    /// that takes over where another one stopped.
    pub fn starting_at(first_id: u64) -> (r: Self)
        ensures
            r@ == Seq::<ActiveConnection<S, W>>::empty(),
            r.spec_next_id() == first_id,
            r.wf(),
    {
        ActiveConnectionList { list: Vec::new(), next_id: first_id }
    }

    /// The number of live connections.
    pub fn len(&self) -> (n: usize)
        ensures
            n == self@.len(),
            self.wf(),
    {
        proof {
            use_type_invariant(self);
        }
        self.list.len()
    }

    /// The identifier that the next call of [`Self::add`] enters its
    /// connection under, so that a worker can be told its identifier before
    /// it is entered.
    pub fn next_id(&self) -> (id: u64)
        ensures
            id == self.spec_next_id(),
            !holds(self@, id),
            self.wf(),
    {
        proof {
            use_type_invariant(self);
        }
        self.next_id
    }

    /// Whether a connection is entered under `id`.
    pub fn contains(&self, id: u64) -> (found: bool)
        ensures
            found == holds(self@, id),
    {
        let mut i: usize = 0;
        while i < self.list.len()
            invariant
                0 <= i <= self.list.len(),
                forall|j: int| 0 <= j < i ==> (#[trigger] self.list@[j]).id != id,
            decreases self.list.len() - i,
        {
            if self.list[i].id == id {
                return true;
            }
            i += 1;
        }
        false
    }

    /// Enters a connection and returns the identifier it goes by from now
    /// on. Identifiers are given out in rising order and never twice; when
    /// the last one is spent, the pair comes back and nothing changes.
    pub fn add(&mut self, stream: S, thread: W) -> (r: Result<u64, (S, W)>)
        ensures
            final(self).wf(),
            old(self).spec_next_id() < u64::MAX ==> {
                &&& r == Ok::<u64, (S, W)>(old(self).spec_next_id())
                &&& final(self)@ == old(self)@.push(
                    ActiveConnection { id: old(self).spec_next_id(), stream, thread },
                )
                &&& final(self).spec_next_id() == old(self).spec_next_id() + 1
            },
            old(self).spec_next_id() == u64::MAX ==> {
                &&& r == Err::<u64, (S, W)>((stream, thread))
                &&& final(self)@ == old(self)@
                &&& final(self).spec_next_id() == old(self).spec_next_id()
            },
    {
        proof {
            use_type_invariant(&*self);
        }
        if self.next_id == u64::MAX {
            return Err((stream, thread));
        }
        let id: u64 = self.next_id;
        // The list is taken out while it grows, so that the registry is
        // well-formed at every step in between.
        let mut list: Vec<ActiveConnection<S, W>> = Vec::new();
        core::mem::swap(&mut self.list, &mut list);
        self.next_id = id + 1;
        list.push(ActiveConnection { id, stream, thread });
        core::mem::swap(&mut self.list, &mut list);
        Ok(id)
    }

    /// Takes out the connection that goes by `id` and hands it to the
    /// caller. Where none does (it was taken out before), nothing changes
    /// and `None` comes back.
    pub fn remove(&mut self, id: u64) -> (r: Option<ActiveConnection<S, W>>)
        ensures
            final(self).wf(),
            r == removed(old(self)@, id),
            final(self)@ == without(old(self)@, id),
            final(self).spec_next_id() == old(self).spec_next_id(),
    {
        proof {
            use_type_invariant(&*self);
        }
        let mut i: usize = 0;
        while i < self.list.len()
            invariant
                0 <= i <= self.list.len(),
                self.list@ == old(self).list@,
                self.next_id == old(self).next_id,
                old(self).wf(),
                forall|j: int| 0 <= j < i ==> (#[trigger] self.list@[j]).id != id,
            decreases self.list.len() - i,
        {
            if self.list[i].id == id {
                proof {
                    lemma_position_is_unique(self.list@, id, i as int);
                }
                let mut list: Vec<ActiveConnection<S, W>> = Vec::new();
                core::mem::swap(&mut self.list, &mut list);
                let entry = list.remove(i);
                proof {
                    lemma_removal_keeps_distinct(old(self)@, i as int);
                }
                core::mem::swap(&mut self.list, &mut list);
                return Some(entry);
            }
            i += 1;
        }
        None
    }

    /// Takes out every connection that is left, oldest first, and leaves the
    /// registry empty.
    pub fn drain(&mut self) -> (taken: Vec<ActiveConnection<S, W>>)
        ensures
            final(self).wf(),
            taken@ == old(self)@,
            final(self)@ == Seq::<ActiveConnection<S, W>>::empty(),
            final(self).spec_next_id() == old(self).spec_next_id(),
    {
        proof {
            use_type_invariant(&*self);
        }
        let mut taken: Vec<ActiveConnection<S, W>> = Vec::new();
        core::mem::swap(&mut self.list, &mut taken);
        taken
    }
}

/// Among distinct identifiers, an entry that goes by `id` is the one that
/// `position` finds.
pub proof fn lemma_position_is_unique<S, W>(entries: Seq<ActiveConnection<S, W>>, id: u64, i: int)
    requires
        distinct_ids(entries),
        0 <= i < entries.len(),
        entries[i].id == id,
    ensures
        holds(entries, id),
        position(entries, id) == i,
{
    let p = position(entries, id);
    if p < i {
        assert(entries[p].id != entries[i].id);
    } else if i < p {
        assert(entries[i].id != entries[p].id);
    }
}

/// Taking one entry out leaves the identifiers of the others distinct.
pub proof fn lemma_removal_keeps_distinct<S, W>(entries: Seq<ActiveConnection<S, W>>, i: int)
    requires
        distinct_ids(entries),
        0 <= i < entries.len(),
    ensures
        distinct_ids(entries.remove(i)),
{
    let rest = entries.remove(i);
    assert forall|a: int, b: int| 0 <= a < b < rest.len() implies #[trigger] rest[a].id
        != #[trigger] rest[b].id by {
        let a0 = if a < i { a } else { a + 1 };
        let b0 = if b < i { b } else { b + 1 };
        assert(entries[a0].id != entries[b0].id);
    }
}

/// A worker that removes itself before the shutdown drains: the worker gets
/// its entry, the drain finds every other entry and not this one, so the
/// entry is handed out once.
pub proof fn lemma_self_removal_before_drain<S, W>(entries: Seq<ActiveConnection<S, W>>, id: u64)
    requires
        distinct_ids(entries),
        holds(entries, id),
    ensures
        removed(entries, id) is Some,
        removed(entries, id).unwrap().id == id,
        !holds(without(entries, id), id),
        distinct_ids(without(entries, id)),
        without(entries, id).to_multiset().insert(removed(entries, id).unwrap())
            == entries.to_multiset(),
{
    let p = position(entries, id);
    let rest = without(entries, id);
    lemma_removal_keeps_distinct(entries, p);
    if holds(rest, id) {
        let k = position(rest, id);
        let k0 = if k < p { k } else { k + 1 };
        assert(rest[k] == entries[k0]);
        lemma_position_is_unique(entries, id, k0);
    }
    vstd::seq_lib::to_multiset_remove(entries, p);
    assert(entries.to_multiset().count(entries[p]) > 0) by {
        entries.to_multiset_ensures();
        assert(entries.contains(entries[p]));
    }
    assert(rest.to_multiset().insert(entries[p]) =~= entries.to_multiset());
}

/// A shutdown that drains before the worker removes itself: the drain takes
/// the entry, which stands at one place only, and the worker's removal then
/// finds nothing and changes nothing.
pub proof fn lemma_drain_before_self_removal<S, W>(entries: Seq<ActiveConnection<S, W>>, id: u64)
    requires
        distinct_ids(entries),
        holds(entries, id),
    ensures
        forall|i: int|
            0 <= i < entries.len() && (#[trigger] entries[i]).id == id ==> i == position(
                entries,
                id,
            ),
        removed(Seq::<ActiveConnection<S, W>>::empty(), id) is None,
        without(Seq::<ActiveConnection<S, W>>::empty(), id) == Seq::<ActiveConnection<S, W>>::empty(),
{
    assert forall|i: int| 0 <= i < entries.len() && (#[trigger] entries[i]).id == id implies i
        == position(entries, id) by {
        lemma_position_is_unique(entries, id, i);
    }
}

/// No entry is removed twice: after a removal of `id`, another one finds
/// nothing and changes nothing.
pub proof fn lemma_removal_happens_once<S, W>(entries: Seq<ActiveConnection<S, W>>, id: u64)
    requires
        distinct_ids(entries),
    ensures
        removed(without(entries, id), id) is None,
        without(without(entries, id), id) == without(entries, id),
{
    if holds(entries, id) {
        lemma_self_removal_before_drain(entries, id);
    }
}

/// The account of the identifiers given out so far: each of them either
/// goes with a live entry or is in `gone`, the set of those whose entry was
/// handed out, and never both; no identifier goes with two entries.
pub open spec fn accounted<S, W>(
    entries: Seq<ActiveConnection<S, W>>,
    next_id: u64,
    gone: Set<u64>,
) -> bool {
    &&& distinct_ids(entries)
    &&& forall|id: u64|
        #![trigger holds(entries, id)]
        #![trigger gone.contains(id)]
        id < next_id <==> holds(entries, id) || gone.contains(id)
    &&& forall|id: u64| #![trigger holds(entries, id)] !(holds(entries, id) && gone.contains(id))
}

/// A new registry has given out nothing, and nothing is gone.
pub proof fn lemma_account_opens_empty<S, W>()
    ensures
        accounted(Seq::<ActiveConnection<S, W>>::empty(), 0, Set::<u64>::empty()),
{
}

/// Entering a connection keeps the account: the new entry is live under an
/// identifier that was neither live nor gone.
pub proof fn lemma_add_keeps_account<S, W>(
    entries: Seq<ActiveConnection<S, W>>,
    next_id: u64,
    gone: Set<u64>,
    stream: S,
    thread: W,
)
    requires
        accounted(entries, next_id, gone),
        next_id < u64::MAX,
    ensures
        !holds(entries, next_id),
        !gone.contains(next_id),
        accounted(
            entries.push(ActiveConnection { id: next_id, stream, thread }),
            (next_id + 1) as u64,
            gone,
        ),
{
    let entry = ActiveConnection { id: next_id, stream, thread };
    let more = entries.push(entry);
    assert forall|id: u64| #![trigger holds(more, id)] holds(more, id) <==> (holds(entries, id)
        || id == next_id) by {
        if holds(entries, id) {
            let i = position(entries, id);
            assert(more[i].id == id);
        }
        if id == next_id {
            assert(more[entries.len() as int].id == id);
        }
        if holds(more, id) {
            let i = position(more, id);
            if i < entries.len() {
                assert(entries[i].id == id);
            }
        }
    }
    assert forall|i: int, j: int| 0 <= i < j < more.len() implies #[trigger] more[i].id
        != #[trigger] more[j].id by {
        if j == entries.len() {
            assert(entries[i].id == more[i].id);
            assert(holds(entries, entries[i].id));
        }
    }
}

/// Taking one entry out keeps the account: an entry that is live was not
/// handed out before and is gone afterwards; for an identifier that is not
/// live, nothing is handed out and nothing changes.
pub proof fn lemma_remove_keeps_account<S, W>(
    entries: Seq<ActiveConnection<S, W>>,
    next_id: u64,
    gone: Set<u64>,
    id: u64,
)
    requires
        accounted(entries, next_id, gone),
    ensures
        holds(entries, id) ==> {
            &&& !gone.contains(id)
            &&& removed(entries, id) is Some
            &&& accounted(without(entries, id), next_id, gone.insert(id))
        },
        !holds(entries, id) ==> {
            &&& removed(entries, id) is None
            &&& without(entries, id) == entries
        },
{
    if holds(entries, id) {
        let p = position(entries, id);
        let rest = without(entries, id);
        lemma_self_removal_before_drain(entries, id);
        assert forall|other: u64| #![trigger holds(rest, other)] holds(rest, other) <==> (holds(
            entries,
            other,
        ) && other != id) by {
            if holds(rest, other) {
                let k = position(rest, other);
                let k0 = if k < p { k } else { k + 1 };
                assert(rest[k] == entries[k0]);
                assert(entries[k0].id == other);
            }
            if holds(entries, other) && other != id {
                let k0 = position(entries, other);
                let k = if k0 < p { k0 } else { k0 - 1 };
                assert(rest[k] == entries[k0]);
                assert(rest[k].id == other);
            }
        }
        assert(holds(entries, id));
    }
}

/// The identifiers that are gone once the live entries were handed out too.
pub open spec fn gone_with<S, W>(entries: Seq<ActiveConnection<S, W>>, gone: Set<u64>) -> Set<u64> {
    Set::new(|id: u64| gone.contains(id) || holds(entries, id))
}

/// Draining settles the account: the entries it hands out were not handed
/// out before, and afterwards every identifier that was ever given out is
/// gone and none is live. So every connection that was entered is handed
/// out exactly once, by its own worker or by the drain.
pub proof fn lemma_drain_settles_account<S, W>(
    entries: Seq<ActiveConnection<S, W>>,
    next_id: u64,
    gone: Set<u64>,
)
    requires
        accounted(entries, next_id, gone),
    ensures
        forall|i: int| 0 <= i < entries.len() ==> !gone.contains((#[trigger] entries[i]).id),
        accounted(Seq::<ActiveConnection<S, W>>::empty(), next_id, gone_with(entries, gone)),
        forall|id: u64| id < next_id <==> #[trigger] gone_with(entries, gone).contains(id),
{
    let nothing = Seq::<ActiveConnection<S, W>>::empty();
    let all_gone = gone_with(entries, gone);
    assert forall|i: int| 0 <= i < entries.len() implies !gone.contains(
        (#[trigger] entries[i]).id,
    ) by {
        assert(holds(entries, entries[i].id));
    }
    assert forall|id: u64| !holds(nothing, id) by {}
    assert forall|id: u64|
        #![trigger holds(nothing, id)]
        #![trigger all_gone.contains(id)]
        id < next_id <==> holds(nothing, id) || all_gone.contains(id) by {
        assert(id < next_id <==> holds(entries, id) || gone.contains(id));
    }
}

} // verus!
