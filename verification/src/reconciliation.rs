//! Reconciliation as mathematics: what a tracker of rows holds, what taking
//! in a newly supplied collection makes of it, and what follows.

use vstd::prelude::*;

verus! {

/// The rows supplied cannot be explained as the tracked rows followed by new
/// ones: `expected` rows would be tracked after taking them in, `supplied`
/// rows were given.
#[derive(Debug, Copy, Clone, PartialEq, Eq, Structural)]
pub struct DuplicateOrInconsistentRows {
    pub expected: usize,
    pub supplied: usize,
}

/// The position of the last occurrence of `id` in `ids`, or -1 where there is
/// none.
pub open spec fn last_position(ids: Seq<Seq<char>>, id: Seq<char>) -> int
    decreases ids.len(),
{
    if ids.len() == 0 {
        -1
    } else if ids.last() == id {
        ids.len() - 1
    } else {
        last_position(ids.drop_last(), id)
    }
}

/// `n`, or the largest `usize` where `n` is beyond it.
pub open spec fn clip(n: int) -> usize {
    if n <= usize::MAX {
        n as usize
    } else {
        usize::MAX
    }
}

/// What a tracker holds: the identities in presentation order, and the slot
/// that each identity was given.
pub struct RowModel {
    pub order: Seq<Seq<char>>,
    pub index: Map<Seq<char>, nat>,
}

impl RowModel {
    /// The tracker before any row was supplied.
    pub open spec fn empty() -> RowModel {
        RowModel { order: Seq::empty(), index: Map::empty() }
    }

    /// The identities in the order are those that have a slot, and each slot
    /// is a place in the order that holds its identity.
    pub open spec fn wf(self) -> bool {
        &&& forall|id: Seq<char>|
            #![trigger self.index.contains_key(id)]
            #![trigger self.order.contains(id)]
            self.index.contains_key(id) <==> self.order.contains(id)
        &&& forall|id: Seq<char>| #[trigger]
            self.index.contains_key(id) ==> self.index[id] < self.order.len()
                && self.order[self.index[id] as int] == id
    }

    /// No identity stands twice in the order. With `wf` this makes order and
    /// slots inverse to each other.
    pub open spec fn distinct(self) -> bool {
        self.order.no_duplicates()
    }

    /// Whether an identity has no slot yet.
    pub open spec fn is_fresh(self) -> spec_fn(Seq<char>) -> bool {
        |id: Seq<char>| !self.index.contains_key(id)
    }

    /// The identities among `source` that have no slot yet, in their order.
    pub open spec fn fresh(self, source: Seq<Seq<char>>) -> Seq<Seq<char>> {
        source.filter(self.is_fresh())
    }

    /// The tracker after the identities `fresh` were appended: the `j`-th of
    /// them stands at `order.len() + j`, and where one occurs more than once
    /// its slot is that of its last occurrence.
    pub open spec fn append(self, fresh: Seq<Seq<char>>) -> RowModel {
        RowModel {
            order: self.order + fresh,
            index: Map::new(
                |id: Seq<char>| self.index.contains_key(id) || fresh.contains(id),
                |id: Seq<char>|
                    if fresh.contains(id) {
                        (self.order.len() + last_position(fresh, id)) as nat
                    } else {
                        self.index[id]
                    },
            ),
        }
    }

    /// What reconciling with the identities `source` gives: the next tracker,
    /// and whether it grew. A source as long as the order changes nothing. A
    /// source whose length is not the length of the order plus the number of
    /// its fresh identities is refused, and the tracker stays as it is.
    /// Otherwise the fresh identities are appended.
    pub open spec fn reconcile(self, source: Seq<Seq<char>>) -> (
        RowModel,
        Result<bool, DuplicateOrInconsistentRows>,
    ) {
        let expected = self.order.len() + self.fresh(source).len();
        if source.len() == self.order.len() {
            (self, Ok(false))
        } else if expected != source.len() {
            (
                self,
                Err(
                    DuplicateOrInconsistentRows {
                        expected: clip(expected as int),
                        supplied: source.len() as usize,
                    },
                ),
            )
        } else {
            (self.append(self.fresh(source)), Ok(true))
        }
    }
}

/// Where `id` occurs in `ids`, `last_position` is the place of an occurrence
/// that no other follows.
pub proof fn lemma_last_position(ids: Seq<Seq<char>>, id: Seq<char>)
    ensures
        -1 <= last_position(ids, id) < ids.len(),
        ids.contains(id) <==> last_position(ids, id) >= 0,
        ids.contains(id) ==> ids[last_position(ids, id)] == id,
        forall|k: int| last_position(ids, id) < k < ids.len() ==> ids[k] != id,
    decreases ids.len(),
{
    if ids.len() > 0 {
        lemma_last_position(ids.drop_last(), id);
        if ids.last() != id {
            if ids.contains(id) {
                let k = choose|k: int| 0 <= k < ids.len() && ids[k] == id;
                assert(ids.drop_last()[k] == id);
            }
            if ids.drop_last().contains(id) {
                let k = choose|k: int| 0 <= k < ids.drop_last().len() && ids.drop_last()[k] == id;
                assert(ids[k] == id);
            }
        }
        assert forall|k: int| last_position(ids, id) < k < ids.len() implies ids[k] != id by {
            if k < ids.len() - 1 {
                assert(ids.drop_last()[k] != id);
            }
        }
    }
}

/// Appending one identity after others is appending them all at once.
pub proof fn lemma_append_push(m: RowModel, fresh: Seq<Seq<char>>, id: Seq<char>)
    ensures
        m.append(fresh.push(id)).order == m.append(fresh).order.push(id),
        m.append(fresh.push(id)).index == m.append(fresh).index.insert(
            id,
            m.order.len() + fresh.len(),
        ),
{
    let whole = fresh.push(id);
    assert(whole.drop_last() =~= fresh);
    assert(m.append(whole).order =~= m.append(fresh).order.push(id));
    let left = m.append(whole).index;
    let right = m.append(fresh).index.insert(id, m.order.len() + fresh.len());
    assert forall|other: Seq<char>| left.contains_key(other) <==> right.contains_key(
        other,
    ) by {
        if fresh.contains(other) {
            let k = choose|k: int| 0 <= k < fresh.len() && fresh[k] == other;
            assert(whole[k] == other);
        }
        if whole.contains(other) && other != id {
            let k = choose|k: int| 0 <= k < whole.len() && whole[k] == other;
            assert(fresh[k] == other);
        }
        assert(whole[fresh.len() as int] == id);
    }
    assert forall|other: Seq<char>| left.contains_key(other) implies left[other]
        == right[other] by {
        lemma_last_position(fresh, other);
        lemma_last_position(whole, other);
        assert(whole[fresh.len() as int] == id);
    }
    assert(left =~= right);
}

/// Appending keeps a tracker well formed.
pub proof fn lemma_append_wf(m: RowModel, fresh: Seq<Seq<char>>)
    requires
        m.wf(),
    ensures
        m.append(fresh).wf(),
{
    let next = m.append(fresh);
    assert forall|id: Seq<char>| next.index.contains_key(id) <==> next.order.contains(id) by {
        if m.order.contains(id) {
            let k = choose|k: int| 0 <= k < m.order.len() && m.order[k] == id;
            assert(next.order[k] == id);
        }
        if fresh.contains(id) {
            let k = choose|k: int| 0 <= k < fresh.len() && fresh[k] == id;
            assert(next.order[m.order.len() + k] == id);
        }
        if next.order.contains(id) {
            let k = choose|k: int| 0 <= k < next.order.len() && next.order[k] == id;
            if k < m.order.len() {
                assert(m.order[k] == id);
            } else {
                assert(fresh[k - m.order.len()] == id);
            }
        }
    }
    assert forall|id: Seq<char>| #[trigger] next.index.contains_key(id) implies next.index[id]
        < next.order.len() && next.order[next.index[id] as int] == id by {
        lemma_last_position(fresh, id);
    }
}


/// Every identity of `ids` passes `keep`: filtering by `keep` keeps them all.
proof fn lemma_filter_keeps_all(ids: Seq<Seq<char>>, keep: spec_fn(Seq<char>) -> bool)
    requires
        forall|j: int| 0 <= j < ids.len() ==> keep(#[trigger] ids[j]),
    ensures
        ids.filter(keep) == ids,
    decreases ids.len(),
{
    reveal(Seq::filter);
    if ids.len() > 0 {
        lemma_filter_keeps_all(ids.drop_last(), keep);
        assert(ids.drop_last().push(ids.last()) =~= ids);
    }
}

/// No identity of `ids` passes `keep`: filtering by `keep` keeps none.
proof fn lemma_filter_keeps_none(ids: Seq<Seq<char>>, keep: spec_fn(Seq<char>) -> bool)
    requires
        forall|j: int| 0 <= j < ids.len() ==> !keep(#[trigger] ids[j]),
    ensures
        ids.filter(keep) == Seq::<Seq<char>>::empty(),
    decreases ids.len(),
{
    reveal(Seq::filter);
    if ids.len() > 0 {
        lemma_filter_keeps_none(ids.drop_last(), keep);
    } else {
        assert(ids =~= Seq::empty());
    }
}

/// In a well-formed tracker without repetition, order and slots are inverse
/// to each other: the slot of the identity at place `i` is `i`.
pub proof fn lemma_distinct_is_bijection(m: RowModel)
    requires
        m.wf(),
        m.distinct(),
    ensures
        forall|i: int| 0 <= i < m.order.len() ==> m.index.contains_key(#[trigger] m.order[i]),
        forall|i: int| 0 <= i < m.order.len() ==> m.index[#[trigger] m.order[i]] == i,
        forall|id: Seq<char>| #[trigger]
            m.index.contains_key(id) ==> m.index[id] < m.order.len() && m.order[m.index[id] as int]
                == id,
{
    assert forall|i: int| 0 <= i < m.order.len() implies m.index.contains_key(
        #[trigger] m.order[i],
    ) && m.index[m.order[i]] == i by {
        assert(m.order.contains(m.order[i]));
    }
}

/// Reconciling keeps a tracker well formed, whatever is supplied.
pub proof fn lemma_reconcile_wf(m: RowModel, source: Seq<Seq<char>>)
    requires
        m.wf(),
    ensures
        m.reconcile(source).0.wf(),
{
    lemma_append_wf(m, m.fresh(source));
}

/// After a reconciliation that was not refused, the order is as long as the
/// source was.
pub proof fn lemma_reconcile_len(m: RowModel, source: Seq<Seq<char>>)
    ensures
        m.reconcile(source).1 is Ok ==> m.reconcile(source).0.order.len() == source.len(),
        m.reconcile(source).1 is Err ==> m.reconcile(source).0 == m,
        m.reconcile(source).1 == Ok::<bool, DuplicateOrInconsistentRows>(false)
            ==> m.reconcile(source).0 == m,
{
}

/// Reconciling a second time with the same source changes nothing: the
/// tracker after the second time is the tracker after the first. Where the
/// first was accepted the second reports no growth; where it was refused the
/// second is refused in the same way.
pub proof fn lemma_reconcile_idempotent(m: RowModel, source: Seq<Seq<char>>)
    ensures
        m.reconcile(source).0.reconcile(source).0 == m.reconcile(source).0,
        m.reconcile(source).1 is Ok ==> m.reconcile(source).0.reconcile(source).1 == Ok::<
            bool,
            DuplicateOrInconsistentRows,
        >(false),
        m.reconcile(source).1 is Err ==> m.reconcile(source).0.reconcile(source).1
            == m.reconcile(source).1,
{
    lemma_reconcile_len(m, source);
}

/// A source with fewer rows than the tracker holds is refused.
pub proof fn lemma_shrunk_source_refused(m: RowModel, source: Seq<Seq<char>>)
    requires
        source.len() < m.order.len(),
    ensures
        m.reconcile(source).1 is Err,
        m.reconcile(source).0 == m,
{
}

/// Growth by appending: where the source is the order followed by identities
/// that are new and differ from each other, it is accepted, the order becomes
/// the source, and a tracker without repetition stays without repetition.
pub proof fn lemma_reconcile_growth(m: RowModel, added: Seq<Seq<char>>)
    requires
        m.wf(),
        m.distinct(),
        added.no_duplicates(),
        forall|j: int| 0 <= j < added.len() ==> !m.order.contains(#[trigger] added[j]),
    ensures
        m.reconcile(m.order + added).1 == Ok::<bool, DuplicateOrInconsistentRows>(
            added.len() > 0,
        ),
        m.reconcile(m.order + added).0.order == m.order + added,
        m.reconcile(m.order + added).0.wf(),
        m.reconcile(m.order + added).0.distinct(),
{
    let source = m.order + added;
    let next = m.reconcile(source).0;
    lemma_reconcile_wf(m, source);
    if added.len() == 0 {
        assert(source =~= m.order);
    } else {
        Seq::filter_distributes_over_add(m.order, added, m.is_fresh());
        assert forall|j: int| 0 <= j < m.order.len() implies !(m.is_fresh())(
            #[trigger] m.order[j],
        ) by {
            assert(m.order.contains(m.order[j]));
        }
        lemma_filter_keeps_none(m.order, m.is_fresh());
        lemma_filter_keeps_all(added, m.is_fresh());
        assert(m.fresh(source) =~= added);
        assert forall|i: int, j: int| 0 <= i < m.order.len() && 0 <= j < added.len() implies m.order[i]
            != added[j] by {
            assert(m.order.contains(m.order[i]));
        }
        vstd::seq_lib::lemma_no_dup_in_concat(m.order, added);
    }
}

/// Append-only growth, from the start: a collection without repetition is
/// supplied to a tracker without rows, and then the same collection followed
/// by identities that are new and differ from each other. Both are accepted;
/// afterwards the order is the second collection, no identity stands in it
/// twice, exactly its identities have a slot, and the slot of each is its
/// place.
pub proof fn lemma_append_only_growth(first: Seq<Seq<char>>, second: Seq<Seq<char>>)
    requires
        first.no_duplicates(),
        first.len() <= second.len(),
        second.take(first.len() as int) == first,
        forall|j: int| first.len() <= j < second.len() ==> !first.contains(#[trigger] second[j]),
        forall|i: int, j: int|
            first.len() <= i < j < second.len() ==> #[trigger] second[i] != #[trigger] second[j],
    ensures
        ({
            let once = RowModel::empty().reconcile(first);
            let twice = once.0.reconcile(second);
            &&& once.1 is Ok
            &&& once.0.order == first
            &&& twice.1 is Ok
            &&& twice.0.order == second
            &&& twice.0.order.len() == second.len()
            &&& twice.0.order.no_duplicates()
            &&& forall|id: Seq<char>| twice.0.index.contains_key(id) <==> second.contains(id)
            &&& forall|i: int|
                0 <= i < second.len() ==> twice.0.index[#[trigger] second[i]] == i
        }),
{
    let start = RowModel::empty();
    assert(start.order + first =~= first);
    lemma_reconcile_growth(start, first);
    let once = start.reconcile(first).0;
    let added = second.skip(first.len() as int);
    assert(once.order + added =~= second);
    assert forall|j: int| 0 <= j < added.len() implies !once.order.contains(
        #[trigger] added[j],
    ) by {
        assert(second[first.len() + j] == added[j]);
    }
    assert(added.no_duplicates()) by {
        assert forall|i: int, j: int| 0 <= i < added.len() && 0 <= j < added.len() && i
            != j implies added[i] != added[j] by {
            assert(second[first.len() + i] == added[i]);
            assert(second[first.len() + j] == added[j]);
        }
    }
    lemma_reconcile_growth(once, added);
    let twice = once.reconcile(second).0;
    lemma_distinct_is_bijection(twice);
}

/// How many places of `source` hold an identity that has a slot: at least as
/// many as there are identities in `needed`, where each of these has a slot
/// and occurs in `source`.
proof fn lemma_known_places(m: RowModel, source: Seq<Seq<char>>, needed: Set<Seq<char>>)
    requires
        needed.finite(),
        forall|id: Seq<char>| needed.contains(id) ==> m.index.contains_key(id),
        forall|id: Seq<char>| needed.contains(id) ==> source.contains(id),
    ensures
        source.len() - m.fresh(source).len() >= needed.len(),
    decreases source.len(),
{
    reveal(Seq::filter);
    if source.len() == 0 {
        if needed.len() > 0 {
            let id = needed.choose();
            assert(source.contains(id));
        }
    } else {
        let last = source.last();
        let rest = source.drop_last();
        let others = needed.remove(last);
        assert forall|id: Seq<char>| others.contains(id) implies rest.contains(id) by {
            let k = choose|k: int| 0 <= k < source.len() && source[k] == id;
            assert(rest[k] == id);
        }
        lemma_known_places(m, rest, others);
    }
}

/// As `lemma_known_places`, with one place more where an identity that has a
/// slot stands at two places of `source`.
proof fn lemma_known_places_repeated(
    m: RowModel,
    source: Seq<Seq<char>>,
    needed: Set<Seq<char>>,
    i: int,
    j: int,
)
    requires
        needed.finite(),
        forall|id: Seq<char>| needed.contains(id) ==> m.index.contains_key(id),
        forall|id: Seq<char>| needed.contains(id) ==> source.contains(id),
        0 <= i < j < source.len(),
        source[i] == source[j],
        m.index.contains_key(source[i]),
    ensures
        source.len() - m.fresh(source).len() >= needed.len() + 1,
    decreases source.len(),
{
    reveal(Seq::filter);
    let last = source.last();
    let rest = source.drop_last();
    if j == source.len() - 1 {
        assert forall|id: Seq<char>| needed.contains(id) implies rest.contains(id) by {
            if id == last {
                assert(rest[i] == id);
            } else {
                let k = choose|k: int| 0 <= k < source.len() && source[k] == id;
                assert(rest[k] == id);
            }
        }
        lemma_known_places(m, rest, needed);
    } else {
        let others = needed.remove(last);
        assert forall|id: Seq<char>| others.contains(id) implies rest.contains(id) by {
            let k = choose|k: int| 0 <= k < source.len() && source[k] == id;
            assert(rest[k] == id);
        }
        assert(rest[i] == rest[j]);
        lemma_known_places_repeated(m, rest, others, i, j);
    }
}

/// Duplicate detection: where every identity of the order is in the source
/// and one that has a slot stands at two places of the source, the source is
/// refused and the tracker stays as it is.
pub proof fn lemma_repeated_identity_refused(
    m: RowModel,
    source: Seq<Seq<char>>,
    i: int,
    j: int,
)
    requires
        m.wf(),
        m.distinct(),
        forall|k: int| 0 <= k < m.order.len() ==> source.contains(#[trigger] m.order[k]),
        0 <= i < j < source.len(),
        source[i] == source[j],
        m.index.contains_key(source[i]),
    ensures
        m.reconcile(source).1 is Err,
        m.reconcile(source).0 == m,
{
    let needed = m.order.to_set();
    vstd::seq_lib::seq_to_set_is_finite(m.order);
    m.order.unique_seq_to_set();
    assert forall|id: Seq<char>| needed.contains(id) implies source.contains(id)
        && m.index.contains_key(id) by {
        let k = choose|k: int| 0 <= k < m.order.len() && m.order[k] == id;
        assert(source.contains(m.order[k]));
    }
    lemma_known_places_repeated(m, source, needed, i, j);
}

} // verus!
