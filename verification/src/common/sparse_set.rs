use super::random::random_below;
use vstd::prelude::*;

verus! {

/// A key that a [`SparseSet`] can hold: a value that stands for one small
/// natural number, its slot.
pub trait SparseKey: Copy {
    /// The number this key stands for.
    spec fn slot(self) -> nat;

    /// Two keys with one slot are one key.
    proof fn slot_is_injective(self, other: Self)
        requires
            self.slot() == other.slot(),
        ensures
            self == other,
    ;

    /// A table with room for every slot still fits in memory.
    proof fn slot_is_small(self)
        ensures
            self.slot() < usize::MAX,
    ;

    /// The slot, as an index.
    fn to_slot(self) -> (s: usize)
        ensures
            s == self.slot(),
    ;
}

impl SparseKey for u8 {
    open spec fn slot(self) -> nat {
        self as nat
    }

    proof fn slot_is_injective(self, other: Self) {
    }

    proof fn slot_is_small(self) {
    }

    fn to_slot(self) -> (s: usize) {
        self as usize
    }
}

impl SparseKey for u16 {
    open spec fn slot(self) -> nat {
        self as nat
    }

    proof fn slot_is_injective(self, other: Self) {
    }

    proof fn slot_is_small(self) {
    }

    fn to_slot(self) -> (s: usize) {
        self as usize
    }
}

/// What is left of `dense` when the key at `index` leaves: the last key
/// takes its place, and the sequence gets one shorter.
pub open spec fn swap_removed<T>(dense: Seq<T>, index: int) -> Seq<T> {
    dense.update(index, dense.last()).drop_last()
}

/// `dense` after `key` was added: unchanged where it is there already, else
/// with `key` at the end.
pub open spec fn added<T>(dense: Seq<T>, key: T) -> Seq<T> {
    if dense.contains(key) {
        dense
    } else {
        dense.push(key)
    }
}

/// `dense` after `key` was removed: unchanged where it is not there, else
/// with the last key in its place.
pub open spec fn removed<T>(dense: Seq<T>, key: T) -> Seq<T> {
    if dense.contains(key) {
        swap_removed(dense, dense.index_of(key))
    } else {
        dense
    }
}

/// Whether the table `table` records the places of the members `dense`: the
/// slot of each member holds the member's place, and every place that the
/// table holds is that of the member with that slot.
pub open spec fn agrees<T: SparseKey>(dense: Seq<T>, table: Seq<Option<usize>>) -> bool {
    &&& forall|i: int|
        0 <= i < dense.len() ==> {
            &&& (#[trigger] dense[i]).slot() < table.len()
            &&& table[dense[i].slot() as int] matches Some(p)
            &&& p == i
        }
    &&& forall|s: int|
        0 <= s < table.len() ==> (#[trigger] table[s] matches Some(i) ==> {
            &&& i < dense.len()
            &&& dense[i as int].slot() == s
        })
}

/// `table`, made longer with empty slots where it is too short to have the
/// slot `slot`.
pub open spec fn grown(table: Seq<Option<usize>>, slot: int) -> Seq<Option<usize>> {
    if slot < table.len() {
        table
    } else {
        table + Seq::new((slot + 1 - table.len()) as nat, |i: int| None::<usize>)
    }
}

/// The table after `key` was added to the members `dense`: unchanged where
/// it is a member already; else grown to have the key's slot, which holds the
/// new member's place, the end of `dense`.
pub open spec fn added_table<T: SparseKey>(
    table: Seq<Option<usize>>,
    dense: Seq<T>,
    key: T,
) -> Seq<Option<usize>> {
    if dense.contains(key) {
        table
    } else {
        grown(table, key.slot() as int).update(key.slot() as int, Some(dense.len() as usize))
    }
}

/// The table after the member at place `index` of `dense` left: its slot is
/// empty, and the slot of the last member, which took the place, holds
/// `index`. The table keeps its length.
pub open spec fn table_without<T: SparseKey>(
    table: Seq<Option<usize>>,
    dense: Seq<T>,
    index: int,
) -> Seq<Option<usize>> {
    let cleared = table.update(dense[index].slot() as int, None);
    if index < dense.len() - 1 {
        cleared.update(dense.last().slot() as int, Some(index as usize))
    } else {
        cleared
    }
}

/// The table after `key` was removed from the members `dense`: unchanged
/// where it is no member.
pub open spec fn removed_table<T: SparseKey>(
    table: Seq<Option<usize>>,
    dense: Seq<T>,
    key: T,
) -> Seq<Option<usize>> {
    if dense.contains(key) {
        table_without(table, dense, dense.index_of(key))
    } else {
        table
    }
}

/// The table of the set that holds the keys of `keys`, each added in turn to
/// an empty set.
pub open spec fn collected_table<T: SparseKey>(keys: Seq<T>) -> Seq<Option<usize>>
    decreases keys.len(),
{
    if keys.len() == 0 {
        Seq::empty()
    } else {
        added_table(
            collected_table(keys.drop_last()),
            collected(keys.drop_last()),
            keys.last(),
        )
    }
}

/// The keys of `keys`, each added in turn to an empty set.
pub open spec fn collected<T>(keys: Seq<T>) -> Seq<T>
    decreases keys.len(),
{
    if keys.len() == 0 {
        Seq::empty()
    } else {
        added(collected(keys.drop_last()), keys.last())
    }
}

/// A set of small keys with constant-time insertion, removal by key, and
/// removal of a member picked at random.
///
/// `dense` lists the members, each once; `sparse[k.slot()]` is the place of
/// `k` in `dense` while `k` is a member.
#[derive(Debug)]
pub struct SparseSet<T: SparseKey> {
    dense: Vec<T>,
    sparse: Vec<Option<usize>>,
}

impl<T: SparseKey> View for SparseSet<T> {
    type V = Seq<T>;

    /// The members, in the order in which a walk over the set meets them.
    closed spec fn view(&self) -> Seq<T> {
        self.dense@
    }
}

impl<T: SparseKey> SparseSet<T> {
    /// The sparse table: for each slot, the place in the walk of the member
    /// with that slot, if there is one.
    pub closed spec fn table(&self) -> Seq<Option<usize>> {
        self.sparse@
    }

    /// The sparse table records the places of the members, and nothing else.
    pub open spec fn wf(&self) -> bool {
        agrees(self@, self.table())
    }

    /// The members as a set.
    pub open spec fn keys(&self) -> Set<T> {
        self@.to_set()
    }

    /// The empty set.
    pub fn new() -> (set: Self)
        ensures
            set.wf(),
            set@ == Seq::<T>::empty(),
            set.table() == Seq::<Option<usize>>::empty(),
    {
        SparseSet { dense: Vec::new(), sparse: Vec::new() }
    }

    /// How many members there are.
    pub fn len(&self) -> (n: usize)
        ensures
            n == self@.len(),
    {
        self.dense.len()
    }

    /// Whether there is no member.
    pub fn is_empty(&self) -> (b: bool)
        ensures
            b == (self@.len() == 0),
    {
        self.dense.len() == 0
    }

    /// Whether `key` is a member.
    pub fn contains(&self, key: T) -> (b: bool)
        requires
            self.wf(),
        ensures
            b == self@.contains(key),
    {
        proof {
            self.lemma_distinct();
        }
        let slot = key.to_slot();
        if slot < self.sparse.len() {
            match self.sparse[slot] {
                Some(i) => {
                    proof {
                        self.dense@[i as int].slot_is_injective(key);
                    }
                    true
                },
                None => {
                    assert forall|i: int| 0 <= i < self.dense@.len() implies self.dense@[i]
                        != key by {};
                    false
                },
            }
        } else {
            assert forall|i: int| 0 <= i < self.dense@.len() implies self.dense@[i] != key by {};
            false
        }
    }

    /// The members, in the order of the view.
    pub fn to_vec(&self) -> (keys: Vec<T>)
        ensures
            keys@ == self@,
    {
        let mut keys: Vec<T> = Vec::new();
        let mut i: usize = 0;
        while i < self.dense.len()
            invariant
                i <= self.dense@.len(),
                keys@ == self.dense@.subrange(0, i as int),
            decreases self.dense@.len() - i,
        {
            keys.push(self.dense[i]);
            i += 1;
        }
        assert(self.dense@.subrange(0, i as int) == self.dense@);
        keys
    }

    /// Makes `key` a member. Where it is one already, nothing changes; else it
    /// goes to the end of the walk.
    pub fn add(&mut self, key: T)
        requires
            old(self).wf(),
        ensures
            final(self).wf(),
            final(self)@ == added(old(self)@, key),
            final(self).table() == added_table(old(self).table(), old(self)@, key),
            final(self).keys() == old(self).keys().insert(key),
    {
        proof {
            self.lemma_distinct();
            lemma_added(self@, key);
            assert(added(self@, key).to_set() =~= self@.to_set().insert(key));
        }
        if self.contains(key) {
            return;
        }
        proof {
            key.slot_is_small();
        }
        let slot = key.to_slot();
        let place = self.dense.len();
        while self.sparse.len() <= slot
            invariant
                self.dense == old(self).dense,
                self.sparse@.len() >= old(self).sparse@.len(),
                self.sparse@.subrange(0, old(self).sparse@.len() as int) == old(self).sparse@,
                forall|s: int| old(self).sparse@.len() <= s < self.sparse@.len() ==> self.sparse@[s] is None,
                self.sparse@.len() == old(self).sparse@.len() || self.sparse@.len() <= slot + 1,
                slot < usize::MAX,
            decreases slot + 1 - self.sparse@.len(),
        {
            self.sparse.push(None);
        }
        assert forall|s: int| 0 <= s < old(self).sparse@.len() implies self.sparse@[s] == old(
            self,
        ).sparse@[s] by {
            assert(self.sparse@.subrange(0, old(self).sparse@.len() as int)[s] == self.sparse@[s]);
        }
        assert(self.sparse@[slot as int] is None) by {
            if slot < old(self).sparse@.len() {
                if let Some(i) = old(self).sparse@[slot as int] {
                    old(self).dense@[i as int].slot_is_injective(key);
                }
            }
        }
        assert(self.sparse@ =~= grown(old(self).sparse@, slot as int));
        self.dense.push(key);
        self.sparse.set(slot, Some(place));
        proof {
            assert forall|i: int| 0 <= i < self.dense@.len() implies {
                &&& (#[trigger] self.dense@[i]).slot() < self.sparse@.len()
                &&& self.sparse@[self.dense@[i].slot() as int] matches Some(p)
                &&& p == i
            } by {
                if i < place {
                    assert(self.dense@[i] == old(self).dense@[i]);
                    if self.dense@[i].slot() == slot {
                        self.dense@[i].slot_is_injective(key);
                    }
                }
            }
        }
    }

    /// Takes out the member at place `index` of the walk, and returns it. The
    /// last member of the walk moves to that place.
    pub fn remove_at(&mut self, index: usize) -> (key: T)
        requires
            old(self).wf(),
            index < old(self)@.len(),
        ensures
            final(self).wf(),
            key == old(self)@[index as int],
            final(self)@ == swap_removed(old(self)@, index as int),
            final(self).table() == table_without(old(self).table(), old(self)@, index as int),
    {
        proof {
            self.lemma_distinct();
        }
        let key = self.dense[index];
        let slot = key.to_slot();
        self.sparse.set(slot, None);
        let _ = self.dense.swap_remove(index);
        if index < self.dense.len() {
            let moved = self.dense[index];
            let moved_slot = moved.to_slot();
            assert(moved == old(self).dense@.last());
            assert(moved_slot != slot) by {
                if moved_slot == slot {
                    moved.slot_is_injective(key);
                }
            }
            self.sparse.set(moved_slot, Some(index));
        }
        proof {
            assert forall|i: int| 0 <= i < self.dense@.len() implies {
                &&& (#[trigger] self.dense@[i]).slot() < self.sparse@.len()
                &&& self.sparse@[self.dense@[i].slot() as int] matches Some(p)
                &&& p == i
            } by {
                if i != index {
                    assert(self.dense@[i] == old(self).dense@[i]);
                    if self.dense@[i].slot() == slot {
                        self.dense@[i].slot_is_injective(key);
                    }
                    if self.dense@[i].slot() == old(self).dense@.last().slot() {
                        self.dense@[i].slot_is_injective(old(self).dense@.last());
                    }
                }
            }
            assert forall|s: int| 0 <= s < self.sparse@.len() implies (
            #[trigger] self.sparse@[s] matches Some(i) ==> {
                &&& i < self.dense@.len()
                &&& self.dense@[i as int].slot() == s
            }) by {
                if let Some(i) = self.sparse@[s] {
                    if s != old(self).dense@.last().slot() {
                        assert(old(self).sparse@[s] == Some(i));
                        assert(i != old(self).dense@.len() - 1);
                    }
                }
            }
        }
        key
    }

    /// Takes `key` out. Where it is no member, nothing changes; else the last
    /// member of the walk moves to its place.
    pub fn remove(&mut self, key: T)
        requires
            old(self).wf(),
        ensures
            final(self).wf(),
            final(self)@ == removed(old(self)@, key),
            final(self).table() == removed_table(old(self).table(), old(self)@, key),
            final(self).keys() == old(self).keys().remove(key),
    {
        proof {
            self.lemma_distinct();
            lemma_removed(self@, key);
            assert(removed(self@, key).to_set() =~= self@.to_set().remove(key));
        }
        let slot = key.to_slot();
        if slot < self.sparse.len() {
            if let Some(index) = self.sparse[slot] {
                proof {
                    self.dense@[index as int].slot_is_injective(key);
                    assert(self@.contains(key));
                    assert(self@.index_of(key) == index);
                }
                let _ = self.remove_at(index);
                return;
            }
        }
        assert forall|i: int| 0 <= i < self.dense@.len() implies self.dense@[i] != key by {};
    }

    /// Takes out a member picked at random, and returns it.
    pub fn remove_random_key(&mut self) -> (key: T)
        requires
            old(self).wf(),
            old(self)@.len() > 0,
        ensures
            final(self).wf(),
            old(self)@.contains(key),
            !final(self)@.contains(key),
            final(self)@ == removed(old(self)@, key),
            final(self).table() == removed_table(old(self).table(), old(self)@, key),
            final(self).keys() == old(self).keys().remove(key),
            final(self)@.len() == old(self)@.len() - 1,
    {
        proof {
            self.lemma_distinct();
        }
        let index = random_below(self.dense.len());
        let key = self.remove_at(index);
        proof {
            assert(old(self)@[index as int] == key);
            assert(old(self)@.index_of(key) == index);
            lemma_removed(old(self)@, key);
            assert(removed(old(self)@, key).to_set() =~= old(self)@.to_set().remove(key));
        }
        key
    }

    /// The set of the keys in `keys`, added in that order.
    pub fn from_iter(keys: Vec<T>) -> (set: Self)
        ensures
            set.wf(),
            set@ == collected(keys@),
            set.table() == collected_table(keys@),
    {
        let mut set = SparseSet::new();
        let mut i: usize = 0;
        while i < keys.len()
            invariant
                i <= keys@.len(),
                set.wf(),
                set@ == collected(keys@.subrange(0, i as int)),
                set.table() == collected_table(keys@.subrange(0, i as int)),
            decreases keys@.len() - i,
        {
            proof {
                let next = keys@.subrange(0, i + 1);
                assert(next.drop_last() == keys@.subrange(0, i as int));
                assert(next.last() == keys@[i as int]);
            }
            set.add(keys[i]);
            i += 1;
        }
        assert(keys@.subrange(0, i as int) == keys@);
        set
    }

    /// No key is listed twice: two places with one key have one slot, and a
    /// slot records one place.
    pub proof fn lemma_distinct(&self)
        requires
            self.wf(),
        ensures
            self@.no_duplicates(),
    {
        assert forall|i: int, j: int|
            0 <= i < self.dense@.len() && 0 <= j < self.dense@.len() && i != j implies self.dense@[i]
            != self.dense@[j] by {
            if self.dense@[i] == self.dense@[j] {
                assert(self.sparse@[self.dense@[i].slot() as int] matches Some(p) && p == i);
                assert(self.sparse@[self.dense@[j].slot() as int] matches Some(p) && p == j);
            }
        }
    }
}

impl<T: SparseKey> Default for SparseSet<T> {
    fn default() -> (set: Self)
        ensures
            set.wf(),
            set@ == Seq::<T>::empty(),
            set.table() == Seq::<Option<usize>>::empty(),
    {
        SparseSet::new()
    }
}

/// Keys of which none comes twice, each added in turn to an empty set, give
/// the set that is walked in their order.
pub proof fn lemma_collected_distinct<T>(keys: Seq<T>)
    requires
        keys.no_duplicates(),
    ensures
        collected(keys) == keys,
    decreases keys.len(),
{
    if keys.len() > 0 {
        let earlier = keys.drop_last();
        lemma_collected_distinct(earlier);
        assert forall|i: int| 0 <= i < earlier.len() implies earlier[i] != keys.last() by {
            assert(earlier[i] == keys[i]);
        }
        assert(earlier.push(keys.last()) == keys);
    }
}

/// One step of a history of a set: a key is added, or removed.
pub enum SetOp<T> {
    Add(T),
    Remove(T),
}

/// The walk that `start` has become after the steps of `ops`, in order.
pub open spec fn replayed<T>(start: Seq<T>, ops: Seq<SetOp<T>>) -> Seq<T>
    decreases ops.len(),
{
    if ops.len() == 0 {
        start
    } else {
        let before = replayed(start, ops.drop_last());
        match ops.last() {
            SetOp::Add(key) => added(before, key),
            SetOp::Remove(key) => removed(before, key),
        }
    }
}

/// Whether the last step of `ops` that names `key` adds it.
pub open spec fn added_last<T>(ops: Seq<SetOp<T>>, key: T) -> bool {
    exists|i: int|
        0 <= i < ops.len() && #[trigger] ops[i] == SetOp::Add(key) && forall|j: int|
            i < j < ops.len() ==> #[trigger] ops[j] != SetOp::Remove(key)
}

/// Whether no step of `ops` removes `key`.
pub open spec fn never_removed<T>(ops: Seq<SetOp<T>>, key: T) -> bool {
    forall|j: int| 0 <= j < ops.len() ==> #[trigger] ops[j] != SetOp::Remove(key)
}

/// Adding keeps a walk free of repeats, and makes `key` a member beside
/// those there were.
pub proof fn lemma_added<T>(dense: Seq<T>, key: T)
    requires
        dense.no_duplicates(),
    ensures
        added(dense, key).no_duplicates(),
        forall|k: T| added(dense, key).contains(k) <==> (dense.contains(k) || k == key),
{
    let after = added(dense, key);
    if !dense.contains(key) {
        assert(after[dense.len() as int] == key);
        assert forall|k: T| after.contains(k) <==> (dense.contains(k) || k == key) by {
            if dense.contains(k) {
                let i = dense.index_of(k);
                assert(after[i] == k);
            }
            if after.contains(k) {
                let i = after.index_of(k);
                if i < dense.len() {
                    assert(dense[i] == k);
                }
            }
        }
    }
}

/// Removing keeps a walk free of repeats, and leaves the members there were
/// but for `key`.
pub proof fn lemma_removed<T>(dense: Seq<T>, key: T)
    requires
        dense.no_duplicates(),
    ensures
        removed(dense, key).no_duplicates(),
        forall|k: T| removed(dense, key).contains(k) <==> (dense.contains(k) && k != key),
        dense.contains(key) ==> removed(dense, key).len() == dense.len() - 1,
{
    let after = removed(dense, key);
    if dense.contains(key) {
        let at = dense.index_of(key);
        let last = dense.len() - 1;
        assert forall|j: int| 0 <= j < after.len() implies after[j] == (if j == at {
            dense[last]
        } else {
            dense[j]
        }) by {}
        assert forall|k: T| after.contains(k) <==> (dense.contains(k) && k != key) by {
            if dense.contains(k) && k != key {
                let i = dense.index_of(k);
                if i == last {
                    assert(after[at] == k);
                } else {
                    assert(after[i] == k);
                }
            }
            if after.contains(k) {
                let i = after.index_of(k);
                if i == at {
                    assert(dense[last] == k);
                } else {
                    assert(dense[i] == k);
                }
            }
        }
    }
}

/// After any history of additions and removals, the members are the keys
/// whose last mention adds them, and the keys that were there at the start
/// and were never removed.
pub proof fn lemma_replayed_members<T>(start: Seq<T>, ops: Seq<SetOp<T>>)
    requires
        start.no_duplicates(),
    ensures
        replayed(start, ops).no_duplicates(),
        forall|key: T| #[trigger]
            replayed(start, ops).contains(key) <==> (added_last(ops, key) || (start.contains(key)
                && never_removed(ops, key))),
    decreases ops.len(),
{
    if ops.len() > 0 {
        let earlier = ops.drop_last();
        let before = replayed(start, earlier);
        let n = earlier.len() as int;
        lemma_replayed_members(start, earlier);
        match ops.last() {
            SetOp::Add(added_key) => lemma_added(before, added_key),
            SetOp::Remove(removed_key) => lemma_removed(before, removed_key),
        }
        assert forall|key: T| #[trigger]
            replayed(start, ops).contains(key) <==> (added_last(ops, key) || (start.contains(key)
                && never_removed(ops, key))) by {
            assert(before.contains(key) <==> (added_last(earlier, key) || (start.contains(key)
                && never_removed(earlier, key))));
            assert(forall|j: int| 0 <= j < n ==> earlier[j] == ops[j]);
            if added_last(earlier, key) {
                let i = choose|i: int|
                    0 <= i < earlier.len() && #[trigger] earlier[i] == SetOp::Add(key) && forall|
                        j: int,
                    |
                        i < j < earlier.len() ==> #[trigger] earlier[j] != SetOp::Remove(key);
                assert(ops[i] == SetOp::Add(key));
                if ops[n] != SetOp::Remove(key) {
                    assert forall|j: int| i < j < ops.len() implies #[trigger] ops[j]
                        != SetOp::Remove(key) by {
                        if j < n {
                            assert(earlier[j] != SetOp::Remove(key));
                        }
                    }
                    assert(added_last(ops, key));
                }
            }
            if added_last(ops, key) {
                let i = choose|i: int|
                    0 <= i < ops.len() && #[trigger] ops[i] == SetOp::Add(key) && forall|j: int|
                        i < j < ops.len() ==> #[trigger] ops[j] != SetOp::Remove(key);
                if i < n {
                    assert(earlier[i] == SetOp::Add(key));
                    assert forall|j: int| i < j < earlier.len() implies #[trigger] earlier[j]
                        != SetOp::Remove(key) by {
                        assert(ops[j] != SetOp::Remove(key));
                    }
                    assert(added_last(earlier, key));
                    assert(ops[n] != SetOp::Remove(key));
                }
            }
            if never_removed(earlier, key) && ops[n] != SetOp::Remove(key) {
                assert forall|j: int| 0 <= j < ops.len() implies #[trigger] ops[j]
                    != SetOp::Remove(key) by {
                    if j < n {
                        assert(earlier[j] != SetOp::Remove(key));
                    }
                }
            }
            if never_removed(ops, key) {
                assert forall|j: int| 0 <= j < earlier.len() implies #[trigger] earlier[j]
                    != SetOp::Remove(key) by {
                    assert(ops[j] != SetOp::Remove(key));
                }
                assert(ops[n] != SetOp::Remove(key));
            }
            if ops[n] == SetOp::Add(key) {
                assert(added_last(ops, key));
            }
        }
    }
}

/// Adding a key that is no member and then removing it gives back the walk
/// there was, and so its length.
pub proof fn lemma_add_then_remove<T>(dense: Seq<T>, key: T)
    requires
        !dense.contains(key),
    ensures
        removed(added(dense, key), key) == dense,
        removed(added(dense, key), key).len() == dense.len(),
{
    let grown = dense.push(key);
    assert(grown[dense.len() as int] == key);
    assert(grown.contains(key));
    let at = grown.index_of(key);
    assert(at == dense.len()) by {
        if at < dense.len() {
            assert(dense[at] == key);
        }
    }
    assert(swap_removed(grown, at) =~= dense);
}

} // verus!
