use vstd::prelude::*;

use indexmap::IndexMap;

use crate::error::Error;
use crate::ident::new_id;
use crate::progress::{item_matches, Item, Progress, ProgressView};

verus! {

/// indexmap's `IndexMap`, opaque to Verus: what it holds is read through
/// `entries_of`.
#[verifier::external_type_specification]
#[verifier::external_body]
#[verifier::reject_recursive_types(K)]
#[verifier::reject_recursive_types(V)]
#[verifier::reject_recursive_types(S)]
pub struct ExIndexMap<K, V, S>(IndexMap<K, V, S>);

/// The entries of an index map, in insertion order.
pub uninterp spec fn entries_of(m: IndexMap<u128, Progress>) -> Seq<(u128, Progress)>;

/// No identifier occurs twice.
pub open spec fn unique_ids<V>(s: Seq<(u128, V)>) -> bool {
    forall|i: int, j: int| 0 <= i < s.len() && 0 <= j < s.len() && i != j ==> s[i].0 != s[j].0
}

/// The position of `id` in `s`, if it occurs there.
pub open spec fn find<V>(s: Seq<(u128, V)>, id: u128) -> Option<int> {
    if exists|i: int| 0 <= i < s.len() && s[i].0 == id {
        Some(choose|i: int| 0 <= i < s.len() && s[i].0 == id)
    } else {
        None
    }
}

/// Relies on `IndexMap::new`: an empty map.
#[verifier::external_body]
fn map_new() -> (r: IndexMap<u128, Progress>)
    ensures
        entries_of(r) == Seq::<(u128, Progress)>::empty(),
{
    IndexMap::new()
}

/// Relies on `IndexMap::len`: the number of entries.
#[verifier::external_body]
fn map_len(m: &IndexMap<u128, Progress>) -> (r: usize)
    ensures
        r == entries_of(*m).len(),
{
    m.len()
}

/// Relies on `IndexMap::contains_key`: whether some entry has key `k`.
#[verifier::external_body]
fn map_contains_key(m: &IndexMap<u128, Progress>, k: u128) -> (r: bool)
    ensures
        r == find(entries_of(*m), k) is Some,
{
    m.contains_key(&k)
}

/// Relies on `IndexMap::insert`: an existing key keeps its place and gets
/// the new value; a new key goes last.
#[verifier::external_body]
fn map_insert(m: &mut IndexMap<u128, Progress>, k: u128, v: Progress) -> (r: Option<Progress>)
    ensures
        match find(entries_of(*old(m)), k) {
            Some(i) => r == Some(entries_of(*old(m))[i].1) && entries_of(*final(m))
                == entries_of(*old(m)).update(i, (k, v)),
            None => r is None && entries_of(*final(m)) == entries_of(*old(m)).push((k, v)),
        },
{
    m.insert(k, v)
}

/// Relies on `IndexMap::shift_remove`: the entry of key `k` leaves and the
/// others keep their order.
#[verifier::external_body]
fn map_shift_remove(m: &mut IndexMap<u128, Progress>, k: u128) -> (r: Option<Progress>)
    ensures
        match find(entries_of(*old(m)), k) {
            Some(i) => r == Some(entries_of(*old(m))[i].1) && entries_of(*final(m))
                == entries_of(*old(m)).remove(i),
            None => r is None && entries_of(*final(m)) == entries_of(*old(m)),
        },
{
    m.shift_remove(&k)
}

/// Relies on `IndexMap::get`: the value of key `k`.
#[verifier::external_body]
fn map_get(m: &IndexMap<u128, Progress>, k: u128) -> (r: Option<&Progress>)
    ensures
        match find(entries_of(*m), k) {
            Some(i) => r == Some(&entries_of(*m)[i].1),
            None => r is None,
        },
{
    m.get(&k)
}

/// Relies on `IndexMap::get_mut`: the value of key `k`, in place.
#[verifier::external_body]
fn map_get_mut(m: &mut IndexMap<u128, Progress>, k: u128) -> (r: Option<&mut Progress>)
    ensures
        match find(entries_of(*old(m)), k) {
            Some(i) => r is Some && *r.unwrap() == entries_of(*old(m))[i].1 && entries_of(
                *final(m),
            ) == entries_of(*old(m)).update(i, (k, *final(r.unwrap()))),
            None => r is None && entries_of(*final(m)) == entries_of(*old(m)),
        },
{
    m.get_mut(&k)
}

/// Relies on `IndexMap::get_index`: the entry at position `i`.
#[verifier::external_body]
fn map_get_index(m: &IndexMap<u128, Progress>, i: usize) -> (r: Option<(&u128, &Progress)>)
    ensures
        i < entries_of(*m).len() ==> r == Some(
            (&entries_of(*m)[i as int].0, &entries_of(*m)[i as int].1),
        ),
        i >= entries_of(*m).len() ==> r is None,
{
    m.get_index(i)
}

/// The registry of running transfers: each identifier with its progress
/// record, in registration order.
pub struct ProgressMap {
    map: IndexMap<u128, Progress>,
    /// The last identifier that `add` handed out.
    last_issued: Option<u128>,
}

/// Views each record of `s` mathematically.
pub open spec fn view_entries(s: Seq<(u128, Progress)>) -> Seq<(u128, ProgressView)> {
    s.map_values(|e: (u128, Progress)| (e.0, e.1@))
}

impl View for ProgressMap {
    type V = Seq<(u128, ProgressView)>;

    closed spec fn view(&self) -> Seq<(u128, ProgressView)> {
        view_entries(entries_of(self.map))
    }
}

/// In a sequence without repeated identifiers, the entry of `id` is the
/// one that `find` gives.
proof fn lemma_find_at<V>(s: Seq<(u128, V)>, i: int)
    requires
        unique_ids(s),
        0 <= i < s.len(),
    ensures
        find(s, s[i].0) == Some(i),
{
}

proof fn lemma_view_find(s: Seq<(u128, Progress)>, id: u128)
    requires
        unique_ids(s),
    ensures
        unique_ids(view_entries(s)),
        find(view_entries(s), id) == find(s, id),
{
    let v = view_entries(s);
    if exists|i: int| 0 <= i < s.len() && s[i].0 == id {
        let i = choose|i: int| 0 <= i < s.len() && s[i].0 == id;
        lemma_find_at(s, i);
        lemma_find_at(v, i);
    } else {
        assert(!exists|i: int| 0 <= i < v.len() && v[i].0 == id) by {
            if exists|i: int| 0 <= i < v.len() && v[i].0 == id {
                let i = choose|i: int| 0 <= i < v.len() && v[i].0 == id;
                assert(s[i].0 == id);
            }
        }
    }
}

proof fn lemma_update_entry(s: Seq<(u128, Progress)>, i: int, v: Progress)
    requires
        unique_ids(s),
        0 <= i < s.len(),
    ensures
        unique_ids(s.update(i, (s[i].0, v))),
        view_entries(s.update(i, (s[i].0, v))) == view_entries(s).update(i, (s[i].0, v@)),
{
    let t = s.update(i, (s[i].0, v));
    assert forall|a: int, b: int| 0 <= a < t.len() && 0 <= b < t.len() && a != b implies t[a].0
        != t[b].0 by {
        assert(t[a].0 == s[a].0);
        assert(t[b].0 == s[b].0);
    }
    assert(view_entries(t) =~= view_entries(s).update(i, (s[i].0, v@)));
}

/// Registering a new identifier and then deregistering it gives back the
/// registry as it was; from an empty registry, an empty one.
pub proof fn lemma_register_deregister(s: Seq<(u128, ProgressView)>, id: u128, p: ProgressView)
    requires
        unique_ids(s),
        find(s, id) is None,
    ensures
        find(s.push((id, p)), id) == Some(s.len() as int),
        s.push((id, p)).remove(s.len() as int) == s,
{
    let t = s.push((id, p));
    assert(unique_ids(t)) by {
        assert forall|a: int, b: int| 0 <= a < t.len() && 0 <= b < t.len() && a != b implies t[a].0
            != t[b].0 by {
            if a < s.len() && b < s.len() {
                assert(t[a] == s[a] && t[b] == s[b]);
            } else if a < s.len() {
                assert(t[a] == s[a]);
            } else {
                assert(t[b] == s[b]);
            }
        }
    }
    lemma_find_at(t, s.len() as int);
    assert(t.remove(s.len() as int) =~= s);
}

/// Updating the record of one identifier leaves every other entry, its
/// identifier and its counters, as they were, and keeps the identifiers
/// distinct.
pub proof fn lemma_updates_isolated(s: Seq<(u128, ProgressView)>, id: u128, p: ProgressView)
    requires
        unique_ids(s),
        find(s, id) is Some,
    ensures
        unique_ids(s.update(find(s, id)->0, (id, p))),
        forall|j: int|
            0 <= j < s.len() && j != find(s, id)->0 ==> #[trigger] s.update(find(s, id)->0, (id, p))[j]
                == s[j],
{
    let i = find(s, id)->0;
    let t = s.update(i, (id, p));
    assert forall|a: int, b: int| 0 <= a < t.len() && 0 <= b < t.len() && a != b implies t[a].0
        != t[b].0 by {
        assert(t[a].0 == s[a].0);
        assert(t[b].0 == s[b].0);
    }
}

/// One update of a progress record.
pub enum Update {
    SetTotal(u64),
    Progress(u64),
    Cancel,
}

/// The record after update `u`.
pub open spec fn updated(p: ProgressView, u: Update) -> ProgressView {
    match u {
        Update::SetTotal(n) => p.with_total(n),
        Update::Progress(d) => p.advanced(d),
        Update::Cancel => p.canceled(),
    }
}

/// The registry after update `u` of the record of `id`: `cancel`,
/// `commit_entry`, `begin_entry` and an update through `get_mut` each change
/// the registry this way.
pub open spec fn update_entry(s: Seq<(u128, ProgressView)>, id: u128, u: Update) -> Seq<
    (u128, ProgressView),
> {
    match find(s, id) {
        Some(i) => s.update(i, (id, updated(s[i].1, u))),
        None => s,
    }
}

/// The registry after the updates `ops`, applied in order, each to the
/// record of its identifier.
pub open spec fn apply_all(s: Seq<(u128, ProgressView)>, ops: Seq<(u128, Update)>) -> Seq<
    (u128, ProgressView),
>
    decreases ops.len(),
{
    if ops.len() == 0 {
        s
    } else {
        update_entry(apply_all(s, ops.drop_last()), ops.last().0, ops.last().1)
    }
}

/// The record `p` of `id` after those of the updates `ops` that are meant
/// for `id`, ignoring all others.
pub open spec fn apply_own(p: ProgressView, id: u128, ops: Seq<(u128, Update)>) -> ProgressView
    decreases ops.len(),
{
    if ops.len() == 0 {
        p
    } else if ops.last().0 == id {
        updated(apply_own(p, id, ops.drop_last()), ops.last().1)
    } else {
        apply_own(p, id, ops.drop_last())
    }
}

/// However the updates of several transfers interleave, the registry keeps
/// its identifiers, distinct and in their order, and each record ends as if
/// only its own updates had been applied to it: no update reaches another
/// transfer's counters.
pub proof fn lemma_interleaved_updates(s: Seq<(u128, ProgressView)>, ops: Seq<(u128, Update)>)
    requires
        unique_ids(s),
    ensures
        apply_all(s, ops).len() == s.len(),
        unique_ids(apply_all(s, ops)),
        forall|i: int|
            0 <= i < s.len() ==> #[trigger] apply_all(s, ops)[i] == (
                s[i].0,
                apply_own(s[i].1, s[i].0, ops),
            ),
    decreases ops.len(),
{
    if ops.len() > 0 {
        let prev = ops.drop_last();
        lemma_interleaved_updates(s, prev);
        let t = apply_all(s, prev);
        let (id, u) = ops.last();
        assert(t.len() == s.len());
        assert forall|i: int| 0 <= i < s.len() implies t[i] == (
            s[i].0,
            apply_own(s[i].1, s[i].0, prev),
        ) by {
            assert(apply_all(s, prev)[i] == (s[i].0, apply_own(s[i].1, s[i].0, prev)));
        }
        match find(t, id) {
            Some(j) => {
                let r = t.update(j, (id, updated(t[j].1, u)));
                assert(r == apply_all(s, ops));
                assert forall|a: int, b: int|
                    0 <= a < r.len() && 0 <= b < r.len() && a != b implies r[a].0 != r[b].0 by {
                    assert(r[a].0 == t[a].0);
                    assert(r[b].0 == t[b].0);
                }
                assert forall|i: int| 0 <= i < s.len() implies #[trigger] apply_all(s, ops)[i] == (
                    s[i].0,
                    apply_own(s[i].1, s[i].0, ops),
                ) by {
                    if i != j {
                        assert(t[i].0 != t[j].0);
                    }
                }
            },
            None => {
                assert(t == apply_all(s, ops));
                assert forall|i: int| 0 <= i < s.len() implies #[trigger] apply_all(s, ops)[i] == (
                    s[i].0,
                    apply_own(s[i].1, s[i].0, ops),
                ) by {
                    assert(t[i].0 != id);
                }
            },
        }
    }
}

impl ProgressMap {
    /// Well-formedness: no identifier is registered twice.
    pub closed spec fn wf(&self) -> bool {
        unique_ids(entries_of(self.map))
    }

    /// The last identifier that `add` handed out, if any.
    pub closed spec fn issued(&self) -> Option<u128> {
        self.last_issued
    }

    /// A well-formed registry holds each identifier at most once.
    pub proof fn lemma_unique_ids(&self)
        requires
            self.wf(),
        ensures
            unique_ids(self@),
    {
        lemma_view_find(entries_of(self.map), 0);
    }

    /// An empty registry.
    pub fn new() -> (r: ProgressMap)
        ensures
            r.wf(),
            r@ == Seq::<(u128, ProgressView)>::empty(),
            r.issued() is None,
    {
        let r = ProgressMap { map: map_new(), last_issued: None };
        assert(r@ =~= Seq::<(u128, ProgressView)>::empty());
        r
    }

    /// Whether `id` is registered.
    pub fn contains(&self, id: u128) -> (r: bool)
        requires
            self.wf(),
        ensures
            r == find(self@, id) is Some,
    {
        proof {
            lemma_view_find(entries_of(self.map), id);
        }
        map_contains_key(&self.map, id)
    }

    /// Registers `pg` under `id`; an identifier already present is refused
    /// and leaves the registry as it was.
    pub fn insert(&mut self, id: u128, pg: Progress) -> (r: Result<(), Error>)
        requires
            old(self).wf(),
        ensures
            final(self).wf(),
            final(self).issued() == old(self).issued(),
            find(old(self)@, id) is Some ==> r == Err::<(), Error>(Error::RegistryMisuse)
                && final(self)@ == old(self)@,
            find(old(self)@, id) is None ==> r is Ok && final(self)@ == old(self)@.push(
                (id, pg@),
            ),
    {
        proof {
            lemma_view_find(entries_of(self.map), id);
        }
        if map_contains_key(&self.map, id) {
            return Err(Error::RegistryMisuse);
        }
        let ghost before = entries_of(self.map);
        let _ = map_insert(&mut self.map, id, pg);
        proof {
            let after = entries_of(self.map);
            assert(after == before.push((id, pg)));
            assert(unique_ids(after)) by {
                assert forall|i: int, j: int|
                    0 <= i < after.len() && 0 <= j < after.len() && i != j implies after[i].0
                    != after[j].0 by {
                    if i < before.len() && j < before.len() {
                    } else if i < before.len() {
                        assert(before[i].0 == after[i].0);
                    } else {
                        assert(before[j].0 == after[j].0);
                    }
                }
            }
            assert(view_entries(after) =~= view_entries(before).push((id, pg@)));
        }
        Ok(())
    }

    /// Registers `pg` under a freshly generated identifier and returns it.
    /// Identifiers handed out by one registry strictly increase, so none is
    /// ever handed out twice, not even after its transfer was deregistered.
    /// A generated identifier that is not above the last one handed out, or
    /// that is registered already, is refused and nothing is registered; on a
    /// registry that is empty and has handed out nothing, this cannot happen.
    pub fn add(&mut self, pg: Progress) -> (r: Result<u128, Error>)
        requires
            old(self).wf(),
        ensures
            final(self).wf(),
            match r {
                Ok(id) => {
                    &&& find(old(self)@, id) is None
                    &&& final(self)@ == old(self)@.push((id, pg@))
                    &&& final(self).issued() == Some(id)
                    &&& old(self).issued() is Some ==> old(self).issued()->0 < id
                },
                Err(e) => {
                    &&& e == Error::RegistryMisuse
                    &&& final(self)@ == old(self)@
                    &&& final(self).issued() == old(self).issued()
                    &&& old(self).issued() is Some || old(self)@.len() > 0
                },
            },
    {
        let id = new_id();
        match self.last_issued {
            Some(last) => {
                if id <= last {
                    return Err(Error::RegistryMisuse);
                }
            },
            None => {},
        }
        proof {
            if old(self)@.len() == 0 {
                assert(find(old(self)@, id) is None);
            }
        }
        match self.insert(id, pg) {
            Ok(()) => {
                self.last_issued = Some(id);
                Ok(id)
            },
            Err(e) => Err(e),
        }
    }

    /// Deregisters `id`; an absent identifier is no error.
    pub fn remove(&mut self, id: u128)
        requires
            old(self).wf(),
        ensures
            final(self).wf(),
            final(self).issued() == old(self).issued(),
            match find(old(self)@, id) {
                Some(i) => final(self)@ == old(self)@.remove(i),
                None => final(self)@ == old(self)@,
            },
    {
        proof {
            lemma_view_find(entries_of(self.map), id);
        }
        let ghost before = entries_of(self.map);
        let _ = map_shift_remove(&mut self.map, id);
        proof {
            let after = entries_of(self.map);
            if let Some(i) = find(before, id) {
                assert(unique_ids(after)) by {
                    assert forall|a: int, b: int|
                        0 <= a < after.len() && 0 <= b < after.len() && a != b implies after[a].0
                        != after[b].0 by {
                        let a0 = if a < i { a } else { a + 1 };
                        let b0 = if b < i { b } else { b + 1 };
                        assert(after[a] == before[a0]);
                        assert(after[b] == before[b0]);
                    }
                }
                assert(view_entries(after) =~= view_entries(before).remove(i));
            }
        }
    }

    /// Requests cancellation of the transfer `id`; an absent identifier is
    /// a no-op.
    pub fn cancel(&mut self, id: u128)
        requires
            old(self).wf(),
        ensures
            final(self).wf(),
            final(self).issued() == old(self).issued(),
            final(self)@ == update_entry(old(self)@, id, Update::Cancel),
            match find(old(self)@, id) {
                Some(i) => final(self)@ == old(self)@.update(i, (id, old(self)@[i].1.canceled())),
                None => final(self)@ == old(self)@,
            },
    {
        match self.get_mut(id) {
            Some(pg) => pg.cancel(),
            None => {},
        }
    }

    /// A snapshot of every registered transfer, in registration order.
    pub fn to_items(&self) -> (r: Vec<Item>)
        requires
            self.wf(),
        ensures
            r@.len() == self@.len(),
            forall|i: int| 0 <= i < r@.len() ==> item_matches(r@[i], self@[i].0, self@[i].1),
    {
        let n = map_len(&self.map);
        let mut items: Vec<Item> = Vec::new();
        let mut k: usize = 0;
        while k < n
            invariant
                n == self@.len(),
                k <= n,
                items@.len() == k,
                forall|i: int| 0 <= i < k ==> item_matches(items@[i], self@[i].0, self@[i].1),
            decreases n - k,
        {
            match map_get_index(&self.map, k) {
                Some((id, pg)) => {
                    items.push(pg.to_item(*id));
                },
                None => {},
            }
            k = k + 1;
        }
        items
    }

    /// The record of `id`, if registered.
    pub fn get(&self, id: u128) -> (r: Option<&Progress>)
        requires
            self.wf(),
        ensures
            match find(self@, id) {
                Some(i) => r is Some && r.unwrap()@ == self@[i].1,
                None => r is None,
            },
    {
        proof {
            lemma_view_find(entries_of(self.map), id);
        }
        map_get(&self.map, id)
    }

    /// The record of `id`, if registered, for updating in place; every
    /// other entry stays as it is.
    pub fn get_mut(&mut self, id: u128) -> (r: Option<&mut Progress>)
        requires
            old(self).wf(),
        ensures
            match find(old(self)@, id) {
                Some(i) => r is Some && r.unwrap()@ == old(self)@[i].1 && final(self)@ == old(
                    self,
                )@.update(i, (id, final(r.unwrap())@)),
                None => r is None && final(self)@ == old(self)@,
            },
            final(self).wf(),
            final(self).issued() == old(self).issued(),
    {
        proof {
            lemma_view_find(entries_of(self.map), id);
        }
        let ghost before = entries_of(self.map);
        proof {
            if let Some(i) = find(before, id) {
                assert forall|v: Progress|
                    #![trigger before.update(i, (id, v))]
                    unique_ids(before.update(i, (id, v))) && view_entries(before.update(i, (id, v)))
                        == view_entries(before).update(i, (id, v@)) by {
                    lemma_update_entry(before, i, v);
                }
            }
        }
        let r = map_get_mut(&mut self.map, id);
        r
    }
}

} // verus!
