//! The bounded store of uploaded images.
//!
//! Images are kept under their identifier; the identifiers are also queued
//! in insertion order.  After an insertion, while more than
//! `MAX_STORED_IMAGES` images are held, the oldest queued identifier is
//! dequeued and its image dropped.

use std::collections::VecDeque;
use vstd::prelude::*;

verus! {

/// The number of images the store keeps.
pub const MAX_STORED_IMAGES: usize = 128;

/// The images and queue that remain when, starting from `images` and
/// `order`, the oldest queued identifier is dropped while more than `cap`
/// images are held and the queue is not empty.
pub open spec fn evict_oldest<V>(images: Map<Seq<char>, V>, order: Seq<Seq<char>>, cap: nat) -> (
    Map<Seq<char>, V>,
    Seq<Seq<char>>,
)
    decreases order.len(),
{
    if images.dom().len() > cap && order.len() > 0 {
        evict_oldest(images.remove(order[0]), order.drop_first(), cap)
    } else {
        (images, order)
    }
}

/// The store after `image` is put under `id`: the image replaces any earlier
/// one under that identifier, the identifier is queued, and the oldest
/// images are evicted down to the store's capacity.
pub open spec fn stored_after_insert<V>(
    images: Map<Seq<char>, V>,
    order: Seq<Seq<char>>,
    id: Seq<char>,
    image: V,
) -> (Map<Seq<char>, V>, Seq<Seq<char>>) {
    evict_oldest(images.insert(id, image), order.push(id), MAX_STORED_IMAGES as nat)
}

/// A bounded, insertion-ordered store of images keyed by identifier.
pub struct ImageStore<V> {
    entries: Vec<(String, V)>,
    order: VecDeque<String>,
}

/// Some entry holds the key `k`.
spec fn has_key<V>(e: Seq<(String, V)>, k: Seq<char>) -> bool {
    exists|i: int| 0 <= i < e.len() && (#[trigger] e[i]).0@ == k
}

/// The position of an entry holding `k`.
spec fn index_of_key<V>(e: Seq<(String, V)>, k: Seq<char>) -> int {
    choose|i: int| 0 <= i < e.len() && (#[trigger] e[i]).0@ == k
}

/// No two entries hold the same key.
spec fn unique_keys<V>(e: Seq<(String, V)>) -> bool {
    forall|i: int, j: int| 0 <= i < j < e.len() ==> (#[trigger] e[i]).0@ != (#[trigger] e[j]).0@
}

/// The map that the entries describe.
spec fn entries_map<V>(e: Seq<(String, V)>) -> Map<Seq<char>, V> {
    Map::new(|k: Seq<char>| has_key(e, k), |k: Seq<char>| e[index_of_key(e, k)].1)
}

/// The keys of the entries, in entry order.
spec fn entry_keys<V>(e: Seq<(String, V)>) -> Seq<Seq<char>> {
    Seq::new(e.len(), |i: int| e[i].0@)
}

/// The identifiers of a queue, as character sequences.
spec fn queue_view(q: Seq<String>) -> Seq<Seq<char>> {
    Seq::new(q.len(), |i: int| q[i]@)
}

proof fn lemma_lookup<V>(e: Seq<(String, V)>, i: int)
    requires
        unique_keys(e),
        0 <= i < e.len(),
    ensures
        entries_map(e).contains_key(e[i].0@),
        entries_map(e)[e[i].0@] == e[i].1,
{
    let k = e[i].0@;
    assert(has_key(e, k));
    let j = index_of_key(e, k);
    if j != i {
        if j < i {
            assert(e[j].0@ != e[i].0@);
        } else {
            assert(e[i].0@ != e[j].0@);
        }
    }
}

proof fn lemma_map_len<V>(e: Seq<(String, V)>)
    requires
        unique_keys(e),
    ensures
        entries_map(e).dom().finite(),
        entries_map(e).dom().len() == e.len(),
{
    let ks = entry_keys(e);
    assert(ks.no_duplicates()) by {
        assert forall|i: int, j: int| 0 <= i < ks.len() && 0 <= j < ks.len() && i != j implies ks[i]
            != ks[j] by {
            if i < j {
                assert(e[i].0@ != e[j].0@);
            } else {
                assert(e[j].0@ != e[i].0@);
            }
        }
    }
    ks.unique_seq_to_set();
    vstd::seq_lib::seq_to_set_is_finite(ks);
    assert forall|k: Seq<char>| entries_map(e).dom().contains(k) <==> ks.to_set().contains(k) by {
        if has_key(e, k) {
            let i = index_of_key(e, k);
            assert(ks[i] == k);
        }
        if ks.contains(k) {
            let i = choose|i: int| 0 <= i < ks.len() && ks[i] == k;
            assert(e[i].0@ == k);
        }
    }
    assert(entries_map(e).dom() =~= ks.to_set());
}

proof fn lemma_push<V>(e: Seq<(String, V)>, s: String, v: V)
    requires
        unique_keys(e),
        !has_key(e, s@),
    ensures
        unique_keys(e.push((s, v))),
        entries_map(e.push((s, v))) == entries_map(e).insert(s@, v),
{
    let e2 = e.push((s, v));
    assert forall|i: int, j: int| 0 <= i < j < e2.len() implies (#[trigger] e2[i]).0@ != (
    #[trigger] e2[j]).0@ by {
        if j == e.len() {
            assert(e2[i] == e[i]);
        } else {
            assert(e2[i] == e[i] && e2[j] == e[j]);
        }
    }
    let m1 = entries_map(e2);
    let m2 = entries_map(e).insert(s@, v);
    assert forall|k: Seq<char>| m1.contains_key(k) <==> m2.contains_key(k) by {
        if has_key(e2, k) {
            let i = index_of_key(e2, k);
            if i < e.len() {
                assert(e2[i] == e[i]);
            }
        }
        if has_key(e, k) {
            let i = index_of_key(e, k);
            assert(e2[i] == e[i]);
        }
        if k == s@ {
            assert(e2[e.len() as int].0@ == k);
        }
    }
    assert forall|k: Seq<char>| m1.contains_key(k) implies m1[k] == m2[k] by {
        let i = index_of_key(e2, k);
        lemma_lookup(e2, i);
        if i < e.len() {
            assert(e2[i] == e[i]);
            lemma_lookup(e, i);
        }
    }
    assert(m1 =~= m2);
}

proof fn lemma_update<V>(e: Seq<(String, V)>, i: int, s: String, v: V)
    requires
        unique_keys(e),
        0 <= i < e.len(),
        e[i].0@ == s@,
    ensures
        unique_keys(e.update(i, (s, v))),
        entries_map(e.update(i, (s, v))) == entries_map(e).insert(s@, v),
{
    let e2 = e.update(i, (s, v));
    assert forall|a: int, b: int| 0 <= a < b < e2.len() implies (#[trigger] e2[a]).0@ != (
    #[trigger] e2[b]).0@ by {
        assert(e2[a].0@ == e[a].0@ && e2[b].0@ == e[b].0@);
    }
    let m1 = entries_map(e2);
    let m2 = entries_map(e).insert(s@, v);
    assert forall|k: Seq<char>| m1.contains_key(k) <==> m2.contains_key(k) by {
        if has_key(e2, k) {
            let a = index_of_key(e2, k);
            assert(e2[a].0@ == e[a].0@);
        }
        if has_key(e, k) {
            let a = index_of_key(e, k);
            assert(e2[a].0@ == e[a].0@);
        }
        if k == s@ {
            assert(e2[i].0@ == k);
        }
    }
    assert forall|k: Seq<char>| m1.contains_key(k) implies m1[k] == m2[k] by {
        let a = index_of_key(e2, k);
        lemma_lookup(e2, a);
        if a != i {
            assert(e2[a] == e[a]);
            lemma_lookup(e, a);
        }
    }
    assert(m1 =~= m2);
}

proof fn lemma_remove<V>(e: Seq<(String, V)>, i: int)
    requires
        unique_keys(e),
        0 <= i < e.len(),
    ensures
        unique_keys(e.remove(i)),
        entries_map(e.remove(i)) == entries_map(e).remove(e[i].0@),
        forall|k: Seq<char>| has_key(e.remove(i), k) ==> has_key(e, k),
{
    let e2 = e.remove(i);
    let gone = e[i].0@;
    assert forall|a: int| 0 <= a < e2.len() implies #[trigger] e2[a] == if a < i {
        e[a]
    } else {
        e[a + 1]
    } by {}
    assert forall|a: int, b: int| 0 <= a < b < e2.len() implies (#[trigger] e2[a]).0@ != (
    #[trigger] e2[b]).0@ by {
        let a0 = if a < i { a } else { a + 1 };
        let b0 = if b < i { b } else { b + 1 };
        assert(e2[a] == e[a0] && e2[b] == e[b0]);
        assert(e[a0].0@ != e[b0].0@);
    }
    let m1 = entries_map(e2);
    let m2 = entries_map(e).remove(gone);
    assert forall|k: Seq<char>| has_key(e2, k) implies has_key(e, k) && k != gone by {
        let a = index_of_key(e2, k);
        let a0 = if a < i { a } else { a + 1 };
        assert(e2[a] == e[a0]);
        if a0 < i {
            assert(e[a0].0@ != e[i].0@);
        } else {
            assert(e[i].0@ != e[a0].0@);
        }
    }
    assert forall|k: Seq<char>| m2.contains_key(k) implies m1.contains_key(k) by {
        let a = index_of_key(e, k);
        assert(a != i);
        let a2 = if a < i { a } else { a - 1 };
        assert(e2[a2] == e[a]);
    }
    assert forall|k: Seq<char>| m1.contains_key(k) implies m1[k] == m2[k] by {
        let a = index_of_key(e2, k);
        lemma_lookup(e2, a);
        let a0 = if a < i { a } else { a + 1 };
        assert(e2[a] == e[a0]);
        lemma_lookup(e, a0);
    }
    assert(m1 =~= m2);
}

/// Eviction never leaves more than `cap` images when every held identifier
/// is queued.
proof fn lemma_evict_bounded<V>(images: Map<Seq<char>, V>, order: Seq<Seq<char>>, cap: nat)
    requires
        images.dom().finite(),
        forall|k: Seq<char>| images.contains_key(k) ==> order.contains(k),
    ensures
        evict_oldest(images, order, cap).0.dom().finite(),
        evict_oldest(images, order, cap).0.dom().len() <= cap,
        forall|k: Seq<char>|
            #[trigger] evict_oldest(images, order, cap).0.contains_key(k) ==> evict_oldest(
                images,
                order,
                cap,
            ).1.contains(k),
    decreases order.len(),
{
    if images.dom().len() > cap && order.len() > 0 {
        let m2 = images.remove(order[0]);
        let o2 = order.drop_first();
        assert forall|k: Seq<char>| m2.contains_key(k) implies o2.contains(k) by {
            assert(images.contains_key(k) && k != order[0]);
            assert(order.contains(k));
            let j = choose|j: int| 0 <= j < order.len() && order[j] == k;
            assert(j != 0);
            assert(o2[j - 1] == k);
        }
        lemma_evict_bounded(m2, o2, cap);
    } else if order.len() == 0 {
        assert forall|k: Seq<char>| !images.dom().contains(k) by {
            if images.contains_key(k) {
                assert(order.contains(k));
            }
        }
        assert(images.dom() =~= Set::<Seq<char>>::empty());
    }
}

/// An identifier queued last, and nowhere else, survives eviction together
/// with its image, provided every other held identifier is queued before it.
proof fn lemma_evict_keeps_newest<V>(
    images: Map<Seq<char>, V>,
    order: Seq<Seq<char>>,
    cap: nat,
    id: Seq<char>,
)
    requires
        cap >= 1,
        images.dom().finite(),
        images.contains_key(id),
        order.len() >= 1,
        order.last() == id,
        !order.drop_last().contains(id),
        forall|k: Seq<char>| images.contains_key(k) && k != id ==> order.drop_last().contains(k),
    ensures
        evict_oldest(images, order, cap).0.contains_key(id),
        evict_oldest(images, order, cap).0[id] == images[id],
    decreases order.len(),
{
    if images.dom().len() > cap && order.len() > 0 {
        if order.len() == 1 {
            assert(images.dom() =~= set![id]) by {
                assert forall|k: Seq<char>| images.dom().contains(k) implies k == id by {
                    if k != id {
                        assert(order.drop_last().contains(k));
                    }
                }
            }
            assert(set![id].len() == 1);
        } else {
            let k0 = order[0];
            assert(order.drop_last()[0] == k0);
            assert(k0 != id);
            let m2 = images.remove(k0);
            let o2 = order.drop_first();
            assert(o2.drop_last() =~= order.drop_last().drop_first());
            assert forall|k: Seq<char>| m2.contains_key(k) && k != id implies o2.drop_last().contains(
                k,
            ) by {
                assert(images.contains_key(k) && k != k0);
                assert(order.drop_last().contains(k));
                let j = choose|j: int|
                    0 <= j < order.drop_last().len() && order.drop_last()[j] == k;
                assert(j != 0);
                assert(o2.drop_last()[j - 1] == k);
            }
            assert(!o2.drop_last().contains(id)) by {
                if o2.drop_last().contains(id) {
                    let j = choose|j: int| 0 <= j < o2.drop_last().len() && o2.drop_last()[j] == id;
                    assert(order.drop_last()[j + 1] == id);
                }
            }
            lemma_evict_keeps_newest(m2, o2, cap, id);
        }
    }
}

/// The newest `cap` identifiers of `order` (all of them when there are no
/// more than `cap`): the queue without its first `max(0, len - cap)` entries.
pub open spec fn newest_ids(order: Seq<Seq<char>>, cap: nat) -> Seq<Seq<char>> {
    if order.len() > cap {
        order.skip(order.len() - cap)
    } else {
        order
    }
}

/// The queue lists exactly the identifiers held, each once.
pub open spec fn lists_exactly<V>(images: Map<Seq<char>, V>, order: Seq<Seq<char>>) -> bool {
    &&& order.no_duplicates()
    &&& forall|k: Seq<char>| images.contains_key(k) <==> order.contains(k)
}

proof fn lemma_evict_closed_form<V>(images: Map<Seq<char>, V>, order: Seq<Seq<char>>, cap: nat)
    requires
        images.dom().finite(),
        lists_exactly(images, order),
    ensures
        evict_oldest(images, order, cap) == (
            images.restrict(newest_ids(order, cap).to_set()),
            newest_ids(order, cap),
        ),
    decreases order.len(),
{
    assert(images.dom() =~= order.to_set());
    order.unique_seq_to_set();
    if order.len() > cap {
        let o0 = order[0];
        let rest = order.drop_first();
        let m2 = images.remove(o0);
        assert(rest.no_duplicates()) by {
            assert forall|i: int, j: int|
                0 <= i < rest.len() && 0 <= j < rest.len() && i != j implies rest[i] != rest[j] by {
                assert(rest[i] == order[i + 1] && rest[j] == order[j + 1]);
            }
        }
        assert forall|k: Seq<char>| m2.contains_key(k) <==> rest.contains(k) by {
            if m2.contains_key(k) {
                assert(order.contains(k));
                let i = choose|i: int| 0 <= i < order.len() && order[i] == k;
                assert(i != 0);
                assert(rest[i - 1] == k);
            }
            if rest.contains(k) {
                let i = choose|i: int| 0 <= i < rest.len() && rest[i] == k;
                assert(order[i + 1] == k);
                assert(order.contains(k));
                assert(k != o0);
            }
        }
        lemma_evict_closed_form(m2, rest, cap);
        let newest = newest_ids(order, cap);
        assert(newest_ids(rest, cap) =~= newest);
        assert(!newest.to_set().contains(o0)) by {
            if newest.contains(o0) {
                let i = choose|i: int| 0 <= i < newest.len() && newest[i] == o0;
                assert(order[i + order.len() - cap] == o0);
            }
        }
        assert(m2.restrict(newest.to_set()) =~= images.restrict(newest.to_set()));
    } else {
        assert(images.restrict(order.to_set()) =~= images);
    }
}

/// Inserting a fresh identifier into a store whose queue lists exactly the
/// stored identifiers keeps the newest `MAX_STORED_IMAGES` identifiers of the
/// queue with the new one appended, and exactly their images; the queue
/// again lists exactly the stored identifiers.
pub proof fn lemma_insert_keeps_newest_ids<V>(
    images: Map<Seq<char>, V>,
    order: Seq<Seq<char>>,
    id: Seq<char>,
    image: V,
)
    requires
        images.dom().finite(),
        lists_exactly(images, order),
        !order.contains(id),
    ensures
        stored_after_insert(images, order, id, image) == (
            images.insert(id, image).restrict(
                newest_ids(order.push(id), MAX_STORED_IMAGES as nat).to_set(),
            ),
            newest_ids(order.push(id), MAX_STORED_IMAGES as nat),
        ),
        lists_exactly(
            stored_after_insert(images, order, id, image).0,
            stored_after_insert(images, order, id, image).1,
        ),
{
    let m = images.insert(id, image);
    let o = order.push(id);
    assert(o.no_duplicates()) by {
        assert forall|i: int, j: int| 0 <= i < o.len() && 0 <= j < o.len() && i != j implies o[i]
            != o[j] by {
            if i == order.len() {
                assert(order.contains(o[j]));
            } else if j == order.len() {
                assert(order.contains(o[i]));
            }
        }
    }
    assert forall|k: Seq<char>| m.contains_key(k) <==> o.contains(k) by {
        if k == id {
            assert(o[order.len() as int] == id);
        } else if m.contains_key(k) {
            assert(order.contains(k));
            let i = choose|i: int| 0 <= i < order.len() && order[i] == k;
            assert(o[i] == k);
        } else if o.contains(k) {
            let i = choose|i: int| 0 <= i < o.len() && o[i] == k;
            if i < order.len() {
                assert(order[i] == k);
                assert(order.contains(k));
            }
        }
    }
    lemma_evict_closed_form(m, o, MAX_STORED_IMAGES as nat);
    let newest = newest_ids(o, MAX_STORED_IMAGES as nat);
    let r = m.restrict(newest.to_set());
    assert(newest.no_duplicates()) by {
        if o.len() > MAX_STORED_IMAGES {
            let d = o.len() - MAX_STORED_IMAGES;
            assert forall|i: int, j: int|
                0 <= i < newest.len() && 0 <= j < newest.len() && i != j implies newest[i]
                != newest[j] by {
                assert(newest[i] == o[i + d] && newest[j] == o[j + d]);
            }
        }
    }
    assert forall|k: Seq<char>| r.contains_key(k) <==> newest.contains(k) by {
        if newest.contains(k) {
            let i = choose|i: int| 0 <= i < newest.len() && newest[i] == k;
            if o.len() > MAX_STORED_IMAGES {
                assert(o[i + o.len() - MAX_STORED_IMAGES] == k);
            }
            assert(o.contains(k));
        }
    }
}

impl<V> ImageStore<V> {
    #[verifier::type_invariant]
    spec fn well_formed(self) -> bool {
        &&& unique_keys(self.entries@)
        &&& self.entries@.len() <= MAX_STORED_IMAGES
        &&& forall|i: int|
            0 <= i < self.entries@.len() ==> queue_view(self.order@).contains(
                (#[trigger] self.entries@[i]).0@,
            )
    }

    /// The images held, by identifier.
    pub closed spec fn images(self) -> Map<Seq<char>, V> {
        entries_map(self.entries@)
    }

    /// The queued identifiers, oldest first.
    pub closed spec fn order(self) -> Seq<Seq<char>> {
        queue_view(self.order@)
    }

    /// An empty store.
    pub fn new() -> (s: Self)
        ensures
            s.images() == Map::<Seq<char>, V>::empty(),
            s.order() == Seq::<Seq<char>>::empty(),
    {
        let s = ImageStore { entries: Vec::new(), order: VecDeque::new() };
        assert(s.images() =~= Map::<Seq<char>, V>::empty());
        assert(s.order() =~= Seq::<Seq<char>>::empty());
        s
    }

    /// The number of images held; never more than `MAX_STORED_IMAGES`.
    pub fn len(&self) -> (n: usize)
        ensures
            n == self.images().dom().len(),
            n <= MAX_STORED_IMAGES,
    {
        proof {
            use_type_invariant(self);
            lemma_map_len(self.entries@);
        }
        self.entries.len()
    }

    /// The image stored under `id`, if any.
    pub fn get(&self, id: &String) -> (res: Option<&V>)
        ensures
            match res {
                Some(v) => self.images().contains_key(id@) && *v == self.images()[id@],
                None => !self.images().contains_key(id@),
            },
    {
        proof {
            use_type_invariant(self);
        }
        match find_key(&self.entries, id) {
            Some(i) => {
                proof {
                    lemma_lookup(self.entries@, i as int);
                }
                Some(&self.entries[i].1)
            },
            None => None,
        }
    }

    /// Stores `image` under `id`, queues `id`, and evicts the oldest images
    /// while more than `MAX_STORED_IMAGES` are held.
    pub fn insert(&mut self, id: String, image: V)
        ensures
            (final(self).images(), final(self).order()) == stored_after_insert(
                old(self).images(),
                old(self).order(),
                id@,
                image,
            ),
            final(self).images().dom().len() <= MAX_STORED_IMAGES,
            !old(self).order().contains(id@) || old(self).images().contains_key(id@)
                ==> final(self).images().contains_key(id@) && final(self).images()[id@] == image,
    {
        proof {
            use_type_invariant(&*self);
        }
        let mut taken: ImageStore<V> = ImageStore::new();
        std::mem::swap(self, &mut taken);
        proof {
            use_type_invariant(&taken);
        }
        let ghost images0 = taken.images();
        let ghost order0 = taken.order();
        let ImageStore { mut entries, mut order } = taken;
        let ghost e0 = entries@;
        proof {
            lemma_map_len(e0);
        }
        let ghost target = stored_after_insert(images0, order0, id@, image);
        let ghost was_held = images0.contains_key(id@);
        match find_key(&entries, &id) {
            Some(i) => {
                let key: String = id.clone();
                proof {
                    lemma_update(entries@, i as int, key, image);
                }
                entries.set(i, (key, image));
            },
            None => {
                let key: String = id.clone();
                proof {
                    lemma_push(entries@, key, image);
                }
                entries.push((key, image));
            },
        }
        let ghost id_view = id@;
        order.push_back(id);
        proof {
            assert(queue_view(order@) =~= order0.push(id_view));
            lemma_map_len(entries@);
            assert forall|k: Seq<char>| entries_map(entries@).contains_key(k) implies queue_view(
                order@,
            ).contains(k) by {
                if k == id_view {
                    assert(queue_view(order@)[queue_view(order@).len() - 1] == k);
                } else {
                    assert(images0.contains_key(k));
                    let j = choose|j: int| 0 <= j < order0.len() && order0[j] == k;
                    assert(queue_view(order@)[j] == k);
                }
            }
            lemma_evict_bounded(
                entries_map(entries@),
                queue_view(order@),
                MAX_STORED_IMAGES as nat,
            );
            if !order0.contains(id_view) || was_held {
                if !was_held {
                    assert(queue_view(order@).drop_last() =~= order0);
                    assert forall|k: Seq<char>|
                        entries_map(entries@).contains_key(k) && k != id_view implies queue_view(
                        order@,
                    ).drop_last().contains(k) by {
                        assert(images0.contains_key(k));
                    }
                    lemma_evict_keeps_newest(
                        entries_map(entries@),
                        queue_view(order@),
                        MAX_STORED_IMAGES as nat,
                        id_view,
                    );
                } else {
                    assert(entries_map(entries@).dom() =~= images0.dom());
                }
            }
        }
        while entries.len() > MAX_STORED_IMAGES
            invariant
                unique_keys(entries@),
                entries_map(entries@).dom().len() == entries@.len(),
                evict_oldest(entries_map(entries@), queue_view(order@), MAX_STORED_IMAGES as nat)
                    == target,
            ensures
                unique_keys(entries@),
                (entries_map(entries@), queue_view(order@)) == target,
            decreases order@.len(),
        {
            proof {
                lemma_map_len(entries@);
            }
            let ghost q_before = queue_view(order@);
            match order.pop_front() {
                Some(oldest) => {
                    assert(queue_view(order@) =~= q_before.drop_first());
                    assert(oldest@ == q_before[0]);
                    remove_key(&mut entries, &oldest);
                    proof {
                        lemma_map_len(entries@);
                    }
                },
                None => {
                    assert(q_before.len() == 0);
                    break;
                },
            }
        }
        proof {
            lemma_map_len(entries@);
            assert forall|i: int| 0 <= i < entries@.len() implies queue_view(order@).contains(
                (#[trigger] entries@[i]).0@,
            ) by {
                lemma_lookup(entries@, i);
                assert(target.0.contains_key(entries@[i].0@));
            }
        }
        *self = ImageStore { entries, order };
    }
}

/// The position of the entry that holds `id`, if any.
fn find_key<V>(entries: &Vec<(String, V)>, id: &String) -> (r: Option<usize>)
    ensures
        match r {
            Some(i) => i < entries@.len() && entries@[i as int].0@ == id@,
            None => !has_key(entries@, id@),
        },
{
    let mut i: usize = 0;
    while i < entries.len()
        invariant
            i <= entries@.len(),
            forall|j: int| 0 <= j < i ==> (#[trigger] entries@[j]).0@ != id@,
        decreases entries@.len() - i,
    {
        if entries[i].0 == *id {
            return Some(i);
        }
        i = i + 1;
    }
    None
}

/// Drops the entry that holds `id`, if any.
fn remove_key<V>(entries: &mut Vec<(String, V)>, id: &String)
    requires
        unique_keys(old(entries)@),
    ensures
        unique_keys(final(entries)@),
        entries_map(final(entries)@) == entries_map(old(entries)@).remove(id@),
{
    match find_key(entries, id) {
        Some(i) => {
            proof {
                lemma_remove(entries@, i as int);
            }
            entries.remove(i);
        },
        None => {
            assert(entries_map(entries@) =~= entries_map(entries@).remove(id@));
        },
    }
}

} // verus!
