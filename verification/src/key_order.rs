//! Ordering facts about byte keys in a `BTreeMap`.

use std::collections::BTreeMap;
use vstd::prelude::*;
use vstd::std_specs::btree::{increasing_seq, key_obeys_cmp_spec, spec_btree_map_iter};
use vstd::std_specs::cmp::OrdSpec;
use vstd::std_specs::iter::IteratorSpec;

verus! {

broadcast use {vstd::std_specs::btree::group_btree_axioms, vstd::laws_cmp::group_laws_cmp};

/// Byte keys obey the ordering laws that `BTreeMap` relies on, so its view
/// follows `insert` exactly.
pub proof fn lemma_byte_keys_ordered()
    ensures
        key_obeys_cmp_spec::<u8>(),
        vstd::laws_cmp::obeys_cmp::<u8>(),
{
}

/// The entries of a byte-keyed map, in the order `iter` yields them, have
/// strictly increasing keys, and are exactly the map's entries.
pub proof fn lemma_byte_map_entries<V>(m: &BTreeMap<u8, V>, s: Seq<(&u8, &V)>)
    requires
        s == spec_btree_map_iter(m).remaining(),
        increasing_seq(s.map_values(|kv: (&u8, &V)| *kv.0)),
    ensures
        forall|i: int, j: int| 0 <= i < j < s.len() ==> *s[i].0 < *s[j].0,
        forall|i: int| 0 <= i < s.len() ==> m@.contains_key(*s[i].0) && m@[*s[i].0] == *s[i].1,
        forall|k: u8| m@.contains_key(k) ==> exists|i: int| 0 <= i < s.len() && *s[i].0 == k,
{
    let ks = s.map_values(|kv: (&u8, &V)| *kv.0);
    lemma_byte_keys_ordered();
    vstd::std_specs::btree::axiom_increasing_seq_meaning(ks);
    assert forall|i: int, j: int| 0 <= i < j < s.len() implies *s[i].0 < *s[j].0 by {
        assert(ks[i] == *s[i].0 && ks[j] == *s[j].0);
        assert(ks[i].cmp_spec(&ks[j]) is Less);
    }
    assert forall|i: int| 0 <= i < s.len() implies m@.contains_key(*s[i].0) && m@[*s[i].0]
        == *s[i].1 by {
        assert(m@.contains_key(*s[i].0));
    }
    assert forall|k: u8| m@.contains_key(k) implies exists|i: int| 0 <= i < s.len() && *s[i].0
        == k by {
        assert(s.contains((&k, &m@[k])));
        let i = choose|i: int| 0 <= i < s.len() && s[i] == (&k, &m@[k]);
        assert(*s[i].0 == k);
    }
}

} // verus!
