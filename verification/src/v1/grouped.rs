//! Entries in groups, one group for each key.

use crate::order::views;
use crate::v1::glossary::{Glossary, GlossaryView};
use vstd::prelude::*;

verus! {

/// The entries under one key.
#[derive(Debug, PartialEq, Eq)]
pub struct Group {
    pub key: String,
    pub entries: Vec<Glossary>,
}

/// Whether group `i` of `groups` has the key `key`.
pub open spec fn holds_key(groups: Seq<Group>, i: int, key: Seq<char>) -> bool {
    0 <= i < groups.len() && groups[i].key@ == key
}

/// Whether no two of `groups` have the same key.
pub open spec fn distinct_keys(groups: Seq<Group>) -> bool {
    forall|i: int, j: int|
        0 <= i < j < groups.len() ==> (#[trigger] groups[i]).key@ != (#[trigger] groups[j]).key@
}

/// The map from each key of `groups` to the entries of a group with that
/// key.
pub open spec fn mapping(groups: Seq<Group>) -> Map<Seq<char>, Seq<GlossaryView>> {
    Map::new(
        |key: Seq<char>| exists|i: int| holds_key(groups, i, key),
        |key: Seq<char>| views(groups[choose|i: int| holds_key(groups, i, key)].entries@),
    )
}

/// Among groups with distinct keys, the group that has a key is the one
/// that the map of the groups gives for it.
pub proof fn lemma_mapping_at(groups: Seq<Group>, i: int)
    requires
        distinct_keys(groups),
        0 <= i < groups.len(),
    ensures
        mapping(groups).dom().contains(groups[i].key@),
        mapping(groups)[groups[i].key@] == views(groups[i].entries@),
{
    let key = groups[i].key@;
    assert(holds_key(groups, i, key));
    let c = choose|c: int| holds_key(groups, c, key);
    if c < i {
        assert(groups[c].key@ != groups[i].key@);
    } else if i < c {
        assert(groups[i].key@ != groups[c].key@);
    }
}

/// A map from keys to lists of entries. The order of the keys is of no
/// account; the entries under one key are in the order in which they were
/// added.
pub struct GroupedGlossary {
    groups: Vec<Group>,
}

impl View for GroupedGlossary {
    type V = Map<Seq<char>, Seq<GlossaryView>>;

    closed spec fn view(&self) -> Map<Seq<char>, Seq<GlossaryView>> {
        mapping(self.groups@)
    }
}

/// The index of the group of `groups` with the key `key`.
fn group_index(groups: &Vec<Group>, key: &String) -> (r: Option<usize>)
    ensures
        match r {
            Some(i) => holds_key(groups@, i as int, key@),
            None => forall|i: int| !holds_key(groups@, i, key@),
        },
{
    let mut i: usize = 0;
    while i < groups.len()
        invariant
            i <= groups.len(),
            forall|k: int| 0 <= k < i ==> !holds_key(groups@, k, key@),
        decreases groups.len() - i,
    {
        if groups[i].key == *key {
            return Some(i);
        }
        i += 1;
    }
    None
}

impl GroupedGlossary {
    #[verifier::type_invariant]
    spec fn well_formed(&self) -> bool {
        distinct_keys(self.groups@)
    }

    /// The map with no key.
    pub fn new() -> (r: Self)
        ensures
            r@ == Map::<Seq<char>, Seq<GlossaryView>>::empty(),
    {
        let r = GroupedGlossary { groups: Vec::new() };
        assert(r@ =~= Map::<Seq<char>, Seq<GlossaryView>>::empty());
        r
    }

    /// Adds `entry` at the end of the entries under `key`.
    pub fn add(&mut self, key: String, entry: Glossary)
        ensures
            final(self)@ == old(self)@.insert(
                key@,
                if old(self)@.dom().contains(key@) {
                    old(self)@[key@].push(entry@)
                } else {
                    seq![entry@]
                },
            ),
    {
        proof {
            use_type_invariant(&*self);
        }
        let ghost before = self.groups@;
        let mut groups: Vec<Group> = Vec::new();
        core::mem::swap(&mut self.groups, &mut groups);
        match group_index(&groups, &key) {
            Some(i) => {
                let mut group = groups.remove(i);
                let ghost earlier = views(group.entries@);
                group.entries.push(entry);
                groups.insert(i, group);
                proof {
                    assert(views(groups@[i as int].entries@) =~= earlier.push(entry@));
                    assert(groups@.len() == before.len());
                    assert forall|k: int| 0 <= k < groups@.len() implies (#[trigger] groups@[k]).key
                        == before[k].key by {}
                    assert forall|k: int| 0 <= k < groups@.len() && k != i implies groups@[k]
                        == before[k] by {}
                    assert(distinct_keys(groups@)) by {
                        assert forall|a: int, b: int| 0 <= a < b < groups@.len() implies (
                        #[trigger] groups@[a]).key@ != (#[trigger] groups@[b]).key@ by {
                            assert(before[a].key@ != before[b].key@);
                        }
                    }
                    lemma_mapping_at(before, i as int);
                    let next = mapping(groups@);
                    let want = mapping(before).insert(key@, mapping(before)[key@].push(entry@));
                    assert forall|k: Seq<char>| next.dom().contains(k) <==> want.dom().contains(
                        k,
                    ) by {
                        if next.dom().contains(k) {
                            let c = choose|c: int| holds_key(groups@, c, k);
                            assert(holds_key(before, c, k));
                        }
                        if mapping(before).dom().contains(k) {
                            let c = choose|c: int| holds_key(before, c, k);
                            assert(holds_key(groups@, c, k));
                        }
                        if k == key@ {
                            assert(holds_key(groups@, i as int, k));
                        }
                    }
                    assert forall|k: Seq<char>| next.dom().contains(k) implies next[k]
                        == want[k] by {
                        let c = choose|c: int| holds_key(groups@, c, k);
                        lemma_mapping_at(groups@, c);
                        if c != i {
                            lemma_mapping_at(before, c);
                        }
                    }
                    assert(next =~= want);
                }
            },
            None => {
                let mut entries: Vec<Glossary> = Vec::new();
                entries.push(entry);
                assert(views(entries@) =~= seq![entry@]);
                groups.push(Group { key, entries });
                proof {
                    let n = before.len() as int;
                    assert(distinct_keys(groups@)) by {
                        assert forall|a: int, b: int| 0 <= a < b < groups@.len() implies (
                        #[trigger] groups@[a]).key@ != (#[trigger] groups@[b]).key@ by {
                            if b == n {
                                assert(!holds_key(before, a, key@));
                            } else {
                                assert(before[a].key@ != before[b].key@);
                            }
                        }
                    }
                    let next = mapping(groups@);
                    let want = mapping(before).insert(key@, seq![entry@]);
                    assert forall|k: Seq<char>| next.dom().contains(k) <==> want.dom().contains(
                        k,
                    ) by {
                        if next.dom().contains(k) {
                            let c = choose|c: int| holds_key(groups@, c, k);
                            if c < n {
                                assert(holds_key(before, c, k));
                            }
                        }
                        if mapping(before).dom().contains(k) {
                            let c = choose|c: int| holds_key(before, c, k);
                            assert(holds_key(groups@, c, k));
                        }
                        if k == key@ {
                            assert(holds_key(groups@, n, k));
                        }
                    }
                    assert forall|k: Seq<char>| next.dom().contains(k) implies next[k]
                        == want[k] by {
                        let c = choose|c: int| holds_key(groups@, c, k);
                        lemma_mapping_at(groups@, c);
                        if c < n {
                            assert(holds_key(before, c, k));
                            lemma_mapping_at(before, c);
                        }
                    }
                    assert(next =~= want);
                }
            },
        }
        self.groups = groups;
    }

    /// The entries under `key`, where there are any.
    pub fn get(&self, key: &str) -> (r: Option<&Vec<Glossary>>)
        ensures
            match r {
                Some(entries) => self@.dom().contains(key@) && views(entries@) == self@[key@],
                None => !self@.dom().contains(key@),
            },
    {
        proof {
            use_type_invariant(self);
        }
        let key = key.to_owned();
        match group_index(&self.groups, &key) {
            Some(i) => {
                proof {
                    lemma_mapping_at(self.groups@, i as int);
                }
                Some(&self.groups[i].entries)
            },
            None => None,
        }
    }

    /// The keys, each once.
    pub fn keys(&self) -> (keys: Vec<String>)
        ensures
            forall|i: int, j: int|
                0 <= i < j < keys@.len() ==> (#[trigger] keys@[i])@ != (#[trigger] keys@[j])@,
            forall|i: int| 0 <= i < keys@.len() ==> self@.dom().contains((#[trigger] keys@[i])@),
            forall|key: Seq<char>| #[trigger]
                self@.dom().contains(key) ==> exists|i: int|
                    0 <= i < keys@.len() && (#[trigger] keys@[i])@ == key,
    {
        proof {
            use_type_invariant(self);
        }
        let mut keys: Vec<String> = Vec::new();
        let mut i: usize = 0;
        while i < self.groups.len()
            invariant
                i <= self.groups.len(),
                keys@.len() == i,
                forall|k: int| 0 <= k < i ==> (#[trigger] keys@[k])@ == self.groups@[k].key@,
            decreases self.groups.len() - i,
        {
            keys.push(self.groups[i].key.clone());
            i += 1;
        }
        proof {
            assert forall|a: int, b: int| 0 <= a < b < keys@.len() implies (#[trigger] keys@[a])@
                != (#[trigger] keys@[b])@ by {
                assert(self.groups@[a].key@ != self.groups@[b].key@);
            }
            assert forall|k: int| 0 <= k < keys@.len() implies self@.dom().contains(
                (#[trigger] keys@[k])@,
            ) by {
                assert(holds_key(self.groups@, k, keys@[k]@));
            }
            assert forall|key: Seq<char>| #[trigger] self@.dom().contains(key) implies exists|
                i: int,
            |
                0 <= i < keys@.len() && (#[trigger] keys@[i])@ == key by {
                let c = choose|c: int| holds_key(self.groups@, c, key);
                assert(keys@[c]@ == key);
            }
        }
        keys
    }

    /// The groups, one for each key.
    pub fn into_groups(self) -> (groups: Vec<Group>)
        ensures
            distinct_keys(groups@),
            mapping(groups@) == self@,
    {
        proof {
            use_type_invariant(&self);
        }
        self.groups
    }
}

} // verus!
