//! Material-tag registry: the lookup order of the per-tag material table.

use vstd::prelude::*;

use crate::mesh::MaterialTag;

verus! {

/// Index of the first entry of `tags` equal to `tag`, if any.
pub open spec fn first_index(tags: Seq<MaterialTag>, tag: MaterialTag) -> Option<usize> {
    if exists|i: int| 0 <= i < tags.len() && tags[i] == tag {
        Some(
            (choose|i: int|
                0 <= i < tags.len() && tags[i] == tag && forall|j: int| 0 <= j < i ==> tags[j] != tag) as usize,
        )
    } else {
        None
    }
}

/// Registered material tags, in registration order. Entry `i` names the
/// material stored at position `i` of the caller's material list.
#[derive(Clone, Debug)]
pub struct MaterialRegistry {
    /// Registered tags.
    pub tags: Vec<MaterialTag>,
}

impl MaterialRegistry {
    /// An empty registry.
    pub fn new() -> (r: MaterialRegistry)
        ensures
            r.tags@ == Seq::<MaterialTag>::empty(),
    {
        MaterialRegistry { tags: Vec::new() }
    }

    /// Register `tag` as the next entry. A tag registered again is
    /// appended too; lookups keep returning its first entry.
    pub fn with_material(self, tag: MaterialTag) -> (r: MaterialRegistry)
        ensures
            r.tags@ == self.tags@.push(tag),
    {
        let mut tags = self.tags;
        tags.push(tag);
        MaterialRegistry { tags }
    }

    /// Index of the first entry registered under `tag`, `None` if the tag
    /// is not registered.
    pub fn lookup(&self, tag: MaterialTag) -> (r: Option<usize>)
        ensures
            match r {
                Some(i) => i < self.tags.len() && self.tags[i as int] == tag && forall|j: int|
                    0 <= j < i ==> self.tags[j] != tag,
                None => forall|j: int| 0 <= j < self.tags.len() ==> self.tags[j] != tag,
            },
            r == first_index(self.tags@, tag),
    {
        let mut i: usize = 0;
        while i < self.tags.len()
            invariant
                i <= self.tags.len(),
                forall|j: int| 0 <= j < i ==> self.tags[j] != tag,
            decreases self.tags.len() - i,
        {
            if self.tags[i] == tag {
                proof {
                    lemma_first_index(self.tags@, tag, i as int);
                }
                return Some(i);
            }
            i += 1;
        }
        None
    }
}

/// The first position holding `tag` is the first index of `tag`.
proof fn lemma_first_index(tags: Seq<MaterialTag>, tag: MaterialTag, i: int)
    requires
        0 <= i < tags.len(),
        tags[i] == tag,
        forall|j: int| 0 <= j < i ==> tags[j] != tag,
    ensures
        first_index(tags, tag) == Some(i as usize),
{
    let c = choose|c: int| 0 <= c < tags.len() && tags[c] == tag && forall|j: int| 0 <= j < c ==> tags[j] != tag;
    assert(0 <= c < tags.len() && tags[c] == tag && forall|j: int| 0 <= j < c ==> tags[j] != tag);
    if c < i {
        assert(tags[c] != tag);
    }
    if i < c {
        assert(tags[i] != tag);
    }
}

/// Registering a tag that is already registered does not change what any
/// lookup returns: the first entry stays authoritative.
pub proof fn lemma_reregistration_keeps_first(tags: Seq<MaterialTag>, tag: MaterialTag, query: MaterialTag)
    requires
        exists|i: int| 0 <= i < tags.len() && tags[i] == tag,
    ensures
        first_index(tags.push(tag), query) == first_index(tags, query),
{
    let t2 = tags.push(tag);
    if exists|i: int| 0 <= i < tags.len() && tags[i] == query {
        let c = choose|c: int| 0 <= c < tags.len() && tags[c] == query && forall|j: int| 0 <= j < c ==> tags[j] != query;
        if !(0 <= c < tags.len() && tags[c] == query && forall|j: int| 0 <= j < c ==> tags[j] != query) {
            let w = choose|i: int| 0 <= i < tags.len() && tags[i] == query;
            lemma_min_witness(tags, query, w);
        }
        lemma_first_index(tags, query, c);
        assert(t2[c] == query);
        assert forall|j: int| 0 <= j < c implies t2[j] != query by {
            assert(t2[j] == tags[j]);
        }
        lemma_first_index(t2, query, c);
    } else {
        assert forall|i: int| 0 <= i < t2.len() implies t2[i] != query by {
            if i < tags.len() {
                assert(t2[i] == tags[i]);
            } else {
                let w = choose|i: int| 0 <= i < tags.len() && tags[i] == tag;
                assert(tags[w] != query);
            }
        }
    }
}

/// If `tag` occurs at or before `w`, it has a first occurrence.
proof fn lemma_min_witness(tags: Seq<MaterialTag>, tag: MaterialTag, w: int)
    requires
        0 <= w < tags.len(),
        tags[w] == tag,
    ensures
        exists|c: int| 0 <= c < tags.len() && tags[c] == tag && forall|j: int| 0 <= j < c ==> tags[j] != tag,
    decreases w,
{
    if exists|j: int| 0 <= j < w && tags[j] == tag {
        let j = choose|j: int| 0 <= j < w && tags[j] == tag;
        lemma_min_witness(tags, tag, j);
    } else {
        assert(0 <= w < tags.len() && tags[w] == tag && forall|j: int| 0 <= j < w ==> tags[j] != tag);
    }
}

} // verus!
