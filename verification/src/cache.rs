use vstd::prelude::*;
use crate::vertex_array_object::VertexArrayObject;

verus! {

/// One cached binding object together with the key it was built for.
pub struct CacheEntry {
    pub buffer_id: u32,
    pub program_id: u32,
    pub object: VertexArrayObject,
}

/// Whether an entry is stored under the given (buffer, program) key.
pub open spec fn key_matches(e: CacheEntry, buffer_id: u32, program_id: u32) -> bool {
    e.buffer_id == buffer_id && e.program_id == program_id
}

/// The identifier stored under a key, scanning front to back.
pub open spec fn lookup_in(entries: Seq<CacheEntry>, buffer_id: u32, program_id: u32) -> Option<u32>
    decreases entries.len(),
{
    if entries.len() == 0 {
        None
    } else if key_matches(entries[0], buffer_id, program_id) {
        Some(entries[0].object.resource_id())
    } else {
        lookup_in(entries.drop_first(), buffer_id, program_id)
    }
}

/// When no entry matches, the scan finds nothing.
pub proof fn lemma_lookup_none(entries: Seq<CacheEntry>, buffer_id: u32, program_id: u32)
    requires
        forall|j: int| 0 <= j < entries.len() ==> !key_matches(entries[j], buffer_id, program_id),
    ensures
        lookup_in(entries, buffer_id, program_id) is None,
    decreases entries.len(),
{
    if entries.len() > 0 {
        assert(forall|j: int| 0 <= j < entries.drop_first().len()
            ==> entries.drop_first()[j] == entries[j + 1]);
        lemma_lookup_none(entries.drop_first(), buffer_id, program_id);
    }
}

/// When the scan finds nothing, no entry matches.
pub proof fn lemma_lookup_none_no_match(entries: Seq<CacheEntry>, buffer_id: u32, program_id: u32)
    requires
        lookup_in(entries, buffer_id, program_id) is None,
    ensures
        forall|j: int| 0 <= j < entries.len() ==> !key_matches(entries[j], buffer_id, program_id),
    decreases entries.len(),
{
    if entries.len() > 0 {
        lemma_lookup_none_no_match(entries.drop_first(), buffer_id, program_id);
        assert forall|j: int| 0 <= j < entries.len()
            implies !key_matches(entries[j], buffer_id, program_id) by {
            if j > 0 {
                assert(entries.drop_first()[j - 1] == entries[j]);
            }
        }
    }
}

/// The scan returns the first matching entry's identifier.
pub proof fn lemma_lookup_first_match(entries: Seq<CacheEntry>, i: int, buffer_id: u32, program_id: u32)
    requires
        0 <= i < entries.len(),
        key_matches(entries[i], buffer_id, program_id),
        forall|j: int| 0 <= j < i ==> !key_matches(entries[j], buffer_id, program_id),
    ensures
        lookup_in(entries, buffer_id, program_id) == Some(entries[i].object.resource_id()),
    decreases i,
{
    if i > 0 {
        assert(forall|j: int| 0 <= j < entries.drop_first().len()
            ==> entries.drop_first()[j] == entries[j + 1]);
        lemma_lookup_first_match(entries.drop_first(), i - 1, buffer_id, program_id);
    }
}

/// A found identifier sits in some matching entry.
pub proof fn lemma_lookup_some_index(entries: Seq<CacheEntry>, buffer_id: u32, program_id: u32)
    requires
        lookup_in(entries, buffer_id, program_id) is Some,
    ensures
        exists|i: int|
            0 <= i < entries.len()
                && key_matches(#[trigger] entries[i], buffer_id, program_id)
                && entries[i].object.resource_id() == lookup_in(entries, buffer_id, program_id).unwrap(),
    decreases entries.len(),
{
    if key_matches(entries[0], buffer_id, program_id) {
        assert(key_matches(entries[0], buffer_id, program_id));
    } else {
        lemma_lookup_some_index(entries.drop_first(), buffer_id, program_id);
        let i = choose|i: int|
            0 <= i < entries.drop_first().len()
                && key_matches(#[trigger] entries.drop_first()[i], buffer_id, program_id)
                && entries.drop_first()[i].object.resource_id()
                    == lookup_in(entries.drop_first(), buffer_id, program_id).unwrap();
        assert(entries[i + 1] == entries.drop_first()[i]);
    }
}

/// Appending an entry changes the scan only where nothing was found and the
/// new entry's key is the one scanned for.
pub proof fn lemma_lookup_push(entries: Seq<CacheEntry>, e: CacheEntry, buffer_id: u32, program_id: u32)
    ensures
        lookup_in(entries.push(e), buffer_id, program_id) == (
            if lookup_in(entries, buffer_id, program_id) is Some {
                lookup_in(entries, buffer_id, program_id)
            } else if key_matches(e, buffer_id, program_id) {
                Some(e.object.resource_id())
            } else {
                None
            }
        ),
    decreases entries.len(),
{
    if entries.len() == 0 {
        assert(entries.push(e)[0] == e);
        assert(entries.push(e).drop_first() =~= Seq::<CacheEntry>::empty());
        if key_matches(e, buffer_id, program_id) {
            assert(lookup_in(entries.push(e), buffer_id, program_id) == Some(e.object.resource_id()));
        } else {
            assert(lookup_in(entries.push(e), buffer_id, program_id)
                == lookup_in(Seq::<CacheEntry>::empty(), buffer_id, program_id));
        }
    } else {
        assert(entries.push(e)[0] == entries[0]);
        assert(entries.push(e).drop_first() =~= entries.drop_first().push(e));
        lemma_lookup_push(entries.drop_first(), e, buffer_id, program_id);
        if key_matches(entries[0], buffer_id, program_id) {
            assert(lookup_in(entries.push(e), buffer_id, program_id)
                == Some(entries[0].object.resource_id()));
            assert(lookup_in(entries, buffer_id, program_id)
                == Some(entries[0].object.resource_id()));
        } else {
            assert(lookup_in(entries.push(e), buffer_id, program_id)
                == lookup_in(entries.drop_first().push(e), buffer_id, program_id));
            assert(lookup_in(entries, buffer_id, program_id)
                == lookup_in(entries.drop_first(), buffer_id, program_id));
        }
    }
}

/// The keyed cache of binding objects. At most one object is ever stored per
/// (buffer, program) key, and no two stored objects share a context-side
/// identifier, so distinct keys always resolve to distinct identifiers.
pub struct BindingCache {
    entries: Vec<CacheEntry>,
}

impl BindingCache {
    /// The stored entries, oldest first.
    pub closed spec fn entries_seq(self) -> Seq<CacheEntry> {
        self.entries@
    }

    /// Well-formedness: keys are unique and so are the stored identifiers.
    pub open spec fn wf(self) -> bool {
        forall|i: int, j: int|
            0 <= i < j < self.entries_seq().len() ==> {
                let a = #[trigger] self.entries_seq()[i];
                let b = #[trigger] self.entries_seq()[j];
                !(a.buffer_id == b.buffer_id && a.program_id == b.program_id)
                    && a.object.resource_id() != b.object.resource_id()
            }
    }

    /// The identifier cached under a key, if any.
    pub open spec fn spec_lookup(self, buffer_id: u32, program_id: u32) -> Option<u32> {
        lookup_in(self.entries_seq(), buffer_id, program_id)
    }

    /// Whether some cached object owns this identifier.
    pub open spec fn contains_resource(self, id: u32) -> bool {
        exists|i: int|
            0 <= i < self.entries_seq().len()
                && (#[trigger] self.entries_seq()[i]).object.resource_id() == id
    }

    /// An empty cache.
    pub fn new() -> (r: BindingCache)
        ensures
            r.wf(),
            r.entries_seq() == Seq::<CacheEntry>::empty(),
    {
        let r = BindingCache { entries: Vec::new() };
        proof {
            assert(r.entries_seq() =~= Seq::<CacheEntry>::empty());
        }
        r
    }

    /// How many objects are cached.
    pub fn len(&self) -> (r: usize)
        ensures
            r == self.entries_seq().len(),
    {
        self.entries.len()
    }

    /// Look a key up.
    pub fn lookup(&self, buffer_id: u32, program_id: u32) -> (r: Option<u32>)
        ensures
            r == self.spec_lookup(buffer_id, program_id),
    {
        let n = self.entries.len();
        let mut i: usize = 0;
        while i < n
            invariant
                n == self.entries_seq().len(),
                i <= n,
                forall|j: int| 0 <= j < i ==> !key_matches(#[trigger] self.entries_seq()[j], buffer_id, program_id),
            decreases n - i,
        {
            let e = &self.entries[i];
            if e.buffer_id == buffer_id && e.program_id == program_id {
                proof {
                    lemma_lookup_first_match(self.entries_seq(), i as int, buffer_id, program_id);
                }
                return Some(e.object.id());
            }
            i += 1;
        }
        proof {
            lemma_lookup_none(self.entries_seq(), buffer_id, program_id);
        }
        None
    }

    /// Whether some cached object owns this identifier.
    pub fn holds_resource(&self, id: u32) -> (r: bool)
        ensures
            r == self.contains_resource(id),
    {
        let n = self.entries.len();
        let mut i: usize = 0;
        while i < n
            invariant
                n == self.entries_seq().len(),
                i <= n,
                forall|j: int| 0 <= j < i ==> (#[trigger] self.entries_seq()[j]).object.resource_id() != id,
            decreases n - i,
        {
            let e = &self.entries[i];
            if e.object.id() == id {
                return true;
            }
            i += 1;
        }
        false
    }

    /// Store a newly constructed object under its key. The key must be free
    /// and the identifier fresh; both stay unique, and every other key keeps
    /// resolving as before.
    pub fn insert(&mut self, buffer_id: u32, program_id: u32, object: VertexArrayObject)
        requires
            old(self).wf(),
            old(self).spec_lookup(buffer_id, program_id) is None,
            !old(self).contains_resource(object.resource_id()),
        ensures
            final(self).wf(),
            final(self).entries_seq() == old(self).entries_seq().push(
                (CacheEntry { buffer_id, program_id, object }),
            ),
            final(self).spec_lookup(buffer_id, program_id) == Some(object.resource_id()),
            final(self).contains_resource(object.resource_id()),
            forall|b: u32, p: u32|
                !(b == buffer_id && p == program_id)
                    ==> final(self).spec_lookup(b, p) == old(self).spec_lookup(b, p),
    {
        let ghost old_entries = self.entries_seq();
        let e = CacheEntry { buffer_id, program_id, object };
        self.entries.push(e);
        proof {
            lemma_lookup_none_no_match(old_entries, buffer_id, program_id);
            assert forall|i: int, j: int| 0 <= i < j < self.entries_seq().len() implies {
                let a = #[trigger] self.entries_seq()[i];
                let b = #[trigger] self.entries_seq()[j];
                !(a.buffer_id == b.buffer_id && a.program_id == b.program_id)
                    && a.object.resource_id() != b.object.resource_id()
            } by {
                if j == old_entries.len() {
                    assert(self.entries_seq()[i] == old_entries[i]);
                    assert(!key_matches(old_entries[i], buffer_id, program_id));
                } else {
                    assert(self.entries_seq()[i] == old_entries[i]);
                    assert(self.entries_seq()[j] == old_entries[j]);
                }
            }
            lemma_lookup_push(old_entries, e, buffer_id, program_id);
            assert(self.entries_seq()[old_entries.len() as int] == e);
            assert forall|b: u32, p: u32| !(b == buffer_id && p == program_id)
                implies final(self).spec_lookup(b, p) == lookup_in(old_entries, b, p) by {
                lemma_lookup_push(old_entries, e, b, p);
            }
        }
    }
}

/// Distinct keys resolve to distinct identifiers: the cache never hands the
/// same binding object out under two different (buffer, program) pairs.
pub proof fn lemma_distinct_keys_distinct_ids(cache: BindingCache, b1: u32, p1: u32, b2: u32, p2: u32)
    requires
        cache.wf(),
        !(b1 == b2 && p1 == p2),
        cache.spec_lookup(b1, p1) is Some,
        cache.spec_lookup(b2, p2) is Some,
    ensures
        cache.spec_lookup(b1, p1) != cache.spec_lookup(b2, p2),
{
    let entries = cache.entries_seq();
    lemma_lookup_some_index(entries, b1, p1);
    lemma_lookup_some_index(entries, b2, p2);
    let i1 = choose|i: int|
        0 <= i < entries.len()
            && key_matches(#[trigger] entries[i], b1, p1)
            && entries[i].object.resource_id() == lookup_in(entries, b1, p1).unwrap();
    let i2 = choose|i: int|
        0 <= i < entries.len()
            && key_matches(#[trigger] entries[i], b2, p2)
            && entries[i].object.resource_id() == lookup_in(entries, b2, p2).unwrap();
    assert(i1 != i2);
}

/// Idempotence of the lookup-or-construct step: once a miss has stored an
/// object under a key, looking the key up yields exactly that object's
/// identifier, so a repeated request takes the hit path: the same identifier
/// comes back and no second construction is planned.
pub proof fn lemma_get_or_create_idempotent(entries: Seq<CacheEntry>, buffer_id: u32, program_id: u32, object: VertexArrayObject)
    requires
        lookup_in(entries, buffer_id, program_id) is None,
    ensures
        lookup_in(
            entries.push((CacheEntry { buffer_id, program_id, object })),
            buffer_id,
            program_id,
        ) == Some(object.resource_id()),
{
    lemma_lookup_push(entries, (CacheEntry { buffer_id, program_id, object }), buffer_id, program_id);
}

} // verus!
