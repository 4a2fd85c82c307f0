//! Typed resource namespaces.
//!
//! A namespace is one identifier-to-resource table of the registry
//! (readers and writers each get their own, so identifiers are unique
//! only within, not across, namespaces). It owns the resources it holds
//! and is the sole authority for creating and destroying them: a lookup
//! for an identifier that is not present is a well-defined "not found"
//! outcome, never a crash, and an identifier is never reused while a
//! resource is live under it, because identifiers come from a
//! monotonically increasing counter.

use std::collections::HashMap;

use vstd::prelude::*;

verus! {

broadcast use vstd::std_specs::hash::group_hash_axioms;

/// One identifier namespace: a counter for minting fresh identifiers and
/// the table of live resources.
pub struct Namespace<T> {
    next_id: u64,
    entries: HashMap<u64, T>,
}

impl<T> Namespace<T> {
    /// The live resources, by identifier.
    pub closed spec fn table(&self) -> Map<u64, T> {
        self.entries@
    }

    /// The next identifier the counter will hand out.
    pub closed spec fn next_id_spec(&self) -> u64 {
        self.next_id
    }

    /// Every live identifier was minted by the counter, so a fresh
    /// identifier can never collide with a live one.
    pub open spec fn wf(&self) -> bool {
        forall|i: u64| #[trigger] self.table().dom().contains(i) ==> i < self.next_id_spec()
    }

    /// An empty namespace.
    pub fn new() -> (r: Namespace<T>)
        ensures
            r.wf(),
            r.table() == Map::<u64, T>::empty(),
            r.next_id_spec() == 0,
    {
        Namespace { next_id: 0, entries: HashMap::new() }
    }

    /// Whether the counter can still mint an identifier. Exhausting a
    /// 64-bit counter is a documented non-goal (practically unreachable),
    /// but callers can check rather than rely on that.
    pub fn can_mint(&self) -> (r: bool)
        ensures
            r == (self.next_id_spec() < u64::MAX),
    {
        self.next_id < u64::MAX
    }

    /// Mint a fresh identifier: one that no live resource holds and no
    /// earlier call has handed out.
    pub fn get_id(&mut self) -> (r: u64)
        requires
            old(self).wf(),
            old(self).next_id_spec() < u64::MAX,
        ensures
            final(self).wf(),
            r == old(self).next_id_spec(),
            final(self).next_id_spec() == old(self).next_id_spec() + 1,
            final(self).table() == old(self).table(),
            !final(self).table().dom().contains(r),
    {
        let id = self.next_id;
        self.next_id = self.next_id + 1;
        proof {
            assert forall|i: u64| #[trigger] self.table().dom().contains(i) implies i
                < self.next_id_spec() by {
                assert(old(self).table().dom().contains(i));
            }
        }
        id
    }

    /// Store a resource under a freshly minted identifier and return the
    /// identifier.
    pub fn register(&mut self, item: T) -> (r: u64)
        requires
            old(self).wf(),
            old(self).next_id_spec() < u64::MAX,
        ensures
            final(self).wf(),
            !old(self).table().dom().contains(r),
            final(self).table() == old(self).table().insert(r, item),
            r == old(self).next_id_spec(),
            final(self).next_id_spec() == old(self).next_id_spec() + 1,
    {
        let id = self.get_id();
        self.entries.insert(id, item);
        id
    }

    /// Whether a resource is live under the identifier.
    pub fn contains(&self, id: u64) -> (r: bool)
        ensures
            r == self.table().dom().contains(id),
    {
        self.entries.contains_key(&id)
    }

    /// Number of live resources.
    pub fn len(&self) -> (r: usize)
        ensures
            r == self.table().dom().len(),
    {
        self.entries.len()
    }

    /// Borrow the resource under the identifier; absence is a
    /// well-defined `None`, never a crash.
    pub fn get(&self, id: u64) -> (r: Option<&T>)
        ensures
            match r {
                Some(t) => self.table().dom().contains(id) && *t == self.table()[id],
                None => !self.table().dom().contains(id),
            },
    {
        self.entries.get(&id)
    }

    /// Remove the resource under the identifier and hand it to the
    /// caller; absence is a well-defined `None`, never a crash.
    pub fn remove(&mut self, id: u64) -> (r: Option<T>)
        requires
            old(self).wf(),
        ensures
            final(self).wf(),
            final(self).next_id_spec() == old(self).next_id_spec(),
            match r {
                Some(t) => {
                    &&& old(self).table().dom().contains(id)
                    &&& t == old(self).table()[id]
                    &&& final(self).table() == old(self).table().remove(id)
                },
                None => {
                    &&& !old(self).table().dom().contains(id)
                    &&& final(self).table() == old(self).table()
                },
            },
    {
        let r = self.entries.remove(&id);
        proof {
            if r is None {
                assert(self.entries@ =~= old(self).entries@);
            }
            assert forall|i: u64| #[trigger] self.table().dom().contains(i) implies i
                < self.next_id_spec() by {
                assert(old(self).table().dom().contains(i));
            }
        }
        r
    }

    /// Put a resource back under an identifier that this namespace
    /// minted earlier (the remove-operate-reinsert pattern of the
    /// per-resource operations).
    pub fn put_back(&mut self, id: u64, item: T)
        requires
            old(self).wf(),
            id < old(self).next_id_spec(),
        ensures
            final(self).wf(),
            final(self).next_id_spec() == old(self).next_id_spec(),
            final(self).table() == old(self).table().insert(id, item),
    {
        self.entries.insert(id, item);
        proof {
            assert forall|i: u64| #[trigger] self.table().dom().contains(i) implies i
                < self.next_id_spec() by {
                if i != id {
                    assert(old(self).table().dom().contains(i));
                }
            }
        }
    }
}


/// Law: identifier allocation is collision-free. Every identifier at or
/// beyond the namespace's counter is fresh: it is not live, and it
/// differs from every identifier the counter handed out before. Opens
/// serialized through the registry's exclusive access therefore never
/// receive colliding identifiers.
pub proof fn lemma_fresh_identifier_not_live<T>(ns: &Namespace<T>, id: u64)
    requires
        ns.wf(),
        id >= ns.next_id_spec(),
    ensures
        !ns.table().dom().contains(id),
{
    if ns.table().dom().contains(id) {
        assert(id < ns.next_id_spec());
    }
}

} // verus!
