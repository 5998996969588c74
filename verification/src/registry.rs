//! The record of the sessions this system is subscribed to.
//!
//! The registry maps a session id to the provider's handle of that
//! session and to the tokens of the subscriptions held on it. It is no
//! cache of session data: it only says for which sessions subscriptions
//! exist. An id occurs in it at most once, and entries keep the order in
//! which they were inserted.
use vstd::prelude::*;

verus! {

/// The mathematical content of a session id.
pub type IdView = Seq<char>;

/// What the registry holds for one session: the provider's handle and the
/// tokens of the per-session subscriptions. Both are opaque here.
#[derive(Debug, PartialEq, Eq)]
pub struct SessionEntry<H, T> {
    pub handle: H,
    pub tokens: T,
}

/// The ids of a sequence of registered sessions, in its order.
pub open spec fn keys_of<E>(slots: Seq<(IdView, E)>) -> Seq<IdView> {
    slots.map_values(|slot: (IdView, E)| slot.0)
}

/// Where the session `id` stands in `slots`.
pub open spec fn position_of<E>(slots: Seq<(IdView, E)>, id: IdView) -> int
    recommends
        keys_of(slots).contains(id),
{
    keys_of(slots).index_of(id)
}

struct Slot<H, T> {
    id: String,
    entry: SessionEntry<H, T>,
}

/// The registered sessions, each id at most once, in insertion order.
pub struct Registry<H, T> {
    slots: Vec<Slot<H, T>>,
}

impl<H, T> View for Registry<H, T> {
    type V = Seq<(IdView, SessionEntry<H, T>)>;

    closed spec fn view(&self) -> Seq<(IdView, SessionEntry<H, T>)> {
        Self::content(self.slots@)
    }
}

impl<H, T> Registry<H, T> {
    spec fn content(slots: Seq<Slot<H, T>>) -> Seq<(IdView, SessionEntry<H, T>)> {
        slots.map_values(|slot: Slot<H, T>| (slot.id@, slot.entry))
    }

    #[verifier::type_invariant]
    spec fn distinct_ids(&self) -> bool {
        keys_of(Self::content(self.slots@)).no_duplicates()
    }

    /// A registry without sessions.
    pub fn new() -> (registry: Self)
        ensures
            registry@ == Seq::<(IdView, SessionEntry<H, T>)>::empty(),
    {
        let registry = Registry { slots: Vec::new() };
        assert(registry@ =~= Seq::empty());
        registry
    }

    /// The number of registered sessions.
    pub fn len(&self) -> (n: usize)
        ensures
            n == self@.len(),
    {
        self.slots.len()
    }

    /// Whether no session is registered.
    pub fn is_empty(&self) -> (empty: bool)
        ensures
            empty == (self@.len() == 0),
    {
        self.slots.len() == 0
    }

    fn find(&self, id: &String) -> (found: Option<usize>)
        ensures
            keys_of(self@).no_duplicates(),
            match found {
                Some(i) => {
                    &&& i < self@.len()
                    &&& self@[i as int].0 == id@
                    &&& keys_of(self@).contains(id@)
                    &&& position_of(self@, id@) == i
                },
                None => !keys_of(self@).contains(id@),
            },
    {
        proof {
            use_type_invariant(self);
        }
        let mut i: usize = 0;
        while i < self.slots.len()
            invariant
                i <= self.slots.len(),
                self@.len() == self.slots.len(),
                keys_of(self@).no_duplicates(),
                forall|j: int| 0 <= j < i ==> keys_of(self@)[j] != id@,
            decreases self.slots.len() - i,
        {
            if self.slots[i].id == *id {
                assert(self@[i as int].0 == self.slots@[i as int].id@);
                assert(keys_of(self@)[i as int] == id@);
                return Some(i);
            }
            i += 1;
        }
        None
    }

    /// Whether the session `id` is registered.
    pub fn contains(&self, id: &String) -> (present: bool)
        ensures
            present == keys_of(self@).contains(id@),
    {
        self.find(id).is_some()
    }

    /// The entry of the session `id`, if it is registered.
    pub fn get(&self, id: &String) -> (entry: Option<&SessionEntry<H, T>>)
        ensures
            match entry {
                Some(e) => keys_of(self@).contains(id@) && *e == self@[position_of(self@, id@)].1,
                None => !keys_of(self@).contains(id@),
            },
    {
        match self.find(id) {
            Some(i) => {
                assert(keys_of(self@)[i as int] == id@);
                Some(&self.slots[i].entry)
            },
            None => None,
        }
    }

    /// Registers the session `id` unless it is registered already.
    ///
    /// Returns whether the session was inserted. A second insertion of an
    /// id changes nothing: the registry keeps the entry it has, and the
    /// handle and tokens passed in are dropped.
    pub fn insert(&mut self, id: String, handle: H, tokens: T) -> (inserted: bool)
        ensures
            inserted == !keys_of(old(self)@).contains(id@),
            final(self)@ == if inserted {
                old(self)@.push((id@, SessionEntry { handle, tokens }))
            } else {
                old(self)@
            },
            keys_of(final(self)@).no_duplicates(),
    {
        if self.find(&id).is_some() {
            false
        } else {
            let ghost before = self@;
            let ghost key = id@;
            let mut slots: Vec<Slot<H, T>> = Vec::new();
            std::mem::swap(&mut slots, &mut self.slots);
            slots.push(Slot { id, entry: SessionEntry { handle, tokens } });
            proof {
                let after = Self::content(slots@);
                assert(after =~= before.push((key, SessionEntry { handle, tokens })));
                assert(keys_of(after) =~= keys_of(before).push(key));
            }
            self.slots = slots;
            true
        }
    }

    /// Takes the session `id` out of the registry and returns its entry,
    /// or `None` if it is not registered. All other entries stay, in
    /// their order.
    pub fn remove(&mut self, id: &String) -> (removed: Option<SessionEntry<H, T>>)
        ensures
            match removed {
                Some(entry) => {
                    &&& keys_of(old(self)@).contains(id@)
                    &&& entry == old(self)@[position_of(old(self)@, id@)].1
                    &&& final(self)@ == old(self)@.remove(position_of(old(self)@, id@))
                },
                None => !keys_of(old(self)@).contains(id@) && final(self)@ == old(self)@,
            },
            keys_of(final(self)@).no_duplicates(),
    {
        match self.find(id) {
            Some(i) => {
                let ghost before = self@;
                assert(keys_of(before)[i as int] == id@);
                let mut slots: Vec<Slot<H, T>> = Vec::new();
                std::mem::swap(&mut slots, &mut self.slots);
                let slot = slots.remove(i);
                proof {
                    let after = Self::content(slots@);
                    assert(after =~= before.remove(i as int));
                    assert(keys_of(after) =~= keys_of(before).remove(i as int));
                    assert forall|a: int, b: int|
                        0 <= a < keys_of(after).len() && 0 <= b < keys_of(after).len() && a
                            != b implies keys_of(after)[a] != keys_of(after)[b] by {
                        let a0 = if a < i { a } else { a + 1 };
                        let b0 = if b < i { b } else { b + 1 };
                        assert(keys_of(after)[a] == keys_of(before)[a0]);
                        assert(keys_of(after)[b] == keys_of(before)[b0]);
                    }
                }
                self.slots = slots;
                Some(slot.entry)
            },
            None => None,
        }
    }

    /// The registered ids, in insertion order.
    pub fn ids(&self) -> (ids: Vec<String>)
        ensures
            ids.deep_view() == keys_of(self@),
            keys_of(self@).no_duplicates(),
    {
        proof {
            use_type_invariant(self);
        }
        let mut ids: Vec<String> = Vec::new();
        let mut i: usize = 0;
        while i < self.slots.len()
            invariant
                i <= self.slots.len(),
                ids.len() == i,
                forall|j: int| 0 <= j < i ==> ids@[j]@ == keys_of(self@)[j],
            decreases self.slots.len() - i,
        {
            ids.push(self.slots[i].id.clone());
            i += 1;
        }
        assert(ids.deep_view() =~= keys_of(self@));
        ids
    }
}

} // verus!
