use vstd::prelude::*;

use crate::session::GameEvent;
use crate::types::ClientMessage;

verus! {

/// Number of players in a session, and of slots in the matchmaking pool.
pub const PLAYERS: usize = 2;

/// The result of seating an arriving connection.
#[derive(Debug, PartialEq, Eq)]
pub enum Arrival {
    /// The connection got slot `id`; the pool is waiting for more players.
    Waiting { id: usize },
    /// The connection got slot `id`, the last free one: the session can start.
    Full { id: usize },
}

/// The matchmaking pool: which of the two slots are taken, and a stack of the
/// free slot identifiers.
pub struct Pool {
    pub free_ids: Vec<usize>,
    pub taken: [bool; 2],
}

impl Pool {
    /// Each identifier is a slot, free at most once, and a slot is free
    /// exactly when it is not taken.
    pub open spec fn wf(self) -> bool {
        &&& self.free_ids@.no_duplicates()
        &&& forall|k: int| 0 <= k < self.free_ids@.len() ==> #[trigger] self.free_ids@[k] < PLAYERS
        &&& forall|i: usize| i < PLAYERS ==> (#[trigger] self.taken[i as int] <==> !self.free_ids@.contains(i))
    }

    /// An empty pool, with slot 1 handed out first.
    pub fn new() -> (p: Pool)
        ensures
            p.wf(),
            p.free_ids@ == seq![0usize, 1usize],
            !p.taken[0] && !p.taken[1],
    {
        let mut free_ids: Vec<usize> = Vec::new();
        free_ids.push(0);
        free_ids.push(1);
        let p = Pool { free_ids, taken: [false, false] };
        assert(p.free_ids@ =~= seq![0usize, 1usize]);
        assert(p.free_ids@[0] == 0 && p.free_ids@[1] == 1);
        p
    }

    /// Seats an arriving connection in the most recently freed slot; `None`
    /// when both slots are taken, which leaves the pool as it was.
    pub fn arrive(&mut self) -> (r: Option<Arrival>)
        requires
            old(self).wf(),
        ensures
            final(self).wf(),
            old(self).free_ids@.len() == 0 ==> r is None && *final(self) == *old(self),
            old(self).free_ids@.len() > 0 ==> {
                let id = old(self).free_ids@.last();
                &&& final(self).free_ids@ == old(self).free_ids@.drop_last()
                &&& final(self).taken@ == old(self).taken@.update(id as int, true)
                &&& r == Some(
                    if final(self).free_ids@.len() == 0 {
                        Arrival::Full { id }
                    } else {
                        Arrival::Waiting { id }
                    },
                )
            },
    {
        if self.free_ids.len() == 0 {
            return None;
        }
        match self.free_ids.pop() {
            None => None,
            Some(id) => {
                let ghost before = *old(self);
                assert(before.free_ids@.last() == id);
                assert(before.free_ids@ =~= self.free_ids@.push(id));
                self.taken[id] = true;
                assert(self.taken@ =~= before.taken@.update(id as int, true));
                assert forall|i: usize| i < PLAYERS implies (#[trigger] self.taken[i as int]
                    <==> !self.free_ids@.contains(i)) by {
                    if i != id {
                        assert(before.free_ids@.contains(i) ==> self.free_ids@.contains(i)) by {
                            if before.free_ids@.contains(i) {
                                let k = choose|k: int| 0 <= k < before.free_ids@.len() && before.free_ids@[k] == i;
                                assert(k < self.free_ids@.len());
                                assert(self.free_ids@[k] == i);
                            }
                        }
                    } else {
                        assert(!self.free_ids@.contains(i)) by {
                            if self.free_ids@.contains(i) {
                                let k = choose|k: int| 0 <= k < self.free_ids@.len() && self.free_ids@[k] == i;
                                assert(before.free_ids@[k] == before.free_ids@[before.free_ids@.len() - 1]);
                            }
                        }
                    }
                }
                if self.free_ids.len() == 0 {
                    Some(Arrival::Full { id })
                } else {
                    Some(Arrival::Waiting { id })
                }
            },
        }
    }

    /// Frees slot `id` if it is taken, and says whether it was.
    pub fn release(&mut self, id: usize) -> (freed: bool)
        requires
            old(self).wf(),
            id < PLAYERS,
        ensures
            final(self).wf(),
            freed == old(self).taken[id as int],
            freed ==> final(self).free_ids@ == old(self).free_ids@.push(id) && final(self).taken@
                == old(self).taken@.update(id as int, false),
            !freed ==> *final(self) == *old(self),
    {
        if !self.taken[id] {
            return false;
        }
        let ghost before = *old(self);
        self.free_ids.push(id);
        self.taken[id] = false;
        assert(self.taken@ =~= before.taken@.update(id as int, false));
        assert(self.free_ids@ =~= before.free_ids@.push(id));
        assert forall|i: usize| i < PLAYERS implies (#[trigger] self.taken[i as int]
            <==> !self.free_ids@.contains(i)) by {
            if i != id {
                assert(self.free_ids@.contains(i) ==> before.free_ids@.contains(i)) by {
                    if self.free_ids@.contains(i) {
                        let k = choose|k: int| 0 <= k < self.free_ids@.len() && self.free_ids@[k] == i;
                        assert(k < before.free_ids@.len());
                    }
                }
                assert(before.free_ids@.contains(i) ==> self.free_ids@.contains(i)) by {
                    if before.free_ids@.contains(i) {
                        let k = choose|k: int| 0 <= k < before.free_ids@.len() && before.free_ids@[k] == i;
                        assert(self.free_ids@[k] == i);
                    }
                }
            } else {
                assert(self.free_ids@[self.free_ids@.len() - 1] == i);
            }
        }
        assert(self.free_ids@.no_duplicates()) by {
            assert(!before.free_ids@.contains(id));
        }
        true
    }

    /// Handles an event from a connection that is still waiting for its
    /// session: a ping changes nothing; any other message, or a disconnect,
    /// frees the sender's slot. Returns whether a slot was freed.
    pub fn handle_event(&mut self, event: GameEvent) -> (freed: bool)
        requires
            old(self).wf(),
            event.player() < PLAYERS,
        ensures
            final(self).wf(),
            event.is_ping() ==> !freed && *final(self) == *old(self),
            !event.is_ping() ==> {
                let id = event.player();
                &&& freed == old(self).taken[id as int]
                &&& freed ==> final(self).free_ids@ == old(self).free_ids@.push(id)
                    && final(self).taken@ == old(self).taken@.update(id as int, false)
                &&& !freed ==> *final(self) == *old(self)
            },
    {
        match event {
            GameEvent::Message { id: _, msg: ClientMessage::Ping } => false,
            GameEvent::Message { id, msg: _ } => self.release(id),
            GameEvent::Disconnected { id } => self.release(id),
        }
    }
}

} // verus!
