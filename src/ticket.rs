//! An in-memory ticket store. Deleted tickets leave an empty slot, so ids are
//! never reused.

use vstd::prelude::*;

use crate::error::{Error, TicketError};

verus! {

pub struct Ticket {
    pub id: u64,
    pub title: String,
}

pub struct TicketController {
    tickets: Vec<Option<Ticket>>,
}

/// The tickets still present in `s`, in order.
pub open spec fn present(s: Seq<Option<Ticket>>) -> Seq<Ticket>
    decreases s.len(),
{
    if s.len() == 0 {
        Seq::empty()
    } else {
        let rest = present(s.drop_last());
        match s.last() {
            Some(t) => rest.push(t),
            None => rest,
        }
    }
}

/// Every ticket sits in the slot of its own id.
pub open spec fn slots_hold_own_ids(s: Seq<Option<Ticket>>) -> bool {
    forall|k: int| 0 <= k < s.len() && #[trigger] s[k] is Some ==> (s[k]->Some_0).id == k
}

/// Each listed ticket comes from a slot.
pub proof fn lemma_present_from_slots(s: Seq<Option<Ticket>>)
    ensures
        forall|k: int|
            0 <= k < present(s).len() ==> exists|j: int|
                0 <= j < s.len() && s[j] == Some(#[trigger] present(s)[k]),
    decreases s.len(),
{
    if s.len() > 0 {
        let init = s.drop_last();
        lemma_present_from_slots(init);
        let rest = present(init);
        assert forall|k: int| 0 <= k < present(s).len() implies exists|j: int|
            0 <= j < s.len() && s[j] == Some(#[trigger] present(s)[k]) by {
            if k < rest.len() {
                assert(present(s)[k] == rest[k]);
                let j = choose|j: int| 0 <= j < init.len() && init[j] == Some(#[trigger] rest[k]);
                assert(s[j] == init[j]);
            } else {
                assert(s[s.len() - 1] == Some(present(s)[k]));
            }
        }
    }
}

fn copy_ticket(t: &Ticket) -> (r: Ticket)
    ensures
        r == *t,
{
    Ticket { id: t.id, title: t.title.clone() }
}

impl View for TicketController {
    type V = Seq<Option<Ticket>>;

    /// Slot `i` holds the ticket with id `i`, or nothing once it is deleted.
    closed spec fn view(&self) -> Seq<Option<Ticket>> {
        self.tickets@
    }
}

impl TicketController {
    pub open spec fn wf(&self) -> bool {
        slots_hold_own_ids(self@)
    }

    pub fn new() -> (r: Result<TicketController, Error>)
        ensures
            r matches Ok(c) && c@ == Seq::<Option<Ticket>>::empty() && c.wf(),
    {
        Ok(TicketController { tickets: Vec::new() })
    }

    /// Stores a ticket under the next id.
    pub fn create(&mut self, title: String) -> (r: Result<Ticket, Error>)
        requires
            old(self).wf(),
        ensures
            final(self).wf(),
            r matches Ok(t) && t.id == old(self)@.len() && t.title == title && final(self)@ == old(
                self,
            )@.push(Some(t)),
    {
        let ticket = Ticket { id: self.tickets.len() as u64, title };
        self.tickets.push(Some(copy_ticket(&ticket)));
        Ok(ticket)
    }

    /// The tickets not deleted, in id order.
    pub fn list(&self) -> (r: Result<Vec<Ticket>, Error>)
        ensures
            r matches Ok(v) && v@ == present(self@),
    {
        let mut out: Vec<Ticket> = Vec::new();
        let mut k: usize = 0;
        while k < self.tickets.len()
            invariant
                k <= self.tickets@.len(),
                out@ == present(self.tickets@.take(k as int)),
            decreases self.tickets@.len() - k,
        {
            proof {
                assert(self.tickets@.take(k + 1).drop_last() =~= self.tickets@.take(k as int));
            }
            if let Some(t) = &self.tickets[k] {
                out.push(copy_ticket(t));
            }
            k += 1;
        }
        proof {
            assert(self.tickets@.take(k as int) =~= self.tickets@);
        }
        Ok(out)
    }

    /// Deletes the ticket with id `id` and returns it.
    pub fn delete(&mut self, id: u64) -> (r: Result<Ticket, Error>)
        requires
            old(self).wf(),
        ensures
            final(self).wf(),
            r is Ok ==> forall|k: int|
                0 <= k < present(final(self)@).len() ==> (#[trigger] present(final(self)@)[k]).id != id,
            id < old(self)@.len() && old(self)@[id as int] is Some ==> r == Ok::<Ticket, Error>(
                old(self)@[id as int]->Some_0,
            ) && final(self)@ == old(self)@.update(id as int, None),
            !(id < old(self)@.len() && old(self)@[id as int] is Some) ==> r == Err::<Ticket, Error>(
                Error::Ticket(TicketError::NotFound(id as i64)),
            ) && final(self)@ == old(self)@,
    {
        if id < self.tickets.len() as u64 {
            let i = id as usize;
            if self.tickets[i].is_some() {
                let mut slot: Option<Ticket> = None;
                std::mem::swap(&mut slot, &mut self.tickets[i]);
                proof {
                    lemma_present_from_slots(self.tickets@);
                    assert forall|k: int|
                        0 <= k < present(self.tickets@).len() implies (#[trigger] present(
                            self.tickets@,
                        )[k]).id != id by {
                        let j = choose|j: int|
                            0 <= j < self.tickets@.len() && self.tickets@[j] == Some(present(self.tickets@)[k]);
                        assert(j != i);
                        assert(old(self)@[j] == self.tickets@[j]);
                    }
                }
                if let Some(t) = slot {
                    return Ok(t);
                }
            }
        }
        Err(Error::Ticket(TicketError::NotFound(id as i64)))
    }
}

} // verus!
