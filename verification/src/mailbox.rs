//! The rendering-pass result channel: a single-slot, single-use handoff.
//! Arming installs a fresh ticketed slot, replacing (without fulfilling) any
//! prior slot; a delivery succeeds exactly once and only against the ticket
//! of the currently armed slot, so a late callback from a superseded
//! invocation is rejected as "no pending request".

use vstd::prelude::*;

use crate::model::BrowserAnalysis;

verus! {

/// What the rendering collaborator delivers: a structured result, or an
/// explicit failure message.
pub enum Delivery {
    Success(BrowserAnalysis),
    Failure(String),
}

/// The single-slot mailbox. `slot` is `None` when idle, `Some((t, None))`
/// while armed with ticket `t`, and `Some((t, Some(d)))` once fulfilled.
pub struct Mailbox {
    pub next_ticket: u64,
    pub slot: Option<(u64, Option<Delivery>)>,
}

impl Mailbox {
    /// Every ticket ever handed out is below `next_ticket`.
    pub open spec fn wf(self) -> bool {
        match self.slot {
            Some((t, _)) => t < self.next_ticket,
            None => true,
        }
    }

    /// A fresh, idle mailbox.
    pub fn new() -> (m: Mailbox)
        ensures
            m.slot is None,
            m.next_ticket == 0,
            m.wf(),
    {
        Mailbox { next_ticket: 0, slot: None }
    }

    /// Installs a fresh waiting slot under a new ticket, discarding (without
    /// fulfilling) whatever slot was there.
    pub fn arm(&mut self) -> (t: u64)
        requires
            old(self).wf(),
            old(self).next_ticket < u64::MAX,
        ensures
            t == old(self).next_ticket,
            final(self).slot == Some((t, Option::<Delivery>::None)),
            final(self).next_ticket == t + 1,
            final(self).wf(),
    {
        let t = self.next_ticket;
        self.next_ticket = t + 1;
        self.slot = Some((t, None));
        t
    }

    /// Delivers a result against ticket `t`. Succeeds exactly when `t` is the
    /// currently armed, not yet fulfilled slot; otherwise reports "no pending
    /// request" by returning false and leaves the mailbox unchanged.
    pub fn fulfill(&mut self, t: u64, d: Delivery) -> (ok: bool)
        ensures
            ok == (old(self).slot == Some((t, Option::<Delivery>::None))),
            ok ==> final(self).slot == Some((t, Some(d))),
            !ok ==> *final(self) == *old(self),
            final(self).next_ticket == old(self).next_ticket,
            old(self).wf() ==> final(self).wf(),
    {
        let ok = match &self.slot {
            Some((t2, pending)) => *t2 == t && pending.is_none(),
            None => false,
        };
        if ok {
            self.slot = Some((t, Some(d)));
        }
        ok
    }

    /// Removes and returns the delivery waiting under ticket `t`, if any;
    /// any other slot (armed, stale, or idle) is left unchanged.
    pub fn take_delivery(&mut self, t: u64) -> (r: Option<Delivery>)
        ensures
            match old(self).slot {
                Some((t2, pend)) => if t2 == t && pend is Some {
                    r == pend && final(self).slot is None
                } else {
                    r is None && *final(self) == *old(self)
                },
                None => r is None && *final(self) == *old(self),
            },
            final(self).next_ticket == old(self).next_ticket,
            old(self).wf() ==> final(self).wf(),
    {
        let slot = self.slot.take();
        match slot {
            Some((t2, pend)) => {
                if t2 == t {
                    match pend {
                        Some(d) => Some(d),
                        None => {
                            self.slot = Some((t2, None));
                            None
                        },
                    }
                } else {
                    self.slot = Some((t2, pend));
                    None
                }
            },
            None => None,
        }
    }
}

/// Law: arming a second slot while a first invocation's ticket is out makes
/// the first ticket stale. After the second `arm`, whose contract gives the
/// state below, a delivery against the first ticket finds no pending request:
/// by `fulfill`'s contract it returns false and leaves the second slot
/// untouched.
pub proof fn lemma_second_arm_rejects_first(m1: Mailbox, m2: Mailbox, t1: u64, t2: u64)
    requires
        m1.wf(),
        m1.slot == Some((t1, Option::<Delivery>::None)),
        t2 == m1.next_ticket,
        m2.slot == Some((t2, Option::<Delivery>::None)),
        m2.next_ticket == t2 + 1,
    ensures
        t2 != t1,
        m2.slot != Some((t1, Option::<Delivery>::None)),
{
    assert(t1 < m1.next_ticket);
}

} // verus!
