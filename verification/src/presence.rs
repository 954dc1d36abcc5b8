//! The presence registry: time-windowed events, attendee check-ins, and
//! paginated and ranked queries over them.
//!
//! Event ids are assigned from a counter starting at 1 and are never
//! removed, so the event store keeps one record per assigned id and the
//! next id is always one past the store's length. Each event carries its
//! presence flags and an append-only attendee log whose indices are
//! permanent: a log entry may later be deactivated but never relocated.

use vstd::prelude::*;

use crate::Error;
use crate::alist::al_get;
use crate::alist::alist_get;
use crate::alist::alist_set;
use crate::alist::keys_distinct;
use vstd::math::max;
use vstd::math::min;

verus! {

/// The immutable description of an event.
#[derive(Clone, Debug)]
pub struct EventData {
    pub name: String,
    pub start_ts: u64,
    pub end_ts: u64,
}

/// One row of a paginated or ranked event listing.
#[derive(Clone, Debug)]
pub struct EventSummary {
    pub id: u64,
    pub name: String,
    pub start_ts: u64,
    pub end_ts: u64,
}

/// One append-only slot of an event's attendee log.
#[derive(Clone, Copy, Debug, PartialEq, Eq, Structural)]
pub struct AttendeeInfo {
    pub address: u64,
    pub registered_at: u64,
    pub active: bool,
}

/// Everything stored for one event: the immutable description, the
/// presence flags, and the append-only attendee log.
#[derive(Debug)]
pub struct EventRecord {
    pub name: String,
    pub start_ts: u64,
    pub end_ts: u64,
    pub presence: Vec<(u64, bool)>,
    pub attendees: Vec<AttendeeInfo>,
}

/// The index of the first attendee-log entry recorded for `w` (the
/// log's length when none is).
pub open spec fn first_match(s: Seq<AttendeeInfo>, w: u64) -> int
    decreases s.len(),
{
    if s.len() == 0 {
        0
    } else if s[0].address == w {
        0
    } else {
        1 + first_match(s.drop_first(), w)
    }
}

/// `first_match` finds the first entry recorded for the address.
pub proof fn lemma_first_match_at(s: Seq<AttendeeInfo>, w: u64, i: int)
    requires
        0 <= i < s.len(),
        s[i].address == w,
        forall|j: int| 0 <= j < i ==> (#[trigger] s[j]).address != w,
    ensures
        first_match(s, w) == i,
    decreases i,
{
    if i > 0 {
        assert(forall|j: int| 0 <= j < i - 1 ==> (#[trigger] s.drop_first()[j]).address != w);
        lemma_first_match_at(s.drop_first(), w, i - 1);
    }
}

/// The presence/attendance registry.
pub struct PresenceEvents {
    /// The admin identity.
    pub admin: u64,
    /// The registry's own ledger address, consulted (deliberately, as
    /// the supervisor check) by `remove_presence`.
    pub contract_id: u64,
    /// The supervisor allow-list.
    pub supervisors: Vec<(u64, bool)>,
    /// One record per assigned event id; id `i + 1` lives at index `i`.
    pub events: Vec<EventRecord>,
}

impl PresenceEvents {
    /// Whether an event was created under this id.
    pub open spec fn spec_has_event(self, event_id: u64) -> bool {
        1 <= event_id && event_id <= self.events@.len()
    }

    /// The record stored for an existing event id.
    pub open spec fn spec_event(self, event_id: u64) -> EventRecord {
        self.events@[event_id - 1]
    }

    /// Whether `user` is currently an approved supervisor.
    pub open spec fn spec_supervisor(self, user: u64) -> bool {
        al_get(self.supervisors@, user) == Some(true)
    }

    /// Whether `attendee` is currently considered present for the event.
    pub open spec fn spec_presence(self, event_id: u64, attendee: u64) -> bool {
        self.spec_has_event(event_id) && al_get(self.spec_event(event_id).presence@, attendee)
            == Some(true)
    }

    /// The registry's invariant: distinct store keys, event ids that
    /// fit in a `u64`, windows that were validated at creation, and a
    /// presence flag only ever set for an address with a log entry.
    pub open spec fn wf(self) -> bool {
        &&& keys_distinct(self.supervisors@)
        &&& self.events@.len() + 1 <= u64::MAX
        &&& forall|i: int|
            0 <= i < self.events@.len() ==> {
                let e = #[trigger] self.events@[i];
                &&& keys_distinct(e.presence@)
                &&& 0 < e.start_ts
                &&& e.start_ts < e.end_ts
                &&& forall|w: u64|
                    #[trigger] al_get(e.presence@, w) == Some(true) ==> exists|j: int|
                        0 <= j < e.attendees@.len() && (#[trigger] e.attendees@[j]).address == w
            }
    }

    /// Creates the registry: records the admin and this contract's own
    /// address; no events and no supervisors exist yet.
    pub fn construct(admin: u64, contract_id: u64) -> (s: PresenceEvents)
        ensures
            s.wf(),
            s.admin == admin,
            s.contract_id == contract_id,
            s.events@.len() == 0,
            forall|u: u64| !(#[trigger] s.spec_supervisor(u)),
    {
        let s = PresenceEvents { admin, contract_id, supervisors: Vec::new(), events: Vec::new() };
        proof {
            assert forall|u: u64| !(#[trigger] s.spec_supervisor(u)) by {
                crate::alist::lemma_al_get_absent(s.supervisors@, u);
            }
        }
        s
    }

    /// Adds `user` to, or removes it from, the supervisor allow-list.
    /// Admin-only.
    pub fn set_supervisor(&mut self, caller: u64, user: u64, status: bool) -> (r: Result<
        (),
        Error,
    >)
        requires
            old(self).wf(),
        ensures
            final(self).wf(),
            caller != old(self).admin ==> r == Err::<(), Error>(Error::NotAuthorized) && *final(self)
                == *old(self),
            caller == old(self).admin ==> {
                &&& r == Ok::<(), Error>(())
                &&& final(self).spec_supervisor(user) == status
                &&& forall|u: u64|
                    u != user ==> #[trigger] final(self).spec_supervisor(u) == old(self).spec_supervisor(u)
                &&& final(self).admin == old(self).admin
                &&& final(self).contract_id == old(self).contract_id
                &&& final(self).events == old(self).events
            },
    {
        if caller != self.admin {
            return Err(Error::NotAuthorized);
        }
        alist_set(&mut self.supervisors, user, status);
        Ok(())
    }

    /// Overwrites the admin pointer. Admin-only; this registry has no
    /// token bookkeeping.
    pub fn transfer_admin(&mut self, caller: u64, new_admin: u64) -> (r: Result<(), Error>)
        requires
            old(self).wf(),
        ensures
            final(self).wf(),
            caller != old(self).admin ==> r == Err::<(), Error>(Error::NotAuthorized) && *final(self)
                == *old(self),
            caller == old(self).admin ==> r == Ok::<(), Error>(()) && *final(self)
                == (PresenceEvents { admin: new_admin, ..*old(self) }),
    {
        if caller != self.admin {
            return Err(Error::NotAuthorized);
        }
        self.admin = new_admin;
        Ok(())
    }

    /// Creates an event with an immutable name and time window. The
    /// operator must be a supervisor; a window is valid exactly when
    /// both bounds are nonzero and the start strictly precedes the end.
    /// Returns the freshly assigned id.
    pub fn create_event(&mut self, name: String, start_ts: u64, end_ts: u64, operator: u64) -> (r:
        Result<u64, Error>)
        requires
            old(self).wf(),
            old(self).events@.len() + 2 <= u64::MAX,
        ensures
            final(self).wf(),
            !old(self).spec_supervisor(operator) ==> r == Err::<u64, Error>(Error::NotSupervisor)
                && *final(self) == *old(self),
            old(self).spec_supervisor(operator) && (start_ts == 0 || end_ts == 0 || end_ts
                <= start_ts) ==> r == Err::<u64, Error>(Error::InvalidWindow) && *final(self)
                == *old(self),
            old(self).spec_supervisor(operator) && 0 < start_ts && start_ts < end_ts ==> {
                let nid = (old(self).events@.len() + 1) as u64;
                &&& r == Ok::<u64, Error>(nid)
                &&& final(self).events@.len() == old(self).events@.len() + 1
                &&& forall|i: int|
                    0 <= i < old(self).events@.len() ==> #[trigger] final(self).events@[i] == old(self).events@[i]
                &&& final(self).spec_event(nid).name@ == name@
                &&& final(self).spec_event(nid).start_ts == start_ts
                &&& final(self).spec_event(nid).end_ts == end_ts
                &&& final(self).spec_event(nid).attendees@.len() == 0
                &&& forall|w: u64| !(#[trigger] final(self).spec_presence(nid, w))
                &&& final(self).admin == old(self).admin
                &&& final(self).contract_id == old(self).contract_id
                &&& final(self).supervisors == old(self).supervisors
            },
    {
        let enabled = match alist_get(&self.supervisors, operator) {
            Some(b) => b,
            None => false,
        };
        if !enabled {
            return Err(Error::NotSupervisor);
        }
        if start_ts == 0 || end_ts == 0 || end_ts <= start_ts {
            return Err(Error::InvalidWindow);
        }
        let nid: u64 = (self.events.len() as u64) + 1;
        self.events.push(
            EventRecord { name, start_ts, end_ts, presence: Vec::new(), attendees: Vec::new() },
        );
        proof {
            let nrec = self.events@[self.events@.len() - 1];
            assert forall|w: u64| !(#[trigger] self.spec_presence(nid, w)) by {
                crate::alist::lemma_al_get_absent(nrec.presence@, w);
            }
            assert forall|w: u64| #[trigger] al_get(nrec.presence@, w) == Some(true) implies exists|
                j: int,
            | 0 <= j < nrec.attendees@.len() && (#[trigger] nrec.attendees@[j]).address == w by {
                crate::alist::lemma_al_get_absent(nrec.presence@, w);
            }
        }
        Ok(nid)
    }

    /// The stored description of an event, if the id exists.
    pub fn get_event(&self, event_id: u64) -> (r: Option<EventData>)
        ensures
            r is Some <==> self.spec_has_event(event_id),
            r is Some ==> {
                let e = r->Some_0;
                &&& e.name@ == self.spec_event(event_id).name@
                &&& e.start_ts == self.spec_event(event_id).start_ts
                &&& e.end_ts == self.spec_event(event_id).end_ts
            },
    {
        if event_id < 1 || event_id > self.events.len() as u64 {
            return None;
        }
        let rec = &self.events[(event_id - 1) as usize];
        Some(EventData { name: rec.name.clone(), start_ts: rec.start_ts, end_ts: rec.end_ts })
    }

    /// Whether `attendee` is currently considered present for the event.
    pub fn has_presence(&self, event_id: u64, attendee: u64) -> (r: bool)
        ensures
            r == self.spec_presence(event_id, attendee),
    {
        if event_id < 1 || event_id > self.events.len() as u64 {
            return false;
        }
        let rec = &self.events[(event_id - 1) as usize];
        match alist_get(&rec.presence, attendee) {
            Some(b) => b,
            None => false,
        }
    }

    /// Registers `attendee` for an existing event: allowed any time up
    /// to and including the event's end, never twice. On success the
    /// presence flag is set and a fresh active log entry appended at
    /// the next free index.
    pub fn register_presence(&mut self, event_id: u64, attendee: u64, now: u64) -> (r: Result<
        (),
        Error,
    >)
        requires
            old(self).wf(),
        ensures
            final(self).wf(),
            !old(self).spec_has_event(event_id) ==> r == Err::<(), Error>(Error::EventNotFound)
                && *final(self) == *old(self),
            old(self).spec_has_event(event_id) && now > old(self).spec_event(event_id).end_ts ==> r
                == Err::<(), Error>(Error::OutsideWindow) && *final(self) == *old(self),
            old(self).spec_has_event(event_id) && now <= old(self).spec_event(event_id).end_ts
                && old(self).spec_presence(event_id, attendee) ==> r == Err::<(), Error>(
                Error::AlreadyRegistered,
            ) && *final(self) == *old(self),
            old(self).spec_has_event(event_id) && now <= old(self).spec_event(event_id).end_ts
                && !old(self).spec_presence(event_id, attendee) ==> {
                &&& r == Ok::<(), Error>(())
                &&& final(self).events@.len() == old(self).events@.len()
                &&& final(self).spec_presence(event_id, attendee)
                &&& forall|w: u64|
                    w != attendee ==> #[trigger] final(self).spec_presence(event_id, w) == old(self).spec_presence(event_id, w)
                &&& forall|i: int|
                    0 <= i < old(self).events@.len() && i != event_id - 1 ==> #[trigger] final(self).events@[i] == old(self).events@[i]
                &&& final(self).spec_event(event_id).name@ == old(self).spec_event(event_id).name@
                &&& final(self).spec_event(event_id).start_ts == old(self).spec_event(
                    event_id,
                ).start_ts
                &&& final(self).spec_event(event_id).end_ts == old(self).spec_event(event_id).end_ts
                &&& final(self).spec_event(event_id).attendees@ == old(self).spec_event(
                    event_id,
                ).attendees@.push(AttendeeInfo { address: attendee, registered_at: now, active: true })
                &&& final(self).admin == old(self).admin
                &&& final(self).contract_id == old(self).contract_id
                &&& final(self).supervisors == old(self).supervisors
            },
    {
        if event_id < 1 || event_id > self.events.len() as u64 {
            return Err(Error::EventNotFound);
        }
        let idx: usize = (event_id - 1) as usize;
        let end_ts = self.events[idx].end_ts;
        if now > end_ts {
            return Err(Error::OutsideWindow);
        }
        let already = match alist_get(&self.events[idx].presence, attendee) {
            Some(b) => b,
            None => false,
        };
        if already {
            return Err(Error::AlreadyRegistered);
        }
        let mut rec = EventRecord {
            name: String::new(),
            start_ts: 1,
            end_ts: 2,
            presence: Vec::new(),
            attendees: Vec::new(),
        };
        self.events.set_and_swap(idx, &mut rec);
        alist_set(&mut rec.presence, attendee, true);
        rec.attendees.push(AttendeeInfo { address: attendee, registered_at: now, active: true });
        self.events.set_and_swap(idx, &mut rec);
        proof {
            let orec = old(self).events@[idx as int];
            let nrec = self.events@[idx as int];
            assert(self.events@ =~= old(self).events@.update(idx as int, nrec));
            assert(nrec.attendees@ == orec.attendees@.push(
                AttendeeInfo { address: attendee, registered_at: now, active: true },
            ));
            assert forall|w: u64| #[trigger] al_get(nrec.presence@, w) == Some(true) implies exists|
                j: int,
            | 0 <= j < nrec.attendees@.len() && (#[trigger] nrec.attendees@[j]).address == w by {
                if w == attendee {
                    assert(nrec.attendees@[nrec.attendees@.len() - 1].address == attendee);
                } else {
                    assert(al_get(orec.presence@, w) == Some(true));
                    let j = choose|j: int|
                        0 <= j < orec.attendees@.len() && (#[trigger] orec.attendees@[j]).address
                            == w;
                    assert(nrec.attendees@[j].address == w);
                }
            }
            assert forall|w: u64| w != attendee implies #[trigger] self.spec_presence(event_id, w)
                == old(self).spec_presence(event_id, w) by {
                assert(al_get(nrec.presence@, w) == al_get(orec.presence@, w));
            }
        }
        Ok(())
    }

    /// Deactivates the first log entry recorded for `attendee` and
    /// clears the presence flag. The supervisor check deliberately asks
    /// whether this contract's own ledger address is a supervisor — not
    /// the invoking identity — mirroring the operation's intended
    /// gatekeeping as it stands.
    pub fn remove_presence(&mut self, event_id: u64, attendee: u64) -> (r: Result<(), Error>)
        requires
            old(self).wf(),
        ensures
            final(self).wf(),
            !old(self).spec_supervisor(old(self).contract_id) ==> r == Err::<(), Error>(
                Error::NotSupervisor,
            ) && *final(self) == *old(self),
            old(self).spec_supervisor(old(self).contract_id) && !old(self).spec_presence(
                event_id,
                attendee,
            ) ==> r == Err::<(), Error>(Error::NotRegistered) && *final(self) == *old(self),
            old(self).spec_supervisor(old(self).contract_id) && old(self).spec_presence(
                event_id,
                attendee,
            ) ==> {
                let fm = first_match(old(self).spec_event(event_id).attendees@, attendee);
                &&& r == Ok::<(), Error>(())
                &&& final(self).events@.len() == old(self).events@.len()
                &&& !final(self).spec_presence(event_id, attendee)
                &&& forall|w: u64|
                    w != attendee ==> #[trigger] final(self).spec_presence(event_id, w) == old(self).spec_presence(event_id, w)
                &&& forall|i: int|
                    0 <= i < old(self).events@.len() && i != event_id - 1 ==> #[trigger] final(self).events@[i] == old(self).events@[i]
                &&& final(self).spec_event(event_id).name@ == old(self).spec_event(event_id).name@
                &&& final(self).spec_event(event_id).start_ts == old(self).spec_event(
                    event_id,
                ).start_ts
                &&& final(self).spec_event(event_id).end_ts == old(self).spec_event(event_id).end_ts
                &&& 0 <= fm < old(self).spec_event(event_id).attendees@.len()
                &&& final(self).spec_event(event_id).attendees@ == old(self).spec_event(
                    event_id,
                ).attendees@.update(
                    fm,
                    AttendeeInfo {
                        address: attendee,
                        registered_at: old(self).spec_event(event_id).attendees@[fm].registered_at,
                        active: false,
                    },
                )
                &&& final(self).admin == old(self).admin
                &&& final(self).contract_id == old(self).contract_id
                &&& final(self).supervisors == old(self).supervisors
            },
    {
        let is_supervisor = match alist_get(&self.supervisors, self.contract_id) {
            Some(b) => b,
            None => false,
        };
        if !is_supervisor {
            return Err(Error::NotSupervisor);
        }
        if !self.has_presence(event_id, attendee) {
            return Err(Error::NotRegistered);
        }
        let n_events: usize = self.events.len();
        proof {
            assert(1 <= event_id && event_id <= n_events);
        }
        let idx: usize = (event_id - 1) as usize;
        let mut rec = EventRecord {
            name: String::new(),
            start_ts: 1,
            end_ts: 2,
            presence: Vec::new(),
            attendees: Vec::new(),
        };
        self.events.set_and_swap(idx, &mut rec);
        let count = rec.attendees.len();
        let mut i: usize = 0;
        let mut found = false;
        while i < count && !found
            invariant
                count == rec.attendees@.len(),
                0 <= i <= count,
                !found ==> forall|j: int| 0 <= j < i ==> (#[trigger] rec.attendees@[j]).address
                    != attendee,
                found ==> {
                    &&& i >= 1
                    &&& first_match(old(self).events@[event_id - 1].attendees@, attendee) == i - 1
                    &&& old(self).events@[event_id - 1].attendees@[i - 1].address == attendee
                    &&& rec.attendees@ == old(self).events@[event_id - 1].attendees@.update(
                        i - 1,
                        AttendeeInfo {
                            address: attendee,
                            registered_at: old(self).events@[event_id - 1].attendees@[i
                                - 1].registered_at,
                            active: false,
                        },
                    )
                },
                !found ==> rec.attendees@ == old(self).events@[event_id - 1].attendees@,
                rec.name == old(self).events@[event_id - 1].name,
                rec.start_ts == old(self).events@[event_id - 1].start_ts,
                rec.end_ts == old(self).events@[event_id - 1].end_ts,
                rec.presence == old(self).events@[event_id - 1].presence,
            decreases count - i,
    {
            let entry = rec.attendees[i];
            if entry.address == attendee {
                rec.attendees.set(
                    i,
                    AttendeeInfo {
                        address: entry.address,
                        registered_at: entry.registered_at,
                        active: false,
                    },
                );
                proof {
                    lemma_first_match_at(
                        old(self).events@[event_id - 1].attendees@,
                        attendee,
                        i as int,
                    );
                }
                found = true;
            }
            i = i + 1;
        }
        proof {
            if !found {
                let orec = old(self).events@[event_id - 1];
                assert(al_get(orec.presence@, attendee) == Some(true));
                let j = choose|j: int|
                    0 <= j < orec.attendees@.len() && (#[trigger] orec.attendees@[j]).address
                        == attendee;
                assert(false);
            }
        }
        alist_set(&mut rec.presence, attendee, false);
        self.events.set_and_swap(idx, &mut rec);
        proof {
            let orec = old(self).events@[idx as int];
            let nrec = self.events@[idx as int];
            assert(self.events@ =~= old(self).events@.update(idx as int, nrec));
            assert forall|w: u64| #[trigger] al_get(nrec.presence@, w) == Some(true) implies exists|
                j: int,
            | 0 <= j < nrec.attendees@.len() && (#[trigger] nrec.attendees@[j]).address == w by {
                assert(w != attendee);
                assert(al_get(orec.presence@, w) == Some(true));
                let j = choose|j: int|
                    0 <= j < orec.attendees@.len() && (#[trigger] orec.attendees@[j]).address == w;
                let fm = first_match(orec.attendees@, attendee);
                assert(orec.attendees@[fm].address == attendee);
                assert(j != fm);
                assert(nrec.attendees@[j].address == w);
            }
            assert forall|w: u64| w != attendee implies #[trigger] self.spec_presence(event_id, w)
                == old(self).spec_presence(event_id, w) by {
                assert(al_get(nrec.presence@, w) == al_get(orec.presence@, w));
            }
        }
        Ok(())
    }

    /// Pages through an event's attendee log in registration order:
    /// skips the first `cursor` entries — active or not — and returns
    /// up to `limit` of the following entries. A missing event or a
    /// zero limit yields an empty page.
    pub fn list_attendees(&self, event_id: u64, cursor: u64, limit: u32) -> (r: Vec<AttendeeInfo>)
        ensures
            ({
                let s = if self.spec_has_event(event_id) {
                    self.spec_event(event_id).attendees@
                } else {
                    Seq::<AttendeeInfo>::empty()
                };
                let lo = min(cursor as int, s.len() as int);
                let hi = min(cursor as int + limit as int, s.len() as int);
                r@ == s.subrange(lo, hi)
            }),
    {
        let mut out: Vec<AttendeeInfo> = Vec::new();
        if event_id < 1 || event_id > self.events.len() as u64 {
            proof {
                assert(out@ =~= Seq::<AttendeeInfo>::empty().subrange(0, 0));
            }
            return out;
        }
        let rec = &self.events[(event_id - 1) as usize];
        let ghost s = rec.attendees@;
        if limit == 0 {
            proof {
                let lo = min(cursor as int, s.len() as int);
                assert(out@ =~= s.subrange(lo, lo));
            }
            return out;
        }
        let count: usize = rec.attendees.len();
        let mut skipped: u64 = 0;
        let mut taken: u32 = 0;
        let mut i: usize = 0;
        while i < count && taken < limit
            invariant
                self.spec_has_event(event_id),
                s == self.spec_event(event_id).attendees@,
                rec.attendees@ == s,
                count == s.len(),
                0 <= i <= count,
                taken <= limit,
                skipped as int == min(cursor as int, i as int),
                taken as int == min(
                    max(i as int - cursor as int, 0),
                    limit as int,
                ),
                out@ == s.subrange(skipped as int, skipped as int + taken as int),
            decreases count - i,
        {
            let entry = rec.attendees[i];
            if skipped < cursor {
                skipped = skipped + 1;
            } else {
                out.push(entry);
                taken = taken + 1;
                proof {
                    assert(out@ =~= s.subrange(
                        skipped as int,
                        skipped as int + taken as int,
                    ));
                }
            }
            i = i + 1;
        }
        proof {
            let lo = min(cursor as int, s.len() as int);
            let hi = min(cursor as int + limit as int, s.len() as int);
            assert(out@ =~= s.subrange(lo, hi));
        }
        out
    }

    /// Lists events with ids in `[start_id, start_id + limit)` that
    /// exist, ascending by id. Id zero never exists; a zero limit
    /// yields an empty page.
    pub fn list_events(&self, start_id: u64, limit: u32) -> (r: Vec<EventSummary>)
        requires
            self.wf(),
        ensures
            ({
                let len = self.events@.len() as int;
                let lo = max(start_id as int, 1);
                let hi = min(start_id as int + limit as int, len + 1);
                &&& r@.len() == max(hi - lo, 0)
                &&& forall|k: int|
                    0 <= k < r@.len() ==> {
                        let e = #[trigger] r@[k];
                        &&& e.id == lo + k
                        &&& e.name@ == self.events@[lo + k - 1].name@
                        &&& e.start_ts == self.events@[lo + k - 1].start_ts
                        &&& e.end_ts == self.events@[lo + k - 1].end_ts
                    }
            }),
    {
        let mut out: Vec<EventSummary> = Vec::new();
        if limit == 0 {
            return out;
        }
        let len: u64 = self.events.len() as u64;
        let m: u64 = if start_id > u64::MAX - (limit as u64) {
            u64::MAX
        } else {
            start_id + (limit as u64)
        };
        let ghost glo = max(start_id as int, 1);
        let mut i: u64 = start_id;
        while i < m && i <= len
            invariant
                self.wf(),
                len == self.events@.len(),
                self.events@.len() <= usize::MAX,
                glo == max(start_id as int, 1),
                m as int >= min(start_id as int + limit as int, len as int + 1),
                m as int <= start_id as int + limit as int,
                start_id <= i,
                i as int <= max(min(m as int, len as int + 1), start_id as int),
                out@.len() == max(min(i as int, len as int + 1) - glo, 0),
                forall|k: int|
                    0 <= k < out@.len() ==> {
                        let e = #[trigger] out@[k];
                        &&& e.id == glo + k
                        &&& e.name@ == self.events@[glo + k - 1].name@
                        &&& e.start_ts == self.events@[glo + k - 1].start_ts
                        &&& e.end_ts == self.events@[glo + k - 1].end_ts
                    },
            decreases m - i,
        {
            if i >= 1 {
                proof {
                    assert(i as int >= glo);
                    assert(out@.len() == i as int - glo);
                }
                let rec = &self.events[(i - 1) as usize];
                out.push(
                    EventSummary {
                        id: i,
                        name: rec.name.clone(),
                        start_ts: rec.start_ts,
                        end_ts: rec.end_ts,
                    },
                );
                proof {
                    assert(out@.last().id == i);
                }
            }
            i = i + 1;
        }
        out
    }
}

/// The ids of events whose window already closed at `now`, newest
/// first, among ids `1..=hi`.
pub open spec fn closed_ids(events: Seq<EventRecord>, now: u64, hi: int) -> Seq<int>
    decreases hi,
{
    if hi <= 0 {
        Seq::empty()
    } else if events[hi - 1].end_ts <= now {
        seq![hi] + closed_ids(events, now, hi - 1)
    } else {
        closed_ids(events, now, hi - 1)
    }
}

/// The closed-id listing is strictly descending and stays in `1..=hi`.
pub proof fn lemma_closed_ids_desc(events: Seq<EventRecord>, now: u64, hi: int)
    ensures
        forall|a: int|
            0 <= a < closed_ids(events, now, hi).len() ==> 1 <= #[trigger] closed_ids(
                events,
                now,
                hi,
            )[a] <= hi,
        forall|a: int, b: int|
            0 <= a < b < closed_ids(events, now, hi).len() ==> #[trigger] closed_ids(
                events,
                now,
                hi,
            )[a] > #[trigger] closed_ids(events, now, hi)[b],
    decreases hi,
{
    if hi > 0 {
        lemma_closed_ids_desc(events, now, hi - 1);
        let t = closed_ids(events, now, hi);
        let rest = closed_ids(events, now, hi - 1);
        if events[hi - 1].end_ts <= now {
            assert(t == seq![hi] + rest);
            assert(t[0] == hi);
            assert(forall|a: int| 1 <= a < t.len() ==> t[a] == rest[a - 1]);
            assert forall|a: int| 0 <= a < t.len() implies 1 <= #[trigger] t[a] <= hi by {
                if a > 0 {
                    assert(t[a] == rest[a - 1]);
                }
            }
            assert forall|a: int, b: int| 0 <= a < b < t.len() implies #[trigger] t[a] > #[trigger] t[b] by {
                assert(t[b] == rest[b - 1]);
                if a > 0 {
                    assert(t[a] == rest[a - 1]);
                }
            }
        } else {
            assert(t == rest);
        }
    }
}

/// How many events among ids `lo..hi` (half-open) still have their
/// window open at `now`.
pub open spec fn upcoming_count(events: Seq<EventRecord>, now: u64, lo: int, hi: int) -> int
    decreases hi - lo,
{
    if lo >= hi {
        0
    } else {
        (if events[lo - 1].end_ts > now {
            1int
        } else {
            0int
        }) + upcoming_count(events, now, lo + 1, hi)
    }
}

impl PresenceEvents {
    /// Lists closed events — those whose `end_ts` is at or before `now`
    /// — newest first, skipping the first `cursor` matches and
    /// returning up to `limit` of the following ones.
    pub fn list_closed(&self, cursor: u64, limit: u32, now: u64) -> (r: Vec<EventSummary>)
        requires
            self.wf(),
        ensures
            ({
                let ids = closed_ids(self.events@, now, self.events@.len() as int);
                let lo = min(cursor as int, ids.len() as int);
                let hi = min(cursor as int + limit as int, ids.len() as int);
                &&& r@.len() == hi - lo
                &&& forall|k: int|
                    0 <= k < r@.len() ==> {
                        let e = #[trigger] r@[k];
                        &&& e.id == ids[lo + k]
                        &&& 1 <= e.id <= self.events@.len()
                        &&& e.end_ts <= now
                        &&& e.name@ == self.events@[e.id - 1].name@
                        &&& e.start_ts == self.events@[e.id - 1].start_ts
                        &&& e.end_ts == self.events@[e.id - 1].end_ts
                    }
                &&& forall|k1: int, k2: int|
                    0 <= k1 < k2 < r@.len() ==> #[trigger] r@[k1].id > #[trigger] r@[k2].id
            }),
    {
        let mut out: Vec<EventSummary> = Vec::new();
        let ghost ids_all = closed_ids(self.events@, now, self.events@.len() as int);
        proof {
            lemma_closed_ids_desc(self.events@, now, self.events@.len() as int);
        }
        if limit == 0 {
            return out;
        }
        let len: u64 = self.events.len() as u64;
        let mut id: u64 = len;
        let mut skipped: u64 = 0;
        let mut taken: u32 = 0;
        let ghost mut m: Seq<int> = Seq::empty();
        while id >= 1 && taken < limit
            invariant
                self.wf(),
                len == self.events@.len(),
                self.events@.len() <= usize::MAX,
                ids_all == closed_ids(self.events@, now, len as int),
                0 <= id <= len,
                taken <= limit,
                ids_all == m + closed_ids(self.events@, now, id as int),
                skipped as int == min(cursor as int, m.len() as int),
                taken as int == min(max(m.len() as int - cursor as int, 0), limit as int),
                out@.len() == taken,
                forall|k: int|
                    0 <= k < out@.len() ==> {
                        let e = #[trigger] out@[k];
                        &&& e.id == m[cursor as int + k]
                        &&& 1 <= e.id <= len
                        &&& e.end_ts <= now
                        &&& e.name@ == self.events@[e.id - 1].name@
                        &&& e.start_ts == self.events@[e.id - 1].start_ts
                        &&& e.end_ts == self.events@[e.id - 1].end_ts
                    },
            decreases id,
        {
            let rec = &self.events[(id - 1) as usize];
            if rec.end_ts <= now {
                if skipped < cursor {
                    skipped = skipped + 1;
                } else {
                    out.push(
                        EventSummary {
                            id,
                            name: rec.name.clone(),
                            start_ts: rec.start_ts,
                            end_ts: rec.end_ts,
                        },
                    );
                    taken = taken + 1;
                }
                proof {
                    assert(closed_ids(self.events@, now, id as int) == seq![id as int]
                        + closed_ids(self.events@, now, id as int - 1));
                    let m2 = m + seq![id as int];
                    assert(m2 + closed_ids(self.events@, now, id as int - 1) =~= m + (seq![
                        id as int,
                    ] + closed_ids(self.events@, now, id as int - 1)));
                    assert(forall|k: int| 0 <= k < m.len() ==> #[trigger] m2[k] == m[k]);
                    assert(m2[m.len() as int] == id as int);
                    m = m2;
                }
            } else {
                proof {
                    assert(closed_ids(self.events@, now, id as int) == closed_ids(
                        self.events@,
                        now,
                        id as int - 1,
                    ));
                }
            }
            id = id - 1;
        }
        proof {
            let lo = min(cursor as int, ids_all.len() as int);
            let hi = min(cursor as int + limit as int, ids_all.len() as int);
            if id == 0 {
                assert(closed_ids(self.events@, now, 0) =~= Seq::<int>::empty());
                assert(ids_all =~= m);
            }
            assert(out@.len() == hi - lo);
            assert forall|k: int| 0 <= k < out@.len() implies #[trigger] out@[k].id == ids_all[lo
                + k] by {
                assert(out@[k].id == m[cursor as int + k]);
                assert(ids_all[cursor as int + k] == m[cursor as int + k]);
            }
        }
        out
    }

    /// A best-effort top-5 ranking of upcoming events — those whose
    /// `end_ts` is strictly after `now` — soonest-starting first,
    /// drawn from at most the 64 most recently created ids. The page
    /// holds every qualifying event of that horizon when fewer than
    /// five qualify, is ordered by `start_ts` (strictly, whenever no
    /// two events of the horizon share a start; on a tie the newer id
    /// comes first), and never repeats an id.
    #[verifier::rlimit(100)]
    pub fn list_upcoming(&self, now: u64) -> (r: Vec<EventSummary>)
        requires
            self.wf(),
        ensures
            ({
                let len = self.events@.len() as int;
                let lo = max(len - 63, 1);
                let cnt = upcoming_count(self.events@, now, lo, len + 1);
                &&& r@.len() == min(cnt, 5)
                &&& forall|k1: int, k2: int|
                    0 <= k1 < k2 < r@.len() ==> #[trigger] r@[k1].start_ts <= #[trigger] r@[k2].start_ts
                &&& forall|k: int|
                    0 <= k < r@.len() ==> {
                        let e = #[trigger] r@[k];
                        &&& lo <= e.id <= len
                        &&& e.end_ts > now
                        &&& e.name@ == self.events@[e.id - 1].name@
                        &&& e.start_ts == self.events@[e.id - 1].start_ts
                        &&& e.end_ts == self.events@[e.id - 1].end_ts
                    }
                &&& forall|k1: int, k2: int|
                    0 <= k1 < k2 < r@.len() ==> #[trigger] r@[k1].id != #[trigger] r@[k2].id
                &&& (forall|a: int, b: int|
                    lo <= a <= len && lo <= b <= len && a != b ==> #[trigger] self.events@[a
                        - 1].start_ts != #[trigger] self.events@[b - 1].start_ts) ==> forall|
                    k1: int,
                    k2: int,
                |
                    0 <= k1 < k2 < r@.len() ==> #[trigger] r@[k1].start_ts < #[trigger] r@[k2].start_ts
            }),
    {
        let mut selected: Vec<EventSummary> = Vec::new();
        let len_us: usize = self.events.len();
        let newest: u64 = len_us as u64;
        if newest == 0 {
            return selected;
        }
        let lo: u64 = if newest > 63 {
            newest - 63
        } else {
            1
        };
        let mut id: u64 = newest;
        while id >= lo
            invariant
                self.wf(),
                newest == self.events@.len(),
                self.events@.len() <= usize::MAX,
                newest >= 1,
                1 <= lo,
                lo as int == max(newest as int - 63, 1),
                lo - 1 <= id <= newest,
                selected@.len() == min(
                    upcoming_count(self.events@, now, id as int + 1, newest as int + 1),
                    5,
                ),
                forall|k1: int, k2: int|
                    0 <= k1 < k2 < selected@.len() ==> #[trigger] selected@[k1].start_ts
                        <= #[trigger] selected@[k2].start_ts,
                forall|k: int|
                    0 <= k < selected@.len() ==> {
                        let e = #[trigger] selected@[k];
                        &&& id < e.id <= newest
                        &&& e.end_ts > now
                        &&& e.name@ == self.events@[e.id - 1].name@
                        &&& e.start_ts == self.events@[e.id - 1].start_ts
                        &&& e.end_ts == self.events@[e.id - 1].end_ts
                    },
                forall|k1: int, k2: int|
                    0 <= k1 < k2 < selected@.len() ==> #[trigger] selected@[k1].id
                        != #[trigger] selected@[k2].id,
            decreases id,
        {
            let ghost cnt_before = upcoming_count(
                self.events@,
                now,
                id as int + 1,
                newest as int + 1,
            );
            proof {
                assert(upcoming_count(self.events@, now, id as int, newest as int + 1) == (
                if self.events@[id - 1].end_ts > now {
                    1int
                } else {
                    0int
                }) + cnt_before);
            }
            let rec = &self.events[(id - 1) as usize];
            if rec.end_ts > now {
                let item = EventSummary {
                    id,
                    name: rec.name.clone(),
                    start_ts: rec.start_ts,
                    end_ts: rec.end_ts,
                };
                let n: usize = selected.len();
                let ghost sel0 = selected@;
                let mut pos: usize = 0;
                while pos < n && selected[pos].start_ts <= item.start_ts
                    invariant
                        selected@ == sel0,
                        n == sel0.len(),
                        0 <= pos <= n,
                        forall|j: int|
                            0 <= j < pos ==> (#[trigger] sel0[j]).start_ts <= item.start_ts,
                    decreases n - pos,
                {
                    pos = pos + 1;
                }
                selected.insert(pos, item);
                proof {
                    sel0.insert_ensures(pos as int, item);
                    assert(selected@.len() == sel0.len() + 1);
                    assert forall|k1: int, k2: int|
                        0 <= k1 < k2 < selected@.len() implies #[trigger] selected@[k1].start_ts
                        <= #[trigger] selected@[k2].start_ts by {
                        if k2 < pos {
                        } else if k1 < pos && k2 == pos {
                            assert(sel0[k1].start_ts <= item.start_ts);
                        } else if k1 < pos {
                            assert(sel0[k1].start_ts <= item.start_ts);
                            assert(selected@[k2] == sel0[k2 - 1]);
                            if pos < n {
                                assert(sel0[pos as int].start_ts > item.start_ts);
                            }
                            assert(sel0[k2 - 1].start_ts >= item.start_ts) by {
                                if k2 - 1 > pos {
                                    assert(sel0[pos as int].start_ts <= sel0[k2 - 1].start_ts);
                                }
                            }
                        } else if k1 == pos {
                            assert(selected@[k2] == sel0[k2 - 1]);
                            assert(sel0[k2 - 1].start_ts >= item.start_ts) by {
                                if k2 - 1 > pos {
                                    assert(sel0[pos as int].start_ts <= sel0[k2 - 1].start_ts);
                                }
                            }
                        } else {
                            assert(selected@[k1] == sel0[k1 - 1]);
                            assert(selected@[k2] == sel0[k2 - 1]);
                        }
                    }
                }
                if selected.len() > 5 {
                    let ghost before_pop = selected@;
                    let _ = selected.pop();
                    proof {
                        assert(selected@ =~= before_pop.subrange(0, before_pop.len() - 1));
                    }
                }
            }
            id = id - 1;
        }
        selected
    }
}

} // verus!
