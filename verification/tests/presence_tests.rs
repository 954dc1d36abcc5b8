use registries::Error;
use registries::PresenceEvents;

const ADMIN: u64 = 1;
const CONTRACT: u64 = 2;
const SUP: u64 = 3;
const ATT: u64 = 4;
const OTHER: u64 = 5;

fn registry_with_supervisor() -> PresenceEvents {
    let mut s = PresenceEvents::construct(ADMIN, CONTRACT);
    s.set_supervisor(ADMIN, SUP, true).unwrap();
    s
}

#[test]
fn set_supervisor_is_admin_only() {
    let mut s = PresenceEvents::construct(ADMIN, CONTRACT);
    assert_eq!(s.set_supervisor(SUP, SUP, true), Err(Error::NotAuthorized));
    assert!(s.set_supervisor(ADMIN, SUP, true).is_ok());
    assert!(s.set_supervisor(ADMIN, SUP, false).is_ok());
    assert_eq!(
        s.create_event(String::from("e"), 100, 200, SUP),
        Err(Error::NotSupervisor)
    );
}

#[test]
fn create_event_validates_window() {
    let mut s = registry_with_supervisor();
    assert_eq!(
        s.create_event(String::from("zero start"), 0, 10, SUP),
        Err(Error::InvalidWindow)
    );
    assert_eq!(
        s.create_event(String::from("zero end"), 10, 0, SUP),
        Err(Error::InvalidWindow)
    );
    assert_eq!(
        s.create_event(String::from("empty"), 10, 10, SUP),
        Err(Error::InvalidWindow)
    );
    assert_eq!(
        s.create_event(String::from("backwards"), 20, 10, SUP),
        Err(Error::InvalidWindow)
    );
    assert_eq!(s.create_event(String::from("ok"), 10, 20, SUP), Ok(1));
    assert_eq!(s.create_event(String::from("ok2"), 1, 2, SUP), Ok(2));
}

#[test]
fn registration_window_scenario() {
    let mut s = registry_with_supervisor();
    let id = s.create_event(String::from("meetup"), 100, 200, SUP).unwrap();
    assert!(s.register_presence(id, ATT, 150).is_ok());
    assert!(s.has_presence(id, ATT));
    assert_eq!(s.register_presence(id, ATT, 160), Err(Error::AlreadyRegistered));
    let page = s.list_attendees(id, 0, 10);
    assert_eq!(page.len(), 1);
    assert_eq!(page[0].address, ATT);
    assert_eq!(page[0].registered_at, 150);
    assert!(page[0].active);
}

#[test]
fn registration_accepts_end_boundary_and_rejects_after() {
    let mut s = registry_with_supervisor();
    let id = s.create_event(String::from("e"), 100, 200, SUP).unwrap();
    assert_eq!(s.register_presence(id, ATT, 201), Err(Error::OutsideWindow));
    assert!(s.register_presence(id, ATT, 200).is_ok());
    assert!(s.register_presence(id, OTHER, 50).is_ok());
    assert_eq!(s.register_presence(9, ATT, 100), Err(Error::EventNotFound));
}

#[test]
fn get_event_and_has_presence() {
    let mut s = registry_with_supervisor();
    assert!(s.get_event(1).is_none());
    let id = s.create_event(String::from("named"), 5, 9, SUP).unwrap();
    let e = s.get_event(id).unwrap();
    assert_eq!(e.name, "named");
    assert_eq!(e.start_ts, 5);
    assert_eq!(e.end_ts, 9);
    assert!(!s.has_presence(id, ATT));
    assert!(!s.has_presence(77, ATT));
}

#[test]
fn list_attendees_cursor_counts_all_entries() {
    let mut s = registry_with_supervisor();
    let id = s.create_event(String::from("e"), 1, 1000, SUP).unwrap();
    for w in 100u64..105 {
        s.register_presence(id, w, 10).unwrap();
    }
    s.set_supervisor(ADMIN, CONTRACT, true).unwrap();
    s.remove_presence(id, 101).unwrap();
    let page = s.list_attendees(id, 1, 2);
    assert_eq!(page.len(), 2);
    assert_eq!(page[0].address, 101);
    assert!(!page[0].active);
    assert_eq!(page[1].address, 102);
    assert!(page[1].active);
    assert_eq!(s.list_attendees(id, 10, 5).len(), 0);
    assert_eq!(s.list_attendees(id, 0, 0).len(), 0);
    assert_eq!(s.list_attendees(id, 3, 10).len(), 2);
}

#[test]
fn remove_presence_requires_contract_on_allow_list() {
    let mut s = registry_with_supervisor();
    let id = s.create_event(String::from("e"), 1, 1000, SUP).unwrap();
    s.register_presence(id, ATT, 10).unwrap();
    assert_eq!(s.remove_presence(id, ATT), Err(Error::NotSupervisor));
    s.set_supervisor(ADMIN, CONTRACT, true).unwrap();
    assert_eq!(s.remove_presence(id, OTHER), Err(Error::NotRegistered));
    assert!(s.remove_presence(id, ATT).is_ok());
    assert!(!s.has_presence(id, ATT));
    assert_eq!(s.remove_presence(id, ATT), Err(Error::NotRegistered));
    let page = s.list_attendees(id, 0, 10);
    assert_eq!(page.len(), 1);
    assert!(!page[0].active);
}

#[test]
fn list_events_pages_ascending() {
    let mut s = registry_with_supervisor();
    for k in 0u64..4 {
        s.create_event(String::from("e"), 10 + k, 20 + k, SUP).unwrap();
    }
    let all = s.list_events(0, 10);
    assert_eq!(all.len(), 4);
    assert_eq!(all[0].id, 1);
    assert_eq!(all[3].id, 4);
    let mid = s.list_events(2, 2);
    assert_eq!(mid.len(), 2);
    assert_eq!(mid[0].id, 2);
    assert_eq!(mid[1].id, 3);
    assert_eq!(s.list_events(9, 5).len(), 0);
    assert_eq!(s.list_events(1, 0).len(), 0);
}

#[test]
fn list_upcoming_ranks_soonest_first() {
    let mut s = registry_with_supervisor();
    s.create_event(String::from("late"), 500, 600, SUP).unwrap();
    s.create_event(String::from("soon"), 120, 300, SUP).unwrap();
    s.create_event(String::from("past"), 10, 50, SUP).unwrap();
    s.create_event(String::from("mid"), 200, 400, SUP).unwrap();
    let now = 100;
    let up = s.list_upcoming(now);
    assert_eq!(up.len(), 3);
    assert_eq!(up[0].id, 2);
    assert_eq!(up[1].id, 4);
    assert_eq!(up[2].id, 1);
    for e in &up {
        assert!(e.end_ts > now);
    }
}

#[test]
fn list_upcoming_caps_at_five() {
    let mut s = registry_with_supervisor();
    for k in 0u64..8 {
        s.create_event(String::from("e"), 100 + k, 1000, SUP).unwrap();
    }
    let up = s.list_upcoming(1);
    assert_eq!(up.len(), 5);
    for w in up.windows(2) {
        assert!(w[0].start_ts <= w[1].start_ts);
    }
    assert_eq!(up[0].start_ts, 100);
    assert_eq!(up[4].start_ts, 104);
}

#[test]
fn list_upcoming_scans_only_recent_ids() {
    let mut s = registry_with_supervisor();
    s.create_event(String::from("oldest"), 50, 10_000, SUP).unwrap();
    for _ in 0u64..64 {
        s.create_event(String::from("filler"), 5_000, 10_000, SUP).unwrap();
    }
    let up = s.list_upcoming(1);
    assert_eq!(up.len(), 5);
    for e in &up {
        assert!(e.id >= 2, "id 1 lies outside the 64-id horizon");
    }
}

#[test]
fn list_closed_pages_newest_first() {
    let mut s = registry_with_supervisor();
    s.create_event(String::from("a"), 10, 20, SUP).unwrap();
    s.create_event(String::from("b"), 10, 30, SUP).unwrap();
    s.create_event(String::from("c"), 10, 500, SUP).unwrap();
    s.create_event(String::from("d"), 10, 40, SUP).unwrap();
    let now = 100;
    let closed = s.list_closed(0, 10, now);
    assert_eq!(closed.len(), 3);
    assert_eq!(closed[0].id, 4);
    assert_eq!(closed[1].id, 2);
    assert_eq!(closed[2].id, 1);
    let page = s.list_closed(1, 1, now);
    assert_eq!(page.len(), 1);
    assert_eq!(page[0].id, 2);
    assert_eq!(s.list_closed(3, 10, now).len(), 0);
    assert_eq!(s.list_closed(0, 0, now).len(), 0);
}

#[test]
fn presence_transfer_admin_is_a_pointer_swap() {
    let mut s = PresenceEvents::construct(ADMIN, CONTRACT);
    assert_eq!(s.transfer_admin(SUP, SUP), Err(Error::NotAuthorized));
    assert!(s.transfer_admin(ADMIN, SUP).is_ok());
    assert_eq!(s.admin, SUP);
    assert!(s.set_supervisor(SUP, OTHER, true).is_ok());
}
