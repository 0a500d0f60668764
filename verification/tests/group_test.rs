use link::base::error::Error;
use link::base::link::{Handler, Linkable, Settings};
use link::base::state::Mode;
use link::net::group::{drains_on, Attempt, ACQUIRE_WAIT, DRAIN_LIMIT};
use link::net::{Group, Socket};

struct Plain;

impl Handler for Plain {
    fn handle(&self, data: &[u8]) -> Result<Vec<u8>, Error> {
        Ok(data.to_vec())
    }
}

/// A connection with a name, which may refuse to stop.
struct Named {
    id: u32,
    stops: bool,
}

impl Linkable for Named {
    fn start(&mut self) -> Result<(), Error> {
        Ok(())
    }

    fn stop(&mut self) -> Result<(), Error> {
        if self.stops {
            Ok(())
        } else {
            Err(Error::Net("cannot stop".into()))
        }
    }

    fn state(&self) -> Result<Mode, Error> {
        Ok(Mode::Ready)
    }
}

fn named(id: u32) -> Named {
    Named { id, stops: true }
}

#[test]
fn test_group_lifecycle() {
    let settings = Settings::default();
    let mut group: Group<Socket<Plain>> = Group::new(10, settings);

    assert!(matches!(group.state().unwrap(), Mode::Init));

    group.start().unwrap();
    assert!(matches!(group.state().unwrap(), Mode::Ready));

    group.stop().unwrap();
    assert!(matches!(group.state().unwrap(), Mode::Close));
}

#[test]
fn test_group_connection_pool() {
    let settings = Settings { size: 1024, wait: 100, ..Settings::default() };
    let mut group: Group<Socket<Plain>> = Group::new(2, settings);
    group.start().unwrap();

    group.add(Socket::new(Settings::default())).unwrap();
    group.add(Socket::new(Settings::default())).unwrap();

    let mut holder1 = group.get().unwrap();
    assert!(holder1.is_valid());
    let mut holder2 = group.get().unwrap();
    assert!(holder2.is_valid());

    assert!(group.get().is_err());

    holder1.release(&mut group);
    holder2.release(&mut group);

    group.stop().unwrap();
    assert!(matches!(group.state().unwrap(), Mode::Close));
}

#[test]
fn test_group_concurrent_access() {
    let settings = Settings { size: 1024, wait: 100, ..Settings::default() };
    let mut group: Group<Socket<Plain>> = Group::new(10, settings);
    group.start().unwrap();
    for _ in 0..10 {
        group.add(Socket::new(Settings::default())).unwrap();
    }
    for i in 0..10u8 {
        let mut holder = group.get().unwrap();
        let mut wire = Vec::new();
        let sent = holder.socket().send(&[i; 4], &mut wire).unwrap();
        assert_eq!(sent, 4);
        holder.release(&mut group);
    }
    assert_eq!(group.available(), 10);
    group.stop().unwrap();
}

#[test]
fn test_group_borrow_release_borrow() {
    let mut group: Group<Named> = Group::new(2, Settings::default());
    group.add(named(1)).unwrap();
    group.add(named(2)).unwrap();
    assert_eq!(group.capacity(), 2);
    assert_eq!(group.available(), 2);

    // The connection that came last leaves first.
    let mut first = group.get().unwrap();
    assert_eq!(first.socket().id, 2);
    let mut second = group.get().unwrap();
    assert_eq!(second.socket().id, 1);
    assert_eq!(group.available(), 0);

    match group.get() {
        Err(Error::Net(m)) => assert_eq!(m, "permit acquisition timeout"),
        _ => panic!("expected the pool to be out of permits"),
    }
    assert_eq!(group.available(), 0);

    second.release(&mut group);
    assert!(!second.is_valid());
    assert_eq!(group.available(), 1);

    let mut again = group.get().unwrap();
    assert!(again.is_valid());
    assert_eq!(again.socket().id, 1);
    assert_eq!(group.available(), 0);

    first.release(&mut group);
    again.release(&mut group);
    assert_eq!(group.available(), 2);
}

#[test]
fn test_group_release_twice_gives_back_once() {
    let mut group: Group<Named> = Group::new(1, Settings::default());
    group.add(named(7)).unwrap();
    let mut holder = group.get().unwrap();
    assert_eq!(group.available(), 0);
    holder.release(&mut group);
    assert_eq!(group.available(), 1);
    holder.release(&mut group);
    holder.release(&mut group);
    assert_eq!(group.available(), 1);
    assert!(!holder.is_valid());
    // One connection came back, not three.
    assert_eq!(group.get().unwrap().socket().id, 7);
    match group.get() {
        Err(Error::Net(m)) => assert_eq!(m, "permit acquisition timeout"),
        _ => panic!("expected no permit"),
    }
}

#[test]
fn test_group_empty_pool_keeps_its_permit() {
    let mut group: Group<Named> = Group::new(1, Settings::default());
    match group.get() {
        Err(Error::Net(m)) => assert_eq!(m, "no available sockets"),
        _ => panic!("expected no connection"),
    }
    assert_eq!(group.available(), 1);
    group.add(named(1)).unwrap();
    assert!(group.get().is_ok());
}

#[test]
fn test_group_add_refuses_when_full() {
    let mut group: Group<Named> = Group::new(2, Settings::default());
    group.add(named(1)).unwrap();
    group.add(named(2)).unwrap();
    match group.add(named(3)) {
        Err(Error::Net(m)) => assert_eq!(m, "group is full"),
        _ => panic!("expected a full pool"),
    }
    // With one connection lent out, one idle and one permit free, the pool
    // counts as full as well.
    let mut holder = group.get().unwrap();
    assert!(group.add(named(4)).is_err());
    holder.release(&mut group);

    let mut none: Group<Named> = Group::new(0, Settings::default());
    assert!(none.add(named(1)).is_err());
    assert!(none.get().is_err());
}

#[test]
fn test_group_drains_in_order_and_in_bounds() {
    let capacity = DRAIN_LIMIT + 2;
    let mut group: Group<Named> = Group::new(capacity, Settings::default());
    for id in 0..capacity {
        group.add(named(id as u32)).unwrap();
    }
    let mut holders = Vec::new();
    for _ in 0..capacity {
        holders.push(group.get().unwrap());
    }
    // Given back in the order 11, 10, .., 0.
    for holder in holders.iter_mut() {
        holder.release(&mut group);
    }
    assert_eq!(group.available(), capacity);
    // One drain takes ten of the twelve back: 11 down to 2; the last of them
    // is lent.
    assert_eq!(group.get().unwrap().socket().id, 2);
    // The next drain takes the other two: 1 and 0.
    assert_eq!(group.get().unwrap().socket().id, 0);
    assert_eq!(group.get().unwrap().socket().id, 1);
    assert_eq!(group.get().unwrap().socket().id, 3);
}

#[test]
fn test_group_stop_with_connections_out_and_failing() {
    let mut group: Group<Named> = Group::new(3, Settings::default());
    group.start().unwrap();
    group.add(Named { id: 1, stops: false }).unwrap();
    group.add(Named { id: 2, stops: true }).unwrap();
    group.add(Named { id: 3, stops: false }).unwrap();
    let mut out = group.get().unwrap();
    let mut back = group.get().unwrap();
    back.release(&mut group);

    assert!(group.stop().is_ok());
    assert!(matches!(group.state().unwrap(), Mode::Close));
    // Nothing is idle any more: the permits are there, the connections not.
    assert_eq!(group.available(), 2);
    match group.get() {
        Err(Error::Net(m)) => assert_eq!(m, "no available sockets"),
        _ => panic!("expected an empty pool"),
    }
    // What was out can still be given back, and stopping again is fine.
    assert!(out.is_valid());
    out.release(&mut group);
    assert!(group.stop().is_ok());
    assert!(matches!(group.state().unwrap(), Mode::Close));
}

#[test]
fn test_group_start_after_stop() {
    let mut group: Group<Named> = Group::new(1, Settings::default());
    group.stop().unwrap();
    group.start().unwrap();
    assert!(matches!(group.state().unwrap(), Mode::Ready));
}

#[test]
fn test_group_stop_all_counts_failures() {
    let mut group: Group<Named> = Group::new(4, Settings::default());
    group.add(Named { id: 1, stops: false }).unwrap();
    group.add(Named { id: 2, stops: true }).unwrap();
    group.add(Named { id: 3, stops: false }).unwrap();
    group.add(Named { id: 4, stops: true }).unwrap();
    // One of the failing ones waits to become idle again when the pool stops.
    let mut holder = group.get().unwrap();
    holder.release(&mut group);
    let mut other = group.get().unwrap();
    assert_eq!(other.socket().id, 4);
    other.release(&mut group);
    assert_eq!(group.stop_all(), 2);
    assert!(matches!(group.state().unwrap(), Mode::Close));
    assert_eq!(group.stop_all(), 0);

    let mut clean: Group<Socket<Plain>> = Group::new(2, Settings::default());
    clean.add(Socket::new(Settings::default())).unwrap();
    clean.add(Socket::new(Settings::default())).unwrap();
    assert_eq!(clean.stop_all(), 0);
}

#[test]
fn test_group_attempt_waits_then_gives_up() {
    assert_eq!(ACQUIRE_WAIT, 100);
    let mut group: Group<Named> = Group::new(1, Settings::default());
    group.add(named(1)).unwrap();
    let mut holder = match group.attempt(0) {
        Attempt::Lent(holder) => holder,
        _ => panic!("expected a connection"),
    };
    assert!(matches!(group.attempt(0), Attempt::Wait));
    assert!(matches!(group.attempt(99), Attempt::Wait));
    match group.attempt(100) {
        Attempt::Failed(Error::Net(m)) => assert_eq!(m, "permit acquisition timeout"),
        _ => panic!("expected the wait to be over"),
    }
    assert_eq!(group.available(), 0);
    // The permit comes back at once, the connection only with the next drain.
    holder.release(&mut group);
    match group.attempt(0) {
        Attempt::Failed(Error::Net(m)) => assert_eq!(m, "no available sockets"),
        _ => panic!("expected no idle connection"),
    }
    assert_eq!(group.available(), 1);
    assert_eq!(group.reclaim(), 1);
    assert_eq!(group.reclaim(), 0);
    assert!(matches!(group.attempt(0), Attempt::Lent(_)));
}

#[test]
fn test_group_take_restore_give_back() {
    let mut group: Group<Named> = Group::new(1, Settings::default());
    group.add(named(5)).unwrap();
    let mut holder = group.get().unwrap();
    let (socket, permit) = holder.take();
    assert!(!holder.is_valid());
    assert_eq!(socket.as_ref().map(|s| s.id), Some(5));
    assert!(permit.is_some());
    let (none, gone) = holder.take();
    assert!(none.is_none());
    assert!(gone.is_none());

    group.restore(permit.unwrap());
    assert_eq!(group.available(), 1);
    group.give_back(socket.unwrap());
    assert_eq!(group.get().unwrap().socket().id, 5);

    assert!(drains_on(0));
    assert!(drains_on(DRAIN_LIMIT - 1));
    assert!(!drains_on(DRAIN_LIMIT));
}

#[test]
fn test_group_close_keeps_connections_until_stopped() {
    let mut group: Group<Named> = Group::new(2, Settings::default());
    group.start().unwrap();
    group.add(named(1)).unwrap();
    group.close();
    assert!(matches!(group.state().unwrap(), Mode::Close));
    assert_eq!(group.available(), 2);
    assert_eq!(group.get().unwrap().socket().id, 1);
}
