use hyperion_kernel::ipc::caps::{CapTable, Capability, Handle, Rights, RIGHTS_ALL};
use hyperion_kernel::ipc::port::{
    create, get, get_mut, list, lookup, register, Message, Port, PortError, PortIdAllocator, Registry,
    PORT_CAPACITY,
};

#[test]
fn port_fifo_order() {
    let mut ids = PortIdAllocator::new();
    let mut p = Port::new("fifo", &mut ids);
    assert_eq!(p.try_send(Message::new(1)), Ok(()));
    assert_eq!(p.try_send(Message::new(2)), Ok(()));
    assert_eq!(p.try_send(Message::new(3)), Ok(()));
    assert_eq!(p.pending(), 3);
    assert_eq!(p.try_recv().unwrap().tag, 1);
    assert_eq!(p.try_recv().unwrap().tag, 2);
    assert_eq!(p.try_recv().unwrap().tag, 3);
    assert_eq!(p.try_recv().err(), Some(PortError::Empty));
}

#[test]
fn port_round_trip_leaves_port_empty() {
    let mut ids = PortIdAllocator::new();
    let mut p = Port::new("rt", &mut ids);
    let m = Message::with_payload(42, b"hello");
    assert_eq!(p.send(m), Ok(()));
    let got = p.try_recv().unwrap();
    assert_eq!(got.tag, 42);
    assert_eq!(got.payload_len, 5);
    assert_eq!(&got.payload[..5], b"hello");
    assert_eq!(p.pending(), 0);
}

#[test]
fn port_full_is_refused() {
    let mut ids = PortIdAllocator::new();
    let mut p = Port::new("full", &mut ids);
    for i in 0..PORT_CAPACITY {
        assert_eq!(p.try_send(Message::new(i as u64)), Ok(()));
    }
    assert_eq!(p.try_send(Message::new(99)), Err(PortError::Full));
    assert_eq!(p.pending(), PORT_CAPACITY);
    assert_eq!(p.try_recv().unwrap().tag, 0);
    assert_eq!(p.try_send(Message::new(99)), Ok(()));
}

#[test]
fn closed_port_drains_then_reports_closed() {
    let mut ids = PortIdAllocator::new();
    let mut p = Port::new("c", &mut ids);
    p.try_send(Message::new(7)).unwrap();
    p.close();
    assert_eq!(p.try_send(Message::new(8)), Err(PortError::Closed));
    assert_eq!(p.try_recv().unwrap().tag, 7);
    assert_eq!(p.try_recv().err(), Some(PortError::Closed));
    assert!(matches!(p.recv(), Some(Err(PortError::Closed))));
}

#[test]
fn recv_on_empty_open_port_asks_to_yield() {
    let mut ids = PortIdAllocator::new();
    let mut p = Port::new("y", &mut ids);
    assert!(p.recv().is_none());
    p.try_send(Message::new(5)).unwrap();
    assert!(matches!(p.recv(), Some(Ok(m)) if m.tag == 5));
}

#[test]
fn payload_is_truncated_to_64_bytes() {
    let bytes = [0xabu8; 100];
    let m = Message::with_payload(1, &bytes);
    assert_eq!(m.payload_len, 64);
    assert!(m.payload.iter().all(|b| *b == 0xab));
    let m2 = Message::with_payload(1, &[1, 2]);
    assert_eq!(m2.payload_len, 2);
    assert_eq!(m2.payload[2], 0);
    assert_eq!(m2.words, [0u64; 8]);
}

#[test]
fn port_ids_count_up_from_one() {
    let mut ids = PortIdAllocator::new();
    assert_eq!(ids.alloc_port_id(), 1);
    assert_eq!(ids.alloc_port_id(), 2);
    let mut wrap = PortIdAllocator { next: u64::MAX };
    assert_eq!(wrap.alloc_port_id(), u64::MAX);
    assert_eq!(wrap.next, 0);
}

#[test]
fn registry_create_is_idempotent() {
    let mut reg = Registry::new();
    let mut ids = PortIdAllocator::new();
    let a = create(&mut reg, "kernel", &mut ids);
    let b = create(&mut reg, "kernel", &mut ids);
    assert_eq!(a, b);
    assert_eq!(ids.next, 2);
    assert_eq!(list(&reg).len(), 1);
    let c = create(&mut reg, "other", &mut ids);
    assert_eq!(c, 2);
    let l = list(&reg);
    assert_eq!(l.len(), 2);
    assert_eq!(l[0].0, 1);
    assert_eq!(l[0].1, "kernel");
    assert_eq!(l[1].1, "other");
    let p = lookup(&reg, "other").unwrap();
    assert_eq!(p.pending(), 0);
    assert_eq!(get_mut(&mut reg, c).unwrap().try_send(Message::new(3)), Ok(()));
}

#[test]
fn registered_port_is_found_by_id_and_name() {
    let mut reg = Registry::new();
    let mut ids = PortIdAllocator::new();
    let p = Port::new("svc", &mut ids);
    let id = p.id;
    assert!(register(&mut reg, p));
    assert_eq!(get(&reg, id).unwrap().name, "svc");
    assert_eq!(lookup(&reg, "svc").unwrap().id, id);
    assert!(get(&reg, id + 1).is_none());
    assert!(lookup(&reg, "nope").is_none());
}

#[test]
fn register_refuses_duplicate_id_or_name() {
    let mut reg = Registry::new();
    let mut ids = PortIdAllocator::new();
    assert!(register(&mut reg, Port::new("a", &mut ids)));
    let mut again = PortIdAllocator::new();
    assert!(!register(&mut reg, Port::new("b", &mut again)));
    assert!(!register(&mut reg, Port::new("a", &mut ids)));
    assert_eq!(list(&reg).len(), 1);
}

#[test]
fn registry_keeps_ids_in_order() {
    let mut reg = Registry::new();
    let mut hi = PortIdAllocator { next: 10 };
    let mut lo = PortIdAllocator { next: 3 };
    assert!(register(&mut reg, Port::new("ten", &mut hi)));
    assert!(register(&mut reg, Port::new("three", &mut lo)));
    let l = list(&reg);
    assert_eq!(l[0].0, 3);
    assert_eq!(l[1].0, 10);
}

#[test]
fn messages_through_registry() {
    let mut reg = Registry::new();
    let mut ids = PortIdAllocator::new();
    let id = hyperion_kernel::ipc::init(&mut reg, &mut ids);
    get_mut(&mut reg, id).unwrap().try_send(Message::new(11)).unwrap();
    assert_eq!(list(&reg)[0].2, 1);
    assert_eq!(get_mut(&mut reg, id).unwrap().try_recv().unwrap().tag, 11);
    assert!(get_mut(&mut reg, 999).is_none());
}

#[test]
fn rights_masks() {
    assert_eq!(Rights::empty().bits(), 0);
    assert_eq!(Rights::all().bits(), RIGHTS_ALL);
    assert_eq!(Rights::from_bits_truncate(0xff).bits(), 0x3f);
    let rw = Rights::from_bits_truncate(Rights::READ).union(Rights::from_bits_truncate(Rights::WRITE));
    assert!(rw.contains(Rights::from_bits_truncate(Rights::READ)));
    assert!(!rw.contains(Rights::from_bits_truncate(Rights::SEND)));
    assert!(Rights::all().contains(rw));
}

#[test]
fn cap_table_insert_get_remove() {
    let mut t = CapTable::new();
    assert!(t.is_empty());
    let h1 = t.insert(Capability::Port(5), Rights::all());
    let h2 = t.insert(Capability::Port(6), Rights::empty());
    assert_eq!(h1, Handle(1));
    assert_eq!(h2, Handle(2));
    assert_ne!(h1, h2);
    assert_eq!(t.len(), 2);
    let (c, r) = t.get(h1).unwrap();
    assert_eq!(*c, Capability::Port(5));
    assert_eq!(r, Rights::all());
    assert_eq!(t.remove(h1), Some(Capability::Port(5)));
    assert!(t.get(h1).is_none());
    assert_eq!(t.remove(h1), None);
    assert_eq!(*t.get(h2).unwrap().0, Capability::Port(6));
    assert_eq!(t.len(), 1);
    let h3 = t.insert(Capability::Port(7), Rights::empty());
    assert_eq!(h3, Handle(3));
    assert!(t.get(h1).is_none());
}
