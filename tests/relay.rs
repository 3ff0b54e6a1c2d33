use socks5udp::{
    forward_all, on_upstream, parse_port, random_upstream_port, upstream_port, ClientKey, Config,
    ConfigError, Dispatched, Inbound, ReceiveAction, Recovery, Registry, Route, SendAction,
    SendSide, Upstream, DATAGRAM_BUFFER_LEN, FIRST_UPSTREAM_PORT, IDLE_TICK_LIMIT,
};
use std::cell::{Cell, RefCell};
use std::sync::mpsc::{channel, Receiver, Sender};

fn deliver(h: &Sender<Vec<u8>>, p: Vec<u8>) -> Option<Vec<u8>> {
    match h.send(p) {
        Ok(()) => None,
        Err(e) => Some(e.0),
    }
}

fn client(last: u8, port: u16) -> ClientKey {
    ClientKey::v4(0x7f00_0000 | last as u32, port)
}

#[test]
fn upstream_port_starts_at_first_port() {
    assert_eq!(upstream_port(0), 1024);
    assert_eq!(upstream_port(7), 1031);
    assert_eq!(upstream_port(64511), 65535);
    assert_eq!(upstream_port(64512), 1024);
    assert_eq!(upstream_port(65535), 2047);
}

#[test]
fn random_upstream_port_in_range() {
    for _ in 0..100 {
        assert!(random_upstream_port() >= FIRST_UPSTREAM_PORT);
    }
}

#[test]
fn send_side_forwards_payload_unchanged() {
    let mut s = SendSide::new();
    assert_eq!(s.step(Inbound::Packet(b"ping".to_vec())), SendAction::Forward(b"ping".to_vec()));
    assert_eq!(s.idle_ticks(), 0);
}

#[test]
fn send_side_expires_after_ten_idle_ticks() {
    let mut s = SendSide::new();
    for n in 1..IDLE_TICK_LIMIT {
        assert_eq!(s.step(Inbound::Idle), SendAction::Wait);
        assert_eq!(s.idle_ticks(), n);
    }
    assert_eq!(s.step(Inbound::Idle), SendAction::Expire);
    assert_eq!(s.idle_ticks(), 10);
}

#[test]
fn send_side_packet_resets_idle_count() {
    let mut s = SendSide::new();
    for _ in 0..9 {
        assert_eq!(s.step(Inbound::Idle), SendAction::Wait);
    }
    assert_eq!(s.step(Inbound::Packet(vec![1, 2, 3])), SendAction::Forward(vec![1, 2, 3]));
    for _ in 0..9 {
        assert_eq!(s.step(Inbound::Idle), SendAction::Wait);
    }
    assert_eq!(s.step(Inbound::Packet(vec![4])), SendAction::Forward(vec![4]));
    assert_eq!(s.idle_ticks(), 0);
}

#[test]
fn short_gaps_forward_everything_in_order() {
    let mut s = SendSide::new();
    let mut sent = Vec::new();
    let mut forwarded = Vec::new();
    for k in 0..50u8 {
        for _ in 0..(k % 10) {
            assert_eq!(s.step(Inbound::Idle), SendAction::Wait);
        }
        sent.push(vec![k, k]);
        match s.step(Inbound::Packet(vec![k, k])) {
            SendAction::Forward(p) => forwarded.push(p),
            other => panic!("unexpected {:?}", other),
        }
    }
    assert_eq!(sent, forwarded);
}

#[test]
fn receive_side_relays_to_origin_byte_for_byte() {
    let a = client(1, 40000);
    let mut buf = vec![0u8; DATAGRAM_BUFFER_LEN];
    buf[..4].copy_from_slice(b"pong");
    assert_eq!(
        on_upstream(a, &buf, Upstream::Datagram(4), false),
        ReceiveAction::Relay(a, b"pong".to_vec())
    );
    assert_eq!(
        on_upstream(a, &buf, Upstream::Datagram(4), true),
        ReceiveAction::Relay(a, b"pong".to_vec())
    );
}

#[test]
fn receive_side_full_buffer_not_truncated() {
    let a = client(1, 40000);
    let buf: Vec<u8> = (0..DATAGRAM_BUFFER_LEN).map(|i| (i % 251) as u8).collect();
    match on_upstream(a, &buf, Upstream::Datagram(DATAGRAM_BUFFER_LEN), false) {
        ReceiveAction::Relay(k, p) => {
            assert_eq!(k, a);
            assert_eq!(p.len(), 65536);
            assert_eq!(p, buf);
        }
        other => panic!("unexpected {:?}", other),
    }
}

#[test]
fn receive_side_timeout_checks_flag() {
    let a = client(1, 40000);
    let buf = vec![0u8; 16];
    assert_eq!(on_upstream(a, &buf, Upstream::ReadTimeout, false), ReceiveAction::KeepReading);
    assert_eq!(on_upstream(a, &buf, Upstream::ReadTimeout, true), ReceiveAction::Stop);
}

#[test]
fn registry_routes_and_enrolls() {
    let mut reg: Registry<u32> = Registry::new();
    let a = client(1, 40000);
    assert_eq!(reg.route(&a), Route::Create);
    assert_eq!(reg.enroll(a, 7), 0);
    assert_eq!(reg.route(&a), Route::Existing);
    assert_eq!(reg.handle(&a), Some(&7));
    assert_eq!(reg.serial(&a), Some(0));
    assert_eq!(reg.len(), 1);
    assert_eq!(reg.next_id(), 1);
}

#[test]
fn delivery_failure_on_fresh_session_aborts() {
    let mut reg: Registry<u32> = Registry::new();
    let a = client(1, 40000);
    reg.enroll(a, 7);
    assert_eq!(reg.delivery_failed(&a, true), Recovery::Abort);
    assert_eq!(reg.route(&a), Route::Existing);
    assert_eq!(reg.delivery_failed(&a, false), Recovery::Retry);
    assert_eq!(reg.route(&a), Route::Create);
    assert_eq!(reg.len(), 0);
}

// Two clients talking at once: each gets its own session and queue, and
// payloads are neither merged nor cut.
#[test]
fn two_clients_ping_and_hello() {
    let mut reg: Registry<Sender<Vec<u8>>> = Registry::new();
    let a = client(1, 40001);
    let b = client(1, 40002);
    let queues: RefCell<Vec<Receiver<Vec<u8>>>> = RefCell::new(Vec::new());
    let make = |_k: ClientKey| {
        let (tx, rx) = channel();
        queues.borrow_mut().push(rx);
        tx
    };
    let ra = reg.on_packet(a, b"ping".to_vec(), &make, deliver);
    let rb = reg.on_packet(b, b"hello".to_vec(), &make, deliver);
    let queues = queues.into_inner();
    assert_eq!(ra, Dispatched::Delivered { serial: 0, created: true });
    assert_eq!(rb, Dispatched::Delivered { serial: 1, created: true });
    assert_eq!(queues.len(), 2);

    let mut side_a = SendSide::new();
    let mut side_b = SendSide::new();
    let pa = queues[0].try_recv().unwrap();
    let pb = queues[1].try_recv().unwrap();
    assert_eq!(side_a.step(Inbound::Packet(pa)), SendAction::Forward(b"ping".to_vec()));
    assert_eq!(side_b.step(Inbound::Packet(pb)), SendAction::Forward(b"hello".to_vec()));

    let mut buf = vec![0u8; DATAGRAM_BUFFER_LEN];
    buf[..4].copy_from_slice(b"pong");
    assert_eq!(
        on_upstream(a, &buf, Upstream::Datagram(4), false),
        ReceiveAction::Relay(a, b"pong".to_vec())
    );
}

#[test]
fn packets_of_live_session_share_it() {
    let mut reg: Registry<Sender<Vec<u8>>> = Registry::new();
    let a = client(2, 5000);
    let (tx, rx) = channel();
    let spare = RefCell::new(Some(tx));
    let made = Cell::new(0);
    let make = |_k: ClientKey| {
        made.set(made.get() + 1);
        spare.borrow_mut().take().unwrap()
    };
    for i in 0..5u8 {
        let r = reg.on_packet(a, vec![i], &make, deliver);
        assert_eq!(r, Dispatched::Delivered { serial: 0, created: i == 0 });
    }
    assert_eq!(made.get(), 1);
    let got: Vec<Vec<u8>> = rx.try_iter().collect();
    assert_eq!(got, vec![vec![0], vec![1], vec![2], vec![3], vec![4]]);
}

// A client silent past expiry gets a new session on its next packet.
#[test]
fn silent_client_gets_new_session() {
    let mut reg: Registry<Sender<Vec<u8>>> = Registry::new();
    let a = client(3, 6000);
    let queues: RefCell<Vec<Option<Receiver<Vec<u8>>>>> = RefCell::new(Vec::new());
    let make = |_k: ClientKey| {
        let (tx, rx) = channel();
        queues.borrow_mut().push(Some(rx));
        tx
    };
    let first = reg.on_packet(a, b"one".to_vec(), &make, deliver);
    assert_eq!(first, Dispatched::Delivered { serial: 0, created: true });

    // 400 ms of silence: thirteen idle waits of 30 ms expire the send side,
    // which drops its end of the queue.
    let mut side = SendSide::new();
    let mut action = SendAction::Wait;
    for _ in 0..13 {
        action = side.step(Inbound::Idle);
        if action == SendAction::Expire {
            break;
        }
    }
    assert_eq!(action, SendAction::Expire);
    queues.borrow_mut()[0] = None;

    let second = reg.on_packet(a, b"two".to_vec(), &make, deliver);
    assert_eq!(second, Dispatched::Delivered { serial: 1, created: true });
    let queues = queues.into_inner();
    assert_eq!(queues.len(), 2);
    assert_eq!(queues[1].as_ref().unwrap().try_recv().unwrap(), b"two".to_vec());
    assert_eq!(reg.len(), 1);
}

#[test]
fn repeated_expiry_creates_one_session_per_packet() {
    let mut reg: Registry<Sender<Vec<u8>>> = Registry::new();
    let a = client(4, 7000);
    let made = Cell::new(0u64);
    let live: RefCell<Vec<Receiver<Vec<u8>>>> = RefCell::new(Vec::new());
    let make = |_k: ClientKey| {
        made.set(made.get() + 1);
        let (tx, rx) = channel();
        live.borrow_mut().push(rx);
        tx
    };
    for i in 0..5u64 {
        let r = reg.on_packet(a, vec![i as u8], &make, deliver);
        assert_eq!(r, Dispatched::Delivered { serial: i, created: true });
        assert_eq!(made.get(), i + 1);
        assert_eq!(reg.serial(&a), Some(i));
        assert_eq!(reg.len(), 1);
        assert_eq!(live.borrow_mut().pop().unwrap().try_recv().unwrap(), vec![i as u8]);
        // the session expires: its queue's receiving end is gone
    }
}

#[test]
fn fresh_session_refusing_packet_is_fault() {
    let mut reg: Registry<Sender<Vec<u8>>> = Registry::new();
    let a = client(5, 7001);
    let make = |_k: ClientKey| {
        let (tx, _rx) = channel();
        tx
    };
    assert_eq!(reg.on_packet(a, vec![1], &make, deliver), Dispatched::Fault);
    assert_eq!(reg.serial(&a), Some(0));
    assert_eq!(reg.on_packet(a, vec![2], &make, deliver), Dispatched::Fault);
    assert_eq!(reg.serial(&a), Some(1));
    assert_eq!(reg.len(), 1);
}

#[test]
fn parse_port_values() {
    assert_eq!(parse_port("9000"), Some(9000));
    assert_eq!(parse_port("+80"), Some(80));
    assert_eq!(parse_port("0080"), Some(80));
    assert_eq!(parse_port("65535"), Some(65535));
    assert_eq!(parse_port("0"), Some(0));
    assert_eq!(parse_port("65536"), None);
    assert_eq!(parse_port("999999999999"), None);
    assert_eq!(parse_port(""), None);
    assert_eq!(parse_port("+"), None);
    assert_eq!(parse_port("-1"), None);
    assert_eq!(parse_port("12a"), None);
}

#[test]
fn config_defaults_bind_address() {
    let c = Config::from_options(None, "9000", "127.0.0.1".to_string(), "9001", false).unwrap();
    assert_eq!(c.bind_addr, "127.0.0.1");
    assert_eq!(c.local_port, 9000);
    assert_eq!(c.remote_host, "127.0.0.1");
    assert_eq!(c.remote_port, 9001);
    assert!(!c.debug);
    let c = Config::from_options(Some("0.0.0.0".to_string()), "1", "h".to_string(), "2", true)
        .unwrap();
    assert_eq!(c.bind_addr, "0.0.0.0");
    assert!(c.debug);
}

#[test]
fn config_rejects_bad_ports() {
    assert_eq!(
        Config::from_options(None, "x", "h".to_string(), "y", false).err(),
        Some(ConfigError::BadLocalPort)
    );
    assert_eq!(
        Config::from_options(None, "1", "h".to_string(), "70000", false).err(),
        Some(ConfigError::BadRemotePort)
    );
}

#[test]
fn forward_all_keeps_order_with_short_gaps() {
    let mut events = Vec::new();
    let mut expected = Vec::new();
    for k in 0..30u8 {
        for _ in 0..(k % 10) {
            events.push(Inbound::Idle);
        }
        events.push(Inbound::Packet(vec![k, k + 1]));
        expected.push(vec![k, k + 1]);
    }
    let (sent, expired) = forward_all(events);
    assert_eq!(sent, expected);
    assert!(!expired);
}

#[test]
fn forward_all_stops_at_expiry() {
    let mut events = vec![Inbound::Packet(b"a".to_vec())];
    for _ in 0..10 {
        events.push(Inbound::Idle);
    }
    events.push(Inbound::Packet(b"late".to_vec()));
    let (sent, expired) = forward_all(events);
    assert_eq!(sent, vec![b"a".to_vec()]);
    assert!(expired);
}

#[test]
fn forward_all_empty() {
    let (sent, expired) = forward_all(Vec::new());
    assert!(sent.is_empty());
    assert!(!expired);
}
