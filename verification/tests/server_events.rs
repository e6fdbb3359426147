use collabdraw::address::IpAddress;
use collabdraw::client::COLOR_COUNT;
use collabdraw::coord::PEN_UP_BITS;
use collabdraw::history::Line;
use collabdraw::server::{
    real_ip_header, resolve, AccessPolicy, CloseCode, Forwarded, MessageAction, OpenAction, Origin,
    Payload, Resolution, Server, ServerError, Update,
};

const A: IpAddress = IpAddress::V4(0x0102_0304);
const B: IpAddress = IpAddress::V4(0x0506_0708);
const C: IpAddress = IpAddress::V6(0x2001_0db8_0000_0000_0000_0000_0000_0001);

fn peer(ip: IpAddress) -> Origin {
    Origin { real_ip: None, forwarded: Forwarded::Absent, peer: Some(ip) }
}

fn text(s: &str) -> Payload {
    Payload::Text(s.to_string())
}

fn point(x: f64, y: f64) -> Payload {
    text(&format!("{{\"x\":{:?},\"y\":{:?}}}", x, y))
}

fn b(v: f64) -> u64 {
    v.to_bits()
}

#[test]
fn resolution_prefers_real_ip_then_forwarded_then_peer() {
    let all = Origin { real_ip: Some(A), forwarded: Forwarded::Address(B), peer: Some(C) };
    assert_eq!(resolve(AccessPolicy::AllowListed, &all), Resolution::Address(A));
    assert_eq!(resolve(AccessPolicy::DenyListed, &all), Resolution::Address(C));
    let fwd = Origin { real_ip: None, ..all };
    assert_eq!(resolve(AccessPolicy::AllowListed, &fwd), Resolution::Address(B));
    let bad = Origin { real_ip: None, forwarded: Forwarded::Unparsable, peer: Some(C) };
    assert_eq!(resolve(AccessPolicy::AllowListed, &bad), Resolution::Unparsable);
    let broken = Origin { real_ip: None, forwarded: Forwarded::Unreadable, peer: Some(C) };
    assert_eq!(resolve(AccessPolicy::AllowListed, &broken), Resolution::Failed);
    let none = Origin { real_ip: None, forwarded: Forwarded::Absent, peer: None };
    assert_eq!(resolve(AccessPolicy::AllowListed, &none), Resolution::NoAddress);
    assert_eq!(resolve(AccessPolicy::DenyListed, &none), Resolution::NoAddress);
}

#[test]
fn last_real_ip_header_wins() {
    let headers = vec![
        ("X-Real-Ip".to_string(), b"1.1.1.1".to_vec()),
        ("Host".to_string(), b"example".to_vec()),
        ("X-Real-Ip".to_string(), b"2.2.2.2".to_vec()),
        ("x-real-ip".to_string(), b"3.3.3.3".to_vec()),
    ];
    assert_eq!(real_ip_header(&headers), Some(b"2.2.2.2".to_vec()));
    assert_eq!(real_ip_header(&vec![("Host".to_string(), b"x".to_vec())]), None);
    assert_eq!(real_ip_header(&vec![]), None);
}

#[test]
fn allow_list_admits_listed_addresses_only() {
    let mut s = Server::new(AccessPolicy::AllowListed, vec![A], 4, vec![]);
    match s.on_open(1, &peer(B)) {
        Ok(OpenAction::Close(CloseCode::Policy)) => {}
        other => panic!("unexpected {:?}", other),
    }
    assert_eq!(s.clients_online(), 0);
    match s.on_open(1, &peer(A)) {
        Ok(OpenAction::Welcome(w)) => {
            assert!(w.color < COLOR_COUNT);
            assert_eq!(w.numonline, 1);
            assert_eq!(w.capacity, 4);
            assert!(w.history.is_empty());
        }
        other => panic!("unexpected {:?}", other),
    }
    let c = s.client(1).unwrap();
    assert_eq!(c.ip, A);
    assert_eq!((c.oldx, c.oldy), (PEN_UP_BITS, PEN_UP_BITS));
}

#[test]
fn deny_list_refuses_listed_addresses() {
    let mut s = Server::new(AccessPolicy::DenyListed, vec![A], 4, vec![]);
    match s.on_open(1, &peer(A)) {
        Ok(OpenAction::Close(CloseCode::Policy)) => {}
        other => panic!("unexpected {:?}", other),
    }
    match s.on_open(2, &peer(B)) {
        Ok(OpenAction::Welcome(w)) => assert_eq!(w.numonline, 1),
        other => panic!("unexpected {:?}", other),
    }
}

#[test]
fn open_without_address_or_with_bad_headers() {
    let mut s = Server::new(AccessPolicy::AllowListed, vec![A], 4, vec![]);
    let none = Origin { real_ip: None, forwarded: Forwarded::Absent, peer: None };
    assert!(matches!(s.on_open(1, &none), Ok(OpenAction::Close(CloseCode::Error))));
    let bad = Origin { real_ip: None, forwarded: Forwarded::Unparsable, peer: Some(A) };
    assert!(matches!(s.on_open(1, &bad), Ok(OpenAction::Ignore)));
    let broken = Origin { real_ip: None, forwarded: Forwarded::Unreadable, peer: Some(A) };
    assert!(matches!(s.on_open(1, &broken), Err(ServerError::Handshake)));
    assert_eq!(s.clients_online(), 0);
}

#[test]
fn open_with_color_is_exact() {
    let mut s = Server::new(AccessPolicy::AllowListed, vec![A], 2, vec![]);
    match s.open_with_color(9, &peer(A), 17) {
        Ok(OpenAction::Welcome(w)) => {
            assert_eq!((w.color, w.numonline, w.capacity), (17, 1, 2));
        }
        other => panic!("unexpected {:?}", other),
    }
    assert_eq!(s.client(9).unwrap().color, 17);
}

#[test]
fn strokes_are_broadcast_and_recorded() {
    let mut s = Server::new(AccessPolicy::DenyListed, vec![], 2, vec![]);
    s.open_with_color(1, &peer(A), 5).unwrap();
    s.open_with_color(2, &peer(B), 6).unwrap();
    // first point: broadcast, nothing drawn
    let a = s.on_message(1, &point(10.0, 20.0)).unwrap();
    assert_eq!(
        a,
        MessageAction::Broadcast(
            Update { x: b(10.0), y: b(20.0), oldx: b(-1.0), oldy: b(-1.0), color: 5, numonline: 2 },
            None
        )
    );
    // second point: a line from the first
    let a = s.on_message(1, &point(11.5, 21.0)).unwrap();
    let line = Line(b(11.5), b(21.0), b(10.0), b(20.0), 5);
    assert_eq!(
        a,
        MessageAction::Broadcast(
            Update { x: b(11.5), y: b(21.0), oldx: b(10.0), oldy: b(20.0), color: 5, numonline: 2 },
            Some(line)
        )
    );
    assert!(s.history_lines().is_empty());
    s.finish_broadcast(true);
    assert_eq!(s.history_lines(), vec![line]);
    // nothing is pending any more
    s.finish_broadcast(true);
    assert_eq!(s.history_lines(), vec![line]);
    // an undelivered stroke is dropped
    s.on_message(1, &point(12.0, 22.0)).unwrap();
    s.finish_broadcast(false);
    s.finish_broadcast(true);
    assert_eq!(s.history_lines(), vec![line]);
}

#[test]
fn finish_without_stroke_records_nothing() {
    let mut s = Server::new(AccessPolicy::DenyListed, vec![], 2, vec![]);
    s.open_with_color(1, &peer(A), 5).unwrap();
    s.finish_broadcast(true);
    assert!(s.history_lines().is_empty());
    // first point: broadcast but nothing to record
    s.on_message(1, &point(1.0, 2.0)).unwrap();
    s.finish_broadcast(true);
    assert!(s.history_lines().is_empty());
    match s.on_message(1, &text("{\"y\":4,\"x\":3}")).unwrap() {
        MessageAction::Broadcast(u, Some(l)) => {
            assert_eq!((u.x, u.y), (b(3.0), b(4.0)));
            assert_eq!(l, Line(b(3.0), b(4.0), b(1.0), b(2.0), 5));
        }
        other => panic!("unexpected {:?}", other),
    }
    s.finish_broadcast(true);
    assert_eq!(s.history_lines(), vec![Line(b(3.0), b(4.0), b(1.0), b(2.0), 5)]);
}

#[test]
fn off_canvas_point_lifts_pen() {
    let mut s = Server::new(AccessPolicy::DenyListed, vec![], 2, vec![]);
    s.open_with_color(1, &peer(A), 5).unwrap();
    s.on_message(1, &point(1.0, 1.0)).unwrap();
    assert_eq!(s.on_message(1, &point(-3.0, 1.0)).unwrap(), MessageAction::Ignore);
    assert_eq!(s.client(1).unwrap().oldx, b(-3.0));
    match s.on_message(1, &point(2.0, 2.0)).unwrap() {
        MessageAction::Broadcast(u, None) => assert_eq!((u.oldx, u.oldy), (b(-3.0), b(1.0))),
        other => panic!("unexpected {:?}", other),
    }
    // -0.0 is not below zero
    match s.on_message(1, &point(-0.0, 0.0)).unwrap() {
        MessageAction::Broadcast(_, Some(l)) => assert_eq!(l, Line(b(-0.0), b(0.0), b(2.0), b(2.0), 5)),
        other => panic!("unexpected {:?}", other),
    }
}

#[test]
fn malformed_messages() {
    let mut s = Server::new(AccessPolicy::DenyListed, vec![], 2, vec![]);
    s.open_with_color(1, &peer(A), 5).unwrap();
    assert_eq!(s.on_message(1, &text("not json")), Err(ServerError::Json));
    assert_eq!(s.on_message(1, &Payload::Binary(vec![0xff, 0xfe])), Err(ServerError::Unreadable));
    assert_eq!(s.on_message(1, &text("{\"x\":1}")), Ok(MessageAction::Ignore));
    assert_eq!(s.on_message(1, &text("{\"x\":\"1\",\"y\":2}")), Ok(MessageAction::Ignore));
    assert_eq!(s.on_message(1, &text("[1,2]")), Ok(MessageAction::Ignore));
    assert_eq!(s.on_message(1, &text("{\"x\":1e400,\"y\":2}")), Err(ServerError::Json));
    assert_eq!(s.on_message(1, &text("{\"y\":2,\"x\":null}")), Ok(MessageAction::Ignore));
    assert_eq!(s.client(1).unwrap().oldx, PEN_UP_BITS);
    // a binary message that is UTF-8 JSON counts as text
    match s.on_message(1, &Payload::Binary(b"{\"x\":3,\"y\":4}".to_vec())) {
        Ok(MessageAction::Broadcast(u, None)) => assert_eq!((u.x, u.y), (b(3.0), b(4.0))),
        other => panic!("unexpected {:?}", other),
    }
}

#[test]
fn unknown_and_readonly_connections() {
    let mut s = Server::new(AccessPolicy::DenyListed, vec![], 2, vec![B]);
    assert_eq!(s.on_message(3, &point(1.0, 1.0)), Ok(MessageAction::Close(CloseCode::Abnormal)));
    s.open_with_color(2, &peer(B), 5).unwrap();
    assert_eq!(s.on_message(2, &text("garbage")), Ok(MessageAction::Ignore));
    assert_eq!(s.on_message(2, &point(1.0, 1.0)), Ok(MessageAction::Ignore));
    assert_eq!(s.client(2).unwrap().oldx, PEN_UP_BITS);
}

#[test]
fn closed_connection_is_refused() {
    let mut s = Server::new(AccessPolicy::DenyListed, vec![], 2, vec![]);
    s.open_with_color(1, &peer(A), 5).unwrap();
    let gone = s.on_close(1).unwrap();
    assert_eq!(gone.ip, A);
    assert_eq!(s.on_close(1), None);
    assert_eq!(s.on_message(1, &point(1.0, 1.0)), Ok(MessageAction::Close(CloseCode::Abnormal)));
}

#[test]
fn reload_evicts_denied_clients() {
    let mut s = Server::new(AccessPolicy::DenyListed, vec![], 2, vec![]);
    s.open_with_color(1, &peer(A), 5).unwrap();
    s.open_with_color(2, &peer(B), 6).unwrap();
    s.open_with_color(3, &peer(A), 7).unwrap();
    s.reload(vec![A], vec![B]);
    assert_eq!(s.clients_online(), 1);
    assert!(s.client(1).is_none() && s.client(3).is_none());
    assert_eq!(s.on_message(2, &point(1.0, 1.0)), Ok(MessageAction::Ignore));
    assert!(matches!(s.on_open(4, &peer(A)), Ok(OpenAction::Close(CloseCode::Policy))));
}

#[test]
fn reload_under_allow_list_keeps_clients() {
    let mut s = Server::new(AccessPolicy::AllowListed, vec![A], 2, vec![]);
    s.open_with_color(1, &peer(A), 5).unwrap();
    s.reload(vec![B], vec![]);
    assert_eq!(s.clients_online(), 1);
    assert!(matches!(s.on_open(2, &peer(A)), Ok(OpenAction::Close(CloseCode::Policy))));
    assert!(matches!(s.on_open(2, &peer(B)), Ok(OpenAction::Welcome(_))));
}

#[test]
fn welcome_carries_history() {
    let mut s = Server::new(AccessPolicy::DenyListed, vec![], 2, vec![]);
    s.open_with_color(1, &peer(A), 5).unwrap();
    for i in 0..4 {
        if let Ok(MessageAction::Broadcast(_, _)) = s.on_message(1, &point(i as f64, 0.0)) {
            s.finish_broadcast(true);
        }
    }
    assert_eq!(
        s.history_lines(),
        vec![Line(b(2.0), b(0.0), b(1.0), b(0.0), 5), Line(b(3.0), b(0.0), b(2.0), b(0.0), 5)]
    );
    match s.open_with_color(2, &peer(B), 6) {
        Ok(OpenAction::Welcome(w)) => {
            assert_eq!(w.numonline, 2);
            assert_eq!(w.history, s.history_lines());
        }
        other => panic!("unexpected {:?}", other),
    }
    assert_eq!(s.capacity(), 2);
}
