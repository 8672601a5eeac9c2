use custom_protocol_demo::{ConnectionRegistry, Request, Response, Session, SessionState};

#[test]
fn test_registry_ops() {
    let mut reg = ConnectionRegistry::new();
    assert!(!reg.contains(42));
    assert!(reg.try_register(42));
    assert!(reg.contains(42));
    assert!(!reg.try_register(42));
    reg.unregister(42);
    assert!(!reg.contains(42));
    assert!(reg.try_register(42));
}

#[test]
fn test_join_then_message() {
    let mut reg = ConnectionRegistry::new();
    let mut a = Session::new(1001);

    let resp = a.step(&mut reg, &Request::Join(55), 0);
    assert!(matches!(resp, Response::Joined(55)));
    assert_eq!(a.state, SessionState::Joined);

    let resp = a.step(
        &mut reg,
        &Request::Message {
            room_id: 55,
            message: "hi".to_string(),
        },
        777,
    );
    assert!(matches!(resp, Response::MsgSent(777)));
    assert_eq!(a.state, SessionState::Joined);

    // A message from an identity that never joined is answered with Error.
    let mut b = Session::new(2002);
    let resp = b.step(
        &mut reg,
        &Request::Message {
            room_id: 55,
            message: "hi".to_string(),
        },
        778,
    );
    assert!(matches!(resp, Response::Error));
    assert_eq!(b.state, SessionState::Unjoined);
}

#[test]
fn test_duplicate_join() {
    let mut reg = ConnectionRegistry::new();
    let mut a = Session::new(7);

    let resp = a.step(&mut reg, &Request::Join(9), 0);
    assert!(matches!(resp, Response::Joined(9)));

    // A re-join from the joined session is rejected.
    let resp = a.step(&mut reg, &Request::Join(9), 0);
    assert!(matches!(resp, Response::JoinReject));
    assert_eq!(a.state, SessionState::Joined);

    // A second connection under the same still-registered identity too.
    let mut a2 = Session::new(7);
    let resp = a2.step(&mut reg, &Request::Join(9), 0);
    assert!(matches!(resp, Response::JoinReject));
    assert_eq!(a2.state, SessionState::Unjoined);
}

#[test]
fn test_same_identity_one_winner() {
    // Two connections race for one identity; the registry's atomic
    // check-then-insert admits exactly one. Distinct identities are all
    // admitted.
    let mut reg = ConnectionRegistry::new();
    let mut first = Session::new(5);
    let mut second = Session::new(5);

    let r1 = first.step(&mut reg, &Request::Join(1), 0);
    let r2 = second.step(&mut reg, &Request::Join(1), 0);
    assert!(matches!(r1, Response::Joined(1)));
    assert!(matches!(r2, Response::JoinReject));

    let mut c1 = Session::new(100);
    let mut c2 = Session::new(200);
    let mut c3 = Session::new(300);
    assert!(matches!(c1.step(&mut reg, &Request::Join(1), 0), Response::Joined(1)));
    assert!(matches!(c2.step(&mut reg, &Request::Join(1), 0), Response::Joined(1)));
    assert!(matches!(c3.step(&mut reg, &Request::Join(1), 0), Response::Joined(1)));
}

#[test]
fn test_close_unregisters() {
    let mut reg = ConnectionRegistry::new();
    let mut a = Session::new(11);
    assert!(matches!(a.step(&mut reg, &Request::Join(2), 0), Response::Joined(2)));
    assert!(reg.contains(11));

    a.close(&mut reg);
    assert_eq!(a.state, SessionState::Closed);
    assert!(!reg.contains(11));

    // The slot can be reused by a later connection from the same identity.
    let mut again = Session::new(11);
    assert!(matches!(again.step(&mut reg, &Request::Join(2), 0), Response::Joined(2)));
}

#[test]
fn test_handle_generates_message_id() {
    let mut reg = ConnectionRegistry::new();
    let mut a = Session::new(31);
    assert!(matches!(a.handle(&mut reg, &Request::Join(8)), Response::Joined(8)));

    let resp = a.handle(
        &mut reg,
        &Request::Message {
            room_id: 8,
            message: "hello".to_string(),
        },
    );
    assert!(matches!(resp, Response::MsgSent(_)));
    assert!(resp.get_inner().is_some());
}
