use custom_protocol_demo::{DecodeError, Deserialize, EncodeError, Request, Response, Serialize};

#[test]
fn test_request_join() {
    let req = Request::Join(7);
    let mut bytes: Vec<u8> = vec![];
    req.serialize(&mut bytes).unwrap();

    let (join_req, end) = Request::deserialize(&bytes, 0).unwrap();

    assert!(matches!(join_req, Request::Join(7)));
    assert_eq!(end, bytes.len());
}

#[test]
fn test_request_message() {
    let req = Request::Message {
        room_id: 3,
        message: "Hola Mundo".to_string(),
    };
    let mut bytes: Vec<u8> = vec![];
    req.serialize(&mut bytes).unwrap();

    let (message_req, _) = Request::deserialize(&bytes, 0).unwrap();

    assert!(matches!(message_req, Request::Message { .. }));
    assert_eq!("Hola Mundo", message_req.get_message().unwrap());
}

#[test]
fn test_response_connected() {
    let res = Response::Joined(10);
    let mut bytes: Vec<u8> = vec![];

    res.serialize(&mut bytes).unwrap();

    let (joined_res, _) = Response::deserialize(&bytes, 0).unwrap();

    assert!(matches!(joined_res, Response::Joined(_)));
    assert_eq!(joined_res.get_inner().unwrap(), 10);
}

#[test]
fn test_response_error() {
    let res_err = Response::Error;
    let mut buff_err: Vec<u8> = vec![];

    res_err.serialize(&mut buff_err).unwrap();

    let (err_res, _) = Response::deserialize(&buff_err, 0).unwrap();

    assert!(matches!(err_res, Response::Error));
}

#[test]
fn test_request_join_exact_bytes() {
    let mut bytes: Vec<u8> = vec![];
    Request::Join(1).serialize(&mut bytes).unwrap();
    let expected: Vec<u8> = vec![
        0, 128, 0, 0, 0, 0, 0, 0, 0, 0, 0, 0, 0, 0, 0, 0, 0, 1,
    ];
    assert_eq!(bytes, expected);
}

#[test]
fn test_request_message_exact_bytes() {
    let mut bytes: Vec<u8> = vec![];
    Request::Message {
        room_id: 2,
        message: "hi".to_string(),
    }
    .serialize(&mut bytes)
    .unwrap();
    let expected: Vec<u8> = vec![
        1, 128, 0, 0, 0, 0, 0, 0, 0, 0, 0, 0, 0, 0, 0, 0, 0, 2, 0, 2, b'h', b'i',
    ];
    assert_eq!(bytes, expected);
}

#[test]
fn test_response_exact_bytes() {
    let mut bytes: Vec<u8> = vec![];
    Response::Joined(10).serialize(&mut bytes).unwrap();
    let expected: Vec<u8> = vec![
        2, 0, 128, 0, 0, 0, 0, 0, 0, 0, 0, 0, 0, 0, 0, 0, 0, 0, 10,
    ];
    assert_eq!(bytes, expected);

    let mut reject: Vec<u8> = vec![];
    Response::JoinReject.serialize(&mut reject).unwrap();
    assert_eq!(reject, vec![1]);

    let mut err: Vec<u8> = vec![];
    Response::Error.serialize(&mut err).unwrap();
    assert_eq!(err, vec![0]);
}

#[test]
fn test_response_msg_sent_round_trip() {
    let mut bytes: Vec<u8> = vec![];
    Response::MsgSent(77).serialize(&mut bytes).unwrap();
    let (res, end) = Response::deserialize(&bytes, 0).unwrap();
    assert!(matches!(res, Response::MsgSent(77)));
    assert_eq!(end, bytes.len());

    let mut reject: Vec<u8> = vec![];
    Response::JoinReject.serialize(&mut reject).unwrap();
    let (res, end) = Response::deserialize(&reject, 0).unwrap();
    assert!(matches!(res, Response::JoinReject));
    assert_eq!(end, 1);
}

#[test]
fn test_message_boundary_empty() {
    let req = Request::Message {
        room_id: 9,
        message: String::new(),
    };
    let mut bytes: Vec<u8> = vec![];
    req.serialize(&mut bytes).unwrap();
    assert_eq!(bytes.len(), 20);

    let (decoded, end) = Request::deserialize(&bytes, 0).unwrap();
    assert_eq!(end, 20);
    match decoded {
        Request::Message { room_id, message } => {
            assert_eq!(room_id, 9);
            assert_eq!(message, "");
        }
        _ => panic!("expected a message request"),
    }
}

#[test]
fn test_message_boundary_max() {
    let text: String = "a".repeat(65535);
    let req = Request::Message {
        room_id: 1,
        message: text.clone(),
    };
    let mut bytes: Vec<u8> = vec![];
    req.serialize(&mut bytes).unwrap();
    assert_eq!(bytes.len(), 20 + 65535);

    let (decoded, end) = Request::deserialize(&bytes, 0).unwrap();
    assert_eq!(end, bytes.len());
    match decoded {
        Request::Message { message, .. } => assert_eq!(message, text),
        _ => panic!("expected a message request"),
    }
}

#[test]
fn test_message_too_long() {
    let req = Request::Message {
        room_id: 1,
        message: "a".repeat(65536),
    };
    let mut bytes: Vec<u8> = vec![];
    let r = req.serialize(&mut bytes);
    assert!(matches!(r, Err(EncodeError::TextTooLong)));
    assert!(bytes.is_empty());
}

#[test]
fn test_decode_empty() {
    let bytes: Vec<u8> = vec![];
    assert!(matches!(
        Request::deserialize(&bytes, 0),
        Err(DecodeError::UnexpectedEof)
    ));
    assert!(matches!(
        Response::deserialize(&bytes, 0),
        Err(DecodeError::UnexpectedEof)
    ));
}

#[test]
fn test_decode_truncated() {
    let req = Request::Message {
        room_id: 5,
        message: "hello".to_string(),
    };
    let mut bytes: Vec<u8> = vec![];
    req.serialize(&mut bytes).unwrap();
    for k in 0..bytes.len() {
        let cut: Vec<u8> = bytes[..k].to_vec();
        assert!(matches!(
            Request::deserialize(&cut, 0),
            Err(DecodeError::UnexpectedEof)
        ));
    }

    let mut resp_bytes: Vec<u8> = vec![];
    Response::Joined(5).serialize(&mut resp_bytes).unwrap();
    for k in 0..resp_bytes.len() {
        let cut: Vec<u8> = resp_bytes[..k].to_vec();
        assert!(matches!(
            Response::deserialize(&cut, 0),
            Err(DecodeError::UnexpectedEof)
        ));
    }
}

#[test]
fn test_decode_invalid_tag() {
    let bytes: Vec<u8> = vec![200, 1, 2, 3];
    assert!(matches!(
        Request::deserialize(&bytes, 0),
        Err(DecodeError::InvalidTag)
    ));
    assert!(matches!(
        Response::deserialize(&bytes, 0),
        Err(DecodeError::InvalidTag)
    ));
}

#[test]
fn test_decode_invalid_utf8() {
    // A message frame whose two payload bytes are not valid UTF-8.
    let mut bytes: Vec<u8> = vec![1, 128];
    bytes.extend_from_slice(&[0u8; 16]);
    bytes.extend_from_slice(&[0, 2, 0xff, 0xfe]);
    assert!(matches!(
        Request::deserialize(&bytes, 0),
        Err(DecodeError::InvalidEncoding)
    ));
}

#[test]
fn test_decode_two_frames_in_sequence() {
    // Two frames back to back: each decode consumes exactly one and leaves
    // the position on the next.
    let mut bytes: Vec<u8> = vec![];
    Request::Join(4).serialize(&mut bytes).unwrap();
    let first_len = bytes.len();
    Request::Message {
        room_id: 4,
        message: "hey".to_string(),
    }
    .serialize(&mut bytes)
    .unwrap();

    let (first, mid) = Request::deserialize(&bytes, 0).unwrap();
    assert!(matches!(first, Request::Join(4)));
    assert_eq!(mid, first_len);

    let (second, end) = Request::deserialize(&bytes, mid).unwrap();
    assert_eq!(second.get_message().unwrap(), "hey");
    assert_eq!(end, bytes.len());
}

#[test]
fn test_tags() {
    assert_eq!(Request::Join(0).tag(), 0);
    assert_eq!(
        Request::Message {
            room_id: 0,
            message: String::new()
        }
        .tag(),
        1
    );
    assert_eq!(Response::Error.tag(), 0);
    assert_eq!(Response::JoinReject.tag(), 1);
    assert_eq!(Response::Joined(0).tag(), 2);
    assert_eq!(Response::MsgSent(0).tag(), 3);
}

#[test]
fn test_get_inner_none() {
    assert!(Response::Error.get_inner().is_none());
    assert!(Response::JoinReject.get_inner().is_none());
    assert_eq!(Response::MsgSent(12).get_inner(), Some(12));
    assert!(Request::Join(1).get_message().is_none());
}
