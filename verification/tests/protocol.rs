use lib::protocol::{
    decode_request, decode_response, encode_request, encode_response, frame_payload_len, Request, Response,
    WireError,
};

#[test]
fn ping_roundtrip() {
    let frame = encode_request(&Request::Ping);
    assert_eq!(decode_request(&frame).unwrap(), Request::Ping);
    let resp = encode_response(&Response::Pong);
    assert_eq!(decode_response(&resp).unwrap(), Response::Pong);
}

#[test]
fn analyze_roundtrip_with_and_without_backend() {
    let frame = encode_request(&Request::Analyze { path: "/bin/ls".into(), backend: None });
    assert_eq!(decode_request(&frame).unwrap(), Request::Analyze { path: "/bin/ls".into(), backend: None });

    let frame = encode_request(&Request::Analyze { path: "/bin/ls".into(), backend: Some("integrated".into()) });
    assert_eq!(
        decode_request(&frame).unwrap(),
        Request::Analyze { path: "/bin/ls".into(), backend: Some("integrated".into()) }
    );
}

#[test]
fn obtain_roundtrip() {
    let frame = encode_request(&Request::Obtain { path: "/bin/ls".into(), backend: "integrated".into() });
    match decode_request(&frame).unwrap() {
        Request::Obtain { path, backend } => {
            assert_eq!(path, "/bin/ls");
            assert_eq!(backend, "integrated");
        }
        _ => panic!("expected obtain"),
    }
}

#[test]
fn ready_roundtrip() {
    let resp = encode_response(&Response::Ready {
        exe_path: "/tmp/x".into(),
        cache_hit: true,
        backend: "simple-rewrite".into(),
    });
    match decode_response(&resp).unwrap() {
        Response::Ready { exe_path, cache_hit, backend } => {
            assert_eq!(exe_path, "/tmp/x");
            assert!(cache_hit);
            assert_eq!(backend, "simple-rewrite");
        }
        _ => panic!("expected ready"),
    }
}

#[test]
fn list_backends_roundtrip() {
    let frame = encode_request(&Request::ListBackends);
    assert_eq!(decode_request(&frame).unwrap(), Request::ListBackends);

    let resp = encode_response(&Response::Backends { ids: vec!["integrated".into(), "simple-rewrite".into()] });
    match decode_response(&resp).unwrap() {
        Response::Backends { ids } => {
            assert_eq!(ids, vec!["integrated".to_string(), "simple-rewrite".to_string()]);
        }
        _ => panic!("expected backends"),
    }
}

#[test]
fn wrong_protocol_version_rejected() {
    let mut frame = encode_request(&Request::Ping);
    frame[0] = 1; // v1
    assert_eq!(decode_request(&frame), Err(WireError));
}

#[test]
fn ping_frame_bytes_are_exact() {
    // version 2, op 0, empty payload
    assert_eq!(encode_request(&Request::Ping), vec![2, 0, 0, 0, 0, 0]);
    assert_eq!(encode_response(&Response::Pong), vec![2, 0, 0, 0, 0, 0]);
}

#[test]
fn obtain_frame_layout() {
    let frame = encode_request(&Request::Obtain { path: "ab".into(), backend: "c".into() });
    assert_eq!(frame, vec![2, 2, 11, 0, 0, 0, 2, 0, 0, 0, b'a', b'b', 1, 0, 0, 0, b'c']);
    assert_eq!(frame_payload_len(&frame), 11);
}

#[test]
fn error_and_unsuitable_roundtrip() {
    let e = Response::Error { message: "boom".into() };
    assert_eq!(decode_response(&encode_response(&e)).unwrap(), e);
    let u = Response::Unsuitable { backend: "b".into(), reasons: vec!["r1".into(), "r2".into()] };
    assert_eq!(decode_response(&encode_response(&u)).unwrap(), u);
    let s = Response::Suitable { backend: "x".into() };
    assert_eq!(decode_response(&encode_response(&s)).unwrap(), s);
}

#[test]
fn truncated_or_trailing_frames_rejected() {
    let frame = encode_request(&Request::Obtain { path: "/bin/ls".into(), backend: "a".into() });
    assert_eq!(decode_request(&frame[..frame.len() - 1]), Err(WireError));
    let mut longer = frame.clone();
    longer.push(0);
    assert_eq!(decode_request(&longer), Err(WireError));
    assert_eq!(decode_request(&[2, 9, 0, 0, 0, 0]), Err(WireError));
    assert_eq!(decode_request(&[]), Err(WireError));
}

#[test]
fn invalid_utf8_string_rejected() {
    // Obtain with a path whose bytes are not UTF-8.
    let frame = vec![2, 2, 10, 0, 0, 0, 1, 0, 0, 0, 0xff, 1, 0, 0, 0, b'a'];
    assert_eq!(decode_request(&frame), Err(WireError));
}
