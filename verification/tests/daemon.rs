use lib::daemon::{analysis_response, analysis_step, obtain_response, Daemon};
use lib::protocol::{decode_response, encode_request, Request, Response};
use lib::transform::{BackendId, ObtainError, RunAs, Suitability, TransformBackend};

struct StubBackend {
    id: BackendId,
    suitable: bool,
    out: String,
}

impl TransformBackend for StubBackend {
    fn id(&self) -> BackendId {
        self.id
    }
    fn analyze(&self, _path: &str) -> Result<Suitability, String> {
        Ok(Suitability {
            suitable: self.suitable,
            reasons: if self.suitable { vec![] } else { vec!["stub says no".to_string()] },
        })
    }
    fn obtain(&mut self, _path: &str) -> Result<RunAs, ObtainError> {
        if self.suitable {
            Ok(RunAs::Exec(self.out.clone()))
        } else {
            Err(ObtainError::Unsuitable(Suitability { suitable: false, reasons: vec!["stub says no".to_string()] }))
        }
    }
}

fn daemon_with_two_backends() -> Daemon {
    let mut d = Daemon::new();
    d.register(Box::new(StubBackend { id: BackendId("a"), suitable: true, out: "/tmp/a-out".into() }));
    d.register(Box::new(StubBackend { id: BackendId("b"), suitable: true, out: "/tmp/b-out".into() }));
    d
}

#[test]
fn ping() {
    let mut d = Daemon::new();
    assert_eq!(d.dispatch(Request::Ping), Response::Pong);
}

#[test]
fn list_backends_returns_all_registered() {
    let mut d = daemon_with_two_backends();
    match d.dispatch(Request::ListBackends) {
        Response::Backends { ids } => assert_eq!(ids, vec!["a".to_string(), "b".to_string()]),
        other => panic!("unexpected: {other:?}"),
    }
}

#[test]
fn obtain_routes_to_the_named_backend() {
    let mut d = daemon_with_two_backends();
    match d.dispatch(Request::Obtain { path: "/bin/ls".into(), backend: "a".into() }) {
        Response::Ready { exe_path, backend, .. } => {
            assert_eq!(exe_path, "/tmp/a-out");
            assert_eq!(backend, "a");
        }
        other => panic!("unexpected: {other:?}"),
    }
    match d.dispatch(Request::Obtain { path: "/bin/ls".into(), backend: "b".into() }) {
        Response::Ready { exe_path, backend, .. } => {
            assert_eq!(exe_path, "/tmp/b-out");
            assert_eq!(backend, "b");
        }
        other => panic!("unexpected: {other:?}"),
    }
}

#[test]
fn obtain_unknown_backend_is_an_error() {
    let mut d = daemon_with_two_backends();
    match d.dispatch(Request::Obtain { path: "/bin/ls".into(), backend: "nope".into() }) {
        Response::Error { message } => assert!(message.contains("nope")),
        other => panic!("unexpected: {other:?}"),
    }
}

#[test]
fn analyze_without_backend_returns_first_suitable() {
    let mut d = Daemon::new();
    d.register(Box::new(StubBackend { id: BackendId("unsuitable-one"), suitable: false, out: "/tmp/x".into() }));
    d.register(Box::new(StubBackend { id: BackendId("suitable-one"), suitable: true, out: "/tmp/y".into() }));
    match d.dispatch(Request::Analyze { path: "/bin/ls".into(), backend: None }) {
        Response::Suitable { backend } => assert_eq!(backend, "suitable-one"),
        other => panic!("unexpected: {other:?}"),
    }
}

#[test]
fn analyze_with_no_backends_and_unknown_id() {
    let mut d = Daemon::default();
    assert_eq!(
        d.dispatch(Request::Analyze { path: "/bin/ls".into(), backend: None }),
        Response::Unsuitable { backend: String::new(), reasons: vec!["no backend registered".to_string()] }
    );
    assert_eq!(
        d.dispatch(Request::Analyze { path: "/bin/ls".into(), backend: Some("z".into()) }),
        Response::Error { message: "unknown backend: z".into() }
    );
}

#[test]
fn analyze_all_unsuitable_answers_with_the_last() {
    let mut d = Daemon::new();
    d.register(Box::new(StubBackend { id: BackendId("b2"), suitable: false, out: String::new() }));
    d.register(Box::new(StubBackend { id: BackendId("a1"), suitable: false, out: String::new() }));
    assert_eq!(
        d.dispatch(Request::Analyze { path: "/p".into(), backend: None }),
        Response::Unsuitable { backend: "b2".into(), reasons: vec!["stub says no".to_string()] }
    );
}

#[test]
fn register_replaces_same_id_and_obtain_unsuitable() {
    let mut d = Daemon::new();
    d.register(Box::new(StubBackend { id: BackendId("a"), suitable: true, out: "/old".into() }));
    d.register(Box::new(StubBackend { id: BackendId("a"), suitable: false, out: "/new".into() }));
    assert_eq!(d.dispatch(Request::ListBackends), Response::Backends { ids: vec!["a".into()] });
    assert_eq!(
        d.dispatch(Request::Obtain { path: "/p".into(), backend: "a".into() }),
        Response::Unsuitable { backend: "a".into(), reasons: vec!["stub says no".to_string()] }
    );
}

#[test]
fn handle_frame_round_trip_and_invalid() {
    let mut d = daemon_with_two_backends();
    let out = d.handle_frame(&encode_request(&Request::Ping));
    assert_eq!(decode_response(&out).unwrap(), Response::Pong);
    let out = d.handle_frame(&[1, 2, 3]);
    assert_eq!(decode_response(&out).unwrap(), Response::Error { message: "invalid request".into() });
}

#[test]
fn response_builders() {
    assert_eq!(
        obtain_response("b", Err(ObtainError::TransformFailed("boom".into()))),
        Response::Error { message: "boom".into() }
    );
    assert_eq!(
        obtain_response("b", Ok(RunAs::Exec("/e".into()))),
        Response::Ready { exe_path: "/e".into(), cache_hit: false, backend: "b".into() }
    );
    assert_eq!(analysis_response("b", Err("bad".into())), Response::Error { message: "bad".into() });
    assert_eq!(
        analysis_response("b", Ok(Suitability { suitable: true, reasons: vec!["ignored".into()] })),
        Response::Suitable { backend: "b".into() }
    );
}

#[test]
fn analysis_step_stops_only_on_suitable() {
    let (r, stop) = analysis_step("a", Ok(Suitability { suitable: true, reasons: vec![] }));
    assert!(stop);
    assert_eq!(r, Response::Suitable { backend: "a".into() });
    let (r, stop) = analysis_step("b", Ok(Suitability { suitable: false, reasons: vec!["x".into()] }));
    assert!(!stop);
    assert_eq!(r, Response::Unsuitable { backend: "b".into(), reasons: vec!["x".into()] });
    let (r, stop) = analysis_step("c", Err("boom".into()));
    assert!(!stop);
    assert_eq!(r, Response::Error { message: "boom".into() });
}
