use lib::transform::{unsuitable_message, BackendId, ObtainError, RunAs, Suitability, TransformBackend};

struct StubBackend {
    id: BackendId,
    out: String,
}

impl TransformBackend for StubBackend {
    fn id(&self) -> BackendId {
        self.id
    }
    fn analyze(&self, _path: &str) -> Result<Suitability, String> {
        Ok(Suitability { suitable: true, reasons: vec![] })
    }
    fn obtain(&mut self, _path: &str) -> Result<RunAs, ObtainError> {
        Ok(RunAs::Exec(self.out.clone()))
    }
}

#[test]
fn backend_id_display() {
    assert_eq!(BackendId::integrated_recompile().to_string(), "integrated");
    assert_eq!(BackendId::simple_rewrite().to_string(), "simple-rewrite");
}

#[test]
fn stub_backend_roundtrip() {
    let mut b = StubBackend { id: BackendId("stub"), out: "/tmp/out".into() };
    assert_eq!(b.id().0, "stub");
    assert!(b.analyze("/tmp/in").unwrap().suitable);
    match b.obtain("/tmp/in").unwrap() {
        RunAs::Exec(p) => assert_eq!(p, "/tmp/out"),
    }
}

#[test]
fn obtain_error_messages() {
    assert_eq!(ObtainError::TransformFailed("x".into()).message(), "transform failed: x");
    let m = ObtainError::Unsuitable(Suitability { suitable: false, reasons: vec!["a".into()] }).message();
    assert_eq!(m, "unsuitable: [\"a\"]");
}

#[test]
fn unsuitable_message_prefixes_the_rendered_list() {
    assert_eq!(unsuitable_message("[\"a\", \"b\"]"), "unsuitable: [\"a\", \"b\"]");
    let m = ObtainError::Unsuitable(Suitability { suitable: false, reasons: vec!["x\"y".into(), "z".into()] }).message();
    assert_eq!(m, "unsuitable: [\"x\\\"y\", \"z\"]");
}
