//! Generic on-the-fly transformation daemon: a registry of transform
//! backends, and the routing of each wire request to the backend it names.
use vstd::prelude::*;
use vstd::string::*;

use crate::protocol::{
    decode_request, encode_response, parse_request, response_bytes, Request, RequestV, Response,
    ResponseV,
};
use crate::text::{
    first_index, lemma_first_none, lemma_first_same, lemma_first_some, lemma_first_unique, lemma_sorted_names,
    no_repeats, same_elems, sorted_names, sorted_unique, str_eq, string_views, views,
};
use crate::transform::{ObtainError, RunAs, Suitability, TransformBackend};

verus! {

/// Environment variable naming the daemon's socket.
pub const SOCKET_ENV_VAR: &'static str = "SOEL_DAEMON_SOCK";

pub struct Daemon {
    backends: Vec<(&'static str, Box<dyn TransformBackend>)>,
}

/// The ids of registered backends, in registration order.
pub open spec fn backend_ids(b: Seq<(&'static str, Box<dyn TransformBackend>)>) -> Seq<Seq<char>> {
    b.map_values(|e: (&'static str, Box<dyn TransformBackend>)| e.0@)
}

/// The answer to an analysis by backend `id` that came back as `r`.
pub open spec fn spec_analysis_response(id: Seq<char>, r: Result<Suitability, String>) -> ResponseV {
    match r {
        Ok(s) => if s.suitable {
            ResponseV::Suitable { backend: id }
        } else {
            ResponseV::Unsuitable { backend: id, reasons: string_views(s.reasons@) }
        },
        Err(e) => ResponseV::Error { message: e@ },
    }
}

/// The answer to an obtain request on `backend` that came back as `r`;
/// cache hits are not tracked at this layer.
pub open spec fn spec_obtain_response(backend: Seq<char>, r: Result<RunAs, ObtainError>) -> ResponseV {
    match r {
        Ok(RunAs::Exec(exe)) => ResponseV::Ready { exe_path: exe@, cache_hit: false, backend },
        Err(ObtainError::Unsuitable(s)) => ResponseV::Unsuitable { backend, reasons: string_views(s.reasons@) },
        Err(ObtainError::TransformFailed(e)) => ResponseV::Error { message: e@ },
    }
}

/// The error for a request naming an unregistered backend.
pub open spec fn spec_unknown_backend(id: Seq<char>) -> ResponseV {
    ResponseV::Error { message: "unknown backend: "@ + id }
}

/// The answer to an analysis naming no backend when none is registered.
pub open spec fn spec_no_backend() -> ResponseV {
    ResponseV::Unsuitable { backend: Seq::empty(), reasons: seq!["no backend registered"@] }
}

/// Whether an analysis result says the backend is suitable.
pub open spec fn is_suitable(r: Result<Suitability, String>) -> bool {
    r matches Ok(s) && s.suitable
}

/// Asking `n` backends in turn, with results `rs` from the ones asked:
/// asking stops at the first suitable answer, else after the last backend.
pub open spec fn consulted_in_order(n: nat, rs: Seq<Result<Suitability, String>>) -> bool {
    &&& rs.len() <= n
    &&& n > 0 ==> rs.len() > 0
    &&& forall|j: int| 0 <= j < rs.len() - 1 ==> !is_suitable(#[trigger] rs[j])
    &&& rs.len() < n ==> is_suitable(rs.last())
}

/// The answer after asking backends `names` in turn with results `rs`: the
/// answer of the last one asked, or `no backend registered` when none is.
pub open spec fn analyze_any_answer(names: Seq<Seq<char>>, rs: Seq<Result<Suitability, String>>) -> ResponseV {
    if rs.len() == 0 {
        spec_no_backend()
    } else {
        spec_analysis_response(names[rs.len() - 1], rs.last())
    }
}

/// An analysis naming no backend asks every backend in ascending id order:
/// the first suitable answer wins, else the answer of the last one.
pub open spec fn analyze_any_ok(d: Daemon, path: Seq<char>, resp: ResponseV) -> bool {
    let names = sorted_names(d.ids());
    exists|rs: Seq<Result<Suitability, String>>|
        #[trigger] consulted_in_order(names.len(), rs) && (forall|j: int|
            0 <= j < rs.len() ==> d.analysis_admitted(names[j], path, #[trigger] rs[j])) && resp
            == analyze_any_answer(names, rs)
}

/// Whether answering `req` may change a backend's state: only an obtain
/// request naming a registered backend hands a backend work that may.
pub open spec fn may_change_backend(ids: Seq<Seq<char>>, req: RequestV) -> bool {
    req matches RequestV::Obtain { backend, .. } && ids.contains(backend)
}

/// What answering `req` with daemon `d` may give: where a backend is
/// consulted, it is the one the request names, handed the request's path,
/// and the answer is that of a result the backend admits.
pub open spec fn dispatch_ok(d: Daemon, req: RequestV, resp: ResponseV) -> bool {
    match req {
        RequestV::Ping => resp == ResponseV::Pong,
        RequestV::ListBackends => resp == ResponseV::Backends { ids: sorted_names(d.ids()) },
        RequestV::Obtain { path, backend } => if d.ids().contains(backend) {
            exists|r: Result<RunAs, ObtainError>|
                d.obtain_admitted(backend, path, r) && resp == #[trigger] spec_obtain_response(backend, r)
        } else {
            resp == spec_unknown_backend(backend)
        },
        RequestV::Analyze { path, backend } => match backend {
            Some(id) => if d.ids().contains(id) {
                exists|r: Result<Suitability, String>|
                    d.analysis_admitted(id, path, r) && resp == #[trigger] spec_analysis_response(id, r)
            } else {
                resp == spec_unknown_backend(id)
            },
            None => analyze_any_ok(d, path, resp),
        },
    }
}

/// `after` is `before` with `backend` stored under `k`: `k` is registered,
/// no other id is added, the backend under `k` is `backend`, and every other
/// registered backend stays as it was.
pub open spec fn registered_under<B: TransformBackend + ?Sized>(before: Daemon, after: Daemon, backend: &B, k: Seq<char>) -> bool {
    &&& after.ids().contains(k)
    &&& forall|s: Seq<char>| #[trigger] after.ids().contains(s) <==> (before.ids().contains(s) || s == k)
    &&& forall|p: Seq<char>, r: Result<Suitability, String>|
        #[trigger] after.analysis_admitted(k, p, r) == backend.analysis_is(p, r)
    &&& forall|p: Seq<char>, r: Result<RunAs, ObtainError>|
        #[trigger] after.obtain_admitted(k, p, r) == backend.obtain_is(p, r)
    &&& forall|s: Seq<char>, p: Seq<char>, r: Result<Suitability, String>|
        s != k && before.ids().contains(s) ==> #[trigger] after.analysis_admitted(s, p, r)
            == before.analysis_admitted(s, p, r)
    &&& forall|s: Seq<char>, p: Seq<char>, r: Result<RunAs, ObtainError>|
        s != k && before.ids().contains(s) ==> #[trigger] after.obtain_admitted(s, p, r)
            == before.obtain_admitted(s, p, r)
}

/// `after` is `before` with `backend` registered under an id it reports.
pub open spec fn registers<B: TransformBackend + ?Sized>(before: Daemon, after: Daemon, backend: &B) -> bool {
    exists|k: Seq<char>| #[trigger] backend.id_is(k) && registered_under(before, after, backend, k)
}

/// Registering two backends that both report only the id `k`: `k` is
/// registered, no other id is added, requests naming `k` reach the second
/// backend (the first was replaced), and every other backend stays as it was.
pub proof fn lemma_register_twice<B1: TransformBackend + ?Sized, B2: TransformBackend + ?Sized>(
    d0: Daemon,
    d1: Daemon,
    d2: Daemon,
    b1: &B1,
    b2: &B2,
    k: Seq<char>,
)
    requires
        registers(d0, d1, b1),
        registers(d1, d2, b2),
        forall|s: Seq<char>| #[trigger] b1.id_is(s) ==> s == k,
        forall|s: Seq<char>| #[trigger] b2.id_is(s) ==> s == k,
    ensures
        registered_under(d0, d2, b2, k),
{
    let k1 = choose|k1: Seq<char>| #[trigger] b1.id_is(k1) && registered_under(d0, d1, b1, k1);
    let k2 = choose|k2: Seq<char>| #[trigger] b2.id_is(k2) && registered_under(d1, d2, b2, k2);
    assert(k1 == k && k2 == k);
    assert forall|s: Seq<char>| #[trigger] d2.ids().contains(s) <==> (d0.ids().contains(s) || s == k) by {
        assert(d1.ids().contains(s) <==> (d0.ids().contains(s) || s == k));
    }
    assert forall|s: Seq<char>, p: Seq<char>, r: Result<Suitability, String>|
        s != k && d0.ids().contains(s) implies #[trigger] d2.analysis_admitted(s, p, r) == d0.analysis_admitted(s, p, r) by {
        assert(d1.ids().contains(s));
        assert(d2.analysis_admitted(s, p, r) == d1.analysis_admitted(s, p, r));
        assert(d1.analysis_admitted(s, p, r) == d0.analysis_admitted(s, p, r));
    }
    assert forall|s: Seq<char>, p: Seq<char>, r: Result<RunAs, ObtainError>|
        s != k && d0.ids().contains(s) implies #[trigger] d2.obtain_admitted(s, p, r) == d0.obtain_admitted(s, p, r) by {
        assert(d1.ids().contains(s));
        assert(d2.obtain_admitted(s, p, r) == d1.obtain_admitted(s, p, r));
        assert(d1.obtain_admitted(s, p, r) == d0.obtain_admitted(s, p, r));
    }
}

/// The answer to a backend's analysis result.
pub fn analysis_response(id: &str, r: Result<Suitability, String>) -> (resp: Response)
    ensures
        resp@ == spec_analysis_response(id@, r),
{
    match r {
        Ok(s) => {
            if s.suitable {
                Response::Suitable { backend: String::from_str(id) }
            } else {
                Response::Unsuitable { backend: String::from_str(id), reasons: s.reasons }
            }
        },
        Err(e) => Response::Error { message: e },
    }
}

/// One step of asking backends in turn: the answer for backend `id`'s
/// result `r`, and whether asking stops there (a suitable answer).
pub fn analysis_step(id: &str, r: Result<Suitability, String>) -> (out: (Response, bool))
    ensures
        out.0@ == spec_analysis_response(id@, r),
        out.1 == is_suitable(r),
{
    let stop = match &r {
        Ok(s) => s.suitable,
        Err(_) => false,
    };
    (analysis_response(id, r), stop)
}

/// The answer to a backend's obtain result.
pub fn obtain_response(backend: &str, r: Result<RunAs, ObtainError>) -> (resp: Response)
    ensures
        resp@ == spec_obtain_response(backend@, r),
{
    match r {
        Ok(RunAs::Exec(exe)) => Response::Ready { exe_path: exe, cache_hit: false, backend: String::from_str(backend) },
        Err(ObtainError::Unsuitable(s)) => Response::Unsuitable {
            backend: String::from_str(backend),
            reasons: s.reasons,
        },
        Err(ObtainError::TransformFailed(e)) => Response::Error { message: e },
    }
}

fn unknown_backend(id: &str) -> (resp: Response)
    ensures
        resp@ == spec_unknown_backend(id@),
{
    let mut message = String::from_str("unknown backend: ");
    message.append(id);
    Response::Error { message }
}

fn analyze_one(id: &str, backend: &Box<dyn TransformBackend>, path: &str) -> (resp: Response)
    ensures
        exists|r: Result<Suitability, String>|
            backend.analysis_is(path@, r) && resp@ == #[trigger] spec_analysis_response(id@, r),
{
    let r = backend.analyze(path);
    let ghost gr = r;
    let resp = analysis_response(id, r);
    assert(resp@ == spec_analysis_response(id@, gr));
    resp
}

impl Default for Daemon {
    fn default() -> (d: Self)
        ensures
            d.ids().len() == 0,
    {
        Daemon::new()
    }
}

impl Daemon {
    /// No id is registered twice.
    #[verifier::type_invariant]
    spec fn ids_unique(self) -> bool {
        no_repeats(backend_ids(self.backends@))
    }

    /// The ids of the registered backends.
    pub closed spec fn ids(&self) -> Seq<Seq<char>> {
        backend_ids(self.backends@)
    }

    /// Whether the backend registered under `id` admits `r` as its answer
    /// to an analysis of `path`.
    pub closed spec fn analysis_admitted(&self, id: Seq<char>, path: Seq<char>, r: Result<Suitability, String>) -> bool {
        self.backends@[first_index(self.ids(), id).unwrap()].1.analysis_is(path, r)
    }

    /// Whether the backend registered under `id` admits `r` as its result
    /// for an obtain request on `path`.
    pub closed spec fn obtain_admitted(&self, id: Seq<char>, path: Seq<char>, r: Result<RunAs, ObtainError>) -> bool {
        self.backends@[first_index(self.ids(), id).unwrap()].1.obtain_is(path, r)
    }

    pub fn new() -> (d: Self)
        ensures
            d.ids().len() == 0,
    {
        Daemon { backends: Vec::new() }
    }

    fn position(&self, id: &str) -> (r: Option<usize>)
        ensures
            match r {
                Some(i) => first_index(self.ids(), id@) == Some(i as int) && i < self.backends@.len(),
                None => first_index(self.ids(), id@) is None,
            },
    {
        let ghost keys = self.ids();
        let mut i: usize = 0;
        while i < self.backends.len()
            invariant
                i <= self.backends@.len(),
                keys == self.ids(),
                keys.len() == self.backends@.len(),
                forall|k: int| 0 <= k < i ==> #[trigger] keys[k] != id@,
            decreases self.backends.len() - i,
        {
            assert(keys[i as int] == self.backends@[i as int].0@);
            if str_eq(self.backends[i].0, id) {
                proof {
                    lemma_first_unique(keys, id@, i as int);
                }
                return Some(i);
            }
            i = i + 1;
        }
        proof {
            lemma_first_none(keys, id@);
        }
        None
    }

    /// Register a backend under its own id; a second backend under the
    /// same id replaces the first, and the others stay as they were.
    pub fn register(&mut self, backend: Box<dyn TransformBackend>)
        ensures
            registers(*old(self), *final(self), &*backend),
    {
        let id = backend.id().0;
        let ghost bk = self.ids();
        let ghost before = self.backends@;
        let entry = (id, backend);
        let ghost ge = entry;
        proof {
            use_type_invariant(&*self);
            lemma_first_some(bk, id@);
        }
        let pos = self.position(id);
        let mut bs: Vec<(&'static str, Box<dyn TransformBackend>)> = Vec::new();
        std::mem::swap(&mut bs, &mut self.backends);
        match pos {
            Some(i) => {
                bs.set(i, entry);
                assert(backend_ids(bs@) =~= bk);
                self.backends = bs;
                proof {
                    let ak = self.ids();
                    assert(self.backends@ =~= before.update(i as int, ge));
                    assert(ak =~= bk);
                    assert forall|s: Seq<char>| s != id@ && bk.contains(s) implies first_index(ak, s) is Some
                        && first_index(ak, s).unwrap() != i && self.backends@[first_index(ak, s).unwrap()]
                        == before[first_index(ak, s).unwrap()] by {
                        lemma_first_some(bk, s);
                    }
                    assert(bk.contains(id@));
                }
            },
            None => {
                bs.push(entry);
                proof {
                    assert(backend_ids(bs@) =~= bk.push(id@));
                    assert forall|k: int| 0 <= k < bk.len() implies #[trigger] bk[k] != id@ by {
                        if bk[k] == id@ {
                            assert(bk.contains(id@));
                        }
                    }
                }
                self.backends = bs;
                proof {
                    let ak = self.ids();
                    assert(self.backends@ =~= before.push(ge));
                    assert(ak =~= bk.push(id@));
                    assert forall|s: Seq<char>| #[trigger] ak.contains(s) <==> (bk.contains(s) || s == id@) by {
                        crate::text::lemma_contains_push(bk, id@, s);
                    }
                    assert forall|k: int| 0 <= k < bk.len() implies #[trigger] ak[k] != id@ by {
                        assert(ak[k] == bk[k]);
                        if bk[k] == id@ {
                            assert(bk.contains(id@));
                        }
                    }
                    lemma_first_unique(ak, id@, bk.len() as int);
                    assert forall|s: Seq<char>| s != id@ && bk.contains(s) implies first_index(ak, s) == first_index(bk, s)
                        && first_index(bk, s) is Some && self.backends@[first_index(bk, s).unwrap()]
                        == before[first_index(bk, s).unwrap()] by {
                        lemma_first_same(bk, ak, s);
                        lemma_first_some(bk, s);
                    }
                    assert(ak.contains(id@));
                }
            },
        }
    }

    /// Decode one request frame and encode the answer; an undecodable frame
    /// is answered with an `invalid request` error.
    pub fn handle_frame(&mut self, frame: &[u8]) -> (out: Vec<u8>)
        ensures
            final(self).ids() == old(self).ids(),
            match parse_request(frame@) {
                None => *final(self) == *old(self),
                Some(req) => !may_change_backend(old(self).ids(), req) ==> *final(self) == *old(self),
            },
            match parse_request(frame@) {
                None => out@ == response_bytes(ResponseV::Error { message: "invalid request"@ }),
                Some(req) => exists|resp: ResponseV|
                    dispatch_ok(*old(self), req, resp) && out@ == #[trigger] response_bytes(resp),
            },
    {
        let req = match decode_request(frame) {
            Ok(r) => r,
            Err(_) => {
                return encode_response(&Response::Error { message: String::from_str("invalid request") });
            },
        };
        let resp = self.dispatch(req);
        let out = encode_response(&resp);
        assert(dispatch_ok(*old(self), parse_request(frame@).unwrap(), resp@));
        out
    }

    /// Answer one request.
    pub fn dispatch(&mut self, req: Request) -> (resp: Response)
        ensures
            final(self).ids() == old(self).ids(),
            !may_change_backend(old(self).ids(), req@) ==> *final(self) == *old(self),
            dispatch_ok(*old(self), req@, resp@),
    {
        match req {
            Request::Ping => Response::Pong,
            Request::Analyze { path, backend } => {
                match backend {
                    Some(id) => self.handle_analyze(path.as_str(), Some(id.as_str())),
                    None => self.handle_analyze(path.as_str(), None),
                }
            },
            Request::Obtain { path, backend } => self.handle_obtain(path.as_str(), backend.as_str()),
            Request::ListBackends => {
                let sorted = self.sorted_ids();
                let mut ids: Vec<String> = Vec::new();
                let mut k: usize = 0;
                while k < sorted.len()
                    invariant
                        k <= sorted@.len(),
                        string_views(ids@) == views(sorted@).take(k as int),
                    decreases sorted.len() - k,
                {
                    let ghost before = ids@;
                    ids.push(String::from_str(sorted[k]));
                    assert(string_views(ids@) =~= string_views(before).push(sorted@[k as int]@));
                    assert(views(sorted@).take(k + 1) =~= views(sorted@).take(k as int).push(sorted@[k as int]@));
                    k = k + 1;
                }
                assert(views(sorted@).take(k as int) =~= views(sorted@));
                Response::Backends { ids }
            },
        }
    }

    /// The registered ids in sorted order.
    fn sorted_ids(&self) -> (r: Vec<&'static str>)
        ensures
            views(r@) == sorted_names(self.ids()),
            same_elems(views(r@), self.ids()),
    {
        let mut all: Vec<&'static str> = Vec::new();
        let mut i: usize = 0;
        while i < self.backends.len()
            invariant
                i <= self.backends@.len(),
                views(all@) == self.ids().take(i as int),
            decreases self.backends.len() - i,
        {
            let ghost before = all@;
            all.push(self.backends[i].0);
            assert(views(all@) =~= views(before).push(self.backends@[i as int].0@));
            assert(self.ids().take(i + 1) =~= self.ids().take(i as int).push(self.backends@[i as int].0@));
            i = i + 1;
        }
        assert(self.ids().take(i as int) =~= self.ids());
        let sorted = sorted_unique(&all);
        proof {
            lemma_sorted_names(views(sorted@), self.ids());
        }
        sorted
    }

    fn handle_analyze(&self, path: &str, backend: Option<&str>) -> (resp: Response)
        ensures
            match backend {
                Some(id) => if self.ids().contains(id@) {
                    exists|r: Result<Suitability, String>|
                        self.analysis_admitted(id@, path@, r) && resp@ == #[trigger] spec_analysis_response(id@, r)
                } else {
                    resp@ == spec_unknown_backend(id@)
                },
                None => analyze_any_ok(*self, path@, resp@),
            },
    {
        match backend {
            Some(id) => match self.position(id) {
                Some(i) => {
                    proof {
                        lemma_first_some(self.ids(), id@);
                    }
                    analyze_one(id, &self.backends[i].1, path)
                },
                None => {
                    proof {
                        lemma_first_some(self.ids(), id@);
                    }
                    unknown_backend(id)
                },
            },
            None => {
                let sorted = self.sorted_ids();
                let ghost names = sorted_names(self.ids());
                let mut reasons: Vec<String> = Vec::new();
                reasons.push(String::from_str("no backend registered"));
                let mut last = Response::Unsuitable { backend: String::new(), reasons };
                assert(string_views(reasons@) =~= seq!["no backend registered"@]) by {
                    assert(reasons@.len() == 1);
                }
                let mut k: usize = 0;
                let ghost mut rs: Seq<Result<Suitability, String>> = Seq::empty();
                while k < sorted.len()
                    invariant
                        k <= sorted@.len(),
                        backend is None,
                        views(sorted@) == names,
                        names == sorted_names(self.ids()),
                        same_elems(names, self.ids()),
                        rs.len() == k,
                        forall|j: int| 0 <= j < k ==> !is_suitable(#[trigger] rs[j]),
                        forall|j: int| 0 <= j < k ==> self.analysis_admitted(names[j], path@, #[trigger] rs[j]),
                        last@ == analyze_any_answer(names, rs),
                    decreases sorted.len() - k,
                {
                    let id = sorted[k];
                    assert(names[k as int] == id@);
                    assert(names.contains(id@));
                    let pos = self.position(id);
                    proof {
                        lemma_first_some(self.ids(), id@);
                    }
                    let i = pos.unwrap();
                    let w = self.backends[i].1.analyze(path);
                    let ghost gw = w;
                    let (r, stop) = analysis_step(id, w);
                    let ghost rs2 = rs.push(gw);
                    assert(self.analysis_admitted(names[k as int], path@, gw));
                    assert(analyze_any_answer(names, rs2) == r@);
                    assert forall|j: int| 0 <= j < k + 1 implies self.analysis_admitted(names[j], path@, #[trigger] rs2[j]) by {
                        if j < k {
                            assert(rs2[j] == rs[j]);
                        }
                    }
                    if stop {
                        proof {
                            assert forall|j: int| 0 <= j < rs2.len() - 1 implies !is_suitable(#[trigger] rs2[j]) by {
                                assert(rs2[j] == rs[j]);
                            }
                            assert(consulted_in_order(names.len(), rs2));
                            assert(analyze_any_ok(*self, path@, r@));
                        }
                        return r;
                    }
                    assert forall|j: int| 0 <= j < k + 1 implies !is_suitable(#[trigger] rs2[j]) by {
                        if j < k {
                            assert(rs2[j] == rs[j]);
                        }
                    }
                    proof {
                        rs = rs2;
                    }
                    last = r;
                    k = k + 1;
                }
                proof {
                    assert(names.len() == k);
                    assert forall|j: int| 0 <= j < rs.len() - 1 implies !is_suitable(#[trigger] rs[j]) by {}
                    if names.len() == 0 {
                        if self.ids().len() > 0 {
                            assert(self.ids().contains(self.ids()[0]));
                            assert(names.contains(self.ids()[0]));
                        }
                    }
                    assert(consulted_in_order(names.len(), rs));
                }
                last
            },
        }
    }

    fn handle_obtain(&mut self, path: &str, backend: &str) -> (resp: Response)
        ensures
            final(self).ids() == old(self).ids(),
            !old(self).ids().contains(backend@) ==> *final(self) == *old(self),
            if old(self).ids().contains(backend@) {
                exists|r: Result<RunAs, ObtainError>|
                    old(self).obtain_admitted(backend@, path@, r) && resp@ == #[trigger] spec_obtain_response(backend@, r)
            } else {
                resp@ == spec_unknown_backend(backend@)
            },
    {
        proof {
            lemma_first_some(self.ids(), backend@);
        }
        let i = match self.position(backend) {
            Some(i) => i,
            None => return unknown_backend(backend),
        };
        let ghost before = self.backends@;
        proof {
            use_type_invariant(&*self);
        }
        let mut bs: Vec<(&'static str, Box<dyn TransformBackend>)> = Vec::new();
        std::mem::swap(&mut bs, &mut self.backends);
        let (key, mut b) = bs.remove(i);
        let ghost mid = bs@;
        assert(mid =~= before.remove(i as int));
        let r = b.obtain(path);
        let entry = (key, b);
        let ghost ge = entry;
        bs.insert(i, entry);
        assert(bs@ =~= mid.insert(i as int, ge));
        assert(backend_ids(bs@) =~= backend_ids(before)) by {
            assert forall|k: int| 0 <= k < bs@.len() implies bs@[k].0@ == before[k].0@ by {
                if k < i {
                    assert(bs@[k] == before[k]);
                } else if k > i {
                    assert(bs@[k] == before[k]);
                }
            }
        }
        self.backends = bs;
        assert(ge.0 == before[i as int].0);
        proof {
            assert(self.ids() =~= old(self).ids()) by {
                assert forall|k: int| 0 <= k < self.ids().len() implies self.ids()[k] == old(self).ids()[k] by {
                    if k < i {
                        assert(self.backends@[k] == before[k]);
                    } else if k > i {
                        assert(self.backends@[k] == before[k]);
                    }
                }
            }
        }
        let ghost gr = r;
        let resp = obtain_response(backend, r);
        assert(resp@ == spec_obtain_response(backend@, gr));
        resp
    }
}

} // verus!
