//! Merged handler registry: default weak forwards plus plugin overrides
//! that replace them for single symbols.
use vstd::prelude::*;
use vstd::string::*;

use crate::abi::{find_named, AbiFunction, AbiSpec};
use crate::c_emit::{
    c_arg_names, c_param_list, c_return_type, os_shim_name, spec_c_arg_names, spec_c_param_list,
    spec_c_return_type, spec_os_shim_name,
};
use crate::daemon_shim::{spec_execve_source, DaemonExecveHandler};
use crate::forward::{spec_weak_forward, BridgeSupportForwardHandler};
use crate::text::{
    first_index, lemma_first_none, lemma_first_same, lemma_first_some, lemma_first_unique, sorted_unique, str_eq,
    no_repeats, strictly_sorted, string_views, views,
};

verus! {

/// Semantic handler for one libc/libSystem symbol.
pub trait ShimHandler {
    /// Whether this handler stands for a single symbol; factories, which do
    /// not, say so.
    open spec fn spec_has_symbol(&self) -> bool {
        true
    }

    /// Whether `sym` is a symbol this handler may report; a handler that
    /// states nothing admits any.
    open spec fn symbol_is(&self, sym: Seq<char>) -> bool {
        true
    }

    /// Whether `out` is a core body this handler may emit for `func`; a
    /// handler that states nothing admits any.
    open spec fn core_is(&self, func: AbiFunction, out: Seq<char>) -> bool {
        true
    }

    /// The symbol this handler stands for.
    fn symbol(&self) -> (r: &str)
        requires
            self.spec_has_symbol(),
        ensures
            self.symbol_is(r@),
    ;

    /// Emit the `os_shim_{sym}(…)` C body (host-pointer ABI).
    fn emit_core(&self, func: &AbiFunction) -> (r: String)
        ensures
            self.core_is(*func, r@),
    ;

    /// Whether this handler replaces a default forward (plugin).
    fn is_override(&self) -> (r: bool)
        default_ensures
            !r,
    {
        false
    }

    /// Emit interposer export wrapper C for `{sym}` → `os_shim_{sym}`.
    fn emit_interposer_bridge(&self, func: &AbiFunction) -> (r: String)
        default_ensures
            r@ == spec_interposer_bridge(*func),
    {
        emit_default_interposer_bridge(func, self.is_override())
    }
}

/// Registry merged at codegen / link time.
pub struct ShimRegistry {
    overrides: Vec<(String, Registered)>,
}

/// A registered override: the handler, plus, for the daemon's own
/// handler, a copy of it as its concrete type so that what it emits is
/// known here.
type Registered = (Option<DaemonExecveHandler>, Box<dyn ShimHandler>);

/// The core body an override emits for `func`, where known (for the
/// daemon's handler); a plugin's is its own.
closed spec fn entry_core(e: Registered, func: AbiFunction) -> Option<Seq<char>> {
    match e.0 {
        Some(h) => Some(spec_execve_source(h.backend_id@, h.socket_env_var@)),
        None => None,
    }
}

/// The interposer bridge an override emits for `func`, where known: the
/// daemon handler keeps the default bridge; a plugin's is its own.
closed spec fn entry_bridge(e: Registered, func: AbiFunction) -> Option<Seq<char>> {
    match e.0 {
        Some(_) => Some(spec_interposer_bridge(func)),
        None => None,
    }
}

/// Whether `out` is a core body the override `e` may emit for `func`: the
/// daemon handler's source, or what a plugin's own contract admits.
closed spec fn entry_core_is(e: Registered, func: AbiFunction, out: Seq<char>) -> bool {
    match e.0 {
        Some(h) => out == spec_execve_source(h.backend_id@, h.socket_env_var@),
        None => e.1.core_is(func, out),
    }
}

fn entry_emit_core(e: &Registered, func: &AbiFunction) -> (r: String)
    ensures
        entry_core(*e, *func) is Some ==> r@ == entry_core(*e, *func).unwrap(),
        entry_core_is(*e, *func, r@),
{
    match &e.0 {
        Some(h) => h.emit_core(func),
        None => e.1.emit_core(func),
    }
}

fn entry_emit_bridge(e: &Registered, func: &AbiFunction) -> (r: String)
    ensures
        entry_bridge(*e, *func) is Some ==> r@ == entry_bridge(*e, *func).unwrap(),
{
    match &e.0 {
        Some(h) => emit_default_interposer_bridge(func, true),
        None => e.1.emit_interposer_bridge(func),
    }
}

/// The keys of the registered overrides.
pub open spec fn override_keys(entries: Seq<(String, Registered)>) -> Seq<Seq<char>> {
    entries.map_values(|e: (String, Registered)| e.0@)
}

/// Which handler a symbol resolves to.
pub enum ResolvedHandler<'a> {
    Default,
    Override(&'a (dyn ShimHandler + 'static)),
}

impl ShimRegistry {
    /// No symbol has two overrides.
    #[verifier::type_invariant]
    spec fn keys_unique(self) -> bool {
        no_repeats(override_keys(self.overrides@))
    }

    /// The symbols that have an override, in registration order.
    pub closed spec fn keys(&self) -> Seq<Seq<char>> {
        override_keys(self.overrides@)
    }

    /// Whether an override is registered for `sym`.
    pub closed spec fn has_override(&self, sym: Seq<char>) -> bool {
        first_index(self.keys(), sym) is Some
    }

    /// The core C body that the override registered for `sym` emits for
    /// `func`, where the registry knows it (meaningful where `has_override`).
    pub closed spec fn override_core(&self, sym: Seq<char>, func: AbiFunction) -> Option<Seq<char>> {
        entry_core(self.overrides@[first_index(self.keys(), sym).unwrap()].1, func)
    }

    /// The handler registered as the override for `sym` (meaningful where
    /// `has_override`).
    pub closed spec fn override_handler(&self, sym: Seq<char>) -> &(dyn ShimHandler + 'static) {
        &*self.overrides@[first_index(self.keys(), sym).unwrap()].1.1
    }

    /// Whether `out` is a core body the override registered for `sym` may
    /// emit for `func` (meaningful where `has_override`).
    pub closed spec fn override_core_is(&self, sym: Seq<char>, func: AbiFunction, out: Seq<char>) -> bool {
        entry_core_is(self.overrides@[first_index(self.keys(), sym).unwrap()].1, func, out)
    }

    /// The interposer bridge that the override registered for `sym` emits
    /// for `func`, where the registry knows it (meaningful where
    /// `has_override`).
    pub closed spec fn override_bridge(&self, sym: Seq<char>, func: AbiFunction) -> Option<Seq<char>> {
        entry_bridge(self.overrides@[first_index(self.keys(), sym).unwrap()].1, func)
    }

    pub fn new() -> (r: Self)
        ensures
            forall|s: Seq<char>| !r.has_override(s),
            r.keys() == Seq::<Seq<char>>::empty(),
    {
        let r = ShimRegistry { overrides: Vec::new() };
        assert(override_keys(r.overrides@) =~= Seq::<Seq<char>>::empty());
        r
    }

    /// Index of the entry keyed `sym`.
    fn position(&self, sym: &str) -> (r: Option<usize>)
        ensures
            match r {
                Some(i) => first_index(self.keys(), sym@) == Some(i as int) && i < self.overrides@.len(),
                None => first_index(self.keys(), sym@) is None,
            },
    {
        let ghost keys = self.keys();
        let mut i: usize = 0;
        while i < self.overrides.len()
            invariant
                i <= self.overrides@.len(),
                keys == self.keys(),
                keys.len() == self.overrides@.len(),
                forall|k: int| 0 <= k < i ==> #[trigger] keys[k] != sym@,
            decreases self.overrides.len() - i,
        {
            assert(keys[i as int] == self.overrides@[i as int].0@);
            if str_eq(self.overrides[i].0.as_str(), sym) {
                proof {
                    lemma_first_unique(keys, sym@, i as int);
                }
                return Some(i);
            }
            i = i + 1;
        }
        proof {
            lemma_first_none(keys, sym@);
        }
        None
    }

    /// Register a plugin override (wins over the default forward); it
    /// replaces an earlier override for the same symbol.
    pub fn register_override(&mut self, handler: Box<dyn ShimHandler>)
        requires
            handler.spec_has_symbol(),
        ensures
            exists|k: Seq<char>|
                {
                    &&& #[trigger] final(self).has_override(k)
                    &&& handler.symbol_is(k)
                    &&& forall|f: AbiFunction, out: Seq<char>|
                        #[trigger] final(self).override_core_is(k, f, out) == handler.core_is(f, out)
                    &&& forall|s: Seq<char>, f: AbiFunction, out: Seq<char>|
                        s != k && old(self).has_override(s) ==> #[trigger] final(self).override_core_is(s, f, out)
                            == old(self).override_core_is(s, f, out)
                    &&& forall|s: Seq<char>|
                        s != k ==> #[trigger] final(self).has_override(s) == old(self).has_override(s)
                    &&& forall|s: Seq<char>, f: AbiFunction|
                        s != k && old(self).has_override(s) ==> #[trigger] final(self).override_core(s, f)
                            == old(self).override_core(s, f) && final(self).override_bridge(s, f) == old(
                            self,
                        ).override_bridge(s, f)
                    &&& forall|s: Seq<char>|
                        #[trigger] final(self).keys().contains(s) <==> (old(self).keys().contains(s) || s == k)
                },
    {
        let sym = handler.symbol();
        let key = String::from_str(sym);
        let ghost k = key@;
        assert(handler.symbol_is(k));
        let e = (None::<DaemonExecveHandler>, handler);
        assert(forall|f: AbiFunction, out: Seq<char>| #[trigger] entry_core_is(e, f, out) == handler.core_is(f, out));
        self.insert_entry(key, e);
    }

    /// Register the daemon's `execve` handler.
    pub(crate) fn register_daemon_handler(&mut self, handler: DaemonExecveHandler)
        ensures
            final(self).has_override("execve"@),
            forall|f: AbiFunction|
                #[trigger] final(self).override_core("execve"@, f) == Some(
                    spec_execve_source(handler.backend_id@, handler.socket_env_var@),
                ),
            forall|f: AbiFunction|
                #[trigger] final(self).override_bridge("execve"@, f) == Some(spec_interposer_bridge(f)),
            forall|s: Seq<char>| s != "execve"@ ==> final(self).has_override(s) == old(self).has_override(s),
            forall|s: Seq<char>, f: AbiFunction|
                s != "execve"@ && old(self).has_override(s) ==> #[trigger] final(self).override_core(s, f)
                    == old(self).override_core(s, f) && final(self).override_bridge(s, f) == old(self).override_bridge(s, f),
            forall|s: Seq<char>| final(self).keys().contains(s) <==> (old(self).keys().contains(s) || s == "execve"@),
    {
        let key = String::from_str("execve");
        let copy = DaemonExecveHandler {
            backend_id: handler.backend_id.clone(),
            socket_env_var: handler.socket_env_var.clone(),
        };
        self.insert_entry(key, (Some(copy), Box::new(handler)));
    }

    fn insert_entry(&mut self, key: String, e: Registered)
        ensures
            final(self).has_override(key@),
            forall|f: AbiFunction| #[trigger] final(self).override_core(key@, f) == entry_core(e, f),
            forall|f: AbiFunction| #[trigger] final(self).override_bridge(key@, f) == entry_bridge(e, f),
            forall|f: AbiFunction, out: Seq<char>| #[trigger] final(self).override_core_is(key@, f, out) == entry_core_is(e, f, out),
            forall|s: Seq<char>, f: AbiFunction, out: Seq<char>|
                s != key@ && old(self).has_override(s) ==> #[trigger] final(self).override_core_is(s, f, out)
                    == old(self).override_core_is(s, f, out),
            forall|s: Seq<char>| s != key@ ==> final(self).has_override(s) == old(self).has_override(s),
            forall|s: Seq<char>, f: AbiFunction|
                s != key@ && old(self).has_override(s) ==> #[trigger] final(self).override_core(s, f)
                    == old(self).override_core(s, f) && final(self).override_bridge(s, f) == old(self).override_bridge(s, f),
            forall|s: Seq<char>| final(self).keys().contains(s) <==> (old(self).keys().contains(s) || s == key@),
    {
        let ghost sym = key@;
        let ghost before = self.overrides@;
        let ghost bk = self.keys();
        let entry = (key, e);
        let ghost ge = entry;
        proof {
            use_type_invariant(&*self);
            lemma_first_some(bk, sym);
        }
        let pos = self.position(entry.0.as_str());
        let mut os: Vec<(String, Registered)> = Vec::new();
        std::mem::swap(&mut os, &mut self.overrides);
        match pos {
            Some(i) => {
                os.set(i, entry);
                assert(override_keys(os@) =~= bk);
                self.overrides = os;
                proof {
                    let after = self.overrides@;
                    assert(after =~= before.update(i as int, ge));
                    let ak = self.keys();
                    assert(ak =~= bk.update(i as int, sym));
                    lemma_first_some(bk, sym);
                    assert forall|k: int| 0 <= k < i implies #[trigger] ak[k] != sym by {
                        assert(ak[k] == bk[k]);
                    }
                    lemma_first_unique(ak, sym, i as int);
                    assert(first_index(self.keys(), sym) == Some(i as int));
                    assert(after[i as int] == ge);
                    assert(after[i as int].1 == ge.1);
                    assert(forall|f: AbiFunction| #[trigger] self.override_core(sym, f) == entry_core(ge.1, f));
                    assert(forall|f: AbiFunction| #[trigger] self.override_bridge(sym, f) == entry_bridge(ge.1, f));
                    assert forall|s: Seq<char>| s != sym implies self.has_override(s) == old(self).has_override(s) && (old(
                        self,
                    ).has_override(s) ==> (forall|f: AbiFunction| #[trigger] self.override_core(s, f) == old(self).override_core(s, f) && self.override_bridge(s, f) == old(self).override_bridge(s, f)) && (forall|f: AbiFunction, out: Seq<char>| #[trigger] self.override_core_is(s, f, out) == old(self).override_core_is(s, f, out))) by {
                        lemma_first_same(bk, ak, s);
                        lemma_first_some(bk, s);
                        if first_index(bk, s) is Some {
                            let j = first_index(bk, s).unwrap();
                            assert(j != i);
                            assert(after[j] == before[j]);
                        }
                    }
                    assert forall|s: Seq<char>| ak.contains(s) <==> (bk.contains(s) || s == sym) by {
                        if ak.contains(s) {
                            let k = choose|k: int| 0 <= k < ak.len() && ak[k] == s;
                            if k != i {
                                assert(bk[k] == s);
                            }
                        }
                        if bk.contains(s) {
                            let k = choose|k: int| 0 <= k < bk.len() && bk[k] == s;
                            if k != i {
                                assert(ak[k] == s);
                            } else {
                                assert(ak[k] == sym);
                            }
                        }
                        if s == sym {
                            assert(ak[i as int] == s);
                        }
                    }
                }
            },
            None => {
                os.push(entry);
                proof {
                    assert(override_keys(os@) =~= bk.push(sym));
                    assert forall|k: int| 0 <= k < bk.len() implies #[trigger] bk[k] != sym by {
                        if bk[k] == sym {
                            assert(bk.contains(sym));
                        }
                    }
                }
                self.overrides = os;
                proof {
                    let after = self.overrides@;
                    assert(after =~= before.push(ge));
                    let ak = self.keys();
                    assert(ak =~= bk.push(sym));
                    lemma_first_some(bk, sym);
                    assert forall|k: int| 0 <= k < bk.len() implies #[trigger] ak[k] != sym by {
                        assert(ak[k] == bk[k]);
                        if bk[k] == sym {
                            assert(bk.contains(sym));
                        }
                    }
                    lemma_first_unique(ak, sym, bk.len() as int);
                    assert(first_index(self.keys(), sym) == Some(bk.len() as int));
                    assert(after[bk.len() as int] == ge);
                    assert(forall|f: AbiFunction| #[trigger] self.override_core(sym, f) == entry_core(ge.1, f));
                    assert(forall|f: AbiFunction| #[trigger] self.override_bridge(sym, f) == entry_bridge(ge.1, f));
                    assert forall|s: Seq<char>| s != sym implies self.has_override(s) == old(self).has_override(s) && (old(
                        self,
                    ).has_override(s) ==> (forall|f: AbiFunction| #[trigger] self.override_core(s, f) == old(self).override_core(s, f) && self.override_bridge(s, f) == old(self).override_bridge(s, f)) && (forall|f: AbiFunction, out: Seq<char>| #[trigger] self.override_core_is(s, f, out) == old(self).override_core_is(s, f, out))) by {
                        lemma_first_same(bk, ak, s);
                        lemma_first_some(bk, s);
                        if first_index(bk, s) is Some {
                            let j = first_index(bk, s).unwrap();
                            assert(after[j] == before[j]);
                        }
                    }
                    assert forall|s: Seq<char>| ak.contains(s) <==> (bk.contains(s) || s == sym) by {
                        if ak.contains(s) {
                            let k = choose|k: int| 0 <= k < ak.len() && ak[k] == s;
                            if k < bk.len() {
                                assert(bk[k] == s);
                            }
                        }
                        if bk.contains(s) {
                            let k = choose|k: int| 0 <= k < bk.len() && bk[k] == s;
                            assert(ak[k] == s);
                        }
                        if s == sym {
                            assert(ak[bk.len() as int] == s);
                        }
                    }
                }
            },
        }
    }

    /// Resolve the handler for `sym`: its override if present, else the
    /// default forward.
    pub fn resolve<'a>(&'a self, sym: &str, func: &'a AbiFunction) -> (r: ResolvedHandler<'a>)
        ensures
            match r {
                ResolvedHandler::Default => !self.has_override(sym@),
                ResolvedHandler::Override(h) => self.has_override(sym@) && h == self.override_handler(sym@),
            },
    {
        match self.position(sym) {
            Some(i) => {
                let entry: &'a (String, Registered) = &self.overrides[i];
                let h: &'a (dyn ShimHandler + 'static) = &*(entry.1).1;
                ResolvedHandler::Override(h)
            },
            None => ResolvedHandler::Default,
        }
    }

    /// Whether any handler (default or override) exists for `sym`.
    pub fn has_impl(spec: &AbiSpec, registry: &Self, sym: &str) -> (r: bool)
        ensures
            r == (find_named(spec.functions@, sym@) is Some || registry.has_override(sym@)),
    {
        if spec.lookup(sym).is_some() {
            return true;
        }
        registry.position(sym).is_some()
    }

    /// Emit core C for `sym`: nothing when the spec lacks it; else the
    /// override's body, or the default weak forward.
    pub fn emit_core(&self, spec: &AbiSpec, sym: &str) -> (r: Option<String>)
        ensures
            match find_named(spec.functions@, sym@) {
                None => r is None,
                Some(f) => r is Some && (!self.has_override(sym@) ==> r.unwrap()@ == spec_weak_forward(f)) && (
                self.has_override(sym@) ==> self.override_core_is(sym@, f, r.unwrap()@)) && (
                self.has_override(sym@) && self.override_core(sym@, f) is Some ==> r.unwrap()@ == self.override_core(
                    sym@,
                    f,
                ).unwrap()),
            },
    {
        let func = match spec.lookup(sym) {
            Some(f) => f,
            None => return None,
        };
        match self.position(sym) {
            Some(i) => Some(entry_emit_core(&self.overrides[i].1, func)),
            None => Some(BridgeSupportForwardHandler.emit_core(func)),
        }
    }

    /// Emit interposer bridge C for `sym`: nothing when the spec lacks it;
    /// the default bridge where no override is registered.
    pub fn emit_interposer_bridge(&self, spec: &AbiSpec, sym: &str) -> (r: Option<String>)
        ensures
            match find_named(spec.functions@, sym@) {
                None => r is None,
                Some(f) => r is Some && (!self.has_override(sym@) ==> r.unwrap()@ == spec_interposer_bridge(f)) && (
                self.has_override(sym@) && self.override_bridge(sym@, f) is Some ==> r.unwrap()@ == self.override_bridge(
                    sym@,
                    f,
                ).unwrap()),
            },
    {
        let func = match spec.lookup(sym) {
            Some(f) => f,
            None => return None,
        };
        match self.position(sym) {
            Some(i) => Some(entry_emit_bridge(&self.overrides[i].1, func)),
            None => Some(emit_default_interposer_bridge(func, false)),
        }
    }

    /// All symbols to emit: the configured symbols plus any override-only
    /// symbols, sorted and deduplicated.
    pub fn symbols_for_codegen(&self, spec: &AbiSpec, config_symbols: &[String]) -> (r: Vec<String>)
        ensures
            strictly_sorted(string_views(r@)),
            forall|x: Seq<char>|
                string_views(r@).contains(x) <==> (string_views(config_symbols@).contains(x)
                    || self.keys().contains(x)),
    {
        let mut all: Vec<&str> = Vec::new();
        let mut i: usize = 0;
        while i < config_symbols.len()
            invariant
                i <= config_symbols@.len(),
                views(all@) == string_views(config_symbols@.take(i as int)),
            decreases config_symbols.len() - i,
        {
            let ghost before = all@;
            let s = config_symbols[i].as_str();
            all.push(s);
            assert(views(all@) =~= views(before).push(s@));
            assert(string_views(config_symbols@.take(i + 1)) =~= string_views(config_symbols@.take(i as int)).push(
                config_symbols@[i as int]@,
            ));
            i = i + 1;
        }
        assert(config_symbols@.take(i as int) =~= config_symbols@);
        let ghost n = all@.len();
        let mut j: usize = 0;
        while j < self.overrides.len()
            invariant
                j <= self.overrides@.len(),
                n == config_symbols@.len(),
                all@.len() == n + j,
                views(all@).take(n as int) == string_views(config_symbols@),
                views(all@).skip(n as int) == override_keys(self.overrides@.take(j as int)),
            decreases self.overrides.len() - j,
        {
            let ghost before = all@;
            let s = self.overrides[j].0.as_str();
            all.push(s);
            assert(views(all@) =~= views(before).push(s@));
            assert(views(all@).take(n as int) =~= views(before).take(n as int));
            assert(views(all@).skip(n as int) =~= views(before).skip(n as int).push(s@));
            assert(override_keys(self.overrides@.take(j + 1)) =~= override_keys(self.overrides@.take(j as int)).push(
                self.overrides@[j as int].0@,
            ));
            j = j + 1;
        }
        assert(self.overrides@.take(j as int) =~= self.overrides@);
        let sorted = sorted_unique(&all);
        let mut out: Vec<String> = Vec::new();
        let mut k: usize = 0;
        while k < sorted.len()
            invariant
                k <= sorted@.len(),
                string_views(out@) == views(sorted@).take(k as int),
            decreases sorted.len() - k,
        {
            let ghost before = out@;
            out.push(String::from_str(sorted[k]));
            assert(string_views(out@) =~= string_views(before).push(sorted@[k as int]@));
            assert(views(sorted@).take(k + 1) =~= views(sorted@).take(k as int).push(sorted@[k as int]@));
            k = k + 1;
        }
        assert(views(sorted@).take(k as int) =~= views(sorted@));
        proof {
            let va = views(all@);
            assert(va =~= va.take(n as int) + va.skip(n as int));
            assert forall|x: Seq<char>| va.contains(x) <==> (string_views(config_symbols@).contains(x) || self.keys().contains(x)) by {
                lemma_contains_concat(va.take(n as int), va.skip(n as int), x);
            }
        }
        out
    }
}

proof fn lemma_contains_concat(a: Seq<Seq<char>>, b: Seq<Seq<char>>, x: Seq<char>)
    ensures
        (a + b).contains(x) <==> (a.contains(x) || b.contains(x)),
{
    if (a + b).contains(x) {
        let k = choose|k: int| 0 <= k < (a + b).len() && (a + b)[k] == x;
        if k < a.len() {
            assert(a[k] == x);
        } else {
            assert(b[k - a.len()] == x);
        }
    }
    if a.contains(x) {
        let k = choose|k: int| 0 <= k < a.len() && a[k] == x;
        assert((a + b)[k] == x);
    }
    if b.contains(x) {
        let k = choose|k: int| 0 <= k < b.len() && b[k] == x;
        assert((a + b)[a.len() + k] == x);
    }
}

/// The default interposer export for `func`: a lazily resolved pointer to
/// the next (real) definition, a `__os_interpose_{sym}` wrapper calling
/// `os_shim_{sym}`, a Mach-O interpose tuple, and on ELF a public
/// `{sym}` calling the wrapper.
pub open spec fn spec_interposer_bridge(func: AbiFunction) -> Seq<char> {
    let sym = func.name@;
    let shim = spec_os_shim_name(sym);
    let ret_ty = spec_c_return_type(func);
    let params = spec_c_param_list(func);
    let args = spec_c_arg_names(func);
    let wrapper = "__os_interpose_"@ + sym;
    let void = ret_ty == "void"@;
    let part1 = "/* @generated interposer bridge — "@ + sym + " */\n#include \"os_shim.h\"\n#include <dlfcn.h>\n\n"@;
    let part2 = part1 + "typedef "@ + ret_ty + " (*__os_real_"@ + sym + "_t)("@ + params
        + ");\nstatic __os_real_"@ + sym + "_t __os_real_"@ + sym + ";\n\n"@;
    let part3 = part2 + "static __os_real_"@ + sym + "_t __os_load_"@ + sym + "(void) {\n    if (!__os_real_"@
        + sym + ") {\n        __os_real_"@ + sym + " = (__os_real_"@ + sym
        + "_t)dlsym(RTLD_NEXT, \""@ + sym + "\");\n    }\n    return __os_real_"@ + sym + ";\n}\n\n"@;
    let part4 = if void {
        part3 + ret_ty + " "@ + wrapper + "("@ + params + ") {\n    "@ + shim + "("@ + args + ");\n}\n\n"@
    } else {
        part3 + ret_ty + " "@ + wrapper + "("@ + params + ") {\n    return "@ + shim + "("@ + args
            + ");\n}\n\n"@
    };
    let part5 = part4 + "#if defined(__APPLE__)\n#include <stddef.h>\n"@
        + "struct __interpose_tuple {\n    const void *replacement;\n    const void *replacee;\n};\n"@;
    let part6 = part5 + "__attribute__((used)) static struct __interpose_tuple __os_interpose_"@ + sym
        + "_tuple\n    __attribute__((section(\"__DATA,__interpose\"))) = {\n    (const void *)&"@ + wrapper
        + ",\n    (const void *)&"@ + sym + ",\n};\n#endif\n"@;
    let part7 = part6 + "#if !defined(__APPLE__)\n__attribute__((visibility(\"default\"))) "@;
    if void {
        part7 + ret_ty + " "@ + sym + "("@ + params + ") {\n    "@ + wrapper + "("@ + args + ");\n}\n#endif\n"@
    } else {
        part7 + ret_ty + " "@ + sym + "("@ + params + ") {\n    return "@ + wrapper + "("@ + args
            + ");\n}\n#endif\n"@
    }
}

/// The Mach-O interpose record for `sym`: its replacement is the wrapper
/// `__os_interpose_{sym}` and its replacee the real `{sym}`, in that order.
pub open spec fn interpose_record(sym: Seq<char>) -> Seq<char> {
    "_tuple\n    __attribute__((section(\"__DATA,__interpose\"))) = {\n    (const void *)&"@ + "__os_interpose_"@ + sym
        + ",\n    (const void *)&"@ + sym + ",\n};\n#endif\n"@
}

/// The interposer bridge for `func` holds the interpose record that makes
/// dyld route calls of the real symbol to the wrapper (replacement first,
/// replacee second).
#[verifier::rlimit(100)]
pub proof fn lemma_bridge_interposes_wrapper(func: AbiFunction)
    ensures
        exists|i: int|
            0 <= i && i + interpose_record(func.name@).len() <= spec_interposer_bridge(func).len()
                && #[trigger] spec_interposer_bridge(func).subrange(i, i + interpose_record(func.name@).len())
                == interpose_record(func.name@),
{
    let sym = func.name@;
    let shim = spec_os_shim_name(sym);
    let ret_ty = spec_c_return_type(func);
    let params = spec_c_param_list(func);
    let args = spec_c_arg_names(func);
    let wrapper = "__os_interpose_"@ + sym;
    let void = ret_ty == "void"@;
    let part1 = "/* @generated interposer bridge — "@ + sym + " */\n#include \"os_shim.h\"\n#include <dlfcn.h>\n\n"@;
    let part2 = part1 + "typedef "@ + ret_ty + " (*__os_real_"@ + sym + "_t)("@ + params
        + ");\nstatic __os_real_"@ + sym + "_t __os_real_"@ + sym + ";\n\n"@;
    let part3 = part2 + "static __os_real_"@ + sym + "_t __os_load_"@ + sym + "(void) {\n    if (!__os_real_"@
        + sym + ") {\n        __os_real_"@ + sym + " = (__os_real_"@ + sym
        + "_t)dlsym(RTLD_NEXT, \""@ + sym + "\");\n    }\n    return __os_real_"@ + sym + ";\n}\n\n"@;
    let part4 = if void {
        part3 + ret_ty + " "@ + wrapper + "("@ + params + ") {\n    "@ + shim + "("@ + args + ");\n}\n\n"@
    } else {
        part3 + ret_ty + " "@ + wrapper + "("@ + params + ") {\n    return "@ + shim + "("@ + args
            + ");\n}\n\n"@
    };
    let part5 = part4 + "#if defined(__APPLE__)\n#include <stddef.h>\n"@
        + "struct __interpose_tuple {\n    const void *replacement;\n    const void *replacee;\n};\n"@;
    let x = part5 + "__attribute__((used)) static struct __interpose_tuple __os_interpose_"@ + sym;
    let t = interpose_record(sym);
    let part6 = x + "_tuple\n    __attribute__((section(\"__DATA,__interpose\"))) = {\n    (const void *)&"@ + wrapper
        + ",\n    (const void *)&"@ + sym + ",\n};\n#endif\n"@;
    assert(part6 =~= x + t);
    let out = spec_interposer_bridge(func);
    let y = out.subrange(part6.len() as int, out.len() as int);
    assert(out.subrange(0, part6.len() as int) =~= part6);
    assert(out.subrange(x.len() as int, (x.len() + t.len()) as int) =~= t);
}

/// Default interposer export: public `{sym}` wrapper calling `os_shim_{sym}`.
pub fn emit_default_interposer_bridge(func: &AbiFunction, _is_override: bool) -> (r: String)
    ensures
        r@ == spec_interposer_bridge(*func),
{
    let sym = func.name.as_str();
    let shim = os_shim_name(sym);
    let ret_ty = c_return_type(func);
    let params = c_param_list(func);
    let args = c_arg_names(func);
    let mut wrapper = String::from_str("__os_interpose_");
    wrapper.append(sym);
    let void = str_eq(ret_ty, "void");

    let mut out = String::from_str("/* @generated interposer bridge — ");
    out.append(sym);
    out.append(" */\n#include \"os_shim.h\"\n#include <dlfcn.h>\n\n");

    out.append("typedef ");
    out.append(ret_ty);
    out.append(" (*__os_real_");
    out.append(sym);
    out.append("_t)(");
    out.append(params.as_str());
    out.append(");\nstatic __os_real_");
    out.append(sym);
    out.append("_t __os_real_");
    out.append(sym);
    out.append(";\n\n");

    out.append("static __os_real_");
    out.append(sym);
    out.append("_t __os_load_");
    out.append(sym);
    out.append("(void) {\n    if (!__os_real_");
    out.append(sym);
    out.append(") {\n        __os_real_");
    out.append(sym);
    out.append(" = (__os_real_");
    out.append(sym);
    out.append("_t)dlsym(RTLD_NEXT, \"");
    out.append(sym);
    out.append("\");\n    }\n    return __os_real_");
    out.append(sym);
    out.append(";\n}\n\n");

    out.append(ret_ty);
    out.append(" ");
    out.append(wrapper.as_str());
    out.append("(");
    out.append(params.as_str());
    if void {
        out.append(") {\n    ");
    } else {
        out.append(") {\n    return ");
    }
    out.append(shim.as_str());
    out.append("(");
    out.append(args.as_str());
    out.append(");\n}\n\n");

    out.append("#if defined(__APPLE__)\n#include <stddef.h>\n");
    out.append("struct __interpose_tuple {\n    const void *replacement;\n    const void *replacee;\n};\n");
    out.append("__attribute__((used)) static struct __interpose_tuple __os_interpose_");
    out.append(sym);
    out.append("_tuple\n    __attribute__((section(\"__DATA,__interpose\"))) = {\n    (const void *)&");
    out.append(wrapper.as_str());
    out.append(",\n    (const void *)&");
    out.append(sym);
    out.append(",\n};\n#endif\n");

    out.append("#if !defined(__APPLE__)\n__attribute__((visibility(\"default\"))) ");
    out.append(ret_ty);
    out.append(" ");
    out.append(sym);
    out.append("(");
    out.append(params.as_str());
    if void {
        out.append(") {\n    ");
    } else {
        out.append(") {\n    return ");
    }
    out.append(wrapper.as_str());
    out.append("(");
    out.append(args.as_str());
    out.append(");\n}\n#endif\n");
    out
}

} // verus!
