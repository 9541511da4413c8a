//! Text helpers shared by the C and JavaScript emitters: character-level
//! equality and ordering of strings, decimal formatting, and sorted,
//! duplicate-free name lists.
use vstd::prelude::*;
use vstd::string::*;

verus! {

/// Appends one character (calls `String::push`).
#[verifier::external_body]
pub fn push_char(s: &mut String, c: char)
    ensures
        final(s)@ == old(s)@.push(c),
{
    s.push(c);
}

/// The characters of `s`, in order.
pub fn chars_of(s: &str) -> (v: Vec<char>)
    ensures
        v@ == s@,
{
    let mut v: Vec<char> = Vec::new();
    for c in it: s.chars()
        invariant
            v@ == it.seq().take(it.index() as int),
            it.seq() == s@,
    {
        v.push(c);
    }
    v
}

/// Whether `a` and `b` hold the same characters.
pub fn str_eq(a: &str, b: &str) -> (r: bool)
    ensures
        r == (a@ == b@),
{
    let ca = chars_of(a);
    let cb = chars_of(b);
    if ca.len() != cb.len() {
        return false;
    }
    let mut i: usize = 0;
    while i < ca.len()
        invariant
            ca@ == a@,
            cb@ == b@,
            ca.len() == cb.len(),
            i <= ca.len(),
            ca@.take(i as int) == cb@.take(i as int),
        decreases ca.len() - i,
    {
        if ca[i] != cb[i] {
            assert(ca@[i as int] != cb@[i as int]);
            return false;
        }
        assert(ca@.take(i + 1) =~= ca@.take(i as int).push(ca@[i as int]));
        assert(cb@.take(i + 1) =~= cb@.take(i as int).push(cb@[i as int]));
        i = i + 1;
    }
    assert(ca@ =~= ca@.take(i as int));
    assert(cb@ =~= cb@.take(i as int));
    true
}

/// The decimal digit character for `d < 10`.
pub open spec fn digit_char(d: nat) -> char {
    ((48 + d) as u32) as char
}

/// Decimal representation of `n`, without leading zeros.
pub open spec fn dec(n: nat) -> Seq<char>
    decreases n,
{
    if n < 10 {
        seq![digit_char(n)]
    } else {
        dec(n / 10).push(digit_char(n % 10))
    }
}

/// Appends the decimal representation of `n`.
pub fn push_dec(s: &mut String, n: u64)
    ensures
        final(s)@ == old(s)@ + dec(n as nat),
    decreases n,
{
    if n >= 10 {
        push_dec(s, n / 10);
    }
    let d = (n % 10) as u8;
    let c = (48u8 + d) as char;
    assert(c == digit_char((n % 10) as nat));
    push_char(s, c);
    assert(s@ =~= old(s)@ + dec(n as nat));
}

/// Lexicographic order on character sequences by code point; for valid
/// UTF-8 this is the order of `str`'s `Ord`.
pub open spec fn lex_lt(a: Seq<char>, b: Seq<char>) -> bool
    decreases a.len(),
{
    if a.len() == 0 {
        b.len() > 0
    } else if b.len() == 0 {
        false
    } else if a[0] != b[0] {
        (a[0] as int) < (b[0] as int)
    } else {
        lex_lt(a.drop_first(), b.drop_first())
    }
}

pub proof fn lemma_lex_irreflexive(a: Seq<char>)
    ensures
        !lex_lt(a, a),
    decreases a.len(),
{
    if a.len() > 0 {
        lemma_lex_irreflexive(a.drop_first());
    }
}

pub proof fn lemma_lex_asymmetric(a: Seq<char>, b: Seq<char>)
    ensures
        lex_lt(a, b) ==> !lex_lt(b, a),
    decreases a.len(),
{
    if a.len() > 0 && b.len() > 0 && a[0] == b[0] {
        lemma_lex_asymmetric(a.drop_first(), b.drop_first());
    }
}

pub proof fn lemma_lex_total(a: Seq<char>, b: Seq<char>)
    ensures
        a != b ==> lex_lt(a, b) || lex_lt(b, a),
    decreases a.len(),
{
    if a.len() == 0 {
        if b.len() == 0 {
            assert(a =~= b);
        }
    } else if b.len() > 0 && a[0] == b[0] {
        lemma_lex_total(a.drop_first(), b.drop_first());
        if a.drop_first() == b.drop_first() {
            assert(a =~= seq![a[0]] + a.drop_first());
            assert(b =~= seq![b[0]] + b.drop_first());
        }
    }
}

pub proof fn lemma_lex_transitive(a: Seq<char>, b: Seq<char>, c: Seq<char>)
    ensures
        lex_lt(a, b) && lex_lt(b, c) ==> lex_lt(a, c),
    decreases a.len(),
{
    if a.len() > 0 && b.len() > 0 && c.len() > 0 && a[0] == b[0] && b[0] == c[0] {
        lemma_lex_transitive(a.drop_first(), b.drop_first(), c.drop_first());
    }
}

proof fn lemma_lex_step(a: Seq<char>, b: Seq<char>, i: int)
    requires
        0 <= i < a.len(),
        i < b.len(),
        a[i] == b[i],
    ensures
        lex_lt(a.skip(i), b.skip(i)) == lex_lt(a.skip(i + 1), b.skip(i + 1)),
{
    assert(a.skip(i).drop_first() =~= a.skip(i + 1));
    assert(b.skip(i).drop_first() =~= b.skip(i + 1));
}

/// Whether `a` sorts strictly before `b`.
pub fn str_lt(a: &str, b: &str) -> (r: bool)
    ensures
        r == lex_lt(a@, b@),
{
    let ca = chars_of(a);
    let cb = chars_of(b);
    let mut i: usize = 0;
    assert(ca@.skip(0) =~= ca@);
    assert(cb@.skip(0) =~= cb@);
    while i < ca.len() && i < cb.len() && ca[i] == cb[i]
        invariant
            ca@ == a@,
            cb@ == b@,
            i <= ca.len(),
            i <= cb.len(),
            lex_lt(a@, b@) == lex_lt(ca@.skip(i as int), cb@.skip(i as int)),
        decreases ca.len() - i,
    {
        proof {
            lemma_lex_step(ca@, cb@, i as int);
        }
        i = i + 1;
    }
    if i == ca.len() {
        i < cb.len()
    } else if i == cb.len() {
        false
    } else {
        assert(ca@.skip(i as int)[0] == ca@[i as int]);
        assert(cb@.skip(i as int)[0] == cb@[i as int]);
        ca[i] < cb[i]
    }
}

pub proof fn lemma_contains_push(s: Seq<Seq<char>>, x: Seq<char>, y: Seq<char>)
    ensures
        s.push(x).contains(y) <==> (s.contains(y) || y == x),
{
    if s.push(x).contains(y) {
        let k = choose|k: int| 0 <= k < s.push(x).len() && s.push(x)[k] == y;
        if k < s.len() {
            assert(s[k] == y);
        }
    }
    if s.contains(y) {
        let k = choose|k: int| 0 <= k < s.len() && s[k] == y;
        assert(s.push(x)[k] == y);
    }
    if y == x {
        assert(s.push(x)[s.len() as int] == y);
    }
}

/// The views of a list of strings.
pub open spec fn views(v: Seq<&str>) -> Seq<Seq<char>> {
    v.map_values(|s: &str| s@)
}

/// The views of a list of owned strings.
pub open spec fn string_views(v: Seq<String>) -> Seq<Seq<char>> {
    v.map_values(|s: String| s@)
}

/// No name occurs twice.
pub open spec fn no_repeats(v: Seq<Seq<char>>) -> bool {
    forall|i: int, j: int| 0 <= i < j < v.len() ==> #[trigger] v[i] != #[trigger] v[j]
}

/// Strictly increasing: sorted with no repeats.
pub open spec fn strictly_sorted(v: Seq<Seq<char>>) -> bool {
    forall|i: int, j: int| 0 <= i < j < v.len() ==> lex_lt(#[trigger] v[i], #[trigger] v[j])
}

/// `names` sorted, with repeats removed.
pub fn sorted_unique<'a>(names: &Vec<&'a str>) -> (r: Vec<&'a str>)
    ensures
        strictly_sorted(views(r@)),
        forall|x: Seq<char>| views(r@).contains(x) <==> views(names@).contains(x),
{
    let mut out: Vec<&'a str> = Vec::new();
    let mut i: usize = 0;
    while i < names.len()
        invariant
            i <= names.len(),
            strictly_sorted(views(out@)),
            forall|x: Seq<char>| views(out@).contains(x) <==> views(names@.take(i as int)).contains(x),
        decreases names.len() - i,
    {
        let x = names[i];
        let ghost old_out = out@;
        // first position whose entry does not sort before x
        let mut p: usize = 0;
        while p < out.len() && str_lt(out[p], x)
            invariant
                p <= out.len(),
                out@ == old_out,
                forall|k: int| 0 <= k < p ==> lex_lt(#[trigger] out@[k]@, x@),
            decreases out.len() - p,
        {
            p = p + 1;
        }
        let dup = p < out.len() && str_eq(out[p], x);
        proof {
            assert(names@.take(i + 1) =~= names@.take(i as int).push(x));
            assert(views(names@.take(i + 1)) =~= views(names@.take(i as int)).push(x@));
        }
        if !dup {
            proof {
                if p < out.len() {
                    lemma_lex_total(out@[p as int]@, x@);
                    assert(lex_lt(x@, out@[p as int]@));
                    assert forall|j: int| p <= j < out.len() implies lex_lt(x@, #[trigger] out@[j]@) by {
                        if j > p {
                            assert(lex_lt(views(out@)[p as int], views(out@)[j]));
                            lemma_lex_transitive(x@, out@[p as int]@, out@[j]@);
                        }
                    }
                }
            }
            out.insert(p, x);
            proof {
                let nv = views(out@);
                assert(nv =~= views(old_out).insert(p as int, x@));
                assert forall|a: int, b: int| 0 <= a < b < nv.len() implies lex_lt(#[trigger] nv[a], #[trigger] nv[b]) by {
                    if a < p && b < p {
                        assert(lex_lt(views(old_out)[a], views(old_out)[b]));
                    } else if a < p && b == p {
                    } else if a < p && b > p {
                        assert(lex_lt(views(old_out)[a], views(old_out)[b - 1]));
                    } else if a == p {
                    } else {
                        assert(lex_lt(views(old_out)[a - 1], views(old_out)[b - 1]));
                    }
                }
                assert forall|y: Seq<char>| nv.contains(y) <==> views(names@.take(i + 1)).contains(y) by {
                    lemma_contains_push(views(names@.take(i as int)), x@, y);
                    if nv.contains(y) {
                        let k = choose|k: int| 0 <= k < nv.len() && nv[k] == y;
                        if k < p {
                            assert(views(old_out)[k] == y);
                        } else if k > p {
                            assert(views(old_out)[k - 1] == y);
                        }
                    }
                    if views(old_out).contains(y) {
                        let k = choose|k: int| 0 <= k < views(old_out).len() && views(old_out)[k] == y;
                        if k < p {
                            assert(nv[k] == y);
                        } else {
                            assert(nv[k + 1] == y);
                        }
                    }
                    if y == x@ {
                        assert(nv[p as int] == y);
                    }
                }
            }
        } else {
            proof {
                assert(views(out@)[p as int] == x@);
                assert forall|y: Seq<char>| views(out@).contains(y) <==> views(names@.take(i + 1)).contains(y) by {
                    lemma_contains_push(views(names@.take(i as int)), x@, y);
                    if y == x@ {
                        assert(views(out@).contains(y));
                    }
                }
            }
        }
        i = i + 1;
    }
    assert(names@.take(i as int) =~= names@);
    out
}

/// `s` with every non-overlapping occurrence of `pat`, scanning from the
/// left, replaced by `rep` (for a non-empty `pat`).
pub open spec fn replace_all(s: Seq<char>, pat: Seq<char>, rep: Seq<char>) -> Seq<char>
    decreases s.len(),
{
    if pat.len() == 0 || s.len() < pat.len() {
        s
    } else if s.take(pat.len() as int) == pat {
        rep + replace_all(s.skip(pat.len() as int), pat, rep)
    } else {
        seq![s[0]] + replace_all(s.drop_first(), pat, rep)
    }
}

pub fn matches_at(cs: &Vec<char>, cp: &Vec<char>, i: usize) -> (r: bool)
    requires
        i + cp@.len() <= cs@.len(),
    ensures
        r == (cs@.subrange(i as int, i + cp@.len()) == cp@),
{
    let n = cs.len();
    let mut j: usize = 0;
    while j < cp.len()
        invariant
            i + cp@.len() <= cs@.len(),
            n == cs@.len(),
            j <= cp@.len(),
            forall|k: int| 0 <= k < j ==> cs@[i + k] == cp@[k],
        decreases cp.len() - j,
    {
        if cs[i + j] != cp[j] {
            assert(cs@.subrange(i as int, i + cp@.len())[j as int] != cp@[j as int]);
            return false;
        }
        j = j + 1;
    }
    assert(cs@.subrange(i as int, i + cp@.len()) =~= cp@);
    true
}

/// `s` with every occurrence of the non-empty `pat` replaced by `rep`,
/// as `str::replace` does.
pub fn replace_str(s: &str, pat: &str, rep: &str) -> (r: String)
    requires
        pat@.len() > 0,
    ensures
        r@ == replace_all(s@, pat@, rep@),
{
    let cs = chars_of(s);
    let cp = chars_of(pat);
    let mut out = String::new();
    let mut i: usize = 0;
    assert(cs@.skip(0) =~= cs@);
    while i < cs.len()
        invariant
            cs@ == s@,
            cp@ == pat@,
            cp@.len() > 0,
            i <= cs@.len(),
            out@ + replace_all(cs@.skip(i as int), pat@, rep@) == replace_all(s@, pat@, rep@),
        decreases cs.len() - i,
    {
        let ghost rest = cs@.skip(i as int);
        if cp.len() <= cs.len() - i && matches_at(&cs, &cp, i) {
            let ghost before = out@;
            out.append(rep);
            proof {
                assert(rest.take(cp@.len() as int) =~= cs@.subrange(i as int, i + cp@.len()));
                assert(rest.skip(cp@.len() as int) =~= cs@.skip(i + cp@.len()));
                assert(before + (rep@ + replace_all(cs@.skip(i + cp@.len()), pat@, rep@)) =~= out@ + replace_all(
                    cs@.skip(i + cp@.len()),
                    pat@,
                    rep@,
                ));
            }
            i = i + cp.len();
        } else {
            let ghost before = out@;
            let c = cs[i];
            push_char(&mut out, c);
            proof {
                if cp@.len() <= cs@.len() - i {
                    assert(rest.take(cp@.len() as int) =~= cs@.subrange(i as int, i + cp@.len()));
                }
                assert(rest.drop_first() =~= cs@.skip(i + 1));
                assert(rest[0] == c);
                assert(before + (seq![c] + replace_all(cs@.skip(i + 1), pat@, rep@)) =~= out@ + replace_all(
                    cs@.skip(i + 1),
                    pat@,
                    rep@,
                ));
            }
            i = i + 1;
        }
    }
    assert(cs@.skip(i as int) =~= Seq::<char>::empty());
    assert(out@ + Seq::<char>::empty() =~= out@);
    out
}

/// `a` and `b` hold the same elements.
pub open spec fn same_elems(a: Seq<Seq<char>>, b: Seq<Seq<char>>) -> bool {
    forall|x: Seq<char>| a.contains(x) <==> b.contains(x)
}

/// The elements of `names`, sorted, without repeats.
pub open spec fn sorted_names(names: Seq<Seq<char>>) -> Seq<Seq<char>> {
    choose|v: Seq<Seq<char>>| strictly_sorted(v) && same_elems(v, names)
}

/// Two strictly sorted lists with the same elements are equal.
pub proof fn lemma_sorted_unique(a: Seq<Seq<char>>, b: Seq<Seq<char>>)
    requires
        strictly_sorted(a),
        strictly_sorted(b),
        same_elems(a, b),
    ensures
        a == b,
    decreases a.len(),
{
    if a.len() == 0 {
        if b.len() > 0 {
            assert(b.contains(b[0]));
        }
        assert(a =~= b);
    } else {
        assert(a.contains(a[0]));
        let j = choose|j: int| 0 <= j < b.len() && b[j] == a[0];
        assert(b.contains(b[0]));
        let k = choose|k: int| 0 <= k < a.len() && a[k] == b[0];
        if j > 0 {
            assert(lex_lt(b[0], b[j]));
            if k > 0 {
                assert(lex_lt(a[0], a[k]));
                lemma_lex_asymmetric(a[0], a[k]);
            } else {
                lemma_lex_irreflexive(a[0]);
            }
        }
        let a1 = a.drop_first();
        let b1 = b.drop_first();
        assert forall|x: Seq<char>| a1.contains(x) <==> b1.contains(x) by {
            if a1.contains(x) {
                let i = choose|i: int| 0 <= i < a1.len() && a1[i] == x;
                assert(a[i + 1] == x);
                assert(lex_lt(a[0], a[i + 1]));
                lemma_lex_irreflexive(x);
                assert(a.contains(x));
                let m = choose|m: int| 0 <= m < b.len() && b[m] == x;
                assert(m != 0);
                assert(b1[m - 1] == x);
            }
            if b1.contains(x) {
                let i = choose|i: int| 0 <= i < b1.len() && b1[i] == x;
                assert(b[i + 1] == x);
                assert(lex_lt(b[0], b[i + 1]));
                lemma_lex_irreflexive(x);
                assert(b.contains(x));
                let m = choose|m: int| 0 <= m < a.len() && a[m] == x;
                assert(m != 0);
                assert(a1[m - 1] == x);
            }
        }
        assert forall|p: int, q: int| 0 <= p < q < a1.len() implies lex_lt(#[trigger] a1[p], #[trigger] a1[q]) by {
            assert(lex_lt(a[p + 1], a[q + 1]));
        }
        assert forall|p: int, q: int| 0 <= p < q < b1.len() implies lex_lt(#[trigger] b1[p], #[trigger] b1[q]) by {
            assert(lex_lt(b[p + 1], b[q + 1]));
        }
        lemma_sorted_unique(a1, b1);
        assert(a =~= seq![a[0]] + a1);
        assert(b =~= seq![b[0]] + b1);
    }
}

/// A strictly sorted list with the elements of `names` is `sorted_names(names)`.
pub proof fn lemma_sorted_names(v: Seq<Seq<char>>, names: Seq<Seq<char>>)
    requires
        strictly_sorted(v),
        same_elems(v, names),
    ensures
        sorted_names(names) == v,
{
    let w = sorted_names(names);
    assert(strictly_sorted(w) && same_elems(w, names));
    assert(same_elems(w, v));
    lemma_sorted_unique(w, v);
}

/// `i` is the first position of `sym` in `keys`.
pub open spec fn is_first(keys: Seq<Seq<char>>, sym: Seq<char>, i: int) -> bool {
    0 <= i < keys.len() && keys[i] == sym && forall|k: int| 0 <= k < i ==> #[trigger] keys[k] != sym
}

/// The first position of `sym` in `keys`, if it occurs.
pub open spec fn first_index(keys: Seq<Seq<char>>, sym: Seq<char>) -> Option<int> {
    if exists|i: int| is_first(keys, sym, i) {
        Some(choose|i: int| is_first(keys, sym, i))
    } else {
        None
    }
}

pub proof fn lemma_first_unique(keys: Seq<Seq<char>>, sym: Seq<char>, i: int)
    requires
        is_first(keys, sym, i),
    ensures
        first_index(keys, sym) == Some(i),
{
    let j = choose|j: int| is_first(keys, sym, j);
    if j < i {
        assert(keys[j] != sym);
    }
    if i < j {
        assert(keys[i] != sym);
    }
}

pub proof fn lemma_first_none(keys: Seq<Seq<char>>, sym: Seq<char>)
    requires
        forall|k: int| 0 <= k < keys.len() ==> #[trigger] keys[k] != sym,
    ensures
        first_index(keys, sym) is None,
{
}

pub proof fn lemma_first_some(keys: Seq<Seq<char>>, sym: Seq<char>)
    ensures
        first_index(keys, sym) is Some <==> keys.contains(sym),
        first_index(keys, sym) is Some ==> is_first(keys, sym, first_index(keys, sym).unwrap()),
{
    if keys.contains(sym) {
        let k = choose|k: int| 0 <= k < keys.len() && keys[k] == sym;
        lemma_first_exists(keys, sym, k);
    }
}

pub proof fn lemma_first_exists(keys: Seq<Seq<char>>, sym: Seq<char>, k: int)
    requires
        0 <= k < keys.len(),
        keys[k] == sym,
    ensures
        exists|i: int| is_first(keys, sym, i),
    decreases k,
{
    if exists|j: int| 0 <= j < k && keys[j] == sym {
        let j = choose|j: int| 0 <= j < k && keys[j] == sym;
        lemma_first_exists(keys, sym, j);
    } else {
        assert(is_first(keys, sym, k));
    }
}

pub proof fn lemma_first_same(k1: Seq<Seq<char>>, k2: Seq<Seq<char>>, s: Seq<char>)
    requires
        k1.len() <= k2.len(),
        forall|k: int| 0 <= k < k2.len() ==> (#[trigger] k2[k] == s <==> (k < k1.len() && k1[k] == s)),
    ensures
        first_index(k1, s) == first_index(k2, s),
{
    lemma_first_some(k1, s);
    if first_index(k1, s) is Some {
        let j = first_index(k1, s).unwrap();
        assert forall|k: int| 0 <= k < j implies #[trigger] k2[k] != s by {
            assert(k1[k] != s);
        }
        assert(k2[j] == s);
        lemma_first_unique(k2, s, j);
    } else {
        assert forall|k: int| 0 <= k < k2.len() implies #[trigger] k2[k] != s by {
            if k < k1.len() && k1[k] == s {
                assert(k1.contains(s));
            }
        }
        lemma_first_none(k2, s);
    }
}


/// Unicode `White_Space`, as `char::is_whitespace` tests it.
pub open spec fn is_ws(c: char) -> bool {
    let v = c as int;
    (9 <= v <= 13) || v == 32 || v == 0x85 || v == 0xA0 || v == 0x1680 || (0x2000 <= v <= 0x200A) || v == 0x2028
        || v == 0x2029 || v == 0x202F || v == 0x205F || v == 0x3000
}

pub fn char_is_ws(c: char) -> (r: bool)
    ensures
        r == is_ws(c),
{
    (c >= '\u{9}' && c <= '\u{d}') || c == ' ' || c == '\u{85}' || c == '\u{a0}' || c == '\u{1680}' || (c
        >= '\u{2000}' && c <= '\u{200a}') || c == '\u{2028}' || c == '\u{2029}' || c == '\u{202f}' || c
        == '\u{205f}' || c == '\u{3000}'
}

/// `s` without leading whitespace.
pub open spec fn trim_start(s: Seq<char>) -> Seq<char>
    decreases s.len(),
{
    if s.len() > 0 && is_ws(s[0]) {
        trim_start(s.drop_first())
    } else {
        s
    }
}

/// `s` without trailing whitespace.
pub open spec fn trim_end(s: Seq<char>) -> Seq<char>
    decreases s.len(),
{
    if s.len() > 0 && is_ws(s.last()) {
        trim_end(s.drop_last())
    } else {
        s
    }
}

/// `s` without leading or trailing whitespace.
pub open spec fn trim(s: Seq<char>) -> Seq<char> {
    trim_end(trim_start(s))
}

/// Index of the first non-whitespace character of `cs` at or after `from`.
pub fn skip_ws(cs: &Vec<char>, from: usize) -> (r: usize)
    requires
        from <= cs@.len(),
    ensures
        from <= r <= cs@.len(),
        trim_start(cs@.skip(from as int)) == cs@.skip(r as int),
{
    let mut i = from;
    while i < cs.len() && char_is_ws(cs[i])
        invariant
            from <= i <= cs@.len(),
            trim_start(cs@.skip(from as int)) == trim_start(cs@.skip(i as int)),
        decreases cs.len() - i,
    {
        assert(cs@.skip(i as int).drop_first() =~= cs@.skip(i + 1));
        i = i + 1;
    }
    assert(i < cs@.len() ==> cs@.skip(i as int)[0] == cs@[i as int]);
    i
}

/// Index just past the last non-whitespace character of `cs` in `from..to`.
fn skip_ws_back(cs: &Vec<char>, from: usize, to: usize) -> (r: usize)
    requires
        from <= to <= cs@.len(),
    ensures
        from <= r <= to,
        trim_end(cs@.subrange(from as int, to as int)) == cs@.subrange(from as int, r as int),
{
    let mut j = to;
    while j > from && char_is_ws(cs[j - 1])
        invariant
            from <= j <= to <= cs@.len(),
            trim_end(cs@.subrange(from as int, to as int)) == trim_end(cs@.subrange(from as int, j as int)),
        decreases j,
    {
        assert(cs@.subrange(from as int, j as int).drop_last() =~= cs@.subrange(from as int, j - 1));
        j = j - 1;
    }
    assert(j > from ==> cs@.subrange(from as int, j as int).last() == cs@[j - 1]);
    j
}

/// The characters `cs[from..]` with surrounding whitespace removed.
pub fn trimmed_tail(cs: &Vec<char>, from: usize) -> (r: String)
    requires
        from <= cs@.len(),
    ensures
        r@ == trim(cs@.skip(from as int)),
{
    let a = skip_ws(cs, from);
    let b = skip_ws_back(cs, a, cs.len());
    assert(cs@.skip(a as int) =~= cs@.subrange(a as int, cs@.len() as int));
    let mut out = String::new();
    let mut k = a;
    while k < b
        invariant
            a <= k <= b <= cs@.len(),
            out@ == cs@.subrange(a as int, k as int),
        decreases b - k,
    {
        push_char(&mut out, cs[k]);
        k = k + 1;
        assert(out@ =~= cs@.subrange(a as int, k as int));
    }
    out
}

/// Whether `s` begins with `p`.
pub open spec fn starts_with(s: Seq<char>, p: Seq<char>) -> bool {
    p.len() <= s.len() && s.take(p.len() as int) == p
}

/// The first position where `m` occurs in `s`.
pub open spec fn find_first(s: Seq<char>, m: Seq<char>) -> Option<int> {
    if exists|i: int| 0 <= i && i + m.len() <= s.len() && #[trigger] s.subrange(i, i + m.len()) == m {
        Some(
            choose|i: int|
                0 <= i && i + m.len() <= s.len() && #[trigger] s.subrange(i, i + m.len()) == m && forall|j: int|
                    0 <= j < i ==> #[trigger] s.subrange(j, j + m.len()) != m,
        )
    } else {
        None
    }
}

/// Position of the first occurrence of `m` in `cs`.
pub fn find_in(cs: &Vec<char>, m: &Vec<char>) -> (r: Option<usize>)
    ensures
        match r {
            Some(i) => find_first(cs@, m@) == Some(i as int) && i + m@.len() <= cs@.len(),
            None => find_first(cs@, m@) is None,
        },
{
    let mut i: usize = 0;
    while i <= cs.len() && m.len() <= cs.len() - i
        invariant
            i <= cs@.len(),
            forall|j: int| 0 <= j < i ==> #[trigger] cs@.subrange(j, j + m@.len()) != m@,
        decreases cs.len() - i,
    {
        if matches_at(cs, m, i) {
            proof {
                let w = i as int;
                assert(0 <= w && w + m@.len() <= cs@.len() && cs@.subrange(w, w + m@.len()) == m@);
                let c = choose|c: int|
                    0 <= c && c + m@.len() <= cs@.len() && #[trigger] cs@.subrange(c, c + m@.len()) == m@ && forall|
                        j: int,
                    | 0 <= j < c ==> #[trigger] cs@.subrange(j, j + m@.len()) != m@;
                assert(forall|j: int| 0 <= j < w ==> #[trigger] cs@.subrange(j, j + m@.len()) != m@);
                if c < w {
                    assert(cs@.subrange(c, c + m@.len()) != m@);
                }
                if w < c {
                    assert(cs@.subrange(w, w + m@.len()) != m@);
                }
            }
            return Some(i);
        }
        assert(m@.len() > 0) by {
            if m@.len() == 0 {
                assert(cs@.subrange(i as int, i as int) =~= m@);
            }
        }
        i = i + 1;
    }
    None
}

} // verus!
