//! macOS code-signing decisions for the simple rewriter: reading what
//! `codesign` reports, and building the entitlements and library-constraint
//! plists and argument lists it is run with. Two methods: a real identity
//! (constraint on team and signing identifier) or ad hoc (constraint on the
//! shim's code-directory hash, with library validation disabled on the
//! rewritten executable only).
use vstd::prelude::*;
use vstd::string::*;
use vstd::utf8::*;

use crate::text::{
    chars_of, find_first, find_in, push_char, starts_with, str_eq, trim, trim_start, trimmed_tail,
};

verus! {

/// Which of the two signing methods to use.
#[derive(Debug, Clone)]
pub enum SigningIdentity {
    /// A real Developer-ID/Apple-development/enterprise identity string
    /// passed to `codesign --sign`.
    Real(String),
    /// Ad hoc, local development only.
    AdHoc,
}

impl SigningIdentity {
    /// The `--sign` argument: the identity, or `-` for ad hoc.
    pub fn codesign_arg(&self) -> (r: &str)
        ensures
            r@ == match self {
                SigningIdentity::Real(s) => s@,
                SigningIdentity::AdHoc => "-"@,
            },
    {
        match self {
            SigningIdentity::Real(s) => s.as_str(),
            SigningIdentity::AdHoc => "-",
        }
    }

    pub fn is_adhoc(&self) -> (r: bool)
        ensures
            r == (self is AdHoc),
    {
        match self {
            SigningIdentity::AdHoc => true,
            SigningIdentity::Real(_) => false,
        }
    }
}

/// Entitlements carried forward from the original (pre-rewrite) binary:
/// rewriting must not silently grant or drop these.
#[derive(Debug, Clone, Copy, Default, PartialEq, Eq)]
pub struct EntitlementPolicy {
    pub allow_jit: bool,
    pub allow_unsigned_executable_memory: bool,
    /// The original binary's `get-task-allow`; re-granted only where the
    /// daemon also allows it.
    pub get_task_allow: bool,
}

#[derive(Debug)]
pub enum SignError {
    CodesignNotFound,
    CommandFailed(String),
    ParseFailed(String),
}

impl SignError {
    /// Human-readable description.
    pub fn message(&self) -> (r: String)
        ensures
            r@ == match self {
                SignError::CodesignNotFound => "codesign not found"@,
                SignError::CommandFailed(e) => "codesign command failed: "@ + e@,
                SignError::ParseFailed(e) => "failed to parse codesign output: "@ + e@,
            },
    {
        match self {
            SignError::CodesignNotFound => String::from_str("codesign not found"),
            SignError::CommandFailed(e) => {
                let mut out = String::from_str("codesign command failed: ");
                out.append(e.as_str());
                out
            },
            SignError::ParseFailed(e) => {
                let mut out = String::from_str("failed to parse codesign output: ");
                out.append(e.as_str());
                out
            },
        }
    }
}

/// Signing identity extracted from the shim dylib, used to build the
/// rewritten executable's library constraint.
#[derive(Debug, Clone)]
pub struct ShimSigningInfo {
    /// `None` under an ad-hoc identity ("not set").
    pub team_identifier: Option<String>,
    pub identifier: String,
    /// The shim's code-directory hash as the 40-hex-character
    /// `CandidateCDHash sha256=` value.
    pub cdhash_sha256: String,
}

// ---------------------------------------------------------------------------
// Plist reading
// ---------------------------------------------------------------------------

/// `<key>{key}</key>`.
pub open spec fn key_marker(key: Seq<char>) -> Seq<char> {
    "<key>"@ + key + "</key>"@
}

/// Whether the first `<key>{key}</key>` in `xml` is followed, after any
/// whitespace, by `<true/>`.
pub open spec fn spec_plist_bool(xml: Seq<char>, key: Seq<char>) -> bool {
    match find_first(xml, key_marker(key)) {
        None => false,
        Some(i) => starts_with(trim_start(xml.skip(i + key_marker(key).len())), "<true/>"@),
    }
}

fn prefix_at(cs: &Vec<char>, at: usize, p: &str) -> (r: bool)
    requires
        at <= cs@.len(),
    ensures
        r == starts_with(cs@.skip(at as int), p@),
{
    let cp = chars_of(p);
    if cp.len() > cs.len() - at {
        return false;
    }
    let m = crate::text::matches_at(cs, &cp, at);
    assert(cs@.skip(at as int).take(cp@.len() as int) =~= cs@.subrange(at as int, at + cp@.len()));
    m
}

/// Scans an entitlements plist for `<key>{key}</key><true/>`, tolerating
/// whitespace between the tags.
pub fn plist_bool(xml: &str, key: &str) -> (r: bool)
    ensures
        r == spec_plist_bool(xml@, key@),
{
    let mut marker = String::from_str("<key>");
    marker.append(key);
    marker.append("</key>");
    let cs = chars_of(xml);
    let cm = chars_of(marker.as_str());
    match find_in(&cs, &cm) {
        None => false,
        Some(i) => {
            let n = cs.len();
            assert(i + cm.len() <= n);
            let after = i + cm.len();
            let start = crate::text::skip_ws(&cs, after);
            prefix_at(&cs, start, "<true/>")
        },
    }
}

/// The entitlements a plist grants: JIT, unsigned executable memory and
/// `get-task-allow`, each where its key is followed by `<true/>`.
pub fn entitlements_from_plist(plist: &str) -> (p: EntitlementPolicy)
    ensures
        p.allow_jit == spec_plist_bool(plist@, "com.apple.security.cs.allow-jit"@),
        p.allow_unsigned_executable_memory == spec_plist_bool(
            plist@,
            "com.apple.security.cs.allow-unsigned-executable-memory"@,
        ),
        p.get_task_allow == spec_plist_bool(plist@, "com.apple.security.get-task-allow"@),
{
    EntitlementPolicy {
        allow_jit: plist_bool(plist, "com.apple.security.cs.allow-jit"),
        allow_unsigned_executable_memory: plist_bool(plist, "com.apple.security.cs.allow-unsigned-executable-memory"),
        get_task_allow: plist_bool(plist, "com.apple.security.get-task-allow"),
    }
}

// ---------------------------------------------------------------------------
// Text encodings
// ---------------------------------------------------------------------------

/// `true` / `false`.
pub open spec fn spec_bool_tag(v: bool) -> Seq<char> {
    if v {
        "true"@
    } else {
        "false"@
    }
}

pub fn bool_tag(v: bool) -> (r: &'static str)
    ensures
        r@ == spec_bool_tag(v),
{
    if v {
        "true"
    } else {
        "false"
    }
}

/// The XML escape of one character.
pub open spec fn escape_char(c: char) -> Seq<char> {
    if c == '&' {
        "&amp;"@
    } else if c == '<' {
        "&lt;"@
    } else if c == '>' {
        "&gt;"@
    } else if c == '"' {
        "&quot;"@
    } else if c == '\'' {
        "&apos;"@
    } else {
        seq![c]
    }
}

/// `s` with `&`, `<`, `>`, `"` and `'` replaced by their XML entities.
pub open spec fn spec_xml_escape(s: Seq<char>) -> Seq<char>
    decreases s.len(),
{
    if s.len() == 0 {
        Seq::empty()
    } else {
        spec_xml_escape(s.drop_last()) + escape_char(s.last())
    }
}

pub fn xml_escape(s: &str) -> (r: String)
    ensures
        r@ == spec_xml_escape(s@),
{
    let cs = chars_of(s);
    let mut out = String::new();
    let mut i: usize = 0;
    while i < cs.len()
        invariant
            i <= cs@.len(),
            cs@ == s@,
            out@ == spec_xml_escape(cs@.take(i as int)),
        decreases cs.len() - i,
    {
        let c = cs[i];
        if c == '&' {
            out.append("&amp;");
        } else if c == '<' {
            out.append("&lt;");
        } else if c == '>' {
            out.append("&gt;");
        } else if c == '"' {
            out.append("&quot;");
        } else if c == '\'' {
            out.append("&apos;");
        } else {
            push_char(&mut out, c);
        }
        assert(cs@.take(i + 1).drop_last() =~= cs@.take(i as int));
        i = i + 1;
    }
    assert(cs@.take(i as int) =~= cs@);
    out
}

/// An ASCII hex digit byte.
pub open spec fn is_hex_byte(b: u8) -> bool {
    (48 <= b <= 57) || (65 <= b <= 70) || (97 <= b <= 102)
}

/// The value of a hex digit byte.
pub open spec fn hex_val(b: u8) -> int {
    if 48 <= b <= 57 {
        b - 48
    } else if 65 <= b <= 70 {
        b - 55
    } else {
        b - 87
    }
}

/// What `u8::from_str_radix(_, 16)` gives for a two-byte string: two hex
/// digits, or `+` and one hex digit.
pub open spec fn pair_value(b0: u8, b1: u8) -> Option<u8> {
    if is_hex_byte(b0) && is_hex_byte(b1) {
        Some((16 * hex_val(b0) + hex_val(b1)) as u8)
    } else if b0 == 43 && is_hex_byte(b1) {
        Some(hex_val(b1) as u8)
    } else {
        None
    }
}

/// Decoding consecutive byte pairs; none if some pair is not a value.
pub open spec fn hex_pairs(b: Seq<u8>) -> Option<Seq<u8>>
    decreases b.len(),
{
    if b.len() < 2 {
        if b.len() == 0 {
            Some(Seq::empty())
        } else {
            None
        }
    } else {
        match pair_value(b[0], b[1]) {
            None => None,
            Some(v) => match hex_pairs(b.skip(2)) {
                None => None,
                Some(rest) => Some(seq![v] + rest),
            },
        }
    }
}

/// A UTF-8 continuation byte (not a character boundary).
pub open spec fn is_continuation(b: u8) -> bool {
    128 <= b < 192
}

/// Every pair that decoding reaches starts and ends on a character
/// boundary (slicing there cannot fail).
pub open spec fn hex_slices_ok(b: Seq<u8>) -> bool
    decreases b.len(),
{
    if b.len() < 2 {
        true
    } else {
        !is_continuation(b[0]) && (b.len() == 2 || !is_continuation(b[2])) && (pair_value(b[0], b[1]) is None
            || hex_slices_ok(b.skip(2)))
    }
}

/// Hex decoding of `s`'s bytes: none for an odd length or a pair that is
/// not a value.
pub open spec fn spec_hex_decode(s: Seq<u8>) -> Option<Seq<u8>> {
    if s.len() % 2 != 0 {
        None
    } else {
        hex_pairs(s)
    }
}

fn hex_digit(b: u8) -> (r: Option<u8>)
    ensures
        r == (if is_hex_byte(b) {
            Some(hex_val(b) as u8)
        } else {
            None::<u8>
        }),
{
    if b >= 48 && b <= 57 {
        Some(b - 48)
    } else if b >= 65 && b <= 70 {
        Some(b - 55)
    } else if b >= 97 && b <= 102 {
        Some(b - 87)
    } else {
        None
    }
}

fn decode_pair(b0: u8, b1: u8) -> (r: Option<u8>)
    ensures
        r == pair_value(b0, b1),
{
    match (hex_digit(b0), hex_digit(b1)) {
        (Some(h), Some(l)) => Some(16 * h + l),
        (None, Some(l)) => if b0 == 43 {
            Some(l)
        } else {
            None
        },
        _ => None,
    }
}

/// Decodes hex text two bytes at a time, as `u8::from_str_radix(_, 16)`
/// reads each pair.
pub fn hex_decode(s: &str) -> (r: Option<Vec<u8>>)
    requires
        s@.len() > 0 ==> (encode_utf8(s@).len() % 2 != 0 || hex_slices_ok(encode_utf8(s@))),
    ensures
        match r {
            Some(v) => spec_hex_decode(encode_utf8(s@)) == Some(v@),
            None => spec_hex_decode(encode_utf8(s@)) is None,
        },
{
    let b = s.as_bytes();
    if b.len() % 2 != 0 {
        return None;
    }
    let mut out: Vec<u8> = Vec::new();
    let mut i: usize = 0;
    assert(b@.skip(0) =~= b@);
    while i < b.len()
        invariant
            i <= b@.len(),
            i % 2 == 0,
            b@.len() % 2 == 0,
            b@ == encode_utf8(s@),
            hex_pairs(b@) == match hex_pairs(b@.skip(i as int)) {
                None => None,
                Some(rest) => Some(out@ + rest),
            },
        decreases b.len() - i,
    {
        let ghost rest = b@.skip(i as int);
        assert(rest[0] == b@[i as int] && rest[1] == b@[i + 1]);
        assert(rest.skip(2) =~= b@.skip(i + 2));
        match decode_pair(b[i], b[i + 1]) {
            None => return None,
            Some(v) => {
                let ghost before = out@;
                out.push(v);
                proof {
                    match hex_pairs(b@.skip(i + 2)) {
                        None => {},
                        Some(r2) => {
                            assert(before + (seq![v] + r2) =~= out@ + r2);
                        },
                    }
                }
            },
        }
        i = i + 2;
    }
    assert(b@.skip(i as int) =~= Seq::<u8>::empty());
    assert(out@ + Seq::<u8>::empty() =~= out@);
    Some(out)
}

/// The base64 digit for a six-bit value.
pub open spec fn b64_digit(v: u32) -> char {
    if v < 26 {
        (65 + v) as char
    } else if v < 52 {
        (97 + v - 26) as char
    } else if v < 62 {
        (48 + v - 52) as char
    } else if v == 62 {
        '+'
    } else {
        '/'
    }
}

fn b64_char(v: u32) -> (c: char)
    requires
        v < 64,
    ensures
        c == b64_digit(v),
{
    if v < 26 {
        ((65 + v) as u8) as char
    } else if v < 52 {
        ((97 + v - 26) as u8) as char
    } else if v < 62 {
        ((48 + v - 52) as u8) as char
    } else if v == 62 {
        '+'
    } else {
        '/'
    }
}

/// The 24-bit group of up to three bytes (missing bytes are zero).
pub open spec fn group(b0: u8, b1: u8, b2: u8) -> u32 {
    ((b0 as u32) << 16u32) | ((b1 as u32) << 8u32) | (b2 as u32)
}

/// The four output characters for a chunk of `k` (1 to 3) bytes.
pub open spec fn b64_chunk(b0: u8, b1: u8, b2: u8, k: nat) -> Seq<char> {
    let n = group(b0, b1, b2);
    seq![
        b64_digit((n >> 18u32) & 0x3f),
        b64_digit((n >> 12u32) & 0x3f),
        if k > 1 { b64_digit((n >> 6u32) & 0x3f) } else { '=' },
        if k > 2 { b64_digit(n & 0x3f) } else { '=' },
    ]
}

/// Standard base64 with `=` padding.
pub open spec fn spec_base64(d: Seq<u8>) -> Seq<char>
    decreases d.len(),
{
    if d.len() == 0 {
        Seq::empty()
    } else if d.len() == 1 {
        b64_chunk(d[0], 0, 0, 1)
    } else if d.len() == 2 {
        b64_chunk(d[0], d[1], 0, 2)
    } else {
        b64_chunk(d[0], d[1], d[2], 3) + spec_base64(d.skip(3))
    }
}

pub fn base64_encode(data: &[u8]) -> (r: String)
    ensures
        r@ == spec_base64(data@),
{
    let mut out = String::new();
    let mut i: usize = 0;
    assert(data@.skip(0) =~= data@);
    while i < data.len()
        invariant
            i <= data@.len(),
            spec_base64(data@) == out@ + spec_base64(data@.skip(i as int)),
        decreases data.len() - i,
    {
        let ghost rest = data@.skip(i as int);
        let k: usize = if data.len() - i >= 3 { 3 } else { data.len() - i };
        let b0 = data[i];
        let b1 = if k > 1 { data[i + 1] } else { 0 };
        let b2 = if k > 2 { data[i + 2] } else { 0 };
        let n: u32 = ((b0 as u32) << 16u32) | ((b1 as u32) << 8u32) | (b2 as u32);
        assert(((n >> 18u32) & 0x3f) < 64 && ((n >> 12u32) & 0x3f) < 64 && ((n >> 6u32) & 0x3f) < 64 && (n & 0x3f)
            < 64) by (bit_vector);
        let ghost before = out@;
        push_char(&mut out, b64_char((n >> 18u32) & 0x3f));
        push_char(&mut out, b64_char((n >> 12u32) & 0x3f));
        if k > 1 {
            push_char(&mut out, b64_char((n >> 6u32) & 0x3f));
        } else {
            push_char(&mut out, '=');
        }
        if k > 2 {
            push_char(&mut out, b64_char(n & 0x3f));
        } else {
            push_char(&mut out, '=');
        }
        proof {
            assert(out@ =~= before + b64_chunk(b0, b1, b2, k as nat));
            if k == 3 {
                assert(rest.skip(3) =~= data@.skip(i + 3));
                assert(rest[0] == b0 && rest[1] == b1 && rest[2] == b2);
            } else {
                assert(data@.skip(i + k) =~= Seq::<u8>::empty());
                assert(rest[0] == b0);
                if k == 2 {
                    assert(rest[1] == b1);
                }
            }
            assert(out@ + spec_base64(data@.skip(i + k)) =~= before + spec_base64(rest));
        }
        i = i + k;
    }
    assert(data@.skip(i as int) =~= Seq::<u8>::empty());
    assert(out@ + Seq::<char>::empty() =~= out@);
    out
}

// ---------------------------------------------------------------------------
// The signature report
// ---------------------------------------------------------------------------

/// `j` is the first line feed in `s`.
pub open spec fn is_first_nl(s: Seq<char>, j: int) -> bool {
    0 <= j < s.len() && s[j] == '\n' && forall|k: int| 0 <= k < j ==> #[trigger] s[k] != '\n'
}

/// `l` without one trailing carriage return.
pub open spec fn strip_cr(l: Seq<char>) -> Seq<char> {
    if l.len() > 0 && l.last() == '\r' {
        l.drop_last()
    } else {
        l
    }
}

/// The lines of `s`, as `str::lines` gives them: split at each line feed,
/// a carriage return before it dropped, no empty line after a final one.
pub open spec fn lines(s: Seq<char>) -> Seq<Seq<char>>
    decreases s.len(),
{
    if s.len() == 0 {
        Seq::empty()
    } else if exists|j: int| is_first_nl(s, j) {
        let j = choose|j: int| is_first_nl(s, j);
        seq![strip_cr(s.take(j))] + lines(s.skip(j + 1))
    } else {
        seq![s]
    }
}

/// Fields read so far from a report: team, identifier, code-directory hash.
pub type ReportFields = (Option<Seq<char>>, Option<Seq<char>>, Option<Seq<char>>);

/// One report line: a `TeamIdentifier=`, `Identifier=` or
/// `CandidateCDHash sha256=` line sets that field to its trimmed value.
pub open spec fn scan_line(f: ReportFields, line: Seq<char>) -> ReportFields {
    if starts_with(line, "TeamIdentifier="@) {
        (Some(trim(line.skip("TeamIdentifier="@.len() as int))), f.1, f.2)
    } else if starts_with(line, "Identifier="@) {
        (f.0, Some(trim(line.skip("Identifier="@.len() as int))), f.2)
    } else if starts_with(line, "CandidateCDHash sha256="@) {
        (f.0, f.1, Some(trim(line.skip("CandidateCDHash sha256="@.len() as int))))
    } else {
        f
    }
}

/// The fields after reading `ls` in order, starting from `f`.
pub open spec fn scan_from(f: ReportFields, ls: Seq<Seq<char>>) -> ReportFields
    decreases ls.len(),
{
    if ls.len() == 0 {
        f
    } else {
        scan_from(scan_line(f, ls[0]), ls.drop_first())
    }
}

/// An ASCII hex digit.
pub open spec fn is_hex_char(c: char) -> bool {
    let v = c as int;
    (48 <= v <= 57) || (65 <= v <= 70) || (97 <= v <= 102)
}

/// A usable code-directory hash: forty hex digits.
pub open spec fn is_cdhash(h: Seq<char>) -> bool {
    h.len() == 40 && forall|i: int| 0 <= i < 40 ==> #[trigger] is_hex_char(h[i])
}

/// What a report yields: team (absent when "not set"), identifier and
/// code-directory hash, or the reason it is unusable.
pub open spec fn spec_signing_report(report: Seq<char>) -> Result<ReportFields, Seq<char>> {
    let f = scan_from((None, None, None), lines(report));
    if f.1 is None || f.1.unwrap().len() == 0 {
        Err("no signing identifier"@)
    } else if f.2 is None || !is_cdhash(f.2.unwrap()) {
        Err("no usable SHA-256 code-directory hash"@)
    } else {
        Ok(
            (
                if f.0 == Some("not set"@) {
                    None
                } else {
                    f.0
                },
                f.1,
                f.2,
            ),
        )
    }
}

proof fn lemma_lines_split(s: Seq<char>, j: int)
    requires
        is_first_nl(s, j),
    ensures
        lines(s) == seq![strip_cr(s.take(j))] + lines(s.skip(j + 1)),
{
    let c = choose|c: int| is_first_nl(s, c);
    if c < j {
        assert(s[c] != '\n');
    }
    if j < c {
        assert(s[j] != '\n');
    }
}

proof fn lemma_lines_last(s: Seq<char>)
    requires
        s.len() > 0,
        forall|k: int| 0 <= k < s.len() ==> #[trigger] s[k] != '\n',
    ensures
        lines(s) == seq![s],
{
}

fn line_chars(cs: &Vec<char>, from: usize, to: usize) -> (v: Vec<char>)
    requires
        from <= to <= cs@.len(),
    ensures
        v@ == cs@.subrange(from as int, to as int),
{
    let mut v: Vec<char> = Vec::new();
    let mut k = from;
    while k < to
        invariant
            from <= k <= to <= cs@.len(),
            v@ == cs@.subrange(from as int, k as int),
        decreases to - k,
    {
        v.push(cs[k]);
        k = k + 1;
        assert(v@ =~= cs@.subrange(from as int, k as int));
    }
    v
}

fn opt_view(o: &Option<String>) -> (r: Option<String>)
    ensures
        match r {
            Some(s) => o is Some && s@ == o.unwrap()@,
            None => o is None,
        },
{
    match o {
        Some(s) => Some(String::from_str(s.as_str())),
        None => None,
    }
}

/// The view of an optional string.
pub open spec fn opt_seq(o: Option<String>) -> Option<Seq<char>> {
    match o {
        Some(s) => Some(s@),
        None => None,
    }
}

fn scan_one(line: &Vec<char>, team: &mut Option<String>, ident: &mut Option<String>, cd: &mut Option<String>)
    ensures
        (opt_seq(*final(team)), opt_seq(*final(ident)), opt_seq(*final(cd))) == scan_line(
            (opt_seq(*old(team)), opt_seq(*old(ident)), opt_seq(*old(cd))),
            line@,
        ),
{
    if prefix_at(line, 0, "TeamIdentifier=") {
        assert(line@.skip(0) =~= line@);
        proof {
            reveal_strlit("TeamIdentifier=");
        }
        *team = Some(trimmed_tail(line, 15));
    } else if prefix_at(line, 0, "Identifier=") {
        assert(line@.skip(0) =~= line@);
        proof {
            reveal_strlit("Identifier=");
        }
        *ident = Some(trimmed_tail(line, 11));
    } else if prefix_at(line, 0, "CandidateCDHash sha256=") {
        assert(line@.skip(0) =~= line@);
        proof {
            reveal_strlit("CandidateCDHash sha256=");
        }
        *cd = Some(trimmed_tail(line, 23));
    } else {
        assert(line@.skip(0) =~= line@);
    }
}

fn all_hex(h: &str) -> (r: bool)
    ensures
        r == is_cdhash(h@),
{
    let cs = chars_of(h);
    if cs.len() != 40 {
        return false;
    }
    let mut i: usize = 0;
    while i < 40
        invariant
            cs@ == h@,
            cs@.len() == 40,
            i <= 40,
            forall|k: int| 0 <= k < i ==> #[trigger] is_hex_char(cs@[k]),
        decreases 40 - i,
    {
        let c = cs[i];
        if !((c >= '0' && c <= '9') || (c >= 'A' && c <= 'F') || (c >= 'a' && c <= 'f')) {
            assert(!is_hex_char(h@[i as int]));
            return false;
        }
        i = i + 1;
    }
    true
}

/// Reads team, identifier and code-directory hash from a
/// `codesign -dv --verbose=4` report (later lines win).
pub fn parse_signing_report(report: &str) -> (r: Result<ShimSigningInfo, SignError>)
    ensures
        match spec_signing_report(report@) {
            Ok(f) => r matches Ok(info) && opt_seq(info.team_identifier) == f.0 && Some(info.identifier@) == f.1
                && Some(info.cdhash_sha256@) == f.2,
            Err(m) => r matches Err(SignError::ParseFailed(e)) && e@ == m,
        },
{
    let cs = chars_of(report);
    let n = cs.len();
    let mut team: Option<String> = None;
    let mut ident: Option<String> = None;
    let mut cd: Option<String> = None;
    let ghost fin = scan_from((None, None, None), lines(report@));
    let mut start: usize = 0;
    assert(cs@.skip(0) =~= cs@);
    while start < n
        invariant
            n == cs@.len(),
            start <= n,
            cs@ == report@,
            fin == scan_from((None, None, None), lines(report@)),
            scan_from((opt_seq(team), opt_seq(ident), opt_seq(cd)), lines(cs@.skip(start as int))) == fin,
        decreases n - start,
    {
        let ghost rest = cs@.skip(start as int);
        let mut j = start;
        while j < n && cs[j] != '\n'
            invariant
                start <= j <= n,
                n == cs@.len(),
                forall|k: int| start <= k < j ==> #[trigger] cs@[k] != '\n',
            decreases n - j,
        {
            j = j + 1;
        }
        if j < n {
            let end = if j > start && cs[j - 1] == '\r' { j - 1 } else { j };
            let line = line_chars(&cs, start, end);
            proof {
                assert forall|k: int| 0 <= k < j - start implies #[trigger] rest[k] != '\n' by {
                    assert(rest[k] == cs@[start + k]);
                }
                assert(is_first_nl(rest, j - start));
                lemma_lines_split(rest, j - start);
                assert(strip_cr(rest.take(j - start)) =~= line@);
                assert(rest.skip(j - start + 1) =~= cs@.skip(j + 1));
            }
            scan_one(&line, &mut team, &mut ident, &mut cd);
            start = j + 1;
            proof {
                let ls = lines(rest);
                assert(ls[0] == line@);
                assert(ls.drop_first() =~= lines(cs@.skip(start as int)));
            }
        } else {
            let line = line_chars(&cs, start, n);
            proof {
                assert(rest =~= line@);
                assert forall|k: int| 0 <= k < rest.len() implies #[trigger] rest[k] != '\n' by {
                    assert(rest[k] == cs@[start + k]);
                }
                lemma_lines_last(rest);
                assert(cs@.skip(n as int) =~= Seq::<char>::empty());
                assert(seq![rest].drop_first() =~= Seq::<Seq<char>>::empty());
            }
            scan_one(&line, &mut team, &mut ident, &mut cd);
            start = n;
            proof {
                let ls = lines(rest);
                assert(ls[0] == line@);
                assert(ls.drop_first() =~= lines(cs@.skip(start as int)));
            }
        }
    }
    proof {
        assert(cs@.skip(start as int) =~= Seq::<char>::empty());
    }
    let identifier = match ident {
        Some(s) => {
            if s.as_str().unicode_len() == 0 {
                return Err(SignError::ParseFailed(String::from_str("no signing identifier")));
            }
            s
        },
        None => return Err(SignError::ParseFailed(String::from_str("no signing identifier"))),
    };
    let cdhash = match cd {
        Some(h) => h,
        None => return Err(SignError::ParseFailed(String::from_str("no usable SHA-256 code-directory hash"))),
    };
    if !all_hex(cdhash.as_str()) {
        return Err(SignError::ParseFailed(String::from_str("no usable SHA-256 code-directory hash")));
    }
    let team_identifier = match team {
        Some(t) => {
            if str_eq(t.as_str(), "not set") {
                None
            } else {
                Some(t)
            }
        },
        None => None,
    };
    Ok(ShimSigningInfo { team_identifier, identifier, cdhash_sha256: cdhash })
}

// ---------------------------------------------------------------------------
// Signing the rewritten executable
// ---------------------------------------------------------------------------

/// The two plists the rewritten executable is signed with.
#[derive(Debug, Clone)]
pub struct SignaturePlists {
    pub entitlements: String,
    pub library_constraint: String,
}

/// The XML header both plists open with.
pub open spec fn plist_head() -> Seq<char> {
    "<?xml version=\"1.0\" encoding=\"UTF-8\"?><plist version=\"1.0\"><dict>"@
}

/// The entitlements plist: the three carried-forward entitlements (with
/// `get-task-allow` as given), plus disabled library validation for ad hoc.
pub open spec fn spec_entitlements(carried: EntitlementPolicy, task_allow: bool, adhoc: bool) -> Seq<char> {
    plist_head() + "<key>com.apple.security.cs.allow-jit</key><"@ + spec_bool_tag(carried.allow_jit) + "/>"@
        + "<key>com.apple.security.cs.allow-unsigned-executable-memory</key><"@ + spec_bool_tag(
        carried.allow_unsigned_executable_memory,
    ) + "/>"@ + "<key>com.apple.security.get-task-allow</key><"@ + spec_bool_tag(task_allow) + "/>"@ + (if adhoc {
        "<key>com.apple.security.cs.disable-library-validation</key><true/>"@
    } else {
        Seq::empty()
    }) + "</dict></plist>"@
}

/// The ad-hoc library constraint: the shim's code-directory hash.
pub open spec fn spec_cdhash_constraint(hash: Seq<u8>) -> Seq<char> {
    plist_head() + "<key>cdhash</key><data>"@ + spec_base64(hash) + "</data></dict></plist>"@
}

/// The real-identity library constraint: team and signing identifier.
pub open spec fn spec_identity_constraint(team: Seq<char>, identifier: Seq<char>) -> Seq<char> {
    plist_head() + "<key>team-identifier</key><string>"@ + spec_xml_escape(team)
        + "</string><key>signing-identifier</key><string>"@ + spec_xml_escape(identifier)
        + "</string></dict></plist>"@
}

/// The plists for the rewritten executable, or why they cannot be made.
pub open spec fn spec_signature_plists(
    info: ShimSigningInfo,
    adhoc: bool,
    carried: EntitlementPolicy,
    allow_get_task_allow: bool,
) -> Result<(Seq<char>, Seq<char>), Seq<char>> {
    let task_allow = carried.get_task_allow && allow_get_task_allow;
    if adhoc && info.cdhash_sha256@.len() == 0 {
        Err("shim has no SHA-256 code-directory hash"@)
    } else if !adhoc && info.team_identifier is None {
        Err("shim has no TeamIdentifier; sign it with a real identity or use SigningIdentity::AdHoc"@)
    } else if adhoc {
        match spec_hex_decode(encode_utf8(info.cdhash_sha256@)) {
            None => Err("invalid shim cdhash"@),
            Some(h) => if h.len() != 20 {
                Err("invalid shim cdhash length"@)
            } else {
                Ok((spec_entitlements(carried, task_allow, true), spec_cdhash_constraint(h)))
            },
        }
    } else {
        Ok(
            (
                spec_entitlements(carried, task_allow, false),
                spec_identity_constraint(info.team_identifier.unwrap()@, info.identifier@),
            ),
        )
    }
}

fn append_entitlement(out: &mut String, key_open: &str, v: bool)
    ensures
        final(out)@ == old(out)@ + key_open@ + spec_bool_tag(v) + "/>"@,
{
    out.append(key_open);
    out.append(bool_tag(v));
    out.append("/>");
}

/// Builds the entitlements and library-constraint plists that the
/// rewritten executable is signed with.
pub fn signature_plists(
    shim_info: &ShimSigningInfo,
    identity: &SigningIdentity,
    carried_entitlements: &EntitlementPolicy,
    allow_get_task_allow: bool,
) -> (r: Result<SignaturePlists, SignError>)
    requires
        identity is AdHoc && shim_info.cdhash_sha256@.len() > 0 ==> (encode_utf8(shim_info.cdhash_sha256@).len()
            % 2 != 0 || hex_slices_ok(encode_utf8(shim_info.cdhash_sha256@))),
    ensures
        match spec_signature_plists(*shim_info, identity is AdHoc, *carried_entitlements, allow_get_task_allow) {
            Ok((e, c)) => r matches Ok(p) && p.entitlements@ == e && p.library_constraint@ == c,
            Err(m) => r matches Err(SignError::ParseFailed(e)) && e@ == m,
        },
{
    let adhoc = identity.is_adhoc();
    if adhoc && shim_info.cdhash_sha256.as_str().unicode_len() == 0 {
        return Err(SignError::ParseFailed(String::from_str("shim has no SHA-256 code-directory hash")));
    }
    if !adhoc && shim_info.team_identifier.is_none() {
        return Err(
            SignError::ParseFailed(
                String::from_str(
                    "shim has no TeamIdentifier; sign it with a real identity or use SigningIdentity::AdHoc",
                ),
            ),
        );
    }
    let task_allow = carried_entitlements.get_task_allow && allow_get_task_allow;
    let mut entitlements = String::from_str(
        "<?xml version=\"1.0\" encoding=\"UTF-8\"?><plist version=\"1.0\"><dict>",
    );
    append_entitlement(&mut entitlements, "<key>com.apple.security.cs.allow-jit</key><", carried_entitlements.allow_jit);
    append_entitlement(
        &mut entitlements,
        "<key>com.apple.security.cs.allow-unsigned-executable-memory</key><",
        carried_entitlements.allow_unsigned_executable_memory,
    );
    append_entitlement(&mut entitlements, "<key>com.apple.security.get-task-allow</key><", task_allow);
    let constraint = if adhoc {
        let decoded = match hex_decode(shim_info.cdhash_sha256.as_str()) {
            Some(d) => d,
            None => return Err(SignError::ParseFailed(String::from_str("invalid shim cdhash"))),
        };
        if decoded.len() != 20 {
            return Err(SignError::ParseFailed(String::from_str("invalid shim cdhash length")));
        }
        entitlements.append("<key>com.apple.security.cs.disable-library-validation</key><true/>");
        let mut c = String::from_str(
            "<?xml version=\"1.0\" encoding=\"UTF-8\"?><plist version=\"1.0\"><dict>",
        );
        c.append("<key>cdhash</key><data>");
        c.append(base64_encode(decoded.as_slice()).as_str());
        c.append("</data></dict></plist>");
        c
    } else {
        let team = match &shim_info.team_identifier {
            Some(t) => t.as_str(),
            None => "",
        };
        let mut c = String::from_str(
            "<?xml version=\"1.0\" encoding=\"UTF-8\"?><plist version=\"1.0\"><dict>",
        );
        c.append("<key>team-identifier</key><string>");
        c.append(xml_escape(team).as_str());
        c.append("</string><key>signing-identifier</key><string>");
        c.append(xml_escape(shim_info.identifier.as_str()).as_str());
        c.append("</string></dict></plist>");
        c
    };
    entitlements.append("</dict></plist>");
    proof {
        if adhoc {
            assert(entitlements@ =~= spec_entitlements(*carried_entitlements, task_allow, true));
        } else {
            assert(entitlements@ =~= spec_entitlements(*carried_entitlements, task_allow, false));
        }
    }
    Ok(SignaturePlists { entitlements, library_constraint: constraint })
}

/// Pushes owned copies of `items` onto `out`.
fn push_strs(out: &mut Vec<String>, items: &[&str])
    ensures
        crate::text::string_views(final(out)@) == crate::text::string_views(old(out)@) + crate::text::views(
            items@,
        ),
{
    let mut i: usize = 0;
    while i < items.len()
        invariant
            i <= items@.len(),
            crate::text::string_views(out@) == crate::text::string_views(old(out)@) + crate::text::views(
                items@,
            ).take(i as int),
        decreases items.len() - i,
    {
        let ghost before = out@;
        out.push(String::from_str(items[i]));
        assert(crate::text::string_views(out@) =~= crate::text::string_views(before).push(items@[i as int]@));
        assert(crate::text::views(items@).take(i + 1) =~= crate::text::views(items@).take(i as int).push(
            items@[i as int]@,
        ));
        i = i + 1;
    }
    assert(crate::text::views(items@).take(i as int) =~= crate::text::views(items@));
}

/// `--keychain {kc}` when a keychain is given.
pub open spec fn keychain_args(keychain: Option<Seq<char>>) -> Seq<Seq<char>> {
    match keychain {
        Some(kc) => seq!["--keychain"@, kc],
        None => Seq::empty(),
    }
}

/// The view of an optional string slice.
pub open spec fn opt_str(o: Option<&str>) -> Option<Seq<char>> {
    match o {
        Some(s) => Some(s@),
        None => None,
    }
}

/// Arguments that sign with hardened runtime and no timestamp.
pub open spec fn sign_prefix(identity: SigningIdentity) -> Seq<Seq<char>> {
    seq![
        "--force"@,
        "--sign"@,
        match identity {
            SigningIdentity::Real(s) => s@,
            SigningIdentity::AdHoc => "-"@,
        },
        "--timestamp=none"@,
        "--options"@,
        "runtime"@,
    ]
}

/// `codesign` arguments that sign the shim at `path`.
pub fn shim_sign_args(identity: &SigningIdentity, keychain: Option<&str>, path: &str) -> (r: Vec<String>)
    ensures
        crate::text::string_views(r@) == sign_prefix(*identity) + keychain_args(opt_str(keychain)) + seq![path@],
{
    let mut args: Vec<String> = Vec::new();
    let fixed = [
        "--force",
        "--sign",
        identity.codesign_arg(),
        "--timestamp=none",
        "--options",
        "runtime",
    ];
    push_strs(&mut args, &fixed);
    assert(crate::text::views(fixed@) =~= sign_prefix(*identity));
    match keychain {
        Some(kc) => {
            let k = ["--keychain", kc];
            push_strs(&mut args, &k);
            assert(crate::text::views(k@) =~= keychain_args(opt_str(keychain)));
        },
        None => {
            assert(keychain_args(opt_str(keychain)) =~= Seq::<Seq<char>>::empty());
        },
    }
    let last = [path];
    push_strs(&mut args, &last);
    assert(crate::text::views(last@) =~= seq![path@]);
    args
}

/// `codesign` arguments that sign the rewritten executable at `exe` with
/// the given entitlements and library constraint files.
pub fn executable_sign_args(
    identity: &SigningIdentity,
    entitlements_path: &str,
    constraint_path: &str,
    keychain: Option<&str>,
    exe: &str,
) -> (r: Vec<String>)
    ensures
        crate::text::string_views(r@) == sign_prefix(*identity) + seq![
            "--entitlements"@,
            entitlements_path@,
            "--library-constraint"@,
            constraint_path@,
        ] + keychain_args(opt_str(keychain)) + seq![exe@],
{
    let mut args: Vec<String> = Vec::new();
    let fixed = [
        "--force",
        "--sign",
        identity.codesign_arg(),
        "--timestamp=none",
        "--options",
        "runtime",
    ];
    push_strs(&mut args, &fixed);
    assert(crate::text::views(fixed@) =~= sign_prefix(*identity));
    let files = ["--entitlements", entitlements_path, "--library-constraint", constraint_path];
    push_strs(&mut args, &files);
    assert(crate::text::views(files@) =~= seq![
        "--entitlements"@,
        entitlements_path@,
        "--library-constraint"@,
        constraint_path@,
    ]);
    match keychain {
        Some(kc) => {
            let k = ["--keychain", kc];
            push_strs(&mut args, &k);
            assert(crate::text::views(k@) =~= keychain_args(opt_str(keychain)));
        },
        None => {
            assert(keychain_args(opt_str(keychain)) =~= Seq::<Seq<char>>::empty());
        },
    }
    let last = [exe];
    push_strs(&mut args, &last);
    assert(crate::text::views(last@) =~= seq![exe@]);
    args
}

} // verus!
