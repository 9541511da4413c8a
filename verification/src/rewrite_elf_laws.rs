//! Laws of the ELF rewrite: what the entries it adds point at.
use vstd::prelude::*;
use vstd::utf8::*;

use crate::bytes::{le_at, le_bytes, splice};
use crate::rewrite_elf::{
    appended_strings, apply_rewrite, dynamic_section, grow_strsz, program_headers, scan_dynamic, spec_rewrite_elf, slots_free, strsz_entry,
    with_new_entries, DynamicSection, RewriteError, DT_NEEDED, DT_NULL, DT_RUNPATH, DT_STRSZ, DT_STRTAB,
};

verus! {


proof fn lemma_scan_terminator(b: Seq<u8>, off: int, end: int, st: Option<u64>, sz: Option<u64>)
    requires
        0 <= off,
        end <= u64::MAX,
        scan_dynamic(b, off, end, st, sz) matches Ok(sc) && sc.terminator is Some,
    ensures
        ({
            let t = scan_dynamic(b, off, end, st, sz)->Ok_0.terminator.unwrap() as int;
            &&& off <= t
            &&& t + 16 <= end
            &&& (t - off) % 16 == 0
            &&& le_at(b, t, 8) == Some(DT_NULL)
            &&& forall|q: int|
                off <= q < t && (q - off) % 16 == 0 ==> (#[trigger] le_at(b, q, 8) matches Some(tag) && tag
                    != DT_NULL)
        }),
    decreases end - off,
{
    if off + 16 <= end {
        if let (Some(tag), Some(val)) = (le_at(b, off, 8), le_at(b, off + 8, 8)) {
            if tag != DT_NULL {
                let (st2, sz2) = if tag == DT_STRTAB {
                    (Some(val), sz)
                } else if tag == DT_STRSZ {
                    (st, Some(val))
                } else {
                    (st, sz)
                };
                assert(scan_dynamic(b, off, end, st, sz) == scan_dynamic(b, off + 16, end, st2, sz2));
                lemma_scan_terminator(b, off + 16, end, st2, sz2);
                let t = scan_dynamic(b, off, end, st, sz)->Ok_0.terminator.unwrap() as int;
                assert forall|q: int|
                    off <= q < t && (q - off) % 16 == 0 implies (#[trigger] le_at(b, q, 8) matches Some(tg)
                        && tg != DT_NULL) by {
                    if q > off {
                        assert((q - (off + 16)) % 16 == 0);
                    }
                }
            }
        }
    }
}

proof fn lemma_strsz_before(bb: Seq<u8>, pos: int, term: int, rp: bool)
    requires
        0 <= pos <= term,
        (term - pos) % 16 == 0,
        forall|q: int|
            pos <= q < term && (q - pos) % 16 == 0 ==> (#[trigger] le_at(bb, q, 8) matches Some(tag) && tag
                != DT_NULL),
        term + 16 <= bb.len(),
        le_at(bb, term, 8) == Some(DT_NEEDED),
        rp ==> term + 32 <= bb.len() && le_at(bb, term + 16, 8) == Some(DT_RUNPATH) && le_at(bb, term + 32, 8)
            == Some(DT_NULL),
        !rp ==> le_at(bb, term + 16, 8) == Some(DT_NULL),
    ensures
        strsz_entry(bb, pos) matches Ok(Some(o)) ==> pos <= o && o + 16 <= term,
    decreases term - pos,
{
    if pos < term {
        assert(le_at(bb, pos, 8) matches Some(tag) && tag != DT_NULL);
        let tag = le_at(bb, pos, 8).unwrap();
        if tag != DT_STRSZ {
            assert forall|q: int|
                pos + 16 <= q < term && (q - (pos + 16)) % 16 == 0 implies (#[trigger] le_at(bb, q, 8) matches Some(
                tg,
            ) && tg != DT_NULL) by {
                assert((q - pos) % 16 == 0);
            }
            lemma_strsz_before(bb, pos + 16, term, rp);
        }
    } else {
        if rp {
            assert(strsz_entry(bb, term + 32) == Ok::<Option<int>, RewriteError>(None));
            assert(strsz_entry(bb, term + 16) == Ok::<Option<int>, RewriteError>(None));
        } else {
            assert(strsz_entry(bb, term + 16) == Ok::<Option<int>, RewriteError>(None));
        }
    }
}

proof fn lemma_le_at_same(a: Seq<u8>, b: Seq<u8>, off: int)
    requires
        0 <= off,
        off + 8 <= a.len(),
        a.len() == b.len(),
        forall|j: int| off <= j < off + 8 ==> a[j] == b[j],
    ensures
        le_at(a, off, 8) == le_at(b, off, 8),
{
    assert(a.subrange(off, off + 8) =~= b.subrange(off, off + 8));
}

proof fn lemma_le_at_splice8(s: Seq<u8>, off: int, v: u64)
    requires
        0 <= off,
        off + 8 <= s.len(),
    ensures
        splice(s, off, le_bytes(v, 8)).len() == s.len(),
        le_at(splice(s, off, le_bytes(v, 8)), off, 8) == Some(v),
{
    let t = splice(s, off, le_bytes(v, 8));
    assert(t.subrange(off, off + 8) =~= le_bytes(v, 8));
    crate::bytes::lemma_le_value_of_bytes(v, 8);
    assert(v & 0xffff_ffff_ffff_ffff == v) by (bit_vector);
}

/// The staged bytes with the new entries, before `DT_STRSZ` grows.
spec fn entries_added(b: Seq<u8>, ds: DynamicSection, needed: Seq<char>, rpath: Option<Seq<char>>) -> Seq<u8> {
    with_new_entries(
        splice(b, ds.strtab_file_offset + ds.strsz, appended_strings(needed, rpath)),
        ds,
        needed,
        rpath is Some,
    )
}

#[verifier::rlimit(100)]
proof fn lemma_entries_added(b: Seq<u8>, ds: DynamicSection, needed: Seq<char>, rpath: Option<Seq<char>>)
    requires
        b.len() <= u64::MAX,
        apply_rewrite(b, ds, needed, rpath) is Ok,
        scan_dynamic(b, ds.offset as int, ds.segment_end as int, None, None) matches Ok(sc) && sc.terminator
            == Some(ds.terminator_offset),
        ({
            let start = ds.strtab_file_offset + ds.strsz;
            let end = start + appended_strings(needed, rpath).len();
            end <= ds.offset || start >= ds.segment_end
        }),
    ensures
        ({
            let out0 = entries_added(b, ds, needed, rpath);
            let term = ds.terminator_offset as int;
            let seg0 = ds.offset as int;
            let start = ds.strtab_file_offset + ds.strsz;
            let ns = appended_strings(needed, rpath);
            let rpath_off = ds.strsz + encode_utf8(needed).len() + 1;
            &&& out0.len() == b.len()
            &&& seg0 <= term
            &&& (term - seg0) % 16 == 0
            &&& term + 16 <= out0.len()
            &&& rpath is Some ==> term + 32 <= out0.len()
            &&& term + 16 * (if rpath is Some { 2int } else { 1int }) <= ds.segment_end
            &&& forall|q: int|
                seg0 <= q < term && (q - seg0) % 16 == 0 ==> (#[trigger] le_at(out0, q, 8) matches Some(tag)
                    && tag != DT_NULL)
            &&& le_at(out0, term, 8) == Some(DT_NEEDED)
            &&& le_at(out0, term + 8, 8) == Some(ds.strsz)
            &&& rpath is Some ==> le_at(out0, term + 16, 8) == Some(DT_RUNPATH) && le_at(out0, term + 24, 8)
                == Some(rpath_off as u64) && le_at(out0, term + 32, 8) == Some(DT_NULL)
            &&& rpath is None ==> le_at(out0, term + 16, 8) == Some(DT_NULL)
            &&& start + ns.len() <= out0.len()
            &&& forall|j: int| 0 <= j < ns.len() ==> out0[start + j] == #[trigger] ns[j]
        }),
{
    let k: int = if rpath is Some { 2 } else { 1 };
    let term = ds.terminator_offset as int;
    let seg0 = ds.offset as int;
    let seg1 = ds.segment_end as int;
    let start = ds.strtab_file_offset + ds.strsz;
    let ns = appended_strings(needed, rpath);
    let n = encode_utf8(needed);
    let has_rpath = rpath is Some;
    lemma_scan_terminator(b, seg0, seg1, None, None);
    assert(term + 16 * (k + 1) <= seg1);
    assert(slots_free(b, term, k) is Ok);
    let staged = splice(b, start, ns);
    assert(staged.len() == b.len());
    assert forall|j: int| 0 <= j < b.len() && (j < start || j >= start + ns.len()) implies staged[j] == b[j] by {}
    let rpath_off = ds.strsz + n.len() + 1;
    let o1 = splice(staged, term, le_bytes(DT_NEEDED, 8));
    let o2 = splice(o1, term + 8, le_bytes(ds.strsz, 8));
    let o3 = splice(o2, term + 16, le_bytes(DT_RUNPATH, 8));
    let o4 = splice(o3, term + 24, le_bytes(rpath_off as u64, 8));
    let out0 = if has_rpath { o4 } else { o2 };
    assert(out0 == entries_added(b, ds, needed, rpath));
    lemma_le_at_splice8(staged, term, DT_NEEDED);
    lemma_le_at_splice8(o1, term + 8, ds.strsz);
    lemma_le_at_splice8(o2, term + 16, DT_RUNPATH);
    lemma_le_at_splice8(o3, term + 24, rpath_off as u64);
    assert forall|j: int| 0 <= j < b.len() && (j < term || j >= term + 16 * k) implies out0[j] == staged[j] by {}
    assert forall|j: int| 0 <= j < ns.len() implies out0[start + j] == #[trigger] ns[j] by {
        assert(staged[start + j] == ns[j]);
    }
    assert(le_at(out0, term, 8) == Some(DT_NEEDED)) by {
        lemma_le_at_same(out0, o1, term);
    }
    assert(le_at(out0, term + 8, 8) == Some(ds.strsz)) by {
        lemma_le_at_same(out0, o2, term + 8);
    }
    if has_rpath {
        assert(le_at(out0, term + 16, 8) == Some(DT_RUNPATH)) by {
            lemma_le_at_same(out0, o3, term + 16);
        }
        assert(le_at(b, term + 32, 8) == Some(0u64));
        assert(le_at(out0, term + 32, 8) == Some(DT_NULL)) by {
            lemma_le_at_same(out0, b, term + 32);
        }
    } else {
        assert(le_at(b, term + 16, 8) == Some(0u64));
        assert(le_at(out0, term + 16, 8) == Some(DT_NULL)) by {
            lemma_le_at_same(out0, b, term + 16);
        }
    }
    assert forall|q: int|
        seg0 <= q < term && (q - seg0) % 16 == 0 implies (#[trigger] le_at(out0, q, 8) matches Some(tag) && tag
            != DT_NULL) by {
        assert(le_at(b, q, 8) matches Some(tag) && tag != DT_NULL);
        lemma_le_at_same(out0, b, q);
    }
}

/// In `out`, the entry at the terminator slot of `ds` is a `DT_NEEDED` whose
/// value is the string-table offset of the NUL-terminated `needed`, and with
/// an rpath the next entry is a `DT_RUNPATH` whose value is the offset of
/// the NUL-terminated rpath.
pub open spec fn entries_name_strings(out: Seq<u8>, ds: DynamicSection, needed: Seq<char>, rpath: Option<Seq<char>>) -> bool {
    let term = ds.terminator_offset as int;
    let strtab = ds.strtab_file_offset as int;
    let n = encode_utf8(needed);
    let vn = le_at(out, term + 8, 8)->Some_0 as int;
    &&& le_at(out, term, 8) == Some(DT_NEEDED)
    &&& le_at(out, term + 8, 8) is Some
    &&& strtab + vn + n.len() < out.len()
    &&& out.subrange(strtab + vn, strtab + vn + n.len()) == n
    &&& out[strtab + vn + n.len()] == 0
    &&& rpath matches Some(r) ==> {
        let rb = encode_utf8(r);
        let vr = le_at(out, term + 24, 8)->Some_0 as int;
        &&& le_at(out, term + 16, 8) == Some(DT_RUNPATH)
        &&& le_at(out, term + 24, 8) is Some
        &&& strtab + vr + rb.len() < out.len()
        &&& out.subrange(strtab + vr, strtab + vr + rb.len()) == rb
        &&& out[strtab + vr + rb.len()] == 0
    }
}

/// A successful rewrite names the right strings: the new `DT_NEEDED`
/// entry's value is the offset in the string table of the NUL-terminated
/// `needed` name, and the new `DT_RUNPATH` entry's value (with an rpath) the
/// offset of the NUL-terminated rpath. This holds where `ds` is the dynamic
/// section of `b` and the appended strings lie outside its segment.
pub proof fn lemma_elf_entries_name_strings(
    b: Seq<u8>,
    ds: DynamicSection,
    needed: Seq<char>,
    rpath: Option<Seq<char>>,
)
    requires
        b.len() <= u64::MAX,
        apply_rewrite(b, ds, needed, rpath) is Ok,
        scan_dynamic(b, ds.offset as int, ds.segment_end as int, None, None) matches Ok(sc) && sc.terminator
            == Some(ds.terminator_offset),
        ({
            let start = ds.strtab_file_offset + ds.strsz;
            let end = start + appended_strings(needed, rpath).len();
            end <= ds.offset || start >= ds.segment_end
        }),
    ensures
        entries_name_strings(apply_rewrite(b, ds, needed, rpath)->Ok_0, ds, needed, rpath),
{
    let term = ds.terminator_offset as int;
    let seg0 = ds.offset as int;
    let seg1 = ds.segment_end as int;
    let start = ds.strtab_file_offset + ds.strsz;
    let ns = appended_strings(needed, rpath);
    let n = encode_utf8(needed);
    let rpath_off = ds.strsz + n.len() + 1;
    lemma_entries_added(b, ds, needed, rpath);
    let out0 = entries_added(b, ds, needed, rpath);
    lemma_strsz_before(out0, seg0, term, rpath is Some);
    let newsz = (ds.strsz + ns.len()) as u64;
    let out = apply_rewrite(b, ds, needed, rpath)->Ok_0;
    assert(out == grow_strsz(out0, seg0, newsz)->Ok_0);
    assert(out.len() == out0.len());
    assert forall|j: int| 0 <= j < out.len() && (j >= term || j < seg0) implies out[j] == out0[j] by {
        if let Ok(Some(o)) = strsz_entry(out0, seg0) {
            assert(out == splice(out0, o + 8, le_bytes(newsz, 8)));
        }
    }
    assert forall|j: int| 0 <= j < ns.len() implies out[start + j] == #[trigger] ns[j] by {
        assert(out0[start + j] == ns[j]);
        if start >= seg1 {
            assert(start + j >= term);
        }
    }
    assert(le_at(out, term, 8) == Some(DT_NEEDED)) by {
        lemma_le_at_same(out, out0, term);
    }
    assert(le_at(out, term + 8, 8) == Some(ds.strsz)) by {
        lemma_le_at_same(out, out0, term + 8);
    }
    let tail = match rpath {
        Some(r) => encode_utf8(r) + seq![0u8],
        None => Seq::empty(),
    };
    assert(ns =~= n + seq![0u8] + tail);
    assert(out.subrange(start, start + n.len()) =~= n) by {
        assert forall|j: int| 0 <= j < n.len() implies out[start + j] == n[j] by {
            assert(ns[j] == n[j]);
        }
    }
    assert(out[start + n.len()] == 0) by {
        assert(ns[n.len() as int] == 0);
    }
    if let Some(r) = rpath {
        let rb = encode_utf8(r);
        assert(le_at(out, term + 16, 8) == Some(DT_RUNPATH)) by {
            lemma_le_at_same(out, out0, term + 16);
        }
        assert(le_at(out, term + 24, 8) == Some(rpath_off as u64)) by {
            lemma_le_at_same(out, out0, term + 24);
        }
        assert(out.subrange(start + n.len() + 1, start + n.len() + 1 + rb.len()) =~= rb) by {
            assert forall|j: int| 0 <= j < rb.len() implies out[start + n.len() + 1 + j] == rb[j] by {
                assert(ns[n.len() + 1 + j] == rb[j]);
            }
        }
        assert(out[start + n.len() + 1 + rb.len()] == 0) by {
            assert(ns[(n.len() + 1 + rb.len()) as int] == 0);
        }
    }
}

/// The same for the whole rewrite: a successful `rewrite_elf` adds a
/// `DT_NEEDED` naming `needed` and, with an rpath, a `DT_RUNPATH` naming the
/// rpath, where the appended strings lie outside the dynamic segment.
pub proof fn lemma_rewrite_elf_names_strings(b: Seq<u8>, needed: Seq<char>, rpath: Option<Seq<char>>)
    requires
        b.len() <= u64::MAX,
        spec_rewrite_elf(b, needed, rpath) is Ok,
        ({
            let ds = dynamic_section(b, program_headers(b)->Ok_0)->Ok_0;
            let start = ds.strtab_file_offset + ds.strsz;
            let end = start + appended_strings(needed, rpath).len();
            end <= ds.offset || start >= ds.segment_end
        }),
    ensures
        entries_name_strings(
            spec_rewrite_elf(b, needed, rpath)->Ok_0,
            dynamic_section(b, program_headers(b)->Ok_0)->Ok_0,
            needed,
            rpath,
        ),
{
    let hs = program_headers(b)->Ok_0;
    let ds = dynamic_section(b, hs)->Ok_0;
    lemma_elf_entries_name_strings(b, ds, needed, rpath);
}

} // verus!
