use lib::rewrite_elf::{
    read_program_headers, rewrite_elf, vaddr_to_file_offset, ElfRewriteInput, RewriteError, DT_NEEDED, DT_NULL,
    DT_RUNPATH, DT_STRSZ, DT_STRTAB, DYN_ENTRY_SIZE, EHDR_SIZE, EI_CLASS_OFFSET, EI_DATA_OFFSET, ELFCLASS64,
    ELFDATA2LSB, ET_EXEC, PHDR_SIZE, PT_DYNAMIC, PT_LOAD,
};

fn write_u64_le(buf: &mut [u8], off: u64, v: u64) {
    let o = off as usize;
    buf[o..o + 8].copy_from_slice(&v.to_le_bytes());
}

fn read_u64_le(buf: &[u8], off: u64) -> Option<u64> {
    let o = off as usize;
    let b = buf.get(o..o + 8)?;
    Some(u64::from_le_bytes(b.try_into().unwrap()))
}

/// A minimal ELF64 LE `ET_EXEC` with one `PT_LOAD` covering the whole file
/// and a `PT_DYNAMIC` with `DT_STRTAB`, `DT_STRSZ` and `extra_null_slots`
/// spare zero entries after the terminator; `dynstr_padding` zero bytes
/// follow the `strtab_len` used bytes of `.dynstr`.
fn build_test_elf(strtab_len: u64, dynstr_padding: u64, extra_null_slots: u64) -> Vec<u8> {
    const LOAD_VADDR: u64 = 0x1000;
    let phdr_off = EHDR_SIZE;
    let phdr_end = phdr_off + PHDR_SIZE * 2;
    let dynstr_off = phdr_end;
    let dynstr_used_end = dynstr_off + strtab_len;
    let dynstr_end = dynstr_used_end + dynstr_padding;
    let dyn_off = dynstr_end;
    let dyn_entry_count = 3 + extra_null_slots;
    let dyn_filesz = DYN_ENTRY_SIZE * dyn_entry_count;
    let total_len = dyn_off + dyn_filesz;

    let mut buf = vec![0u8; total_len as usize];
    buf[0..4].copy_from_slice(b"\x7fELF");
    buf[EI_CLASS_OFFSET] = ELFCLASS64;
    buf[EI_DATA_OFFSET] = ELFDATA2LSB;
    buf[16..18].copy_from_slice(&(ET_EXEC as u16).to_le_bytes());
    buf[32..40].copy_from_slice(&phdr_off.to_le_bytes());
    buf[54..56].copy_from_slice(&(PHDR_SIZE as u16).to_le_bytes());
    buf[56..58].copy_from_slice(&2u16.to_le_bytes());

    let load_off = phdr_off;
    buf[load_off as usize..load_off as usize + 4].copy_from_slice(&PT_LOAD.to_le_bytes());
    write_u64_le(&mut buf, load_off + 8, 0);
    write_u64_le(&mut buf, load_off + 16, LOAD_VADDR);
    write_u64_le(&mut buf, load_off + 32, total_len);

    let pdyn_off = phdr_off + PHDR_SIZE;
    buf[pdyn_off as usize..pdyn_off as usize + 4].copy_from_slice(&PT_DYNAMIC.to_le_bytes());
    write_u64_le(&mut buf, pdyn_off + 8, dyn_off);
    write_u64_le(&mut buf, pdyn_off + 16, LOAD_VADDR + dyn_off);
    write_u64_le(&mut buf, pdyn_off + 32, dyn_filesz);

    write_u64_le(&mut buf, dyn_off, DT_STRTAB);
    write_u64_le(&mut buf, dyn_off + 8, LOAD_VADDR + dynstr_off);
    write_u64_le(&mut buf, dyn_off + DYN_ENTRY_SIZE, DT_STRSZ);
    write_u64_le(&mut buf, dyn_off + DYN_ENTRY_SIZE + 8, strtab_len);

    for b in buf[dynstr_off as usize..dynstr_used_end as usize].iter_mut() {
        *b = b'a';
    }
    buf
}

#[test]
fn rejects_non_elf() {
    let input = ElfRewriteInput { original: &[0u8; 64], needed_name: "libfoo.so".into(), rpath_entry: None };
    assert_eq!(rewrite_elf(&input), Err(RewriteError::NotExecutableOrPie));
}

#[test]
fn rejects_statically_linked_binary() {
    let mut buf = build_test_elf(8, 32, 0);
    let phdr_off = EHDR_SIZE;
    let pdyn_off = phdr_off + PHDR_SIZE;
    buf[pdyn_off as usize..pdyn_off as usize + 4].copy_from_slice(&4u32.to_le_bytes());
    let input = ElfRewriteInput { original: &buf, needed_name: "libfoo.so".into(), rpath_entry: None };
    assert_eq!(rewrite_elf(&input), Err(RewriteError::NoDynamicSection));
}

#[test]
fn adds_dt_needed_when_slack_available() {
    let original = build_test_elf(8, 32, 1);
    let input = ElfRewriteInput { original: &original, needed_name: "libshim.so".into(), rpath_entry: None };
    let out = rewrite_elf(&input).expect("rewrite should succeed");
    assert_ne!(out, original);
    assert_eq!(original, build_test_elf(8, 32, 1), "input must be untouched");

    let headers = read_program_headers(&out).ok().unwrap();
    let dyn_seg = headers.iter().find(|h| h.p_type == PT_DYNAMIC).unwrap();
    let mut off = dyn_seg.p_offset;
    let mut found_name = None;
    let mut strtab_vaddr = None;
    loop {
        let tag = read_u64_le(&out, off).unwrap();
        let val = read_u64_le(&out, off + 8).unwrap();
        if tag == DT_NULL {
            break;
        }
        if tag == DT_STRTAB {
            strtab_vaddr = Some(val);
        }
        if tag == DT_NEEDED {
            let strtab_file_off = vaddr_to_file_offset(&headers, strtab_vaddr.unwrap()).ok().unwrap();
            let name_off = (strtab_file_off + val) as usize;
            let end = out[name_off..].iter().position(|&b| b == 0).unwrap();
            found_name = Some(String::from_utf8(out[name_off..name_off + end].to_vec()).unwrap());
        }
        off += DYN_ENTRY_SIZE;
    }
    assert_eq!(found_name.as_deref(), Some("libshim.so"));
}

#[test]
fn adds_dt_needed_and_dt_runpath_together() {
    let original = build_test_elf(8, 64, 2);
    let input = ElfRewriteInput {
        original: &original,
        needed_name: "libshim.so".into(),
        rpath_entry: Some("$ORIGIN/x".into()),
    };
    let out = rewrite_elf(&input).expect("rewrite should succeed");

    let headers = read_program_headers(&out).ok().unwrap();
    let dyn_seg = headers.iter().find(|h| h.p_type == PT_DYNAMIC).unwrap();
    let mut off = dyn_seg.p_offset;
    let mut tags = Vec::new();
    loop {
        let tag = read_u64_le(&out, off).unwrap();
        if tag == DT_NULL {
            break;
        }
        tags.push(tag);
        off += DYN_ENTRY_SIZE;
    }
    assert!(tags.contains(&DT_NEEDED));
    assert!(tags.contains(&DT_RUNPATH));
}

#[test]
fn fails_without_enough_spare_dynamic_slots() {
    let original = build_test_elf(8, 32, 0);
    let input = ElfRewriteInput { original: &original, needed_name: "libshim.so".into(), rpath_entry: None };
    assert_eq!(rewrite_elf(&input), Err(RewriteError::NoFreeStringTableSpace));
}

#[test]
fn fails_without_enough_dynstr_padding() {
    let original = build_test_elf(8, 0, 1);
    let input = ElfRewriteInput { original: &original, needed_name: "libshim.so".into(), rpath_entry: None };
    assert_eq!(rewrite_elf(&input), Err(RewriteError::NoFreeStringTableSpace));
}

#[test]
fn grows_strsz_by_the_appended_strings() {
    // "libshim.so\0" is 11 bytes appended after the 8 used bytes.
    let original = build_test_elf(8, 32, 1);
    let input = ElfRewriteInput { original: &original, needed_name: "libshim.so".into(), rpath_entry: None };
    let out = rewrite_elf(&input).unwrap();
    assert_eq!(out.len(), original.len());
    let headers = read_program_headers(&out).ok().unwrap();
    let dyn_seg = headers.iter().find(|h| h.p_type == PT_DYNAMIC).unwrap();
    let mut off = dyn_seg.p_offset;
    let mut strsz = None;
    loop {
        let tag = read_u64_le(&out, off).unwrap();
        if tag == DT_NULL {
            break;
        }
        if tag == DT_STRSZ {
            strsz = read_u64_le(&out, off + 8);
        }
        off += DYN_ENTRY_SIZE;
    }
    assert_eq!(strsz, Some(8 + 11));
}

#[test]
fn rejects_unexpected_phentsize() {
    let mut buf = build_test_elf(8, 32, 1);
    buf[54..56].copy_from_slice(&40u16.to_le_bytes());
    let input = ElfRewriteInput { original: &buf, needed_name: "libfoo.so".into(), rpath_entry: None };
    assert_eq!(rewrite_elf(&input), Err(RewriteError::Malformed("unexpected phentsize")));
}

#[test]
fn rewrite_error_messages() {
    assert_eq!(RewriteError::NoDynamicSection.message(), "no PT_DYNAMIC segment (statically linked?)");
    assert_eq!(RewriteError::Malformed("truncated").message(), "malformed ELF: truncated");
}

#[test]
fn rewrite_keeps_file_length() {
    let original = build_test_elf(8, 64, 2);
    let input = ElfRewriteInput {
        original: &original,
        needed_name: "libshim.so".into(),
        rpath_entry: Some("$ORIGIN".into()),
    };
    let out = rewrite_elf(&input).expect("rewrite should succeed");
    assert_eq!(out.len(), original.len());
}
