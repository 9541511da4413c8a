use lib::rewrite_macho::{
    rewrite_macho, MachORewriteInput, RewriteError, DYLIB_COMMAND_HEADER_SIZE, HEADER_SIZE, LC_CODE_SIGNATURE,
    LC_LOAD_DYLIB, LINKEDIT_DATA_COMMAND_SIZE, MH_MAGIC_64,
};

fn write_u32_le(buf: &mut [u8], off: u64, v: u32) {
    let o = off as usize;
    buf[o..o + 4].copy_from_slice(&v.to_le_bytes());
}

fn read_u32_le(buf: &[u8], off: u64) -> Option<u32> {
    let o = off as usize;
    let b = buf.get(o..o + 4)?;
    Some(u32::from_le_bytes(b.try_into().unwrap()))
}

/// A thin 64-bit Mach-O: header, one 32-byte `LC_UUID`, and a trailing
/// `LC_CODE_SIGNATURE` ending the load-command table, then
/// `trailing_padding` zero bytes.
fn build_test_macho(trailing_padding: usize) -> Vec<u8> {
    let mut buf = vec![0u8; HEADER_SIZE as usize];
    write_u32_le(&mut buf, 0, MH_MAGIC_64 as u32);

    let uuid_cmd_off = buf.len() as u64;
    buf.extend(vec![0u8; 32]);
    write_u32_le(&mut buf, uuid_cmd_off, 0x1b);
    write_u32_le(&mut buf, uuid_cmd_off + 4, 32);

    let sig_cmd_off = buf.len() as u64;
    buf.extend(vec![0u8; 16]);
    write_u32_le(&mut buf, sig_cmd_off, LC_CODE_SIGNATURE as u32);
    write_u32_le(&mut buf, sig_cmd_off + 4, LINKEDIT_DATA_COMMAND_SIZE as u32);

    let sizeofcmds = (buf.len() as u64 - HEADER_SIZE) as u32;
    write_u32_le(&mut buf, 16, 2);
    write_u32_le(&mut buf, 20, sizeofcmds);

    buf.extend(vec![0u8; trailing_padding]);
    buf
}

#[test]
fn rejects_wrong_magic() {
    let input = MachORewriteInput { original: &[0u8; 64], dylib_load_path: "@executable_path/x".into() };
    assert_eq!(rewrite_macho(&input), Err(RewriteError::NotThin64));
}

#[test]
fn rewrites_when_slot_fits_without_growth() {
    let original = build_test_macho(64);
    let input = MachORewriteInput { original: &original, dylib_load_path: "@executable_path/x".into() };
    let out = rewrite_macho(&input).expect("rewrite should succeed");

    assert_ne!(out, original, "output must differ from a no-op");
    assert_eq!(original.len(), original.to_vec().len(), "input must be untouched");

    let ncmds = read_u32_le(&out, 16).unwrap();
    assert_eq!(ncmds, 2, "LC_CODE_SIGNATURE replaced 1-for-1");

    let sizeofcmds = read_u32_le(&out, 20).unwrap();
    let last_cmd_off = HEADER_SIZE + (sizeofcmds as u64) - {
        let n = input.dylib_load_path.len() as u64 + 1;
        (DYLIB_COMMAND_HEADER_SIZE + n + 7) & !7
    };
    assert_eq!(read_u32_le(&out, last_cmd_off).unwrap(), LC_LOAD_DYLIB as u32);
    let name_off = (last_cmd_off + DYLIB_COMMAND_HEADER_SIZE) as usize;
    let name_len = input.dylib_load_path.len();
    assert_eq!(&out[name_off..name_off + name_len], input.dylib_load_path.as_bytes());
}

#[test]
fn fails_without_enough_padding_to_grow() {
    let original = build_test_macho(0);
    let input = MachORewriteInput { original: &original, dylib_load_path: "@executable_path/x".into() };
    assert_eq!(rewrite_macho(&input), Err(RewriteError::NoPaddingToGrow));
}

#[test]
fn fails_when_padding_is_not_zero() {
    let mut original = build_test_macho(64);
    let table_end = original.len() - 64;
    original[table_end] = 0xff;
    let input = MachORewriteInput { original: &original, dylib_load_path: "@executable_path/x".into() };
    assert_eq!(rewrite_macho(&input), Err(RewriteError::NoPaddingToGrow));
}

#[test]
fn fails_without_a_replaceable_slot() {
    let mut buf = vec![0u8; HEADER_SIZE as usize];
    write_u32_le(&mut buf, 0, MH_MAGIC_64 as u32);
    let cmd_off = buf.len() as u64;
    buf.extend(vec![0u8; 32]);
    write_u32_le(&mut buf, cmd_off, 0x1b);
    write_u32_le(&mut buf, cmd_off + 4, 32);
    write_u32_le(&mut buf, 16, 1);
    write_u32_le(&mut buf, 20, 32);

    let input = MachORewriteInput { original: &buf, dylib_load_path: "@executable_path/x".into() };
    assert_eq!(rewrite_macho(&input), Err(RewriteError::NoReplaceableSlot));
}

#[test]
fn new_command_fields_and_table_size() {
    // 24-byte header + 19-byte path + NUL = 43, rounded to 48; the 16-byte
    // slot grows by 32 into the padding.
    let original = build_test_macho(64);
    let input = MachORewriteInput { original: &original, dylib_load_path: "@executable_path/x".into() };
    let out = rewrite_macho(&input).unwrap();
    assert_eq!(out.len(), original.len());
    assert_eq!(read_u32_le(&out, 20).unwrap(), 32 + 48);
    let cmd_off = HEADER_SIZE + 32;
    assert_eq!(read_u32_le(&out, cmd_off + 4).unwrap(), 48);
    assert_eq!(read_u32_le(&out, cmd_off + 8).unwrap(), 24);
    assert_eq!(read_u32_le(&out, cmd_off + 12).unwrap(), 2);
    assert_eq!(read_u32_le(&out, cmd_off + 16).unwrap(), 0x10000);
    assert_eq!(read_u32_le(&out, cmd_off + 20).unwrap(), 0x10000);
    // the name is NUL-terminated and the rest of the command is zero
    assert_eq!(out[(cmd_off + 24 + 18) as usize], 0);
}

#[test]
fn growth_keeps_length_and_bytes_past_the_grown_table() {
    let mut original = build_test_macho(64);
    let n = original.len();
    original[n - 1] = 0xAB;
    let input = MachORewriteInput { original: &original, dylib_load_path: "@executable_path/libinterpose.dylib".into() };
    let out = rewrite_macho(&input).expect("rewrite should succeed");
    assert_eq!(out.len(), original.len());
    assert_eq!(out[n - 1], 0xAB);
    let sizeofcmds = read_u32_le(&out, 20).unwrap() as usize;
    let table_end = HEADER_SIZE as usize + sizeofcmds;
    assert_eq!(&out[table_end..], &original[table_end..]);
}
