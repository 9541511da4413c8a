use lib::interposer::{lib_file_name, LIB_BASENAME};

#[test]
fn lib_basename_is_stable() {
    assert_eq!(LIB_BASENAME, "libos_interposer");
}

#[test]
fn lib_file_names_per_platform() {
    assert_eq!(lib_file_name(true), "libos_interposer.dylib");
    assert_eq!(lib_file_name(false), "libos_interposer.so");
}
