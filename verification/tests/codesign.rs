use lib::codesign::{
    base64_encode, bool_tag, entitlements_from_plist, executable_sign_args, hex_decode, parse_signing_report,
    plist_bool, shim_sign_args, signature_plists, xml_escape, EntitlementPolicy, ShimSigningInfo, SignError,
    SigningIdentity,
};

#[test]
fn plist_bool_finds_true_and_false() {
    let xml = "<dict><key>com.apple.security.cs.allow-jit</key><true/><key>com.apple.security.get-task-allow</key><false/></dict>";
    assert!(plist_bool(xml, "com.apple.security.cs.allow-jit"));
    assert!(!plist_bool(xml, "com.apple.security.get-task-allow"));
    assert!(!plist_bool(xml, "com.apple.security.cs.missing"));
}

#[test]
fn base64_roundtrip_matches_known_vectors() {
    assert_eq!(base64_encode(b""), "");
    assert_eq!(base64_encode(b"f"), "Zg==");
    assert_eq!(base64_encode(b"fo"), "Zm8=");
    assert_eq!(base64_encode(b"foo"), "Zm9v");
    assert_eq!(base64_encode(b"foobar"), "Zm9vYmFy");
}

#[test]
fn hex_decode_round_trips() {
    let bytes = hex_decode("deadbeef").unwrap();
    assert_eq!(bytes, vec![0xde, 0xad, 0xbe, 0xef]);
    assert!(hex_decode("xyz").is_none());
    assert!(hex_decode("abc").is_none()); // odd length
}

#[test]
fn xml_escape_handles_reserved_chars() {
    assert_eq!(xml_escape("A&B<C>\"D'"), "A&amp;B&lt;C&gt;&quot;D&apos;");
}

#[test]
fn sign_rewritten_executable_rejects_adhoc_without_cdhash() {
    let shim_info = ShimSigningInfo {
        team_identifier: None,
        identifier: "com.example.shim".to_string(),
        cdhash_sha256: String::new(),
    };
    let result = signature_plists(&shim_info, &SigningIdentity::AdHoc, &EntitlementPolicy::default(), false);
    assert!(matches!(result, Err(SignError::ParseFailed(_))));
}

#[test]
fn sign_rewritten_executable_rejects_real_identity_without_team() {
    let shim_info = ShimSigningInfo {
        team_identifier: None,
        identifier: "com.example.shim".to_string(),
        cdhash_sha256: "0".repeat(40),
    };
    let result = signature_plists(
        &shim_info,
        &SigningIdentity::Real("Developer ID Application: Example".to_string()),
        &EntitlementPolicy::default(),
        false,
    );
    assert!(matches!(result, Err(SignError::ParseFailed(_))));
}

#[test]
fn plist_bool_tolerates_whitespace_and_first_key_wins() {
    let xml = "<key>k</key>\n\t <true/><key>k</key><false/>";
    assert!(plist_bool(xml, "k"));
    assert!(!plist_bool("<key>k</key> x<true/>", "k"));
    let p = entitlements_from_plist(
        "<key>com.apple.security.get-task-allow</key> <true/><key>com.apple.security.cs.allow-jit</key><false/>",
    );
    assert_eq!(p, EntitlementPolicy { allow_jit: false, allow_unsigned_executable_memory: false, get_task_allow: true });
}

#[test]
fn hex_decode_plus_sign_and_case() {
    assert_eq!(hex_decode("+fAB"), Some(vec![0x0f, 0xab]));
    assert_eq!(hex_decode(""), Some(vec![]));
    assert!(hex_decode("0g").is_none());
}

#[test]
fn base64_of_twenty_bytes() {
    let data: Vec<u8> = (0u8..20).collect();
    assert_eq!(base64_encode(&data), "AAECAwQFBgcICQoLDA0ODxAREhM=");
    assert_eq!(bool_tag(true), "true");
    assert_eq!(bool_tag(false), "false");
}

const REPORT: &str = "Executable=/tmp/libshim.dylib\nIdentifier=com.example.shim\nFormat=Mach-O\nCodeDirectory v=20500 size=1\nCandidateCDHash sha256=00112233445566778899aabbccddeeff00112233\r\nTeamIdentifier=ABCDE12345\n";

#[test]
fn parses_a_signing_report() {
    let info = parse_signing_report(REPORT).ok().unwrap();
    assert_eq!(info.team_identifier.as_deref(), Some("ABCDE12345"));
    assert_eq!(info.identifier, "com.example.shim");
    assert_eq!(info.cdhash_sha256, "00112233445566778899aabbccddeeff00112233");
}

#[test]
fn signing_report_errors_and_not_set_team() {
    let adhoc = "Identifier=x\nCandidateCDHash sha256=00112233445566778899aabbccddeeff00112233\nTeamIdentifier=not set";
    assert_eq!(parse_signing_report(adhoc).ok().unwrap().team_identifier, None);
    assert!(matches!(parse_signing_report("Identifier= \n"), Err(SignError::ParseFailed(m)) if m == "no signing identifier"));
    assert!(matches!(parse_signing_report("Identifier=x"), Err(SignError::ParseFailed(m)) if m == "no usable SHA-256 code-directory hash"));
    assert!(matches!(parse_signing_report("Identifier=x\nCandidateCDHash sha256=abc"), Err(SignError::ParseFailed(m)) if m == "no usable SHA-256 code-directory hash"));
}

#[test]
fn real_identity_plists() {
    let info = ShimSigningInfo {
        team_identifier: Some("T<1>".into()),
        identifier: "com.ex&ample".into(),
        cdhash_sha256: String::new(),
    };
    let carried = EntitlementPolicy { allow_jit: true, allow_unsigned_executable_memory: false, get_task_allow: true };
    let p = signature_plists(&info, &SigningIdentity::Real("Dev".into()), &carried, false).ok().unwrap();
    assert_eq!(
        p.entitlements,
        "<?xml version=\"1.0\" encoding=\"UTF-8\"?><plist version=\"1.0\"><dict><key>com.apple.security.cs.allow-jit</key><true/><key>com.apple.security.cs.allow-unsigned-executable-memory</key><false/><key>com.apple.security.get-task-allow</key><false/></dict></plist>"
    );
    assert_eq!(
        p.library_constraint,
        "<?xml version=\"1.0\" encoding=\"UTF-8\"?><plist version=\"1.0\"><dict><key>team-identifier</key><string>T&lt;1&gt;</string><key>signing-identifier</key><string>com.ex&amp;ample</string></dict></plist>"
    );
}

#[test]
fn adhoc_plists_use_cdhash() {
    let info = ShimSigningInfo {
        team_identifier: None,
        identifier: "x".into(),
        cdhash_sha256: "000102030405060708090a0b0c0d0e0f10111213".into(),
    };
    let p = signature_plists(&info, &SigningIdentity::AdHoc, &EntitlementPolicy::default(), true).ok().unwrap();
    assert!(p.entitlements.ends_with("<key>com.apple.security.cs.disable-library-validation</key><true/></dict></plist>"));
    assert!(p.library_constraint.contains("<key>cdhash</key><data>AAECAwQFBgcICQoLDA0ODxAREhM=</data>"));
    let short = ShimSigningInfo { cdhash_sha256: "0011".into(), ..info.clone() };
    assert!(matches!(signature_plists(&short, &SigningIdentity::AdHoc, &EntitlementPolicy::default(), true), Err(SignError::ParseFailed(m)) if m == "invalid shim cdhash length"));
    let bad = ShimSigningInfo { cdhash_sha256: "zz".into(), ..info };
    assert!(matches!(signature_plists(&bad, &SigningIdentity::AdHoc, &EntitlementPolicy::default(), true), Err(SignError::ParseFailed(m)) if m == "invalid shim cdhash"));
}

#[test]
fn codesign_argument_lists() {
    let args = shim_sign_args(&SigningIdentity::AdHoc, Some("kc"), "/tmp/s.dylib");
    assert_eq!(args, vec!["--force", "--sign", "-", "--timestamp=none", "--options", "runtime", "--keychain", "kc", "/tmp/s.dylib"]);
    let args = executable_sign_args(&SigningIdentity::Real("Dev".into()), "/w/e.plist", "/w/c.plist", None, "/x");
    assert_eq!(
        args,
        vec!["--force", "--sign", "Dev", "--timestamp=none", "--options", "runtime", "--entitlements", "/w/e.plist", "--library-constraint", "/w/c.plist", "/x"]
    );
    assert!(SigningIdentity::AdHoc.is_adhoc());
    assert_eq!(SignError::CodesignNotFound.message(), "codesign not found");
    assert_eq!(SignError::ParseFailed("x".into()).message(), "failed to parse codesign output: x");
}
